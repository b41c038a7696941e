//! A small interactive shell, as a library: how a line of input becomes a
//! pipeline of stages, how variables are resolved, what the commands of the
//! shell do, and how background jobs are kept, listed and let go.
//!
//! The library decides and its host performs. Everything that touches the
//! operating system reaches the library as a plain value and leaves it as a
//! request; see `rsh::process_line`.

pub mod context;
pub mod decimal;
pub mod env;
pub mod jobs;
pub mod pipeline;
pub mod rsh;
pub mod text;
pub mod theorems;
