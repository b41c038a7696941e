[package]
name = "rsh"
version = "0.1.0"
edition = "2021"

[dependencies]
rustyline = "6"
rustyline-derive = "0.3"
simple-signal = "1"
