//! The state that the shell keeps from one line to the next.

use crate::env::Environment;
use crate::jobs::{Job, JobTable};
use vstd::prelude::*;

verus! {

/// The state of one shell: its variables, its aliases and its background
/// jobs. `H` is the handle of a process.
pub struct Context<H> {
    pub env: Environment,
    pub alias: Environment,
    pub jobs: JobTable<H>,
}

/// What a line of input can read or change of a `Context`.
pub ghost struct ContextView<H> {
    /// The names of the variables, in the order in which they are shown.
    pub names: Seq<Seq<char>>,
    /// The value of each variable.
    pub env: Map<Seq<char>, Seq<char>>,
    /// The background jobs.
    pub jobs: Seq<Job<H>>,
}

impl<H> ContextView<H> {
    /// The names are the names of the variables, each once.
    pub open spec fn wf(self) -> bool {
        self.names.no_duplicates() && self.names.to_set() == self.env.dom()
    }
}

impl<H> View for Context<H> {
    type V = ContextView<H>;

    open spec fn view(&self) -> ContextView<H> {
        ContextView { names: self.env.names(), env: self.env@, jobs: self.jobs@ }
    }
}

impl<H> Context<H> {
    /// No variable and no alias is bound twice.
    pub open spec fn wf(&self) -> bool {
        self.env.wf() && self.alias.wf()
    }

    /// What a line reads of a well-formed context is well formed.
    pub proof fn lemma_view_wf(&self)
        requires
            self.wf(),
        ensures
            self@.wf(),
    {
        self.env.lemma_names();
    }

    /// A context without variables, aliases or jobs.
    pub fn new() -> (ctx: Context<H>)
        ensures
            ctx.wf(),
            ctx@.names == Seq::<Seq<char>>::empty(),
            ctx@.env == Map::<Seq<char>, Seq<char>>::empty(),
            ctx@.jobs == Seq::<Job<H>>::empty(),
            ctx.alias@ == Map::<Seq<char>, Seq<char>>::empty(),
    {
        Context { env: Environment::new(), alias: Environment::new(), jobs: JobTable::new() }
    }
}

} // verus!
