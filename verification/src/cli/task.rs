use vstd::prelude::*;

verus! {

/// Task subcommands.
#[derive(Debug)]
pub enum TaskCmd {
    Scan(ArgsScan),
    List(ArgsList),
}

/// The directory that is searched for tasks.
#[derive(Debug)]
pub struct ArgsScan {
    pub directory: String,
}

/// Which tasks to list.
#[derive(Debug)]
pub struct ArgsList {
    pub due_today: bool,
}

} // verus!
