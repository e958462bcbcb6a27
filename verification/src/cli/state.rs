use vstd::prelude::*;

verus! {

/// Workflow-state subcommands.
#[derive(Debug)]
pub enum StateCmd {
    SetState(ArgsSet),
    TransitionsAdd(ArgsTrans),
    Log(ArgsLog),
}

/// The state to give to the files that match a pattern.
#[derive(Debug)]
pub struct ArgsSet {
    pub file_pattern: String,
    pub new_state: String,
}

/// A transition between two states.
#[derive(Debug)]
pub struct ArgsTrans {
    pub from_state: String,
    pub to_state: String,
}

/// The files whose state history is shown.
#[derive(Debug)]
pub struct ArgsLog {
    pub file_pattern: String,
}

} // verus!
