use vstd::prelude::*;

verus! {

/// Calendar subcommands.
#[derive(Debug)]
pub enum EventCmd {
    Add(ArgsAdd),
    Timeline,
}

/// An event to attach to a file.
#[derive(Debug)]
pub struct ArgsAdd {
    pub file: String,
    pub date: String,
    pub description: String,
}

} // verus!
