use vstd::prelude::*;

verus! {

/// Annotation subcommands.
#[derive(Debug)]
pub enum AnnotateCmd {
    Add(ArgsAdd),
    List(ArgsList),
}

/// A note to attach to a file.
#[derive(Debug)]
pub struct ArgsAdd {
    pub file: String,
    pub note: String,
    pub range: Option<String>,
    pub highlight: bool,
}

/// The files whose notes are listed.
#[derive(Debug)]
pub struct ArgsList {
    pub file_pattern: String,
}

} // verus!
