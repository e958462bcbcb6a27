use vstd::prelude::*;

verus! {

/// Version subcommands.
#[derive(Debug)]
pub enum VersionCmd {
    Diff(ArgsDiff),
}

/// The file whose versions are compared.
#[derive(Debug)]
pub struct ArgsDiff {
    pub file: String,
}

} // verus!
