use vstd::prelude::*;

verus! {

/// Reminder subcommands.
#[derive(Debug)]
pub enum RemindCmd {
    SetReminder(ArgsSet),
}

/// A reminder for the files that match a pattern.
#[derive(Debug)]
pub struct ArgsSet {
    pub file_pattern: String,
    pub timestamp: String,
    pub message: String,
}

} // verus!
