pub mod annotate;
pub mod backup;
pub mod coll;
pub mod event;
pub mod link;
pub mod remind;
pub mod state;
pub mod task;
pub mod version;
pub mod view;
pub mod watch;

use vstd::prelude::*;

verus! {

/// Output format of a command.
#[derive(Debug, Clone, Copy, PartialEq, Eq, Structural)]
pub enum Format {
    Text,
    Json,
}

/// Attribute subcommands.
#[derive(Debug)]
pub enum AttrCmd {
    SetAttr { pattern: String, key: String, value: String },
    Ls { path: String },
}

} // verus!
