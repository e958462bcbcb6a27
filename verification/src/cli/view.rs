use vstd::prelude::*;
use crate::query::{escape_fts, escaped};

verus! {

/// Saved-view subcommands.
#[derive(Debug)]
pub enum ViewCmd {
    /// Save or update a view.
    Save(ArgsSave),
    /// List all saved views.
    List,
    /// Run a view and print the matching paths.
    Exec(ArgsExec),
}

/// A view and the query it stands for.
#[derive(Debug)]
pub struct ArgsSave {
    pub view_name: String,
    pub query: String,
}

/// The view to run.
#[derive(Debug)]
pub struct ArgsExec {
    pub view_name: String,
}

/// Writes `term` as the full-text engine wants it.
pub fn escape(term: &str) -> (out: String)
    ensures
        out@ == escaped(term@),
{
    escape_fts(term)
}

/// The line that reports a saved view.
pub fn saved_line(name: &str, query: &str) -> (line: String)
    ensures
        line@ == "Saved view '"@ + name@ + "' = "@ + query@,
{
    let mut line = "Saved view '".to_owned();
    vstd::string::StringExecFns::append(&mut line, name);
    vstd::string::StringExecFns::append(&mut line, "' = ");
    vstd::string::StringExecFns::append(&mut line, query);
    line
}

/// The line that lists one saved view: its name, a colon and its query.
pub fn listed_line(name: &str, query: &str) -> (line: String)
    ensures
        line@ == name@ + ": "@ + query@,
{
    let mut line = name.to_owned();
    vstd::string::StringExecFns::append(&mut line, ": ");
    vstd::string::StringExecFns::append(&mut line, query);
    line
}

} // verus!
