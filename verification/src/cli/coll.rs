use vstd::prelude::*;
use vstd::string::StringExecFns;

verus! {

/// Collection subcommands.
#[derive(Debug)]
pub enum CollCmd {
    /// Create an empty collection.
    Create(CreateArgs),
    /// Add the files that match a pattern to a collection.
    Add(AddArgs),
    /// List the files of a collection.
    List(ListArgs),
}

/// The collection to create.
#[derive(Debug)]
pub struct CreateArgs {
    pub name: String,
}

/// A collection and the pattern of the files to add to it.
#[derive(Debug)]
pub struct AddArgs {
    pub name: String,
    pub file_pattern: String,
}

/// The collection to list.
#[derive(Debug)]
pub struct ListArgs {
    pub name: String,
}

/// The line that reports a new collection.
pub fn created_line(name: &str) -> (line: String)
    ensures
        line@ == "Created collection '"@ + name@ + "'"@,
{
    let mut line = "Created collection '".to_owned();
    line.append(name);
    line.append("'");
    line
}

/// The message for a collection that does not exist.
pub fn missing_collection(name: &str) -> (msg: String)
    ensures
        msg@ == "collection not found: "@ + name@,
{
    let mut msg = "collection not found: ".to_owned();
    msg.append(name);
    msg
}

} // verus!
