use vstd::prelude::*;
use vstd::string::StringExecFns;
use crate::text::opt_str;

verus! {

/// Link subcommands.
#[derive(Debug)]
pub enum LinkCmd {
    Add(LinkArgs),
    Rm(LinkArgs),
    List(ListArgs),
    Backlinks(BacklinksArgs),
}

/// The two ends of a link and its type.
#[derive(Debug)]
pub struct LinkArgs {
    pub from: String,
    pub to: String,
    pub link_type: Option<String>,
}

/// Which links to list.
#[derive(Debug)]
pub struct ListArgs {
    pub pattern: String,
    pub direction: Option<String>,
    pub link_type: Option<String>,
}

/// The files whose incoming links are listed.
#[derive(Debug)]
pub struct BacklinksArgs {
    pub pattern: String,
}

/// A link type as a JSON value: the text in double quotes, or `null`.
pub open spec fn json_type(t: Option<Seq<char>>) -> Seq<char> {
    match t {
        Some(s) => "\""@ + s + "\""@,
        None => "null"@,
    }
}

/// A link as a JSON object with the members `from`, `to` and `type`.
pub open spec fn link_json_spec(from: Seq<char>, to: Seq<char>, t: Option<Seq<char>>) -> Seq<
    char,
> {
    "{\"from\":\""@ + from + "\",\"to\":\""@ + to + "\",\"type\":"@ + json_type(t) + "}"@
}

/// A backlink as a JSON object with the members `from` and `type`.
pub open spec fn backlink_json_spec(from: Seq<char>, t: Option<Seq<char>>) -> Seq<char> {
    "{\"from\":\""@ + from + "\",\"type\":"@ + json_type(t) + "}"@
}

/// A link as a line of text: source, arrow, target, and the type in brackets where
/// the link has one.
pub open spec fn link_text_spec(from: Seq<char>, to: Seq<char>, t: Option<Seq<char>>) -> Seq<
    char,
> {
    match t {
        Some(s) => from + " \u{2192} "@ + to + " [type='"@ + s + "']"@,
        None => from + " \u{2192} "@ + to,
    }
}

fn type_json(t: Option<&str>) -> (out: String)
    ensures
        out@ == json_type(opt_str(t)),
{
    match t {
        Some(s) => {
            let mut out = "\"".to_owned();
            out.append(s);
            out.append("\"");
            out
        },
        None => "null".to_owned(),
    }
}

/// A link as a JSON object.
pub fn link_json(from: &str, to: &str, t: Option<&str>) -> (out: String)
    ensures
        out@ == link_json_spec(from@, to@, opt_str(t)),
{
    let mut out = "{\"from\":\"".to_owned();
    out.append(from);
    out.append("\",\"to\":\"");
    out.append(to);
    out.append("\",\"type\":");
    let ty = type_json(t);
    out.append(ty.as_str());
    out.append("}");
    out
}

/// A backlink as a JSON object.
pub fn backlink_json(from: &str, t: Option<&str>) -> (out: String)
    ensures
        out@ == backlink_json_spec(from@, opt_str(t)),
{
    let mut out = "{\"from\":\"".to_owned();
    out.append(from);
    out.append("\",\"type\":");
    let ty = type_json(t);
    out.append(ty.as_str());
    out.append("}");
    out
}

/// A link as a line of text.
pub fn link_text(from: &str, to: &str, t: Option<&str>) -> (out: String)
    ensures
        out@ == link_text_spec(from@, to@, opt_str(t)),
{
    let mut out = from.to_owned();
    out.append(" \u{2192} ");
    out.append(to);
    match t {
        Some(s) => {
            out.append(" [type='");
            out.append(s);
            out.append("']");
        },
        None => {},
    }
    out
}

} // verus!
