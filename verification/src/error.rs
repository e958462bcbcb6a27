use vstd::prelude::*;
use vstd::string::StringExecFns;

verus! {

/// Everything that can go wrong in the library, by kind. Failures of the operating
/// system, the store and the notification layer are carried as their message.
#[derive(Debug)]
pub enum Error {
    Io(String),
    Database(String),
    Watch(String),
    InvalidState(String),
    NotFound(String),
    Config(String),
    Other(String),
}

/// Mathematical value of an [`Error`]: its kind with the text it carries.
pub ghost enum ErrorView {
    Io(Seq<char>),
    Database(Seq<char>),
    Watch(Seq<char>),
    InvalidState(Seq<char>),
    NotFound(Seq<char>),
    Config(Seq<char>),
    Other(Seq<char>),
}

impl View for Error {
    type V = ErrorView;

    open spec fn view(&self) -> ErrorView {
        match self {
            Error::Io(m) => ErrorView::Io(m@),
            Error::Database(m) => ErrorView::Database(m@),
            Error::Watch(m) => ErrorView::Watch(m@),
            Error::InvalidState(m) => ErrorView::InvalidState(m@),
            Error::NotFound(m) => ErrorView::NotFound(m@),
            Error::Config(m) => ErrorView::Config(m@),
            Error::Other(m) => ErrorView::Other(m@),
        }
    }
}

impl ErrorView {
    /// The text shown to the user: a prefix that names the kind, then the message.
    pub open spec fn text(self) -> Seq<char> {
        match self {
            ErrorView::Io(m) => "IO error: "@ + m,
            ErrorView::Database(m) => "Database error: "@ + m,
            ErrorView::Watch(m) => "Watch error: "@ + m,
            ErrorView::InvalidState(m) => "Invalid state: "@ + m,
            ErrorView::NotFound(m) => "Not found: "@ + m,
            ErrorView::Config(m) => "Configuration error: "@ + m,
            ErrorView::Other(m) => "Error: "@ + m,
        }
    }

    /// Whether the error wraps a failure of an underlying layer.
    pub open spec fn has_source(self) -> bool {
        self is Io || self is Database || self is Watch
    }
}

/// `prefix` followed by `rest`.
pub fn join2(prefix: &str, rest: &str) -> (out: String)
    ensures
        out@ == prefix@ + rest@,
{
    let mut out = prefix.to_owned();
    out.append(rest);
    out
}

impl Error {
    /// The text shown to the user.
    pub fn to_string(&self) -> (out: String)
        ensures
            out@ == self@.text(),
    {
        match self {
            Error::Io(m) => join2("IO error: ", m.as_str()),
            Error::Database(m) => join2("Database error: ", m.as_str()),
            Error::Watch(m) => join2("Watch error: ", m.as_str()),
            Error::InvalidState(m) => join2("Invalid state: ", m.as_str()),
            Error::NotFound(m) => join2("Not found: ", m.as_str()),
            Error::Config(m) => join2("Configuration error: ", m.as_str()),
            Error::Other(m) => join2("Error: ", m.as_str()),
        }
    }

    /// Whether the error wraps a failure of an underlying layer.
    pub fn has_source(&self) -> (b: bool)
        ensures
            b == self@.has_source(),
    {
        match self {
            Error::Io(_) | Error::Database(_) | Error::Watch(_) => true,
            _ => false,
        }
    }
}

} // verus!
