//! What a search and a workspace command report when they fail.

use vstd::prelude::*;
use vstd::string::*;

verus! {

/// Why a search could not be run.
#[derive(Debug)]
pub enum SearchError {
    InvalidRegex(String),
    InvalidGlob(String),
    Walk(String),
}

/// A [`SearchError`] with its text as a character sequence.
pub enum SearchFailure {
    InvalidRegex(Seq<char>),
    InvalidGlob(Seq<char>),
    Walk(Seq<char>),
}

impl View for SearchError {
    type V = SearchFailure;

    open spec fn view(&self) -> SearchFailure {
        match *self {
            SearchError::InvalidRegex(s) => SearchFailure::InvalidRegex(s@),
            SearchError::InvalidGlob(s) => SearchFailure::InvalidGlob(s@),
            SearchError::Walk(s) => SearchFailure::Walk(s@),
        }
    }
}

impl SearchFailure {
    /// The message that tells of the failure.
    pub open spec fn message(self) -> Seq<char> {
        match self {
            SearchFailure::InvalidRegex(s) => "Invalid regex: "@ + s,
            SearchFailure::InvalidGlob(s) => "Invalid glob: "@ + s,
            SearchFailure::Walk(s) => "Cannot walk search root: "@ + s,
        }
    }
}

impl SearchError {
    /// The message that tells of the failure.
    pub fn to_string(&self) -> (r: String)
        ensures
            r@ == self@.message(),
    {
        match self {
            SearchError::InvalidRegex(s) => labelled("Invalid regex: ", s.as_str()),
            SearchError::InvalidGlob(s) => labelled("Invalid glob: ", s.as_str()),
            SearchError::Walk(s) => labelled("Cannot walk search root: ", s.as_str()),
        }
    }
}

/// `label` followed by `s`.
pub fn labelled(label: &str, s: &str) -> (r: String)
    ensures
        r@ == label@ + s@,
{
    let mut r = label.to_owned();
    r.append(s);
    r
}

/// Why a workspace command failed.
#[derive(Debug)]
pub enum ToolboxError {
    InvalidPath(String),
    PathEscapesWorkspace(String),
    NotFound(String),
    NotAFile(String),
    NotADirectory(String),
    TooLarge(String),
    AlreadyExists(String),
    RecursiveRequired(String),
    InvalidArgument(String),
    InvalidGlob(String),
    Io(String),
    Search(SearchError),
}

/// A [`ToolboxError`] with its text as a character sequence.
pub enum ToolFailure {
    InvalidPath(Seq<char>),
    PathEscapesWorkspace(Seq<char>),
    NotFound(Seq<char>),
    NotAFile(Seq<char>),
    NotADirectory(Seq<char>),
    TooLarge(Seq<char>),
    AlreadyExists(Seq<char>),
    RecursiveRequired(Seq<char>),
    InvalidArgument(Seq<char>),
    InvalidGlob(Seq<char>),
    Io(Seq<char>),
    Search(SearchFailure),
}

impl View for ToolboxError {
    type V = ToolFailure;

    open spec fn view(&self) -> ToolFailure {
        match *self {
            ToolboxError::InvalidPath(s) => ToolFailure::InvalidPath(s@),
            ToolboxError::PathEscapesWorkspace(s) => ToolFailure::PathEscapesWorkspace(s@),
            ToolboxError::NotFound(s) => ToolFailure::NotFound(s@),
            ToolboxError::NotAFile(s) => ToolFailure::NotAFile(s@),
            ToolboxError::NotADirectory(s) => ToolFailure::NotADirectory(s@),
            ToolboxError::TooLarge(s) => ToolFailure::TooLarge(s@),
            ToolboxError::AlreadyExists(s) => ToolFailure::AlreadyExists(s@),
            ToolboxError::RecursiveRequired(s) => ToolFailure::RecursiveRequired(s@),
            ToolboxError::InvalidArgument(s) => ToolFailure::InvalidArgument(s@),
            ToolboxError::InvalidGlob(s) => ToolFailure::InvalidGlob(s@),
            ToolboxError::Io(s) => ToolFailure::Io(s@),
            ToolboxError::Search(e) => ToolFailure::Search(e@),
        }
    }
}

impl ToolFailure {
    /// The message that tells of the failure.
    pub open spec fn message(self) -> Seq<char> {
        match self {
            ToolFailure::InvalidPath(s) => "Invalid path: "@ + s,
            ToolFailure::PathEscapesWorkspace(s) => "Path escapes workspace: "@ + s,
            ToolFailure::NotFound(s) => "Path not found: "@ + s,
            ToolFailure::NotAFile(s) => "Not a regular file: "@ + s,
            ToolFailure::NotADirectory(s) => "Not a directory: "@ + s,
            ToolFailure::TooLarge(s) => "Operation exceeds size budget: "@ + s,
            ToolFailure::AlreadyExists(s) => "Path already exists: "@ + s,
            ToolFailure::RecursiveRequired(s) => "Recursive flag required: "@ + s,
            ToolFailure::InvalidArgument(s) => "Invalid argument: "@ + s,
            ToolFailure::InvalidGlob(s) => "Invalid glob: "@ + s,
            ToolFailure::Io(s) => "I/O error: "@ + s,
            ToolFailure::Search(e) => e.message(),
        }
    }
}

impl ToolboxError {
    /// The message that tells of the failure.
    pub fn to_string(&self) -> (r: String)
        ensures
            r@ == self@.message(),
    {
        match self {
            ToolboxError::InvalidPath(s) => labelled("Invalid path: ", s.as_str()),
            ToolboxError::PathEscapesWorkspace(s) => labelled(
                "Path escapes workspace: ",
                s.as_str(),
            ),
            ToolboxError::NotFound(s) => labelled("Path not found: ", s.as_str()),
            ToolboxError::NotAFile(s) => labelled("Not a regular file: ", s.as_str()),
            ToolboxError::NotADirectory(s) => labelled("Not a directory: ", s.as_str()),
            ToolboxError::TooLarge(s) => labelled("Operation exceeds size budget: ", s.as_str()),
            ToolboxError::AlreadyExists(s) => labelled("Path already exists: ", s.as_str()),
            ToolboxError::RecursiveRequired(s) => labelled(
                "Recursive flag required: ",
                s.as_str(),
            ),
            ToolboxError::InvalidArgument(s) => labelled("Invalid argument: ", s.as_str()),
            ToolboxError::InvalidGlob(s) => labelled("Invalid glob: ", s.as_str()),
            ToolboxError::Io(s) => labelled("I/O error: ", s.as_str()),
            ToolboxError::Search(e) => e.to_string(),
        }
    }
}

impl vstd::std_specs::convert::FromSpecImpl<SearchError> for ToolboxError {
    open spec fn obeys_from_spec() -> bool {
        true
    }

    open spec fn from_spec(value: SearchError) -> ToolboxError {
        match value {
            SearchError::InvalidGlob(message) => ToolboxError::InvalidGlob(message),
            other => ToolboxError::Search(other),
        }
    }
}

impl From<SearchError> for ToolboxError {
    fn from(value: SearchError) -> (r: ToolboxError) {
        match value {
            SearchError::InvalidGlob(message) => ToolboxError::InvalidGlob(message),
            other => ToolboxError::Search(other),
        }
    }
}

} // verus!
