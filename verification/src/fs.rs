//! What the library asks of a file system, and what it is told.
//!
//! The library does not touch files itself. A run asks for one thing at a time
//! and is resumed with the reply.

use vstd::prelude::*;

use crate::paths::{parts, Part, PathPart};

verus! {

/// A request to the file system. `P` is the type of the paths in it.
#[derive(Debug, PartialEq, Eq)]
pub enum FsRequest<P> {
    /// The path with every link in it resolved.
    Canonicalize(P),
    /// What is at the path; links are followed.
    Stat(P),
    /// What is at the path; a link at its end is not followed.
    StatEntry(P),
    /// What the link at the path says, as it is written.
    ReadLink(P),
    /// The whole of a file, as text.
    ReadText(P),
    /// The first bytes of a file: what one read into a buffer of this length gives.
    ReadStart(P, usize),
    /// The entries of a directory. The reply is the first of them.
    ReadDir(P),
    /// Everything from this depth on below the path, which itself has depth 0,
    /// directories before what is in them. Links are not followed. The reply is
    /// the first entry.
    Walk(P, usize),
    /// The next entry.
    NextEntry,
    /// The next entry that is not below the last one.
    SkipEntry,
    /// Makes a directory.
    CreateDir(P),
    /// Makes a directory, and those above it that are missing.
    CreateDirAll(P),
    /// Copies the file at the first path to the second.
    CopyFile(P, P),
    /// Moves what is at the first path to the second.
    Rename(P, P),
    /// Removes a file.
    RemoveFile(P),
    /// Removes an empty directory.
    RemoveDir(P),
    /// Removes a directory with everything in it.
    RemoveDirAll(P),
}

/// What is at a path.
#[derive(Debug, Clone, Copy, PartialEq, Eq, Structural)]
pub enum FileKind {
    File,
    Directory,
    Other,
}

/// What is at a path, and the length of a file in bytes.
#[derive(Debug, Clone, Copy, PartialEq, Eq, Structural)]
pub struct FileStat {
    pub kind: FileKind,
    pub len: u64,
}

/// Why the file system refused a request.
#[derive(Debug, PartialEq, Eq)]
pub struct FsError {
    pub not_found: bool,
    pub message: String,
}

/// An entry of a directory that is listed or walked.
#[derive(Debug, PartialEq, Eq)]
pub struct Entry {
    pub path: Vec<PathPart>,
    pub kind: FileKind,
    pub depth: usize,
}

/// What comes next when entries are listed or walked.
#[derive(Debug, PartialEq, Eq)]
pub enum NextEntry {
    Found(Entry),
    Failed(FsError),
    End,
}

/// The reply to a request.
#[derive(Debug, PartialEq, Eq)]
pub enum FsReply {
    Path(Result<Vec<PathPart>, FsError>),
    Link(Result<Vec<PathPart>, FsError>),
    Status(Result<FileStat, FsError>),
    Text(Result<String, FsError>),
    Bytes(Result<Vec<u8>, FsError>),
    Entry(NextEntry),
    Done(Result<(), FsError>),
}

/// The kinds of replies.
#[derive(Debug, Clone, Copy, PartialEq, Eq, Structural)]
pub enum ReplyKind {
    Path,
    Link,
    Status,
    Text,
    Bytes,
    Entry,
    Done,
}

impl<P> FsRequest<P> {
    /// The kind of reply that answers the request.
    pub open spec fn answered_by(self) -> ReplyKind {
        match self {
            FsRequest::Canonicalize(_) => ReplyKind::Path,
            FsRequest::Stat(_) => ReplyKind::Status,
            FsRequest::StatEntry(_) => ReplyKind::Status,
            FsRequest::ReadLink(_) => ReplyKind::Link,
            FsRequest::ReadText(_) => ReplyKind::Text,
            FsRequest::ReadStart(_, _) => ReplyKind::Bytes,
            FsRequest::ReadDir(_) => ReplyKind::Entry,
            FsRequest::Walk(_, _) => ReplyKind::Entry,
            FsRequest::NextEntry => ReplyKind::Entry,
            FsRequest::SkipEntry => ReplyKind::Entry,
            _ => ReplyKind::Done,
        }
    }

    /// Whether the request changes what is on disk.
    pub open spec fn mutates(self) -> bool {
        match self {
            FsRequest::CreateDir(_) => true,
            FsRequest::CreateDirAll(_) => true,
            FsRequest::CopyFile(_, _) => true,
            FsRequest::Rename(_, _) => true,
            FsRequest::RemoveFile(_) => true,
            FsRequest::RemoveDir(_) => true,
            FsRequest::RemoveDirAll(_) => true,
            _ => false,
        }
    }
}

impl FsReply {
    /// The kind of the reply.
    pub open spec fn kind_of(self) -> ReplyKind {
        match self {
            FsReply::Path(_) => ReplyKind::Path,
            FsReply::Link(_) => ReplyKind::Link,
            FsReply::Status(_) => ReplyKind::Status,
            FsReply::Text(_) => ReplyKind::Text,
            FsReply::Bytes(_) => ReplyKind::Bytes,
            FsReply::Entry(_) => ReplyKind::Entry,
            FsReply::Done(_) => ReplyKind::Done,
        }
    }

    /// The kind of the reply.
    pub fn kind(&self) -> (r: ReplyKind)
        ensures
            r == self.kind_of(),
    {
        match self {
            FsReply::Path(_) => ReplyKind::Path,
            FsReply::Link(_) => ReplyKind::Link,
            FsReply::Status(_) => ReplyKind::Status,
            FsReply::Text(_) => ReplyKind::Text,
            FsReply::Bytes(_) => ReplyKind::Bytes,
            FsReply::Entry(_) => ReplyKind::Entry,
            FsReply::Done(_) => ReplyKind::Done,
        }
    }
}

impl View for FsRequest<Vec<PathPart>> {
    type V = FsRequest<Seq<Part>>;

    open spec fn view(&self) -> FsRequest<Seq<Part>> {
        match *self {
            FsRequest::Canonicalize(p) => FsRequest::Canonicalize(parts(p@)),
            FsRequest::Stat(p) => FsRequest::Stat(parts(p@)),
            FsRequest::StatEntry(p) => FsRequest::StatEntry(parts(p@)),
            FsRequest::ReadLink(p) => FsRequest::ReadLink(parts(p@)),
            FsRequest::ReadText(p) => FsRequest::ReadText(parts(p@)),
            FsRequest::ReadStart(p, n) => FsRequest::ReadStart(parts(p@), n),
            FsRequest::ReadDir(p) => FsRequest::ReadDir(parts(p@)),
            FsRequest::Walk(p, n) => FsRequest::Walk(parts(p@), n),
            FsRequest::NextEntry => FsRequest::NextEntry,
            FsRequest::SkipEntry => FsRequest::SkipEntry,
            FsRequest::CreateDir(p) => FsRequest::CreateDir(parts(p@)),
            FsRequest::CreateDirAll(p) => FsRequest::CreateDirAll(parts(p@)),
            FsRequest::CopyFile(p, q) => FsRequest::CopyFile(parts(p@), parts(q@)),
            FsRequest::Rename(p, q) => FsRequest::Rename(parts(p@), parts(q@)),
            FsRequest::RemoveFile(p) => FsRequest::RemoveFile(parts(p@)),
            FsRequest::RemoveDir(p) => FsRequest::RemoveDir(parts(p@)),
            FsRequest::RemoveDirAll(p) => FsRequest::RemoveDirAll(parts(p@)),
        }
    }
}

/// What a run does next: ask for something and go on in the state `S` with the
/// reply, or end with a result or an error.
#[derive(Debug)]
pub enum Step<P, S, T, E> {
    Ask(FsRequest<P>, S),
    Done(T),
    Failed(E),
}

impl<S: View, T: View, E: View> View for Step<Vec<PathPart>, S, T, E> {
    type V = Step<Seq<Part>, S::V, T::V, E::V>;

    open spec fn view(&self) -> Step<Seq<Part>, S::V, T::V, E::V> {
        match *self {
            Step::Ask(request, state) => Step::Ask(request@, state@),
            Step::Done(result) => Step::Done(result@),
            Step::Failed(error) => Step::Failed(error@),
        }
    }
}

} // verus!
