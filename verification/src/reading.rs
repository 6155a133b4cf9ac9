//! Reading a file of the workspace as text.

use vstd::pervasive::unreached;
use vstd::prelude::*;
use vstd::string::*;

use crate::errors::{ToolFailure, ToolboxError};
use crate::fs::{FileKind, FsReply, FsRequest, ReplyKind, Step};
use crate::paths::{copy_path_parts, parts, reads_plainly, Part, PathPart};
use crate::resolve::{
    candidate_path, existing_path, io_error, named_path, path_or_failure, resolve_existing_path,
    Site, Workspace,
};
use crate::text::{decimal, decimal_text};

verus! {

/// Where the reading of a file that was named as `input` stands.
#[derive(Debug)]
#[allow(inconsistent_fields)]
pub enum ReadPhase {
    /// Asked where the file is.
    Target { input: String },
    /// Asked what is there.
    Kind { input: String, target: Vec<PathPart> },
    /// Asked for its text.
    Content,
}

/// A [`ReadPhase`] over sequences.
#[allow(inconsistent_fields)]
pub enum ReadStage {
    Target { input: Seq<char> },
    Kind { input: Seq<char>, target: Seq<Part> },
    Content,
}

impl View for ReadPhase {
    type V = ReadStage;

    open spec fn view(&self) -> ReadStage {
        match *self {
            ReadPhase::Target { input } => ReadStage::Target { input: input@ },
            ReadPhase::Kind { input, target } => ReadStage::Kind {
                input: input@,
                target: parts(target@),
            },
            ReadPhase::Content => ReadStage::Content,
        }
    }
}

impl ReadStage {
    /// The kind of reply that the reading waits for.
    pub open spec fn awaits(self) -> ReplyKind {
        match self {
            ReadStage::Target { .. } => ReplyKind::Path,
            ReadStage::Kind { .. } => ReplyKind::Status,
            ReadStage::Content => ReplyKind::Text,
        }
    }
}

impl ReadPhase {
    /// The kind of reply that is waited for.
    pub fn awaits(&self) -> (r: ReplyKind)
        ensures
            r == self@.awaits(),
    {
        match self {
            ReadPhase::Target { .. } => ReplyKind::Path,
            ReadPhase::Kind { .. } => ReplyKind::Status,
            ReadPhase::Content => ReplyKind::Text,
        }
    }
}

/// How a file that is larger than the limit is reported.
pub open spec fn too_large(input: Seq<char>, len: u64, max_bytes: u64) -> ToolFailure {
    ToolFailure::TooLarge(
        input + " is "@ + decimal(len as nat) + " bytes and exceeds the "@ + decimal(
            max_bytes as nat,
        ) + "-byte limit"@,
    )
}

fn too_large_error(input: &str, len: u64, max_bytes: u64) -> (r: ToolboxError)
    ensures
        r@ == too_large(input@, len, max_bytes),
{
    let mut message = input.to_owned();
    message.append(" is ");
    message.append(decimal_text(len).as_str());
    message.append(" bytes and exceeds the ");
    message.append(decimal_text(max_bytes).as_str());
    message.append("-byte limit");
    ToolboxError::TooLarge(message)
}

/// Starts to read the file that `input` names.
pub open spec fn read_start(
    site: Site,
    reader: spec_fn(Seq<char>) -> Seq<Part>,
    input: Seq<char>,
) -> Step<Seq<Part>, ReadStage, Seq<char>, ToolFailure> {
    match named_path(site, reader, input, true) {
        Ok(path) => Step::Ask(FsRequest::Canonicalize(path), ReadStage::Target { input }),
        Err(e) => Step::Failed(e),
    }
}

/// Goes on with the reading of a file of at most `max_bytes` bytes.
pub open spec fn read_next(site: Site, max_bytes: u64, stage: ReadStage, reply: FsReply) -> Step<
    Seq<Part>,
    ReadStage,
    Seq<char>,
    ToolFailure,
> {
    match stage {
        ReadStage::Target { input } => match existing_path(site, input, reply->Path_0) {
            Ok(target) => Step::Ask(FsRequest::Stat(target), ReadStage::Kind { input, target }),
            Err(e) => Step::Failed(e),
        },
        ReadStage::Kind { input, target } => match reply->Status_0 {
            Ok(stat) => if stat.kind != FileKind::File {
                Step::Failed(ToolFailure::NotAFile(input))
            } else if stat.len > max_bytes {
                Step::Failed(too_large(input, stat.len, max_bytes))
            } else {
                Step::Ask(FsRequest::ReadText(target), ReadStage::Content)
            },
            Err(_) => Step::Failed(ToolFailure::NotAFile(input)),
        },
        ReadStage::Content => match reply->Text_0 {
            Ok(content) => Step::Done(content@),
            Err(error) => Step::Failed(ToolFailure::Io(error.message@)),
        },
    }
}

/// Starts to read the file that `input` names.
pub fn read_text_file(ws: &Workspace, input: &str) -> (r: Step<
    Vec<PathPart>,
    ReadPhase,
    String,
    ToolboxError,
>)
    ensures
        exists|reader: spec_fn(Seq<char>) -> Seq<Part>|
            reads_plainly(reader) && r@ == #[trigger] read_start(ws@, reader, input@),
{
    let candidate = candidate_path(ws, input, true);
    let ghost reader = choose|reader: spec_fn(Seq<char>) -> Seq<Part>|
        reads_plainly(reader) && path_or_failure(candidate) == #[trigger] named_path(
            ws@,
            reader,
            input@,
            true,
        );
    let r = match candidate {
        Ok(path) => Step::Ask(
            FsRequest::Canonicalize(path),
            ReadPhase::Target { input: input.to_owned() },
        ),
        Err(e) => Step::Failed(e),
    };
    assert(r@ == read_start(ws@, reader, input@));
    r
}

/// Goes on with the reading of a file of at most `max_bytes` bytes.
pub fn resume_read(ws: &Workspace, max_bytes: u64, phase: ReadPhase, reply: FsReply) -> (r: Step<
    Vec<PathPart>,
    ReadPhase,
    String,
    ToolboxError,
>)
    requires
        reply.kind_of() == phase@.awaits(),
    ensures
        r@ == read_next(ws@, max_bytes, phase@, reply),
{
    match phase {
        ReadPhase::Target { input } => match reply {
            FsReply::Path(told) => match resolve_existing_path(ws, input.as_str(), told) {
                Ok(target) => {
                    let asked = copy_path_parts(&target);
                    Step::Ask(FsRequest::Stat(asked), ReadPhase::Kind { input, target })
                },
                Err(e) => Step::Failed(e),
            },
            _ => unreached(),
        },
        ReadPhase::Kind { input, target } => match reply {
            FsReply::Status(Ok(stat)) => if stat.kind != FileKind::File {
                Step::Failed(ToolboxError::NotAFile(input))
            } else if stat.len > max_bytes {
                Step::Failed(too_large_error(input.as_str(), stat.len, max_bytes))
            } else {
                Step::Ask(FsRequest::ReadText(target), ReadPhase::Content)
            },
            FsReply::Status(Err(_)) => Step::Failed(ToolboxError::NotAFile(input)),
            _ => unreached(),
        },
        ReadPhase::Content => match reply {
            FsReply::Text(Ok(content)) => Step::Done(content),
            FsReply::Text(Err(error)) => Step::Failed(io_error(error)),
            _ => unreached(),
        },
    }
}

} // verus!
