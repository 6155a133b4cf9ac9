//! Making and removing directories and files.

use vstd::pervasive::unreached;
use vstd::prelude::*;
use vstd::string::*;

use crate::errors::{ToolFailure, ToolboxError};
use crate::fs::{FileKind, FsReply, FsRequest, NextEntry, ReplyKind, Step};
use crate::paths::{
    copy_path_parts, full_path_text, full_text, is_under, lies_under, parent, parent_of, parts,
    path_to_display, reads_plainly, shown, Part, PathPart,
};
use crate::resolve::{
    ancestor_next, ancestor_start, candidate_path, ensure_existing_ancestor_within_root, io_error,
    named_path, path_or_failure, resume_ancestor, AncestorPhase, AncestorStage, Placed, PlacedPath,
    Site, Workspace,
};
use crate::text::{decimal, decimal_text};
use crate::toolbox::{Report, WorkspaceCommandOutput};

verus! {

/// How a change at `path` is reported.
pub open spec fn mutation(site: Site, action: Seq<char>, path: Seq<Part>) -> Report {
    Report::Mutation { action, path: shown(site.root, path) }
}

/// How a change at `path` is reported.
pub(crate) fn mutation_output(ws: &Workspace, action: &str, path: &Vec<PathPart>) -> (r:
    WorkspaceCommandOutput)
    ensures
        r@ == mutation(ws@, action@, parts(path@)),
{
    WorkspaceCommandOutput::Mutation {
        action: action.to_owned(),
        path: path_to_display(&ws.root, path),
    }
}

/// A limit in words: `before`, the limit, and `after`.
pub open spec fn limit_message(before: Seq<char>, limit: nat, after: Seq<char>) -> Seq<char> {
    before + decimal(limit) + after
}

/// A limit in words: `before`, the limit, and `after`.
pub(crate) fn limit_text(before: &str, limit: u64, after: &str) -> (r: String)
    ensures
        r@ == limit_message(before@, limit as nat, after@),
{
    let mut r = before.to_owned();
    r.append(decimal_text(limit).as_str());
    r.append(after);
    r
}

// ---------------------------------------------------------------------------
// Making a directory
// ---------------------------------------------------------------------------

/// Where the making of a directory stands.
#[derive(Debug)]
#[allow(inconsistent_fields)]
pub enum MkdirPhase {
    /// Looking for what exists of the path.
    Place { phase: AncestorPhase },
    /// Asked whether the directory above it exists.
    Parent { path: Vec<PathPart>, above: Vec<PathPart> },
    /// Asked whether the path exists.
    Exists { path: Vec<PathPart> },
    /// Asked to make it.
    Create { path: Vec<PathPart> },
}

/// A [`MkdirPhase`] over sequences.
#[allow(inconsistent_fields)]
pub enum MkdirStage {
    Place { stage: AncestorStage },
    Parent { path: Seq<Part>, above: Seq<Part> },
    Exists { path: Seq<Part> },
    Create { path: Seq<Part> },
}

impl View for MkdirPhase {
    type V = MkdirStage;

    open spec fn view(&self) -> MkdirStage {
        match *self {
            MkdirPhase::Place { phase } => MkdirStage::Place { stage: phase@ },
            MkdirPhase::Parent { path, above } => MkdirStage::Parent {
                path: parts(path@),
                above: parts(above@),
            },
            MkdirPhase::Exists { path } => MkdirStage::Exists { path: parts(path@) },
            MkdirPhase::Create { path } => MkdirStage::Create { path: parts(path@) },
        }
    }
}

impl MkdirStage {
    /// The kind of reply that the command waits for.
    pub open spec fn awaits(self) -> ReplyKind {
        match self {
            MkdirStage::Place { stage } => stage.awaits(),
            MkdirStage::Parent { .. } => ReplyKind::Status,
            MkdirStage::Exists { .. } => ReplyKind::Status,
            MkdirStage::Create { .. } => ReplyKind::Done,
        }
    }
}

impl MkdirPhase {
    /// The kind of reply that is waited for.
    pub fn awaits(&self) -> (r: ReplyKind)
        ensures
            r == self@.awaits(),
    {
        match self {
            MkdirPhase::Place { phase } => phase.awaits(),
            MkdirPhase::Parent { .. } => ReplyKind::Status,
            MkdirPhase::Exists { .. } => ReplyKind::Status,
            MkdirPhase::Create { .. } => ReplyKind::Done,
        }
    }
}

/// A step of the search for what exists of the path as a step of the command.
pub open spec fn mkdir_place(
    input: Seq<char>,
    step: Step<Seq<Part>, AncestorStage, PlacedPath, ToolFailure>,
) -> Step<Seq<Part>, MkdirStage, Report, ToolFailure> {
    match step {
        Step::Ask(request, stage) => Step::Ask(request, MkdirStage::Place { stage }),
        Step::Done(placed) => match parent_of(placed.path) {
            Some(above) => Step::Ask(
                FsRequest::Stat(above),
                MkdirStage::Parent { path: placed.path, above },
            ),
            None => Step::Failed(ToolFailure::InvalidPath(input)),
        },
        Step::Failed(failure) => Step::Failed(failure),
    }
}

/// Starts to make the directory that `input` names.
pub open spec fn mkdir_start(
    site: Site,
    reader: spec_fn(Seq<char>) -> Seq<Part>,
    input: Seq<char>,
) -> Step<Seq<Part>, MkdirStage, Report, ToolFailure> {
    match named_path(site, reader, input, false) {
        Ok(path) => mkdir_place(input, ancestor_start(path)),
        Err(failure) => Step::Failed(failure),
    }
}

/// Goes on with the making of the directory that `input` names. The directory
/// above it must exist, and it must not.
pub open spec fn mkdir_next(
    site: Site,
    input: Seq<char>,
    parents: bool,
    stage: MkdirStage,
    reply: FsReply,
) -> Step<Seq<Part>, MkdirStage, Report, ToolFailure> {
    match stage {
        MkdirStage::Place { stage } => mkdir_place(input, ancestor_next(site, stage, reply)),
        MkdirStage::Parent { path, above } => if reply->Status_0 is Ok {
            Step::Ask(FsRequest::Stat(path), MkdirStage::Exists { path })
        } else {
            Step::Failed(ToolFailure::NotFound(full_text(above, site.separator)))
        },
        MkdirStage::Exists { path } => if reply->Status_0 is Ok {
            Step::Failed(ToolFailure::AlreadyExists(input))
        } else {
            Step::Ask(
                if parents {
                    FsRequest::CreateDirAll(path)
                } else {
                    FsRequest::CreateDir(path)
                },
                MkdirStage::Create { path },
            )
        },
        MkdirStage::Create { path } => match reply->Done_0 {
            Ok(_) => Step::Done(mutation(site, "mkdir"@, path)),
            Err(error) => Step::Failed(ToolFailure::Io(error.message@)),
        },
    }
}

fn as_mkdir_place(
    input: &str,
    step: Step<Vec<PathPart>, AncestorPhase, Placed, ToolboxError>,
) -> (r: Step<Vec<PathPart>, MkdirPhase, WorkspaceCommandOutput, ToolboxError>)
    ensures
        r@ == mkdir_place(input@, step@),
{
    match step {
        Step::Ask(request, phase) => Step::Ask(request, MkdirPhase::Place { phase }),
        Step::Done(placed) => match parent(&placed.path) {
            Some(above) => {
                let asked = copy_path_parts(&above);
                Step::Ask(FsRequest::Stat(asked), MkdirPhase::Parent { path: placed.path, above })
            },
            None => Step::Failed(ToolboxError::InvalidPath(input.to_owned())),
        },
        Step::Failed(error) => Step::Failed(error),
    }
}

/// Starts to make the directory that `input` names.
pub fn make_directory(ws: &Workspace, input: &str) -> (r: Step<
    Vec<PathPart>,
    MkdirPhase,
    WorkspaceCommandOutput,
    ToolboxError,
>)
    ensures
        exists|reader: spec_fn(Seq<char>) -> Seq<Part>|
            reads_plainly(reader) && r@ == #[trigger] mkdir_start(ws@, reader, input@),
{
    let candidate = candidate_path(ws, input, false);
    let ghost reader = choose|reader: spec_fn(Seq<char>) -> Seq<Part>|
        reads_plainly(reader) && path_or_failure(candidate) == #[trigger] named_path(
            ws@,
            reader,
            input@,
            false,
        );
    let r = match candidate {
        Ok(path) => as_mkdir_place(input, ensure_existing_ancestor_within_root(path)),
        Err(e) => Step::Failed(e),
    };
    assert(r@ == mkdir_start(ws@, reader, input@));
    r
}

/// Goes on with the making of the directory that `input` names.
pub fn resume_mkdir(
    ws: &Workspace,
    input: &str,
    parents: bool,
    phase: MkdirPhase,
    reply: FsReply,
) -> (r: Step<Vec<PathPart>, MkdirPhase, WorkspaceCommandOutput, ToolboxError>)
    requires
        reply.kind_of() == phase@.awaits(),
    ensures
        r@ == mkdir_next(ws@, input@, parents, phase@, reply),
{
    match phase {
        MkdirPhase::Place { phase } => as_mkdir_place(input, resume_ancestor(ws, phase, reply)),
        MkdirPhase::Parent { path, above } => match reply {
            FsReply::Status(Ok(_)) => {
                let asked = copy_path_parts(&path);
                Step::Ask(FsRequest::Stat(asked), MkdirPhase::Exists { path })
            },
            FsReply::Status(Err(_)) => Step::Failed(
                ToolboxError::NotFound(full_path_text(&above, ws.separator)),
            ),
            _ => unreached(),
        },
        MkdirPhase::Exists { path } => match reply {
            FsReply::Status(Ok(_)) => Step::Failed(ToolboxError::AlreadyExists(input.to_owned())),
            FsReply::Status(Err(_)) => {
                let asked = copy_path_parts(&path);
                let request = if parents {
                    FsRequest::CreateDirAll(asked)
                } else {
                    FsRequest::CreateDir(asked)
                };
                Step::Ask(request, MkdirPhase::Create { path })
            },
            _ => unreached(),
        },
        MkdirPhase::Create { path } => match reply {
            FsReply::Done(Ok(_)) => Step::Done(mutation_output(ws, "mkdir", &path)),
            FsReply::Done(Err(error)) => Step::Failed(io_error(error)),
            _ => unreached(),
        },
    }
}

// ---------------------------------------------------------------------------
// Removing
// ---------------------------------------------------------------------------

/// Where a removal stands.
#[derive(Debug)]
#[allow(inconsistent_fields)]
pub enum RemovePhase {
    /// Asked what is to be removed.
    Kind { target: Vec<PathPart> },
    /// Asked for an entry below the directory to remove, after `seen` others.
    Count { target: Vec<PathPart>, seen: usize },
    /// Asked to remove it.
    Remove { target: Vec<PathPart> },
}

/// A [`RemovePhase`] over sequences.
#[allow(inconsistent_fields)]
pub enum RemoveStage {
    Kind { target: Seq<Part> },
    Count { target: Seq<Part>, seen: usize },
    Remove { target: Seq<Part> },
}

impl View for RemovePhase {
    type V = RemoveStage;

    open spec fn view(&self) -> RemoveStage {
        match *self {
            RemovePhase::Kind { target } => RemoveStage::Kind { target: parts(target@) },
            RemovePhase::Count { target, seen } => RemoveStage::Count {
                target: parts(target@),
                seen,
            },
            RemovePhase::Remove { target } => RemoveStage::Remove { target: parts(target@) },
        }
    }
}

impl RemoveStage {
    /// The kind of reply that the command waits for.
    pub open spec fn awaits(self) -> ReplyKind {
        match self {
            RemoveStage::Kind { .. } => ReplyKind::Status,
            RemoveStage::Count { .. } => ReplyKind::Entry,
            RemoveStage::Remove { .. } => ReplyKind::Done,
        }
    }
}

impl RemovePhase {
    /// The kind of reply that is waited for.
    pub fn awaits(&self) -> (r: ReplyKind)
        ensures
            r == self@.awaits(),
    {
        match self {
            RemovePhase::Kind { .. } => ReplyKind::Status,
            RemovePhase::Count { .. } => ReplyKind::Entry,
            RemovePhase::Remove { .. } => ReplyKind::Done,
        }
    }
}

/// Whether two paths are the same.
pub open spec fn same_path(a: Seq<Part>, b: Seq<Part>) -> bool {
    a.len() == b.len() && is_under(a, b)
}

/// Starts to remove what is at `target`, which may not be the workspace root.
pub open spec fn remove_start(site: Site, target: Seq<Part>) -> Step<
    Seq<Part>,
    RemoveStage,
    Report,
    ToolFailure,
> {
    if same_path(target, site.root) {
        Step::Failed(ToolFailure::InvalidArgument("refusing to remove workspace root"@))
    } else {
        Step::Ask(FsRequest::Stat(target), RemoveStage::Kind { target })
    }
}

/// Goes on with a removal. A directory that is removed with what is in it may
/// hold at most `max_entries` files and directories.
pub open spec fn remove_next(
    site: Site,
    recursive: bool,
    max_entries: usize,
    stage: RemoveStage,
    reply: FsReply,
) -> Step<Seq<Part>, RemoveStage, Report, ToolFailure> {
    match stage {
        RemoveStage::Kind { target } => match reply->Status_0 {
            Ok(stat) => match stat.kind {
                FileKind::File => Step::Ask(
                    FsRequest::RemoveFile(target),
                    RemoveStage::Remove { target },
                ),
                FileKind::Directory => if recursive {
                    Step::Ask(FsRequest::Walk(target, 1), RemoveStage::Count { target, seen: 0 })
                } else {
                    Step::Ask(FsRequest::RemoveDir(target), RemoveStage::Remove { target })
                },
                FileKind::Other => Step::Failed(
                    ToolFailure::NotFound(full_text(target, site.separator)),
                ),
            },
            Err(_) => Step::Failed(ToolFailure::NotFound(full_text(target, site.separator))),
        },
        RemoveStage::Count { target, seen } => match reply->Entry_0 {
            NextEntry::Found(entry) => if entry.kind == FileKind::Other {
                Step::Ask(FsRequest::NextEntry, stage)
            } else if seen + 1 > max_entries {
                Step::Failed(
                    ToolFailure::TooLarge(
                        limit_message("remove exceeded "@, max_entries as nat, " entries"@),
                    ),
                )
            } else {
                Step::Ask(
                    FsRequest::NextEntry,
                    RemoveStage::Count { target, seen: (seen + 1) as usize },
                )
            },
            NextEntry::Failed(_) => Step::Ask(FsRequest::NextEntry, stage),
            NextEntry::End => Step::Ask(
                FsRequest::RemoveDirAll(target),
                RemoveStage::Remove { target },
            ),
        },
        RemoveStage::Remove { target } => match reply->Done_0 {
            Ok(_) => Step::Done(mutation(site, "rm"@, target)),
            Err(error) => Step::Failed(ToolFailure::Io(error.message@)),
        },
    }
}

/// Starts to remove what is at `target`, which may not be the workspace root.
pub fn remove_path(ws: &Workspace, target: Vec<PathPart>) -> (r: Step<
    Vec<PathPart>,
    RemovePhase,
    WorkspaceCommandOutput,
    ToolboxError,
>)
    ensures
        r@ == remove_start(ws@, parts(target@)),
{
    if target.len() == ws.root.len() && lies_under(&target, &ws.root) {
        return Step::Failed(
            ToolboxError::InvalidArgument("refusing to remove workspace root".to_owned()),
        );
    }
    let asked = copy_path_parts(&target);
    Step::Ask(FsRequest::Stat(asked), RemovePhase::Kind { target })
}

/// Goes on with a removal.
pub fn resume_remove(
    ws: &Workspace,
    recursive: bool,
    max_entries: usize,
    phase: RemovePhase,
    reply: FsReply,
) -> (r: Step<Vec<PathPart>, RemovePhase, WorkspaceCommandOutput, ToolboxError>)
    requires
        reply.kind_of() == phase@.awaits(),
    ensures
        r@ == remove_next(ws@, recursive, max_entries, phase@, reply),
{
    match phase {
        RemovePhase::Kind { target } => match reply {
            FsReply::Status(Ok(stat)) => {
                let asked = copy_path_parts(&target);
                match stat.kind {
                    FileKind::File => Step::Ask(
                        FsRequest::RemoveFile(asked),
                        RemovePhase::Remove { target },
                    ),
                    FileKind::Directory => if recursive {
                        Step::Ask(FsRequest::Walk(asked, 1), RemovePhase::Count { target, seen: 0 })
                    } else {
                        Step::Ask(FsRequest::RemoveDir(asked), RemovePhase::Remove { target })
                    },
                    FileKind::Other => Step::Failed(
                        ToolboxError::NotFound(full_path_text(&target, ws.separator)),
                    ),
                }
            },
            FsReply::Status(Err(_)) => Step::Failed(
                ToolboxError::NotFound(full_path_text(&target, ws.separator)),
            ),
            _ => unreached(),
        },
        RemovePhase::Count { target, seen } => match reply {
            FsReply::Entry(NextEntry::Found(entry)) => if entry.kind == FileKind::Other {
                Step::Ask(FsRequest::NextEntry, RemovePhase::Count { target, seen })
            } else if seen >= max_entries {
                Step::Failed(
                    ToolboxError::TooLarge(
                        limit_text("remove exceeded ", max_entries as u64, " entries"),
                    ),
                )
            } else {
                Step::Ask(FsRequest::NextEntry, RemovePhase::Count { target, seen: seen + 1 })
            },
            FsReply::Entry(NextEntry::Failed(_)) => Step::Ask(
                FsRequest::NextEntry,
                RemovePhase::Count { target, seen },
            ),
            FsReply::Entry(NextEntry::End) => {
                let asked = copy_path_parts(&target);
                Step::Ask(FsRequest::RemoveDirAll(asked), RemovePhase::Remove { target })
            },
            _ => unreached(),
        },
        RemovePhase::Remove { target } => match reply {
            FsReply::Done(Ok(_)) => Step::Done(mutation_output(ws, "rm", &target)),
            FsReply::Done(Err(error)) => Step::Failed(io_error(error)),
            _ => unreached(),
        },
    }
}

} // verus!
