//! Copying and moving.

use vstd::pervasive::unreached;
use vstd::prelude::*;
use vstd::string::*;

use crate::errors::{labelled, ToolFailure, ToolboxError};
use crate::fs::{Entry, FileKind, FileStat, FsReply, FsRequest, NextEntry, ReplyKind, Step};
use crate::mutation::{limit_message, limit_text, mutation, mutation_output};
use crate::paths::{
    copy_path_parts, file_name, full_path_text, full_text, is_under, join_tail, lies_under,
    name_of, parent, parent_of, parts, path_to_display, reads_plainly, shown, Part, PathPart,
};
use crate::resolve::{
    ancestor_next, ancestor_start, candidate_path, ensure_existing_ancestor_within_root, io_error,
    named_path, path_or_failure, resume_ancestor, AncestorPhase, AncestorStage, Placed, PlacedPath,
    Site, Workspace,
};
use crate::search::size_sum;
use crate::toolbox::{Report, WorkspaceCommandOutput};

verus! {

// ---------------------------------------------------------------------------
// Where to
// ---------------------------------------------------------------------------

/// Where the search for the destination of `source` stands.
#[derive(Debug)]
#[allow(inconsistent_fields)]
pub enum DestinationPhase {
    /// Looking for what exists of the path that the caller named or, where
    /// `nested` holds, of a path in the directory that is there.
    Place { source: Vec<PathPart>, nested: bool, phase: AncestorPhase },
    /// Asked what is at the path that the caller named.
    Kind { source: Vec<PathPart>, path: Vec<PathPart> },
}

/// A [`DestinationPhase`] over sequences.
#[allow(inconsistent_fields)]
pub enum DestinationStage {
    Place { source: Seq<Part>, nested: bool, stage: AncestorStage },
    Kind { source: Seq<Part>, path: Seq<Part> },
}

impl View for DestinationPhase {
    type V = DestinationStage;

    open spec fn view(&self) -> DestinationStage {
        match *self {
            DestinationPhase::Place { source, nested, phase } => DestinationStage::Place {
                source: parts(source@),
                nested,
                stage: phase@,
            },
            DestinationPhase::Kind { source, path } => DestinationStage::Kind {
                source: parts(source@),
                path: parts(path@),
            },
        }
    }
}

impl DestinationStage {
    /// The kind of reply that the search waits for.
    pub open spec fn awaits(self) -> ReplyKind {
        match self {
            DestinationStage::Place { stage, .. } => stage.awaits(),
            DestinationStage::Kind { .. } => ReplyKind::Status,
        }
    }
}

impl DestinationPhase {
    /// The kind of reply that is waited for.
    pub fn awaits(&self) -> (r: ReplyKind)
        ensures
            r == self@.awaits(),
    {
        match self {
            DestinationPhase::Place { phase, .. } => phase.awaits(),
            DestinationPhase::Kind { .. } => ReplyKind::Status,
        }
    }
}

/// From where to where something is copied or moved.
#[derive(Debug)]
pub struct Route {
    pub source: Vec<PathPart>,
    pub destination: Vec<PathPart>,
}

/// A [`Route`] over sequences.
pub struct Way {
    pub source: Seq<Part>,
    pub destination: Seq<Part>,
}

impl View for Route {
    type V = Way;

    open spec fn view(&self) -> Way {
        Way { source: parts(self.source@), destination: parts(self.destination@) }
    }
}

/// A step of the search for what exists of a path as a step of the search for
/// the destination.
pub open spec fn destination_place(
    source: Seq<Part>,
    nested: bool,
    step: Step<Seq<Part>, AncestorStage, PlacedPath, ToolFailure>,
) -> Step<Seq<Part>, DestinationStage, Way, ToolFailure> {
    match step {
        Step::Ask(request, stage) => Step::Ask(
            request,
            DestinationStage::Place { source, nested, stage },
        ),
        Step::Done(placed) => if nested {
            Step::Done(Way { source, destination: placed.path })
        } else {
            Step::Ask(
                FsRequest::Stat(placed.path),
                DestinationStage::Kind { source, path: placed.path },
            )
        },
        Step::Failed(failure) => Step::Failed(failure),
    }
}

/// Starts to look for the destination that `input` names.
pub open spec fn destination_start(
    site: Site,
    reader: spec_fn(Seq<char>) -> Seq<Part>,
    source: Seq<Part>,
    input: Seq<char>,
) -> Step<Seq<Part>, DestinationStage, Way, ToolFailure> {
    match named_path(site, reader, input, false) {
        Ok(path) => destination_place(source, false, ancestor_start(path)),
        Err(failure) => Step::Failed(failure),
    }
}

/// Goes on with the search for the destination. Where the caller named a
/// directory, it is what has the name of the source in it.
pub open spec fn destination_next(site: Site, stage: DestinationStage, reply: FsReply) -> Step<
    Seq<Part>,
    DestinationStage,
    Way,
    ToolFailure,
> {
    match stage {
        DestinationStage::Place { source, nested, stage } => destination_place(
            source,
            nested,
            ancestor_next(site, stage, reply),
        ),
        DestinationStage::Kind { source, path } => if reply->Status_0 is Ok
            && reply->Status_0->Ok_0.kind == FileKind::Directory {
            match name_of(source) {
                Some(name) => destination_place(
                    source,
                    true,
                    ancestor_start(path.push(Part::Normal(name))),
                ),
                None => Step::Failed(
                    ToolFailure::InvalidArgument(
                        "cannot derive destination basename from "@ + full_text(
                            source,
                            site.separator,
                        ),
                    ),
                ),
            }
        } else {
            Step::Done(Way { source, destination: path })
        },
    }
}

fn as_destination_place(
    source: Vec<PathPart>,
    nested: bool,
    step: Step<Vec<PathPart>, AncestorPhase, Placed, ToolboxError>,
) -> (r: Step<Vec<PathPart>, DestinationPhase, Route, ToolboxError>)
    ensures
        r@ == destination_place(parts(source@), nested, step@),
{
    match step {
        Step::Ask(request, phase) => Step::Ask(
            request,
            DestinationPhase::Place { source, nested, phase },
        ),
        Step::Done(placed) => if nested {
            Step::Done(Route { source, destination: placed.path })
        } else {
            let asked = copy_path_parts(&placed.path);
            Step::Ask(
                FsRequest::Stat(asked),
                DestinationPhase::Kind { source, path: placed.path },
            )
        },
        Step::Failed(error) => Step::Failed(error),
    }
}

/// Starts to look for the destination that `input` names.
pub fn resolve_copy_move_destination(ws: &Workspace, source: Vec<PathPart>, input: &str) -> (r:
    Step<Vec<PathPart>, DestinationPhase, Route, ToolboxError>)
    ensures
        exists|reader: spec_fn(Seq<char>) -> Seq<Part>|
            reads_plainly(reader) && r@ == #[trigger] destination_start(
                ws@,
                reader,
                parts(source@),
                input@,
            ),
{
    let candidate = candidate_path(ws, input, false);
    let ghost reader = choose|reader: spec_fn(Seq<char>) -> Seq<Part>|
        reads_plainly(reader) && path_or_failure(candidate) == #[trigger] named_path(
            ws@,
            reader,
            input@,
            false,
        );
    let r = match candidate {
        Ok(path) => as_destination_place(
            source,
            false,
            ensure_existing_ancestor_within_root(path),
        ),
        Err(e) => Step::Failed(e),
    };
    assert(r@ == destination_start(ws@, reader, parts(source@), input@));
    r
}

/// Goes on with the search for the destination.
pub fn resume_destination(ws: &Workspace, phase: DestinationPhase, reply: FsReply) -> (r: Step<
    Vec<PathPart>,
    DestinationPhase,
    Route,
    ToolboxError,
>)
    requires
        reply.kind_of() == phase@.awaits(),
    ensures
        r@ == destination_next(ws@, phase@, reply),
{
    match phase {
        DestinationPhase::Place { source, nested, phase } => as_destination_place(
            source,
            nested,
            resume_ancestor(ws, phase, reply),
        ),
        DestinationPhase::Kind { source, path } => match reply {
            FsReply::Status(Ok(FileStat { kind: FileKind::Directory, len: _ })) => match file_name(
                &source,
            ) {
                Some(name) => {
                    let mut inner = path;
                    inner.push(PathPart::Normal(name));
                    assert(parts(inner@) =~= parts(path@).push(Part::Normal(name@)));
                    as_destination_place(
                        source,
                        true,
                        ensure_existing_ancestor_within_root(inner),
                    )
                },
                None => Step::Failed(
                    ToolboxError::InvalidArgument(
                        labelled(
                            "cannot derive destination basename from ",
                            full_path_text(&source, ws.separator).as_str(),
                        ),
                    ),
                ),
            },
            FsReply::Status(_) => Step::Done(Route { source, destination: path }),
            _ => unreached(),
        },
    }
}

// ---------------------------------------------------------------------------
// Copying
// ---------------------------------------------------------------------------

/// The copy of a directory: how many bytes and how many files it came to.
#[derive(Debug)]
pub struct CopyJob {
    pub source: Vec<PathPart>,
    pub destination: Vec<PathPart>,
    pub bytes: u64,
    pub entries: usize,
}

/// A [`CopyJob`] over sequences.
pub struct CopyTask {
    pub source: Seq<Part>,
    pub destination: Seq<Part>,
    pub bytes: u64,
    pub entries: usize,
}

impl View for CopyJob {
    type V = CopyTask;

    open spec fn view(&self) -> CopyTask {
        CopyTask {
            source: parts(self.source@),
            destination: parts(self.destination@),
            bytes: self.bytes,
            entries: self.entries,
        }
    }
}

/// The task of an optional job.
pub open spec fn task_of(job: Option<CopyJob>) -> Option<CopyTask> {
    match job {
        Some(job) => Some(job@),
        None => None,
    }
}

/// What a copy may do.
#[derive(Debug, Clone, Copy, PartialEq, Eq, Structural)]
pub struct CopyRules {
    pub recursive: bool,
    pub overwrite: bool,
    pub max_total_bytes: u64,
    pub max_entries: usize,
}

/// Where a copy stands. A file is copied alone, or as part of the job `after`.
#[derive(Debug)]
#[allow(inconsistent_fields)]
pub enum CopyPhase {
    /// Asked what is to be copied.
    Kind { source: Vec<PathPart>, destination: Vec<PathPart> },
    /// Asked whether the destination exists.
    Fresh { source: Vec<PathPart>, destination: Vec<PathPart> },
    /// Asked where the source is.
    Itself { source: Vec<PathPart>, destination: Vec<PathPart> },
    /// Asked for an entry of the source.
    Entry { job: CopyJob },
    /// Asked to make a directory.
    Directory { job: CopyJob },
    /// Asked for the size of the file at `from`.
    Size { job: CopyJob, from: Vec<PathPart>, to: Vec<PathPart> },
    /// Asked to make the directory above `to`.
    Parent { after: Option<CopyJob>, from: Vec<PathPart>, to: Vec<PathPart> },
    /// Asked what is at `to`.
    Check { after: Option<CopyJob>, from: Vec<PathPart>, to: Vec<PathPart> },
    /// Asked to copy the file to `to`.
    File { after: Option<CopyJob>, to: Vec<PathPart> },
}

/// A [`CopyPhase`] over sequences.
#[allow(inconsistent_fields)]
pub enum CopyStage {
    Kind { source: Seq<Part>, destination: Seq<Part> },
    Fresh { source: Seq<Part>, destination: Seq<Part> },
    Itself { source: Seq<Part>, destination: Seq<Part> },
    Entry { task: CopyTask },
    Directory { task: CopyTask },
    Size { task: CopyTask, from: Seq<Part>, to: Seq<Part> },
    Parent { after: Option<CopyTask>, from: Seq<Part>, to: Seq<Part> },
    Check { after: Option<CopyTask>, from: Seq<Part>, to: Seq<Part> },
    File { after: Option<CopyTask>, to: Seq<Part> },
}

impl View for CopyPhase {
    type V = CopyStage;

    open spec fn view(&self) -> CopyStage {
        match *self {
            CopyPhase::Kind { source, destination } => CopyStage::Kind {
                source: parts(source@),
                destination: parts(destination@),
            },
            CopyPhase::Fresh { source, destination } => CopyStage::Fresh {
                source: parts(source@),
                destination: parts(destination@),
            },
            CopyPhase::Itself { source, destination } => CopyStage::Itself {
                source: parts(source@),
                destination: parts(destination@),
            },
            CopyPhase::Entry { job } => CopyStage::Entry { task: job@ },
            CopyPhase::Directory { job } => CopyStage::Directory { task: job@ },
            CopyPhase::Size { job, from, to } => CopyStage::Size {
                task: job@,
                from: parts(from@),
                to: parts(to@),
            },
            CopyPhase::Parent { after, from, to } => CopyStage::Parent {
                after: task_of(after),
                from: parts(from@),
                to: parts(to@),
            },
            CopyPhase::Check { after, from, to } => CopyStage::Check {
                after: task_of(after),
                from: parts(from@),
                to: parts(to@),
            },
            CopyPhase::File { after, to } => CopyStage::File {
                after: task_of(after),
                to: parts(to@),
            },
        }
    }
}

impl CopyStage {
    /// The kind of reply that the copy waits for.
    pub open spec fn awaits(self) -> ReplyKind {
        match self {
            CopyStage::Kind { .. } => ReplyKind::Status,
            CopyStage::Fresh { .. } => ReplyKind::Status,
            CopyStage::Itself { .. } => ReplyKind::Path,
            CopyStage::Entry { .. } => ReplyKind::Entry,
            CopyStage::Directory { .. } => ReplyKind::Done,
            CopyStage::Size { .. } => ReplyKind::Status,
            CopyStage::Parent { .. } => ReplyKind::Done,
            CopyStage::Check { .. } => ReplyKind::Status,
            CopyStage::File { .. } => ReplyKind::Done,
        }
    }
}

impl CopyPhase {
    /// The kind of reply that is waited for.
    pub fn awaits(&self) -> (r: ReplyKind)
        ensures
            r == self@.awaits(),
    {
        match self {
            CopyPhase::Kind { .. } => ReplyKind::Status,
            CopyPhase::Fresh { .. } => ReplyKind::Status,
            CopyPhase::Itself { .. } => ReplyKind::Path,
            CopyPhase::Entry { .. } => ReplyKind::Entry,
            CopyPhase::Directory { .. } => ReplyKind::Done,
            CopyPhase::Size { .. } => ReplyKind::Status,
            CopyPhase::Parent { .. } => ReplyKind::Done,
            CopyPhase::Check { .. } => ReplyKind::Status,
            CopyPhase::File { .. } => ReplyKind::Done,
        }
    }
}

/// Starts to copy the file at `from` to `to`: the directory above it is made
/// first.
pub open spec fn copy_file_start(
    site: Site,
    after: Option<CopyTask>,
    from: Seq<Part>,
    to: Seq<Part>,
) -> Step<Seq<Part>, CopyStage, Report, ToolFailure> {
    match parent_of(to) {
        Some(above) => Step::Ask(
            FsRequest::CreateDirAll(above),
            CopyStage::Parent { after, from, to },
        ),
        None => Step::Failed(ToolFailure::InvalidArgument(full_text(to, site.separator))),
    }
}

/// Goes on with the copy of a directory after an entry of it.
pub open spec fn copy_entry(rules: CopyRules, task: CopyTask, entry: Entry) -> Step<
    Seq<Part>,
    CopyStage,
    Report,
    ToolFailure,
> {
    let path = parts(entry.path@);
    let to = task.destination + path.skip(task.source.len() as int);
    if !is_under(path, task.source) {
        Step::Failed(ToolFailure::InvalidArgument("failed to compute relative path"@))
    } else {
        match entry.kind {
            FileKind::Directory => Step::Ask(
                FsRequest::CreateDirAll(to),
                CopyStage::Directory { task },
            ),
            FileKind::File => if task.entries + 1 > rules.max_entries {
                Step::Failed(
                    ToolFailure::TooLarge(
                        limit_message(
                            "copy exceeded "@,
                            rules.max_entries as nat,
                            " file entries"@,
                        ),
                    ),
                )
            } else {
                Step::Ask(
                    FsRequest::StatEntry(path),
                    CopyStage::Size {
                        task: CopyTask { entries: (task.entries + 1) as usize, ..task },
                        from: path,
                        to,
                    },
                )
            },
            FileKind::Other => Step::Ask(FsRequest::NextEntry, CopyStage::Entry { task }),
        }
    }
}

/// Starts to copy from one path to another.
pub open spec fn copy_start(way: Way) -> Step<Seq<Part>, CopyStage, Report, ToolFailure> {
    Step::Ask(
        FsRequest::Stat(way.source),
        CopyStage::Kind { source: way.source, destination: way.destination },
    )
}

/// Goes on with a copy. A directory is copied only where the caller asked for
/// it, to a place that does not exist and is not inside it; what it may come to
/// is limited. Entries that cannot be reached, and those that are neither files
/// nor directories, are left out. A file that exists is replaced only where the
/// caller asked for it, a directory never.
pub open spec fn copy_next(site: Site, rules: CopyRules, stage: CopyStage, reply: FsReply) -> Step<
    Seq<Part>,
    CopyStage,
    Report,
    ToolFailure,
> {
    match stage {
        CopyStage::Kind { source, destination } => {
            let unsupported = ToolFailure::InvalidArgument(
                "unsupported source type: "@ + full_text(source, site.separator),
            );
            match reply->Status_0 {
                Ok(stat) => match stat.kind {
                    FileKind::File => copy_file_start(site, None, source, destination),
                    FileKind::Directory => if rules.recursive {
                        Step::Ask(
                            FsRequest::Stat(destination),
                            CopyStage::Fresh { source, destination },
                        )
                    } else {
                        Step::Failed(
                            ToolFailure::RecursiveRequired(
                                shown(site.root, source) + " is a directory"@,
                            ),
                        )
                    },
                    FileKind::Other => Step::Failed(unsupported),
                },
                Err(_) => Step::Failed(unsupported),
            }
        },
        CopyStage::Fresh { source, destination } => if reply->Status_0 is Ok {
            Step::Failed(ToolFailure::AlreadyExists(shown(site.root, destination)))
        } else {
            Step::Ask(
                FsRequest::Canonicalize(source),
                CopyStage::Itself { source, destination },
            )
        },
        CopyStage::Itself { source, destination } => match reply->Path_0 {
            Ok(there) => if is_under(destination, parts(there@)) {
                Step::Failed(
                    ToolFailure::InvalidArgument("refusing to copy a directory into itself"@),
                )
            } else {
                Step::Ask(
                    FsRequest::Walk(source, 0),
                    CopyStage::Entry {
                        task: CopyTask { source, destination, bytes: 0, entries: 0 },
                    },
                )
            },
            Err(error) => Step::Failed(ToolFailure::Io(error.message@)),
        },
        CopyStage::Entry { task } => match reply->Entry_0 {
            NextEntry::Found(entry) => copy_entry(rules, task, entry),
            NextEntry::Failed(_) => Step::Ask(FsRequest::NextEntry, stage),
            NextEntry::End => Step::Done(mutation(site, "cp"@, task.destination)),
        },
        CopyStage::Directory { task } => match reply->Done_0 {
            Ok(_) => Step::Ask(FsRequest::NextEntry, CopyStage::Entry { task }),
            Err(error) => Step::Failed(ToolFailure::Io(error.message@)),
        },
        CopyStage::Size { task, from, to } => match reply->Status_0 {
            Ok(stat) => {
                let bytes = size_sum(task.bytes, stat.len);
                if bytes > rules.max_total_bytes {
                    Step::Failed(
                        ToolFailure::TooLarge(
                            limit_message(
                                "copy exceeded "@,
                                rules.max_total_bytes as nat,
                                " bytes"@,
                            ),
                        ),
                    )
                } else {
                    copy_file_start(site, Some(CopyTask { bytes, ..task }), from, to)
                }
            },
            Err(error) => Step::Failed(ToolFailure::Io(error.message@)),
        },
        CopyStage::Parent { after, from, to } => match reply->Done_0 {
            Ok(_) => Step::Ask(FsRequest::Stat(to), CopyStage::Check { after, from, to }),
            Err(error) => Step::Failed(ToolFailure::Io(error.message@)),
        },
        CopyStage::Check { after, from, to } => if reply->Status_0 is Ok && (
        reply->Status_0->Ok_0.kind == FileKind::Directory || !rules.overwrite) {
            Step::Failed(ToolFailure::AlreadyExists(full_text(to, site.separator)))
        } else {
            Step::Ask(FsRequest::CopyFile(from, to), CopyStage::File { after, to })
        },
        CopyStage::File { after, to } => match reply->Done_0 {
            Ok(_) => match after {
                Some(task) => Step::Ask(FsRequest::NextEntry, CopyStage::Entry { task }),
                None => Step::Done(mutation(site, "cp"@, to)),
            },
            Err(error) => Step::Failed(ToolFailure::Io(error.message@)),
        },
    }
}

/// Starts to copy the file at `from` to `to`, alone or as part of the job `after`.
pub fn copy_file(
    ws: &Workspace,
    after: Option<CopyJob>,
    from: Vec<PathPart>,
    to: Vec<PathPart>,
) -> (r: Step<Vec<PathPart>, CopyPhase, WorkspaceCommandOutput, ToolboxError>)
    ensures
        r@ == copy_file_start(ws@, task_of(after), parts(from@), parts(to@)),
{
    match parent(&to) {
        Some(above) => Step::Ask(
            FsRequest::CreateDirAll(above),
            CopyPhase::Parent { after, from, to },
        ),
        None => Step::Failed(ToolboxError::InvalidArgument(full_path_text(&to, ws.separator))),
    }
}

fn resume_copy_entry(rules: CopyRules, job: CopyJob, entry: Entry) -> (r: Step<
    Vec<PathPart>,
    CopyPhase,
    WorkspaceCommandOutput,
    ToolboxError,
>)
    ensures
        r@ == copy_entry(rules, job@, entry),
{
    if !lies_under(&entry.path, &job.source) {
        return Step::Failed(
            ToolboxError::InvalidArgument("failed to compute relative path".to_owned()),
        );
    }
    let to = join_tail(&job.destination, &entry.path, job.source.len());
    match entry.kind {
        FileKind::Directory => Step::Ask(
            FsRequest::CreateDirAll(to),
            CopyPhase::Directory { job },
        ),
        FileKind::File => if job.entries >= rules.max_entries {
            Step::Failed(
                ToolboxError::TooLarge(
                    limit_text("copy exceeded ", rules.max_entries as u64, " file entries"),
                ),
            )
        } else {
            let CopyJob { source, destination, bytes, entries } = job;
            let job = CopyJob { source, destination, bytes, entries: entries + 1 };
            let asked = copy_path_parts(&entry.path);
            Step::Ask(
                FsRequest::StatEntry(asked),
                CopyPhase::Size { job, from: entry.path, to },
            )
        },
        FileKind::Other => Step::Ask(FsRequest::NextEntry, CopyPhase::Entry { job }),
    }
}

fn unsupported_source(ws: &Workspace, source: &Vec<PathPart>) -> (r: ToolboxError)
    ensures
        r@ == ToolFailure::InvalidArgument(
            "unsupported source type: "@ + full_text(parts(source@), ws.separator),
        ),
{
    ToolboxError::InvalidArgument(
        labelled("unsupported source type: ", full_path_text(source, ws.separator).as_str()),
    )
}

/// Starts to copy from one path to another.
pub fn copy_path(route: Route) -> (r: Step<
    Vec<PathPart>,
    CopyPhase,
    WorkspaceCommandOutput,
    ToolboxError,
>)
    ensures
        r@ == copy_start(route@),
{
    let Route { source, destination } = route;
    let asked = copy_path_parts(&source);
    Step::Ask(FsRequest::Stat(asked), CopyPhase::Kind { source, destination })
}

fn resume_copy_kind(
    ws: &Workspace,
    rules: CopyRules,
    source: Vec<PathPart>,
    destination: Vec<PathPart>,
    reply: FsReply,
) -> (r: Step<Vec<PathPart>, CopyPhase, WorkspaceCommandOutput, ToolboxError>)
    requires
        reply is Status,
    ensures
        r@ == copy_next(
            ws@,
            rules,
            CopyStage::Kind { source: parts(source@), destination: parts(destination@) },
            reply,
        ),
{
    match reply {
        FsReply::Status(Ok(stat)) => match stat.kind {
            FileKind::File => copy_file(ws, None, source, destination),
            FileKind::Directory => if rules.recursive {
                let asked = copy_path_parts(&destination);
                Step::Ask(FsRequest::Stat(asked), CopyPhase::Fresh { source, destination })
            } else {
                let mut message = path_to_display(&ws.root, &source);
                message.append(" is a directory");
                Step::Failed(ToolboxError::RecursiveRequired(message))
            },
            FileKind::Other => Step::Failed(unsupported_source(ws, &source)),
        },
        FsReply::Status(Err(_)) => Step::Failed(unsupported_source(ws, &source)),
        _ => unreached(),
    }
}

/// Goes on with a copy.
pub fn resume_copy(ws: &Workspace, rules: CopyRules, phase: CopyPhase, reply: FsReply) -> (r: Step<
    Vec<PathPart>,
    CopyPhase,
    WorkspaceCommandOutput,
    ToolboxError,
>)
    requires
        reply.kind_of() == phase@.awaits(),
    ensures
        r@ == copy_next(ws@, rules, phase@, reply),
{
    match phase {
        CopyPhase::Kind { source, destination } => resume_copy_kind(
            ws,
            rules,
            source,
            destination,
            reply,
        ),
        CopyPhase::Fresh { source, destination } => match reply {
            FsReply::Status(Ok(_)) => Step::Failed(
                ToolboxError::AlreadyExists(path_to_display(&ws.root, &destination)),
            ),
            FsReply::Status(Err(_)) => {
                let asked = copy_path_parts(&source);
                Step::Ask(FsRequest::Canonicalize(asked), CopyPhase::Itself { source, destination })
            },
            _ => unreached(),
        },
        CopyPhase::Itself { source, destination } => match reply {
            FsReply::Path(Ok(there)) => if lies_under(&destination, &there) {
                Step::Failed(
                    ToolboxError::InvalidArgument(
                        "refusing to copy a directory into itself".to_owned(),
                    ),
                )
            } else {
                let asked = copy_path_parts(&source);
                let job = CopyJob { source, destination, bytes: 0, entries: 0 };
                Step::Ask(FsRequest::Walk(asked, 0), CopyPhase::Entry { job })
            },
            FsReply::Path(Err(error)) => Step::Failed(io_error(error)),
            _ => unreached(),
        },
        CopyPhase::Entry { job } => match reply {
            FsReply::Entry(NextEntry::Found(entry)) => resume_copy_entry(rules, job, entry),
            FsReply::Entry(NextEntry::Failed(_)) => Step::Ask(
                FsRequest::NextEntry,
                CopyPhase::Entry { job },
            ),
            FsReply::Entry(NextEntry::End) => Step::Done(
                mutation_output(ws, "cp", &job.destination),
            ),
            _ => unreached(),
        },
        CopyPhase::Directory { job } => match reply {
            FsReply::Done(Ok(_)) => Step::Ask(FsRequest::NextEntry, CopyPhase::Entry { job }),
            FsReply::Done(Err(error)) => Step::Failed(io_error(error)),
            _ => unreached(),
        },
        CopyPhase::Size { job, from, to } => match reply {
            FsReply::Status(Ok(stat)) => {
                let CopyJob { source, destination, bytes, entries } = job;
                let bytes: u64 = match bytes.checked_add(stat.len) {
                    Some(sum) => sum,
                    None => u64::MAX,
                };
                if bytes > rules.max_total_bytes {
                    Step::Failed(
                        ToolboxError::TooLarge(
                            limit_text("copy exceeded ", rules.max_total_bytes, " bytes"),
                        ),
                    )
                } else {
                    let job = CopyJob { source, destination, bytes, entries };
                    copy_file(ws, Some(job), from, to)
                }
            },
            FsReply::Status(Err(error)) => Step::Failed(io_error(error)),
            _ => unreached(),
        },
        CopyPhase::Parent { after, from, to } => match reply {
            FsReply::Done(Ok(_)) => {
                let asked = copy_path_parts(&to);
                Step::Ask(FsRequest::Stat(asked), CopyPhase::Check { after, from, to })
            },
            FsReply::Done(Err(error)) => Step::Failed(io_error(error)),
            _ => unreached(),
        },
        CopyPhase::Check { after, from, to } => match reply {
            FsReply::Status(told) => {
                let refused = match told {
                    Ok(stat) => stat.kind == FileKind::Directory || !rules.overwrite,
                    Err(_) => false,
                };
                if refused {
                    Step::Failed(ToolboxError::AlreadyExists(full_path_text(&to, ws.separator)))
                } else {
                    let asked = copy_path_parts(&to);
                    Step::Ask(FsRequest::CopyFile(from, asked), CopyPhase::File { after, to })
                }
            },
            _ => unreached(),
        },
        CopyPhase::File { after, to } => match reply {
            FsReply::Done(Ok(_)) => match after {
                Some(job) => Step::Ask(FsRequest::NextEntry, CopyPhase::Entry { job }),
                None => Step::Done(mutation_output(ws, "cp", &to)),
            },
            FsReply::Done(Err(error)) => Step::Failed(io_error(error)),
            _ => unreached(),
        },
    }
}

// ---------------------------------------------------------------------------
// Moving
// ---------------------------------------------------------------------------

/// Where a move stands.
#[derive(Debug)]
#[allow(inconsistent_fields)]
pub enum MovePhase {
    /// Asked what is at the destination.
    Check { source: Vec<PathPart>, destination: Vec<PathPart> },
    /// Asked to remove the file at the destination.
    Clear { source: Vec<PathPart>, destination: Vec<PathPart> },
    /// Asked to make the directory above the destination.
    Parent { source: Vec<PathPart>, destination: Vec<PathPart> },
    /// Asked to move.
    Rename { destination: Vec<PathPart> },
}

/// A [`MovePhase`] over sequences.
#[allow(inconsistent_fields)]
pub enum MoveStage {
    Check { source: Seq<Part>, destination: Seq<Part> },
    Clear { source: Seq<Part>, destination: Seq<Part> },
    Parent { source: Seq<Part>, destination: Seq<Part> },
    Rename { destination: Seq<Part> },
}

impl View for MovePhase {
    type V = MoveStage;

    open spec fn view(&self) -> MoveStage {
        match *self {
            MovePhase::Check { source, destination } => MoveStage::Check {
                source: parts(source@),
                destination: parts(destination@),
            },
            MovePhase::Clear { source, destination } => MoveStage::Clear {
                source: parts(source@),
                destination: parts(destination@),
            },
            MovePhase::Parent { source, destination } => MoveStage::Parent {
                source: parts(source@),
                destination: parts(destination@),
            },
            MovePhase::Rename { destination } => MoveStage::Rename {
                destination: parts(destination@),
            },
        }
    }
}

impl MoveStage {
    /// The kind of reply that the move waits for.
    pub open spec fn awaits(self) -> ReplyKind {
        match self {
            MoveStage::Check { .. } => ReplyKind::Status,
            MoveStage::Clear { .. } => ReplyKind::Done,
            MoveStage::Parent { .. } => ReplyKind::Done,
            MoveStage::Rename { .. } => ReplyKind::Done,
        }
    }
}

impl MovePhase {
    /// The kind of reply that is waited for.
    pub fn awaits(&self) -> (r: ReplyKind)
        ensures
            r == self@.awaits(),
    {
        match self {
            MovePhase::Check { .. } => ReplyKind::Status,
            MovePhase::Clear { .. } => ReplyKind::Done,
            MovePhase::Parent { .. } => ReplyKind::Done,
            MovePhase::Rename { .. } => ReplyKind::Done,
        }
    }
}

/// Starts to move from one path to another.
pub open spec fn move_start(way: Way) -> Step<Seq<Part>, MoveStage, Report, ToolFailure> {
    Step::Ask(
        FsRequest::Stat(way.destination),
        MoveStage::Check { source: way.source, destination: way.destination },
    )
}

/// Goes on with a move to a destination that is free: the directory above it is
/// made first, where there is one.
pub open spec fn move_on(source: Seq<Part>, destination: Seq<Part>) -> Step<
    Seq<Part>,
    MoveStage,
    Report,
    ToolFailure,
> {
    match parent_of(destination) {
        Some(above) => Step::Ask(
            FsRequest::CreateDirAll(above),
            MoveStage::Parent { source, destination },
        ),
        None => Step::Ask(
            FsRequest::Rename(source, destination),
            MoveStage::Rename { destination },
        ),
    }
}

/// Goes on with a move. A file that exists is replaced only where the caller
/// asked for it, and nothing else is.
pub open spec fn move_next(site: Site, overwrite: bool, stage: MoveStage, reply: FsReply) -> Step<
    Seq<Part>,
    MoveStage,
    Report,
    ToolFailure,
> {
    match stage {
        MoveStage::Check { source, destination } => match reply->Status_0 {
            Ok(stat) => if overwrite && stat.kind == FileKind::File {
                Step::Ask(
                    FsRequest::RemoveFile(destination),
                    MoveStage::Clear { source, destination },
                )
            } else {
                Step::Failed(ToolFailure::AlreadyExists(shown(site.root, destination)))
            },
            Err(_) => move_on(source, destination),
        },
        MoveStage::Clear { source, destination } => match reply->Done_0 {
            Ok(_) => move_on(source, destination),
            Err(error) => Step::Failed(ToolFailure::Io(error.message@)),
        },
        MoveStage::Parent { source, destination } => match reply->Done_0 {
            Ok(_) => Step::Ask(
                FsRequest::Rename(source, destination),
                MoveStage::Rename { destination },
            ),
            Err(error) => Step::Failed(ToolFailure::Io(error.message@)),
        },
        MoveStage::Rename { destination } => match reply->Done_0 {
            Ok(_) => Step::Done(mutation(site, "mv"@, destination)),
            Err(error) => Step::Failed(ToolFailure::Io(error.message@)),
        },
    }
}

/// Starts to move from one path to another.
pub fn move_path(route: Route) -> (r: Step<
    Vec<PathPart>,
    MovePhase,
    WorkspaceCommandOutput,
    ToolboxError,
>)
    ensures
        r@ == move_start(route@),
{
    let Route { source, destination } = route;
    let asked = copy_path_parts(&destination);
    Step::Ask(FsRequest::Stat(asked), MovePhase::Check { source, destination })
}

fn resume_move_on(source: Vec<PathPart>, destination: Vec<PathPart>) -> (r: Step<
    Vec<PathPart>,
    MovePhase,
    WorkspaceCommandOutput,
    ToolboxError,
>)
    ensures
        r@ == move_on(parts(source@), parts(destination@)),
{
    match parent(&destination) {
        Some(above) => Step::Ask(
            FsRequest::CreateDirAll(above),
            MovePhase::Parent { source, destination },
        ),
        None => {
            let asked = copy_path_parts(&destination);
            Step::Ask(FsRequest::Rename(source, asked), MovePhase::Rename { destination })
        },
    }
}

/// Goes on with a move.
pub fn resume_move(ws: &Workspace, overwrite: bool, phase: MovePhase, reply: FsReply) -> (r: Step<
    Vec<PathPart>,
    MovePhase,
    WorkspaceCommandOutput,
    ToolboxError,
>)
    requires
        reply.kind_of() == phase@.awaits(),
    ensures
        r@ == move_next(ws@, overwrite, phase@, reply),
{
    match phase {
        MovePhase::Check { source, destination } => match reply {
            FsReply::Status(Ok(stat)) => if overwrite && stat.kind == FileKind::File {
                let asked = copy_path_parts(&destination);
                Step::Ask(FsRequest::RemoveFile(asked), MovePhase::Clear { source, destination })
            } else {
                Step::Failed(ToolboxError::AlreadyExists(path_to_display(&ws.root, &destination)))
            },
            FsReply::Status(Err(_)) => resume_move_on(source, destination),
            _ => unreached(),
        },
        MovePhase::Clear { source, destination } => match reply {
            FsReply::Done(Ok(_)) => resume_move_on(source, destination),
            FsReply::Done(Err(error)) => Step::Failed(io_error(error)),
            _ => unreached(),
        },
        MovePhase::Parent { source, destination } => match reply {
            FsReply::Done(Ok(_)) => {
                let asked = copy_path_parts(&destination);
                Step::Ask(FsRequest::Rename(source, asked), MovePhase::Rename { destination })
            },
            FsReply::Done(Err(error)) => Step::Failed(io_error(error)),
            _ => unreached(),
        },
        MovePhase::Rename { destination } => match reply {
            FsReply::Done(Ok(_)) => Step::Done(mutation_output(ws, "mv", &destination)),
            FsReply::Done(Err(error)) => Step::Failed(io_error(error)),
            _ => unreached(),
        },
    }
}

} // verus!
