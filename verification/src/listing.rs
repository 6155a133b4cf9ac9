//! Listing directories and finding paths.

use regex::Regex;

use vstd::pervasive::unreached;
use vstd::prelude::*;

use crate::errors::{labelled, ToolFailure, ToolboxError};
use crate::fs::{FileKind, FileStat, FsReply, FsRequest, NextEntry, ReplyKind, Step};
use crate::order::{contents, in_order, sort};
use crate::paths::{
    copy_path_parts, full_path_text, full_text, parts, path_to_display, shown, Part, PathPart,
};
use crate::pattern::{admits, compile_glob, glob_admits, glob_regex, pattern_text, regex_error};
use crate::resolve::{io_error, Site, Workspace};
use crate::text::texts;
use crate::toolbox::{
    listed, ListedEntry, Report, WorkspaceCommandOutput, WorkspaceEntry,
    WorkspaceEntryKind,
};

verus! {

// ---------------------------------------------------------------------------
// Entries
// ---------------------------------------------------------------------------

/// How what is at `path` is listed.
pub open spec fn entry_at_path(site: Site, path: Seq<Part>, stat: FileStat) -> Result<
    ListedEntry,
    ToolFailure,
> {
    match stat.kind {
        FileKind::Directory => Ok(
            ListedEntry {
                path: shown(site.root, path),
                kind: WorkspaceEntryKind::Directory,
                size_bytes: None,
            },
        ),
        FileKind::File => Ok(
            ListedEntry {
                path: shown(site.root, path),
                kind: WorkspaceEntryKind::File,
                size_bytes: Some(stat.len),
            },
        ),
        FileKind::Other => Err(
            ToolFailure::InvalidArgument(
                "unsupported entry type: "@ + full_text(path, site.separator),
            ),
        ),
    }
}

/// How what is at `path` is listed.
pub fn workspace_entry(ws: &Workspace, path: &Vec<PathPart>, stat: FileStat) -> (r: Result<
    WorkspaceEntry,
    ToolboxError,
>)
    ensures
        match entry_at_path(ws@, parts(path@), stat) {
            Ok(entry) => r is Ok && r->Ok_0@ == entry,
            Err(e) => r is Err && r->Err_0@ == e,
        },
{
    match stat.kind {
        FileKind::Directory => Ok(
            WorkspaceEntry {
                path: path_to_display(&ws.root, path),
                kind: WorkspaceEntryKind::Directory,
                size_bytes: None,
            },
        ),
        FileKind::File => Ok(
            WorkspaceEntry {
                path: path_to_display(&ws.root, path),
                kind: WorkspaceEntryKind::File,
                size_bytes: Some(stat.len),
            },
        ),
        FileKind::Other => Err(
            ToolboxError::InvalidArgument(
                labelled(
                    "unsupported entry type: ",
                    full_path_text(path, ws.separator).as_str(),
                ),
            ),
        ),
    }
}

// ---------------------------------------------------------------------------
// Listing
// ---------------------------------------------------------------------------

/// Where the listing of a directory stands.
#[derive(Debug)]
#[allow(inconsistent_fields)]
pub enum LsPhase {
    /// Asked what is to be listed.
    Kind { target: Vec<PathPart> },
    /// Asked for an entry, after those in `entries`.
    Entry { entries: Vec<WorkspaceEntry> },
    /// Asked what the entry at `path` is.
    Stat { path: Vec<PathPart>, entries: Vec<WorkspaceEntry> },
}

/// An [`LsPhase`] over sequences.
#[allow(inconsistent_fields)]
pub enum LsStage {
    Kind { target: Seq<Part> },
    Entry { entries: Seq<ListedEntry> },
    Stat { path: Seq<Part>, entries: Seq<ListedEntry> },
}

impl View for LsPhase {
    type V = LsStage;

    open spec fn view(&self) -> LsStage {
        match *self {
            LsPhase::Kind { target } => LsStage::Kind { target: parts(target@) },
            LsPhase::Entry { entries } => LsStage::Entry { entries: listed(entries@) },
            LsPhase::Stat { path, entries } => LsStage::Stat {
                path: parts(path@),
                entries: listed(entries@),
            },
        }
    }
}

impl LsStage {
    /// The kind of reply that the listing waits for.
    pub open spec fn awaits(self) -> ReplyKind {
        match self {
            LsStage::Kind { .. } => ReplyKind::Status,
            LsStage::Entry { .. } => ReplyKind::Entry,
            LsStage::Stat { .. } => ReplyKind::Status,
        }
    }
}

impl LsPhase {
    /// The kind of reply that is waited for.
    pub fn awaits(&self) -> (r: ReplyKind)
        ensures
            r == self@.awaits(),
    {
        match self {
            LsPhase::Kind { .. } => ReplyKind::Status,
            LsPhase::Entry { .. } => ReplyKind::Entry,
            LsPhase::Stat { .. } => ReplyKind::Status,
        }
    }
}

/// A finished list: in the order of the paths.
pub open spec fn listing(entries: Seq<ListedEntry>, truncated: bool) -> Report {
    Report::Ls { entries: in_order::<WorkspaceEntry>(entries), truncated }
}

/// Starts to list what is at `target`.
pub open spec fn ls_start(target: Seq<Part>) -> Step<Seq<Part>, LsStage, Report, ToolFailure> {
    Step::Ask(FsRequest::Stat(target), LsStage::Kind { target })
}

/// Goes on with a listing of at most `max_entries` entries. A file is listed
/// alone. Entries that a recursive listing cannot reach are left out.
pub open spec fn ls_next(
    site: Site,
    recursive: bool,
    max_entries: usize,
    stage: LsStage,
    reply: FsReply,
) -> Step<Seq<Part>, LsStage, Report, ToolFailure> {
    match stage {
        LsStage::Kind { target } => match reply->Status_0 {
            Ok(stat) => match stat.kind {
                FileKind::File => match entry_at_path(site, target, stat) {
                    Ok(entry) => Step::Done(
                        Report::Ls { entries: seq![entry], truncated: false },
                    ),
                    Err(e) => Step::Failed(e),
                },
                FileKind::Directory => Step::Ask(
                    if recursive {
                        FsRequest::Walk(target, 1)
                    } else {
                        FsRequest::ReadDir(target)
                    },
                    LsStage::Entry { entries: seq![] },
                ),
                FileKind::Other => Step::Failed(
                    ToolFailure::NotADirectory(full_text(target, site.separator)),
                ),
            },
            Err(_) => Step::Failed(ToolFailure::NotADirectory(full_text(target, site.separator))),
        },
        LsStage::Entry { entries } => match reply->Entry_0 {
            NextEntry::Found(entry) => Step::Ask(
                FsRequest::Stat(parts(entry.path@)),
                LsStage::Stat { path: parts(entry.path@), entries },
            ),
            NextEntry::Failed(error) => if recursive {
                Step::Ask(FsRequest::NextEntry, LsStage::Entry { entries })
            } else {
                Step::Failed(ToolFailure::Io(error.message@))
            },
            NextEntry::End => Step::Done(listing(entries, false)),
        },
        LsStage::Stat { path, entries } => match reply->Status_0 {
            Ok(stat) => match entry_at_path(site, path, stat) {
                Ok(entry) => {
                    let more = entries.push(entry);
                    if more.len() >= max_entries {
                        Step::Done(listing(more, true))
                    } else {
                        Step::Ask(FsRequest::NextEntry, LsStage::Entry { entries: more })
                    }
                },
                Err(e) => Step::Failed(e),
            },
            Err(error) => Step::Failed(ToolFailure::Io(error.message@)),
        },
    }
}

fn list_output(entries: Vec<WorkspaceEntry>, truncated: bool) -> (r: WorkspaceCommandOutput)
    ensures
        r@ == listing(listed(entries@), truncated),
{
    assert(contents(entries@) =~= listed(entries@));
    let entries = sort(entries);
    assert(contents(entries@) =~= listed(entries@));
    WorkspaceCommandOutput::Ls { entries, truncated }
}

/// Starts to list what is at `target`.
pub fn list_directory(target: Vec<PathPart>) -> (r: Step<
    Vec<PathPart>,
    LsPhase,
    WorkspaceCommandOutput,
    ToolboxError,
>)
    ensures
        r@ == ls_start(parts(target@)),
{
    let asked = copy_path_parts(&target);
    Step::Ask(FsRequest::Stat(asked), LsPhase::Kind { target })
}

/// Goes on with a listing of at most `max_entries` entries.
pub fn resume_list(
    ws: &Workspace,
    recursive: bool,
    max_entries: usize,
    phase: LsPhase,
    reply: FsReply,
) -> (r: Step<Vec<PathPart>, LsPhase, WorkspaceCommandOutput, ToolboxError>)
    requires
        reply.kind_of() == phase@.awaits(),
    ensures
        r@ == ls_next(ws@, recursive, max_entries, phase@, reply),
{
    match phase {
        LsPhase::Kind { target } => match reply {
            FsReply::Status(Ok(stat)) => match stat.kind {
                FileKind::File => match workspace_entry(ws, &target, stat) {
                    Ok(entry) => {
                        let entries = vec![entry];
                        assert(listed(entries@) =~= seq![entry@]);
                        Step::Done(WorkspaceCommandOutput::Ls { entries, truncated: false })
                    },
                    Err(e) => Step::Failed(e),
                },
                FileKind::Directory => {
                    let entries: Vec<WorkspaceEntry> = Vec::new();
                    assert(listed(entries@) =~= seq![]);
                    let request = if recursive {
                        FsRequest::Walk(target, 1)
                    } else {
                        FsRequest::ReadDir(target)
                    };
                    Step::Ask(request, LsPhase::Entry { entries })
                },
                FileKind::Other => Step::Failed(
                    ToolboxError::NotADirectory(full_path_text(&target, ws.separator)),
                ),
            },
            FsReply::Status(Err(_)) => Step::Failed(
                ToolboxError::NotADirectory(full_path_text(&target, ws.separator)),
            ),
            _ => unreached(),
        },
        LsPhase::Entry { entries } => match reply {
            FsReply::Entry(NextEntry::Found(entry)) => {
                let asked = copy_path_parts(&entry.path);
                Step::Ask(FsRequest::Stat(asked), LsPhase::Stat { path: entry.path, entries })
            },
            FsReply::Entry(NextEntry::Failed(error)) => if recursive {
                Step::Ask(FsRequest::NextEntry, LsPhase::Entry { entries })
            } else {
                Step::Failed(io_error(error))
            },
            FsReply::Entry(NextEntry::End) => Step::Done(list_output(entries, false)),
            _ => unreached(),
        },
        LsPhase::Stat { path, entries } => match reply {
            FsReply::Status(Ok(stat)) => match workspace_entry(ws, &path, stat) {
                Ok(entry) => {
                    let mut more = entries;
                    more.push(entry);
                    assert(listed(more@) =~= listed(entries@).push(entry@));
                    if more.len() >= max_entries {
                        Step::Done(list_output(more, true))
                    } else {
                        Step::Ask(FsRequest::NextEntry, LsPhase::Entry { entries: more })
                    }
                },
                Err(e) => Step::Failed(e),
            },
            FsReply::Status(Err(error)) => Step::Failed(io_error(error)),
            _ => unreached(),
        },
    }
}

// ---------------------------------------------------------------------------
// Finding
// ---------------------------------------------------------------------------

/// Where the search for paths stands.
#[derive(Debug)]
#[allow(inconsistent_fields)]
pub enum FindPhase {
    /// Asked what is at the path to search below.
    Kind { target: Vec<PathPart>, glob: Option<Regex> },
    /// Asked for an entry, after `paths` were found.
    Entry { glob: Option<Regex>, paths: Vec<String> },
}

/// A [`FindPhase`] over sequences, with the pattern of the glob.
#[allow(inconsistent_fields)]
pub enum FindStage {
    Kind { target: Seq<Part>, glob: Option<Seq<char>> },
    Entry { glob: Option<Seq<char>>, paths: Seq<Seq<char>> },
}

impl View for FindPhase {
    type V = FindStage;

    open spec fn view(&self) -> FindStage {
        match *self {
            FindPhase::Kind { target, glob } => FindStage::Kind {
                target: parts(target@),
                glob: pattern_text(glob),
            },
            FindPhase::Entry { glob, paths } => FindStage::Entry {
                glob: pattern_text(glob),
                paths: texts(paths@),
            },
        }
    }
}

impl FindStage {
    /// The kind of reply that the search waits for.
    pub open spec fn awaits(self) -> ReplyKind {
        match self {
            FindStage::Kind { .. } => ReplyKind::Status,
            FindStage::Entry { .. } => ReplyKind::Entry,
        }
    }
}

impl FindPhase {
    /// The kind of reply that is waited for.
    pub fn awaits(&self) -> (r: ReplyKind)
        ensures
            r == self@.awaits(),
    {
        match self {
            FindPhase::Kind { .. } => ReplyKind::Status,
            FindPhase::Entry { .. } => ReplyKind::Entry,
        }
    }
}

/// The pattern of an optional glob, or why it has none.
pub open spec fn glob_or_error(glob: Option<Seq<char>>) -> Result<Option<Seq<char>>, Seq<char>> {
    match glob {
        Some(glob) => match regex_error(glob_regex(glob), usize::BITS as nat) {
            Some(message) => Err(message),
            None => Ok(Some(glob_regex(glob))),
        },
        None => Ok(None),
    }
}

/// Starts to find what is below `target`.
pub open spec fn find_start(target: Seq<Part>, glob: Option<Seq<char>>) -> Step<
    Seq<Part>,
    FindStage,
    Report,
    ToolFailure,
> {
    match glob_or_error(glob) {
        Err(message) => Step::Failed(ToolFailure::InvalidGlob(message)),
        Ok(pattern) => Step::Ask(
            FsRequest::Stat(target),
            FindStage::Kind { target, glob: pattern },
        ),
    }
}

/// Goes on after an entry that is shown as `path`: it is kept where it is wanted.
pub open spec fn find_entry(
    glob: Option<Seq<char>>,
    paths: Seq<Seq<char>>,
    path: Seq<char>,
    wanted: bool,
    max_results: usize,
) -> Step<Seq<Part>, FindStage, Report, ToolFailure> {
    let more = paths.push(path);
    if !wanted {
        Step::Ask(FsRequest::NextEntry, FindStage::Entry { glob, paths })
    } else if more.len() >= max_results {
        Step::Done(Report::Find { paths: in_order::<String>(more), truncated: true })
    } else {
        Step::Ask(FsRequest::NextEntry, FindStage::Entry { glob, paths: more })
    }
}

/// What is found where the path to search below is a file, shown as `path`.
pub open spec fn find_in_file(path: Seq<char>, wanted: bool) -> Report {
    Report::Find {
        paths: if wanted {
            seq![path]
        } else {
            seq![]
        },
        truncated: false,
    }
}

/// Goes on with the search for at most `max_results` paths. What cannot be
/// reached is left out.
pub open spec fn find_next(
    site: Site,
    max_results: usize,
    stage: FindStage,
    reply: FsReply,
) -> Step<Seq<Part>, FindStage, Report, ToolFailure> {
    match stage {
        FindStage::Kind { target, glob } => {
            let path = shown(site.root, target);
            if reply->Status_0 is Ok && reply->Status_0->Ok_0.kind == FileKind::File {
                Step::Done(find_in_file(path, glob_admits(glob, path)))
            } else {
                Step::Ask(FsRequest::Walk(target, 1), FindStage::Entry { glob, paths: seq![] })
            }
        },
        FindStage::Entry { glob, paths } => match reply->Entry_0 {
            NextEntry::Found(entry) => {
                let path = shown(site.root, parts(entry.path@));
                find_entry(glob, paths, path, glob_admits(glob, path), max_results)
            },
            NextEntry::Failed(_) => Step::Ask(
                FsRequest::NextEntry,
                FindStage::Entry { glob, paths },
            ),
            NextEntry::End => Step::Done(
                Report::Find { paths: in_order::<String>(paths), truncated: false },
            ),
        },
    }
}

fn find_output(paths: Vec<String>, truncated: bool) -> (r: WorkspaceCommandOutput)
    ensures
        r@ == (Report::Find { paths: in_order::<String>(texts(paths@)), truncated }),
{
    assert(contents(paths@) =~= texts(paths@));
    let paths = sort(paths);
    assert(contents(paths@) =~= texts(paths@));
    WorkspaceCommandOutput::Find { paths, truncated }
}

/// What is found where the path to search below is a file, shown as `path`,
/// given whether the glob wants it.
pub fn find_file(path: String, wanted: bool) -> (r: WorkspaceCommandOutput)
    ensures
        r@ == find_in_file(path@, wanted),
{
    let mut paths: Vec<String> = Vec::new();
    assert(texts(paths@) =~= seq![]);
    if wanted {
        paths.push(path);
        assert(texts(paths@) =~= seq![path@]);
    }
    WorkspaceCommandOutput::Find { paths, truncated: false }
}

/// Goes on after an entry that is shown as `path`, given whether the glob wants
/// it.
pub fn take_found(
    glob: Option<Regex>,
    paths: Vec<String>,
    path: String,
    wanted: bool,
    max_results: usize,
) -> (r: Step<Vec<PathPart>, FindPhase, WorkspaceCommandOutput, ToolboxError>)
    ensures
        r@ == find_entry(pattern_text(glob), texts(paths@), path@, wanted, max_results),
{
    if !wanted {
        return Step::Ask(FsRequest::NextEntry, FindPhase::Entry { glob, paths });
    }
    let mut more = paths;
    more.push(path);
    assert(texts(more@) =~= texts(paths@).push(path@));
    if more.len() >= max_results {
        Step::Done(find_output(more, true))
    } else {
        Step::Ask(FsRequest::NextEntry, FindPhase::Entry { glob, paths: more })
    }
}

/// The compiled form of an optional glob, or in words why it has none.
pub(crate) fn compile_optional_glob(glob: &Option<String>) -> (r: Result<Option<Regex>, String>)
    ensures
        match glob_or_error(optional_text(*glob)) {
            Ok(pattern) => r is Ok && pattern_text(r->Ok_0) == pattern,
            Err(message) => r is Err && r->Err_0@ == message,
        },
{
    match glob {
        Some(glob) => match compile_glob(glob.as_str()) {
            Ok(re) => Ok(Some(re)),
            Err(message) => Err(message),
        },
        None => Ok(None),
    }
}

/// The characters of an optional text.
pub open spec fn optional_text(text: Option<String>) -> Option<Seq<char>> {
    match text {
        Some(text) => Some(text@),
        None => None,
    }
}

/// Starts to find what is below `target`.
pub fn find_paths(target: Vec<PathPart>, glob: &Option<String>) -> (r: Step<
    Vec<PathPart>,
    FindPhase,
    WorkspaceCommandOutput,
    ToolboxError,
>)
    ensures
        r@ == find_start(parts(target@), optional_text(*glob)),
{
    match compile_optional_glob(glob) {
        Ok(glob) => {
            let asked = copy_path_parts(&target);
            Step::Ask(FsRequest::Stat(asked), FindPhase::Kind { target, glob })
        },
        Err(message) => Step::Failed(ToolboxError::InvalidGlob(message)),
    }
}

/// Goes on with the search for at most `max_results` paths.
pub fn resume_find(ws: &Workspace, max_results: usize, phase: FindPhase, reply: FsReply) -> (r:
    Step<Vec<PathPart>, FindPhase, WorkspaceCommandOutput, ToolboxError>)
    requires
        reply.kind_of() == phase@.awaits(),
    ensures
        r@ == find_next(ws@, max_results, phase@, reply),
{
    match phase {
        FindPhase::Kind { target, glob } => match reply {
            FsReply::Status(Ok(FileStat { kind: FileKind::File, len: _ })) => {
                let path = path_to_display(&ws.root, &target);
                let wanted = admits(&glob, path.as_str());
                Step::Done(find_file(path, wanted))
            },
            FsReply::Status(_) => {
                let paths: Vec<String> = Vec::new();
                assert(texts(paths@) =~= seq![]);
                Step::Ask(FsRequest::Walk(target, 1), FindPhase::Entry { glob, paths })
            },
            _ => unreached(),
        },
        FindPhase::Entry { glob, paths } => match reply {
            FsReply::Entry(NextEntry::Found(entry)) => {
                let path = path_to_display(&ws.root, &entry.path);
                let wanted = admits(&glob, path.as_str());
                take_found(glob, paths, path, wanted, max_results)
            },
            FsReply::Entry(NextEntry::Failed(_)) => Step::Ask(
                FsRequest::NextEntry,
                FindPhase::Entry { glob, paths },
            ),
            FsReply::Entry(NextEntry::End) => Step::Done(find_output(paths, false)),
            _ => unreached(),
        },
    }
}

} // verus!
