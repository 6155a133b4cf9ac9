//! Running a command on a workspace.
//!
//! A run asks the file system for one thing at a time. It starts with
//! [`run_workspace_command`] and goes on with [`WorkspaceRun::resume`].

use vstd::pervasive::unreached;
use vstd::prelude::*;

use crate::errors::{ToolFailure, ToolboxError};
use crate::fs::{FileKind, FileStat, FsReply, FsRequest, ReplyKind, Step};
use crate::grep::{grep_next, grep_path, grep_start, resume_grep, GrepPhase, GrepStage, GrepTerms};
use crate::listing::{
    find_next, find_paths, find_start, list_directory, ls_next, ls_start, optional_text,
    resume_find, resume_list, FindPhase, FindStage, LsPhase, LsStage,
};
use crate::mutation::{
    make_directory, mkdir_next, mkdir_start, remove_next, remove_path, remove_start, resume_mkdir,
    resume_remove, MkdirPhase, MkdirStage, RemovePhase, RemoveStage,
};
use crate::paths::{
    copy_path_parts, parts, path_to_display, reads_plainly, shown, slash_parts, Part, PathPart,
};
use crate::reading::{read_next, read_start, read_text_file, resume_read, ReadPhase, ReadStage};
use crate::resolve::{
    candidate_path, existing_path, io_error, named_path, path_or_failure, resolve_existing_path,
    Site, Workspace,
};
use crate::toolbox::{
    count_words, counted_text, first_lines, head_lines, last_lines, tail_lines, Report,
    WorkspaceCommand, WorkspaceCommandOutput, TOOLBOX_DEFAULT_MAX_COPY_BYTES,
    TOOLBOX_DEFAULT_MAX_FIND_RESULTS, TOOLBOX_DEFAULT_MAX_LIST_ENTRIES,
    TOOLBOX_DEFAULT_MAX_MUTATION_ENTRIES, TOOLBOX_DEFAULT_MAX_READ_BYTES,
};
use crate::transfer::{
    copy_next, copy_path, copy_start, destination_next, destination_start, move_next, move_path,
    move_start, resolve_copy_move_destination, resume_copy, resume_destination, resume_move,
    CopyPhase, CopyRules, CopyStage, DestinationPhase, DestinationStage, MovePhase, MoveStage,
    Route, Way,
};

verus! {

/// What is made of the text of a file.
#[derive(Debug, Clone, Copy, PartialEq, Eq, Structural)]
pub enum TextUse {
    Whole,
    Head(usize),
    Tail(usize),
    Count,
}

/// What is done to a path that exists.
#[derive(Debug)]
#[allow(inconsistent_fields)]
pub enum Goal {
    Ls { recursive: bool, max_entries: usize },
    Find { glob: Option<String>, max_results: usize },
    Grep { terms: GrepTerms },
    Cp { destination: String, rules: CopyRules },
    Mv { destination: String, overwrite: bool },
    Rm { recursive: bool, max_entries: usize },
}

/// Whether something is copied or moved.
#[derive(Debug, Clone, Copy, PartialEq, Eq, Structural)]
pub enum Transfer {
    Copy(CopyRules),
    Move(bool),
}

/// Where a command stands.
#[derive(Debug)]
#[allow(inconsistent_fields)]
pub enum Phase {
    /// Asked where the workspace root, shown as `text`, is.
    Root { text: String, command: WorkspaceCommand },
    /// Asked what is there.
    RootKind { text: String, canonical: Vec<PathPart>, command: WorkspaceCommand },
    /// Asked where the path that the caller named as `input` is.
    Target { input: String, goal: Goal },
    Read { purpose: TextUse, max_bytes: u64, phase: ReadPhase },
    Ls { recursive: bool, max_entries: usize, phase: LsPhase },
    Find { max_results: usize, phase: FindPhase },
    Grep { terms: GrepTerms, phase: GrepPhase },
    Mkdir { input: String, parents: bool, phase: MkdirPhase },
    Destination { transfer: Transfer, phase: DestinationPhase },
    Copy { rules: CopyRules, phase: CopyPhase },
    Move { overwrite: bool, phase: MovePhase },
    Remove { recursive: bool, max_entries: usize, phase: RemovePhase },
}

/// A [`Phase`] over sequences.
#[allow(inconsistent_fields)]
pub enum Stage {
    Root { text: Seq<char>, command: WorkspaceCommand },
    RootKind { text: Seq<char>, canonical: Seq<Part>, command: WorkspaceCommand },
    Target { input: Seq<char>, goal: Goal },
    Read { purpose: TextUse, max_bytes: u64, stage: ReadStage },
    Ls { recursive: bool, max_entries: usize, stage: LsStage },
    Find { max_results: usize, stage: FindStage },
    Grep { terms: GrepTerms, stage: GrepStage },
    Mkdir { input: Seq<char>, parents: bool, stage: MkdirStage },
    Destination { transfer: Transfer, stage: DestinationStage },
    Copy { rules: CopyRules, stage: CopyStage },
    Move { overwrite: bool, stage: MoveStage },
    Remove { recursive: bool, max_entries: usize, stage: RemoveStage },
}

impl View for Phase {
    type V = Stage;

    open spec fn view(&self) -> Stage {
        match *self {
            Phase::Root { text, command } => Stage::Root { text: text@, command },
            Phase::RootKind { text, canonical, command } => Stage::RootKind {
                text: text@,
                canonical: parts(canonical@),
                command,
            },
            Phase::Target { input, goal } => Stage::Target { input: input@, goal },
            Phase::Read { purpose, max_bytes, phase } => Stage::Read {
                purpose,
                max_bytes,
                stage: phase@,
            },
            Phase::Ls { recursive, max_entries, phase } => Stage::Ls {
                recursive,
                max_entries,
                stage: phase@,
            },
            Phase::Find { max_results, phase } => Stage::Find { max_results, stage: phase@ },
            Phase::Grep { terms, phase } => Stage::Grep { terms, stage: phase@ },
            Phase::Mkdir { input, parents, phase } => Stage::Mkdir {
                input: input@,
                parents,
                stage: phase@,
            },
            Phase::Destination { transfer, phase } => Stage::Destination {
                transfer,
                stage: phase@,
            },
            Phase::Copy { rules, phase } => Stage::Copy { rules, stage: phase@ },
            Phase::Move { overwrite, phase } => Stage::Move { overwrite, stage: phase@ },
            Phase::Remove { recursive, max_entries, phase } => Stage::Remove {
                recursive,
                max_entries,
                stage: phase@,
            },
        }
    }
}

impl Stage {
    /// The kind of reply that the command waits for.
    pub open spec fn awaits(self) -> ReplyKind {
        match self {
            Stage::Root { .. } => ReplyKind::Path,
            Stage::RootKind { .. } => ReplyKind::Status,
            Stage::Target { .. } => ReplyKind::Path,
            Stage::Read { stage, .. } => stage.awaits(),
            Stage::Ls { stage, .. } => stage.awaits(),
            Stage::Find { stage, .. } => stage.awaits(),
            Stage::Grep { stage, .. } => stage.awaits(),
            Stage::Mkdir { stage, .. } => stage.awaits(),
            Stage::Destination { stage, .. } => stage.awaits(),
            Stage::Copy { stage, .. } => stage.awaits(),
            Stage::Move { stage, .. } => stage.awaits(),
            Stage::Remove { stage, .. } => stage.awaits(),
        }
    }
}

impl Phase {
    /// The kind of reply that is waited for.
    pub fn awaits(&self) -> (r: ReplyKind)
        ensures
            r == self@.awaits(),
    {
        match self {
            Phase::Root { .. } => ReplyKind::Path,
            Phase::RootKind { .. } => ReplyKind::Status,
            Phase::Target { .. } => ReplyKind::Path,
            Phase::Read { phase, .. } => phase.awaits(),
            Phase::Ls { phase, .. } => phase.awaits(),
            Phase::Find { phase, .. } => phase.awaits(),
            Phase::Grep { phase, .. } => phase.awaits(),
            Phase::Mkdir { phase, .. } => phase.awaits(),
            Phase::Destination { phase, .. } => phase.awaits(),
            Phase::Copy { phase, .. } => phase.awaits(),
            Phase::Move { phase, .. } => phase.awaits(),
            Phase::Remove { phase, .. } => phase.awaits(),
        }
    }
}

/// A command that waits for a reply. The root of the workspace is the one that
/// the caller gave until the file system has told where it is.
#[derive(Debug)]
pub struct WorkspaceRun {
    pub workspace: Workspace,
    pub phase: Phase,
}

/// A [`WorkspaceRun`] over sequences.
pub struct RunState {
    pub site: Site,
    pub stage: Stage,
}

impl View for WorkspaceRun {
    type V = RunState;

    open spec fn view(&self) -> RunState {
        RunState { site: self.workspace@, stage: self.phase@ }
    }
}

// ---------------------------------------------------------------------------
// The steps of each command as steps of a run
// ---------------------------------------------------------------------------

/// A step of a part of the command as a step of the command.
pub open spec fn part_step<S>(
    step: Step<Seq<Part>, S, Report, ToolFailure>,
    wrap: spec_fn(S) -> Stage,
) -> Step<Seq<Part>, Stage, Report, ToolFailure> {
    match step {
        Step::Ask(request, stage) => Step::Ask(request, wrap(stage)),
        Step::Done(report) => Step::Done(report),
        Step::Failed(failure) => Step::Failed(failure),
    }
}

/// What a command returns of the text of a file.
pub open spec fn text_report(purpose: TextUse, content: Seq<char>) -> Report {
    match purpose {
        TextUse::Whole => Report::Cat { content },
        TextUse::Head(lines) => Report::Head { content: first_lines(content, lines as int) },
        TextUse::Tail(lines) => Report::Tail { content: last_lines(content, lines as int) },
        TextUse::Count => Report::Wc { counts: counted_text(content) },
    }
}

/// A step of the reading of a file as a step of the command.
pub open spec fn read_step(
    purpose: TextUse,
    max_bytes: u64,
    step: Step<Seq<Part>, ReadStage, Seq<char>, ToolFailure>,
) -> Step<Seq<Part>, Stage, Report, ToolFailure> {
    match step {
        Step::Ask(request, stage) => Step::Ask(request, Stage::Read { purpose, max_bytes, stage }),
        Step::Done(content) => Step::Done(text_report(purpose, content)),
        Step::Failed(failure) => Step::Failed(failure),
    }
}

/// A step of a listing as a step of the command.
pub open spec fn ls_step(
    recursive: bool,
    max_entries: usize,
    step: Step<Seq<Part>, LsStage, Report, ToolFailure>,
) -> Step<Seq<Part>, Stage, Report, ToolFailure> {
    part_step(step, |stage: LsStage| Stage::Ls { recursive, max_entries, stage })
}

/// A step of a search for paths as a step of the command.
pub open spec fn find_step(
    max_results: usize,
    step: Step<Seq<Part>, FindStage, Report, ToolFailure>,
) -> Step<Seq<Part>, Stage, Report, ToolFailure> {
    part_step(step, |stage: FindStage| Stage::Find { max_results, stage })
}

/// A step of a search for lines as a step of the command.
pub open spec fn grep_step(
    terms: GrepTerms,
    step: Step<Seq<Part>, GrepStage, Report, ToolFailure>,
) -> Step<Seq<Part>, Stage, Report, ToolFailure> {
    part_step(step, |stage: GrepStage| Stage::Grep { terms, stage })
}

/// A step of the making of a directory as a step of the command.
pub open spec fn mkdir_step(
    input: Seq<char>,
    parents: bool,
    step: Step<Seq<Part>, MkdirStage, Report, ToolFailure>,
) -> Step<Seq<Part>, Stage, Report, ToolFailure> {
    part_step(step, |stage: MkdirStage| Stage::Mkdir { input, parents, stage })
}

/// A step of a copy as a step of the command.
pub open spec fn copy_step(
    rules: CopyRules,
    step: Step<Seq<Part>, CopyStage, Report, ToolFailure>,
) -> Step<Seq<Part>, Stage, Report, ToolFailure> {
    part_step(step, |stage: CopyStage| Stage::Copy { rules, stage })
}

/// A step of a move as a step of the command.
pub open spec fn move_step(
    overwrite: bool,
    step: Step<Seq<Part>, MoveStage, Report, ToolFailure>,
) -> Step<Seq<Part>, Stage, Report, ToolFailure> {
    part_step(step, |stage: MoveStage| Stage::Move { overwrite, stage })
}

/// A step of a removal as a step of the command.
pub open spec fn remove_step(
    recursive: bool,
    max_entries: usize,
    step: Step<Seq<Part>, RemoveStage, Report, ToolFailure>,
) -> Step<Seq<Part>, Stage, Report, ToolFailure> {
    part_step(step, |stage: RemoveStage| Stage::Remove { recursive, max_entries, stage })
}

/// A step of the search for a destination as a step of the command: once it is
/// found, the copy or the move starts.
pub open spec fn destination_step(
    transfer: Transfer,
    step: Step<Seq<Part>, DestinationStage, Way, ToolFailure>,
) -> Step<Seq<Part>, Stage, Report, ToolFailure> {
    match step {
        Step::Ask(request, stage) => Step::Ask(request, Stage::Destination { transfer, stage }),
        Step::Done(way) => match transfer {
            Transfer::Copy(rules) => copy_step(rules, copy_start(way)),
            Transfer::Move(overwrite) => move_step(overwrite, move_start(way)),
        },
        Step::Failed(failure) => Step::Failed(failure),
    }
}

fn text_output(purpose: TextUse, content: String) -> (r: WorkspaceCommandOutput)
    ensures
        r@ == text_report(purpose, content@),
{
    match purpose {
        TextUse::Whole => WorkspaceCommandOutput::Cat { content },
        TextUse::Head(lines) => WorkspaceCommandOutput::Head {
            content: head_lines(content.as_str(), lines),
        },
        TextUse::Tail(lines) => WorkspaceCommandOutput::Tail {
            content: tail_lines(content.as_str(), lines),
        },
        TextUse::Count => WorkspaceCommandOutput::Wc { counts: count_words(content.as_str()) },
    }
}

fn as_read_step(
    purpose: TextUse,
    max_bytes: u64,
    step: Step<Vec<PathPart>, ReadPhase, String, ToolboxError>,
) -> (r: Step<Vec<PathPart>, Phase, WorkspaceCommandOutput, ToolboxError>)
    ensures
        r@ == read_step(purpose, max_bytes, step@),
{
    match step {
        Step::Ask(request, phase) => Step::Ask(request, Phase::Read { purpose, max_bytes, phase }),
        Step::Done(content) => Step::Done(text_output(purpose, content)),
        Step::Failed(error) => Step::Failed(error),
    }
}

fn as_ls_step(
    recursive: bool,
    max_entries: usize,
    step: Step<Vec<PathPart>, LsPhase, WorkspaceCommandOutput, ToolboxError>,
) -> (r: Step<Vec<PathPart>, Phase, WorkspaceCommandOutput, ToolboxError>)
    ensures
        r@ == ls_step(recursive, max_entries, step@),
{
    match step {
        Step::Ask(request, phase) => Step::Ask(
            request,
            Phase::Ls { recursive, max_entries, phase },
        ),
        Step::Done(output) => Step::Done(output),
        Step::Failed(error) => Step::Failed(error),
    }
}

fn as_find_step(
    max_results: usize,
    step: Step<Vec<PathPart>, FindPhase, WorkspaceCommandOutput, ToolboxError>,
) -> (r: Step<Vec<PathPart>, Phase, WorkspaceCommandOutput, ToolboxError>)
    ensures
        r@ == find_step(max_results, step@),
{
    match step {
        Step::Ask(request, phase) => Step::Ask(request, Phase::Find { max_results, phase }),
        Step::Done(output) => Step::Done(output),
        Step::Failed(error) => Step::Failed(error),
    }
}

fn as_grep_step(
    terms: GrepTerms,
    step: Step<Vec<PathPart>, GrepPhase, WorkspaceCommandOutput, ToolboxError>,
) -> (r: Step<Vec<PathPart>, Phase, WorkspaceCommandOutput, ToolboxError>)
    ensures
        r@ == grep_step(terms, step@),
{
    match step {
        Step::Ask(request, phase) => Step::Ask(request, Phase::Grep { terms, phase }),
        Step::Done(output) => Step::Done(output),
        Step::Failed(error) => Step::Failed(error),
    }
}

fn as_mkdir_step(
    input: String,
    parents: bool,
    step: Step<Vec<PathPart>, MkdirPhase, WorkspaceCommandOutput, ToolboxError>,
) -> (r: Step<Vec<PathPart>, Phase, WorkspaceCommandOutput, ToolboxError>)
    ensures
        r@ == mkdir_step(input@, parents, step@),
{
    match step {
        Step::Ask(request, phase) => Step::Ask(request, Phase::Mkdir { input, parents, phase }),
        Step::Done(output) => Step::Done(output),
        Step::Failed(error) => Step::Failed(error),
    }
}

fn as_copy_step(
    rules: CopyRules,
    step: Step<Vec<PathPart>, CopyPhase, WorkspaceCommandOutput, ToolboxError>,
) -> (r: Step<Vec<PathPart>, Phase, WorkspaceCommandOutput, ToolboxError>)
    ensures
        r@ == copy_step(rules, step@),
{
    match step {
        Step::Ask(request, phase) => Step::Ask(request, Phase::Copy { rules, phase }),
        Step::Done(output) => Step::Done(output),
        Step::Failed(error) => Step::Failed(error),
    }
}

fn as_move_step(
    overwrite: bool,
    step: Step<Vec<PathPart>, MovePhase, WorkspaceCommandOutput, ToolboxError>,
) -> (r: Step<Vec<PathPart>, Phase, WorkspaceCommandOutput, ToolboxError>)
    ensures
        r@ == move_step(overwrite, step@),
{
    match step {
        Step::Ask(request, phase) => Step::Ask(request, Phase::Move { overwrite, phase }),
        Step::Done(output) => Step::Done(output),
        Step::Failed(error) => Step::Failed(error),
    }
}

fn as_remove_step(
    recursive: bool,
    max_entries: usize,
    step: Step<Vec<PathPart>, RemovePhase, WorkspaceCommandOutput, ToolboxError>,
) -> (r: Step<Vec<PathPart>, Phase, WorkspaceCommandOutput, ToolboxError>)
    ensures
        r@ == remove_step(recursive, max_entries, step@),
{
    match step {
        Step::Ask(request, phase) => Step::Ask(
            request,
            Phase::Remove { recursive, max_entries, phase },
        ),
        Step::Done(output) => Step::Done(output),
        Step::Failed(error) => Step::Failed(error),
    }
}

fn as_destination_step(
    transfer: Transfer,
    step: Step<Vec<PathPart>, DestinationPhase, Route, ToolboxError>,
) -> (r: Step<Vec<PathPart>, Phase, WorkspaceCommandOutput, ToolboxError>)
    ensures
        r@ == destination_step(transfer, step@),
{
    match step {
        Step::Ask(request, phase) => Step::Ask(request, Phase::Destination { transfer, phase }),
        Step::Done(route) => match transfer {
            Transfer::Copy(rules) => as_copy_step(rules, copy_path(route)),
            Transfer::Move(overwrite) => as_move_step(overwrite, move_path(route)),
        },
        Step::Failed(error) => Step::Failed(error),
    }
}

// ---------------------------------------------------------------------------
// The start of each command
// ---------------------------------------------------------------------------

/// A limit that the caller may leave open.
pub open spec fn or_default<N>(limit: Option<N>, default: N) -> N {
    match limit {
        Some(n) => n,
        None => default,
    }
}

fn size_or(limit: Option<u64>, default: u64) -> (r: u64)
    ensures
        r == or_default(limit, default),
{
    match limit {
        Some(n) => n,
        None => default,
    }
}

fn count_or(limit: Option<usize>, default: usize) -> (r: usize)
    ensures
        r == or_default(limit, default),
{
    match limit {
        Some(n) => n,
        None => default,
    }
}

/// The path that a command works on: the root, where the caller names none.
pub open spec fn path_or_root(path: Option<String>) -> Seq<char> {
    match path {
        Some(path) => path@,
        None => "."@,
    }
}

fn path_or_root_text(path: Option<String>) -> (r: String)
    ensures
        r@ == path_or_root(path),
{
    match path {
        Some(path) => path,
        None => ".".to_owned(),
    }
}

/// Starts to look for a path that must exist.
pub open spec fn target_start(
    site: Site,
    reader: spec_fn(Seq<char>) -> Seq<Part>,
    input: Seq<char>,
    goal: Goal,
) -> Step<Seq<Part>, Stage, Report, ToolFailure> {
    match named_path(site, reader, input, true) {
        Ok(path) => Step::Ask(FsRequest::Canonicalize(path), Stage::Target { input, goal }),
        Err(failure) => Step::Failed(failure),
    }
}

/// What a command starts with, once the workspace root is known.
#[derive(Debug)]
#[allow(inconsistent_fields)]
pub enum Opening {
    /// Nothing but the root is asked for.
    Pwd,
    /// The path `input` must exist.
    Target { input: String, goal: Goal },
    /// The text of the file `input` is read.
    Read { input: String, purpose: TextUse, max_bytes: u64 },
    /// The directory `input` is made.
    Mkdir { input: String, parents: bool },
}

/// An [`Opening`] over sequences.
#[allow(inconsistent_fields)]
pub enum OpeningMove {
    Pwd,
    Target { input: Seq<char>, goal: Goal },
    Read { input: Seq<char>, purpose: TextUse, max_bytes: u64 },
    Mkdir { input: Seq<char>, parents: bool },
}

impl View for Opening {
    type V = OpeningMove;

    open spec fn view(&self) -> OpeningMove {
        match *self {
            Opening::Pwd => OpeningMove::Pwd,
            Opening::Target { input, goal } => OpeningMove::Target { input: input@, goal },
            Opening::Read { input, purpose, max_bytes } => OpeningMove::Read {
                input: input@,
                purpose,
                max_bytes,
            },
            Opening::Mkdir { input, parents } => OpeningMove::Mkdir { input: input@, parents },
        }
    }
}

/// What `command` starts with.
pub open spec fn opening_of(command: WorkspaceCommand) -> OpeningMove {
    match command {
        WorkspaceCommand::Pwd => OpeningMove::Pwd,
        WorkspaceCommand::Ls { path, recursive, max_entries } => OpeningMove::Target {
            input: path_or_root(path),
            goal: Goal::Ls {
                recursive,
                max_entries: or_default(max_entries, TOOLBOX_DEFAULT_MAX_LIST_ENTRIES),
            },
        },
        WorkspaceCommand::Cat { path, max_bytes } => OpeningMove::Read {
            input: path@,
            purpose: TextUse::Whole,
            max_bytes: or_default(max_bytes, TOOLBOX_DEFAULT_MAX_READ_BYTES),
        },
        WorkspaceCommand::Head { path, lines, max_bytes } => OpeningMove::Read {
            input: path@,
            purpose: TextUse::Head(lines),
            max_bytes: or_default(max_bytes, TOOLBOX_DEFAULT_MAX_READ_BYTES),
        },
        WorkspaceCommand::Tail { path, lines, max_bytes } => OpeningMove::Read {
            input: path@,
            purpose: TextUse::Tail(lines),
            max_bytes: or_default(max_bytes, TOOLBOX_DEFAULT_MAX_READ_BYTES),
        },
        WorkspaceCommand::Wc { path, max_bytes } => OpeningMove::Read {
            input: path@,
            purpose: TextUse::Count,
            max_bytes: or_default(max_bytes, TOOLBOX_DEFAULT_MAX_READ_BYTES),
        },
        WorkspaceCommand::Find { path, glob, max_results } => OpeningMove::Target {
            input: path_or_root(path),
            goal: Goal::Find {
                glob,
                max_results: or_default(max_results, TOOLBOX_DEFAULT_MAX_FIND_RESULTS),
            },
        },
        WorkspaceCommand::Grep {
            path,
            pattern,
            glob,
            max_results,
            max_file_bytes,
            max_total_bytes,
        } => OpeningMove::Target {
            input: path_or_root(path),
            goal: Goal::Grep {
                terms: GrepTerms { pattern, glob, max_results, max_file_bytes, max_total_bytes },
            },
        },
        WorkspaceCommand::Mkdir { path, parents } => OpeningMove::Mkdir { input: path@, parents },
        WorkspaceCommand::Cp {
            source,
            destination,
            recursive,
            overwrite,
            max_total_bytes,
            max_entries,
        } => OpeningMove::Target {
            input: source@,
            goal: Goal::Cp {
                destination,
                rules: CopyRules {
                    recursive,
                    overwrite,
                    max_total_bytes: or_default(max_total_bytes, TOOLBOX_DEFAULT_MAX_COPY_BYTES),
                    max_entries: or_default(max_entries, TOOLBOX_DEFAULT_MAX_MUTATION_ENTRIES),
                },
            },
        },
        WorkspaceCommand::Mv { source, destination, overwrite } => OpeningMove::Target {
            input: source@,
            goal: Goal::Mv { destination, overwrite },
        },
        WorkspaceCommand::Rm { path, recursive, max_entries } => OpeningMove::Target {
            input: path@,
            goal: Goal::Rm {
                recursive,
                max_entries: or_default(max_entries, TOOLBOX_DEFAULT_MAX_MUTATION_ENTRIES),
            },
        },
    }
}

/// Starts a command, once the workspace root is known.
pub open spec fn command_start(
    site: Site,
    reader: spec_fn(Seq<char>) -> Seq<Part>,
    command: WorkspaceCommand,
) -> Step<Seq<Part>, Stage, Report, ToolFailure> {
    match opening_of(command) {
        OpeningMove::Pwd => Step::Done(Report::Pwd { path: shown(site.root, site.root) }),
        OpeningMove::Target { input, goal } => target_start(site, reader, input, goal),
        OpeningMove::Read { input, purpose, max_bytes } => read_step(
            purpose,
            max_bytes,
            read_start(site, reader, input),
        ),
        OpeningMove::Mkdir { input, parents } => mkdir_step(
            input,
            parents,
            mkdir_start(site, reader, input),
        ),
    }
}

/// Goes on with a command, once the path that it works on is known.
pub open spec fn goal_start(
    site: Site,
    reader: spec_fn(Seq<char>) -> Seq<Part>,
    target: Seq<Part>,
    goal: Goal,
) -> Step<Seq<Part>, Stage, Report, ToolFailure> {
    match goal {
        Goal::Ls { recursive, max_entries } => ls_step(recursive, max_entries, ls_start(target)),
        Goal::Find { glob, max_results } => find_step(
            max_results,
            find_start(target, optional_text(glob)),
        ),
        Goal::Grep { terms } => grep_step(terms, grep_start(target)),
        Goal::Cp { destination, rules } => destination_step(
            Transfer::Copy(rules),
            destination_start(site, reader, target, destination@),
        ),
        Goal::Mv { destination, overwrite } => destination_step(
            Transfer::Move(overwrite),
            destination_start(site, reader, target, destination@),
        ),
        Goal::Rm { recursive, max_entries } => remove_step(
            recursive,
            max_entries,
            remove_start(site, target),
        ),
    }
}

fn start_target(ws: &Workspace, input: String, goal: Goal) -> (r: Step<
    Vec<PathPart>,
    Phase,
    WorkspaceCommandOutput,
    ToolboxError,
>)
    ensures
        exists|reader: spec_fn(Seq<char>) -> Seq<Part>|
            reads_plainly(reader) && r@ == #[trigger] target_start(ws@, reader, input@, goal),
{
    let candidate = candidate_path(ws, input.as_str(), true);
    let ghost reader = choose|reader: spec_fn(Seq<char>) -> Seq<Part>|
        reads_plainly(reader) && path_or_failure(candidate) == #[trigger] named_path(
            ws@,
            reader,
            input@,
            true,
        );
    let r = match candidate {
        Ok(path) => Step::Ask(FsRequest::Canonicalize(path), Phase::Target { input, goal }),
        Err(e) => Step::Failed(e),
    };
    assert(r@ == target_start(ws@, reader, input@, goal));
    r
}

/// What `command` starts with.
fn opening(command: WorkspaceCommand) -> (r: Opening)
    ensures
        r@ == opening_of(command),
{
    match command {
        WorkspaceCommand::Pwd => Opening::Pwd,
        WorkspaceCommand::Ls { path, recursive, max_entries } => Opening::Target {
            input: path_or_root_text(path),
            goal: Goal::Ls {
                recursive,
                max_entries: count_or(max_entries, TOOLBOX_DEFAULT_MAX_LIST_ENTRIES),
            },
        },
        WorkspaceCommand::Cat { path, max_bytes } => Opening::Read {
            input: path,
            purpose: TextUse::Whole,
            max_bytes: size_or(max_bytes, TOOLBOX_DEFAULT_MAX_READ_BYTES),
        },
        WorkspaceCommand::Head { path, lines, max_bytes } => Opening::Read {
            input: path,
            purpose: TextUse::Head(lines),
            max_bytes: size_or(max_bytes, TOOLBOX_DEFAULT_MAX_READ_BYTES),
        },
        WorkspaceCommand::Tail { path, lines, max_bytes } => Opening::Read {
            input: path,
            purpose: TextUse::Tail(lines),
            max_bytes: size_or(max_bytes, TOOLBOX_DEFAULT_MAX_READ_BYTES),
        },
        WorkspaceCommand::Wc { path, max_bytes } => Opening::Read {
            input: path,
            purpose: TextUse::Count,
            max_bytes: size_or(max_bytes, TOOLBOX_DEFAULT_MAX_READ_BYTES),
        },
        WorkspaceCommand::Find { path, glob, max_results } => Opening::Target {
            input: path_or_root_text(path),
            goal: Goal::Find {
                glob,
                max_results: count_or(max_results, TOOLBOX_DEFAULT_MAX_FIND_RESULTS),
            },
        },
        WorkspaceCommand::Grep {
            path,
            pattern,
            glob,
            max_results,
            max_file_bytes,
            max_total_bytes,
        } => Opening::Target {
            input: path_or_root_text(path),
            goal: Goal::Grep {
                terms: GrepTerms { pattern, glob, max_results, max_file_bytes, max_total_bytes },
            },
        },
        WorkspaceCommand::Mkdir { path, parents } => Opening::Mkdir { input: path, parents },
        WorkspaceCommand::Cp {
            source,
            destination,
            recursive,
            overwrite,
            max_total_bytes,
            max_entries,
        } => Opening::Target {
            input: source,
            goal: Goal::Cp {
                destination,
                rules: CopyRules {
                    recursive,
                    overwrite,
                    max_total_bytes: size_or(max_total_bytes, TOOLBOX_DEFAULT_MAX_COPY_BYTES),
                    max_entries: count_or(max_entries, TOOLBOX_DEFAULT_MAX_MUTATION_ENTRIES),
                },
            },
        },
        WorkspaceCommand::Mv { source, destination, overwrite } => Opening::Target {
            input: source,
            goal: Goal::Mv { destination, overwrite },
        },
        WorkspaceCommand::Rm { path, recursive, max_entries } => Opening::Target {
            input: path,
            goal: Goal::Rm {
                recursive,
                max_entries: count_or(max_entries, TOOLBOX_DEFAULT_MAX_MUTATION_ENTRIES),
            },
        },
    }
}

/// Starts a command, once the workspace root is known.
fn start_command(ws: &Workspace, command: WorkspaceCommand) -> (r: Step<
    Vec<PathPart>,
    Phase,
    WorkspaceCommandOutput,
    ToolboxError,
>)
    ensures
        exists|reader: spec_fn(Seq<char>) -> Seq<Part>|
            reads_plainly(reader) && r@ == #[trigger] command_start(ws@, reader, command),
{
    let opening = opening(command);
    match opening {
        Opening::Pwd => {
            let ghost plain = |s: Seq<char>| slash_parts(s);
            assert(reads_plainly(plain));
            let r = Step::Done(
                WorkspaceCommandOutput::Pwd { path: path_to_display(&ws.root, &ws.root) },
            );
            assert(r@ == command_start(ws@, plain, command));
            r
        },
        Opening::Target { input, goal } => {
            let r = start_target(ws, input, goal);
            let ghost reader = choose|reader: spec_fn(Seq<char>) -> Seq<Part>|
                reads_plainly(reader) && r@ == #[trigger] target_start(ws@, reader, input@, goal);
            assert(r@ == command_start(ws@, reader, command));
            r
        },
        Opening::Read { input, purpose, max_bytes } => {
            let step = read_text_file(ws, input.as_str());
            let ghost reader = choose|reader: spec_fn(Seq<char>) -> Seq<Part>|
                reads_plainly(reader) && step@ == #[trigger] read_start(ws@, reader, input@);
            let r = as_read_step(purpose, max_bytes, step);
            assert(r@ == command_start(ws@, reader, command));
            r
        },
        Opening::Mkdir { input, parents } => {
            let step = make_directory(ws, input.as_str());
            let ghost reader = choose|reader: spec_fn(Seq<char>) -> Seq<Part>|
                reads_plainly(reader) && step@ == #[trigger] mkdir_start(ws@, reader, input@);
            let r = as_mkdir_step(input, parents, step);
            assert(r@ == command_start(ws@, reader, command));
            r
        },
    }
}

fn start_transfer(
    ws: &Workspace,
    target: Vec<PathPart>,
    destination: &str,
    transfer: Transfer,
) -> (r: Step<Vec<PathPart>, Phase, WorkspaceCommandOutput, ToolboxError>)
    ensures
        exists|reader: spec_fn(Seq<char>) -> Seq<Part>|
            reads_plainly(reader) && r@ == destination_step(
                transfer,
                #[trigger] destination_start(ws@, reader, parts(target@), destination@),
            ),
{
    let step = resolve_copy_move_destination(ws, target, destination);
    as_destination_step(transfer, step)
}

/// Goes on with a command, once the path that it works on is known.
fn start_goal(ws: &Workspace, target: Vec<PathPart>, goal: Goal) -> (r: Step<
    Vec<PathPart>,
    Phase,
    WorkspaceCommandOutput,
    ToolboxError,
>)
    ensures
        exists|reader: spec_fn(Seq<char>) -> Seq<Part>|
            reads_plainly(reader) && r@ == #[trigger] goal_start(
                ws@,
                reader,
                parts(target@),
                goal,
            ),
{
    let ghost plain = |s: Seq<char>| slash_parts(s);
    assert(reads_plainly(plain));
    let ghost whole = goal;
    match goal {
        Goal::Ls { recursive, max_entries } => {
            let r = as_ls_step(recursive, max_entries, list_directory(target));
            assert(r@ == goal_start(ws@, plain, parts(target@), whole));
            r
        },
        Goal::Find { glob, max_results } => {
            let r = as_find_step(max_results, find_paths(target, &glob));
            assert(r@ == goal_start(ws@, plain, parts(target@), whole));
            r
        },
        Goal::Grep { terms } => {
            let r = as_grep_step(terms, grep_path(target));
            assert(r@ == goal_start(ws@, plain, parts(target@), whole));
            r
        },
        Goal::Cp { destination, rules } => {
            let r = start_transfer(ws, target, destination.as_str(), Transfer::Copy(rules));
            proof {
                let reader = choose|reader: spec_fn(Seq<char>) -> Seq<Part>|
                    reads_plainly(reader) && r@ == destination_step(
                        Transfer::Copy(rules),
                        #[trigger] destination_start(ws@, reader, parts(target@), destination@),
                    );
                assert(r@ == goal_start(ws@, reader, parts(target@), whole));
            }
            r
        },
        Goal::Mv { destination, overwrite } => {
            let r = start_transfer(ws, target, destination.as_str(), Transfer::Move(overwrite));
            proof {
                let reader = choose|reader: spec_fn(Seq<char>) -> Seq<Part>|
                    reads_plainly(reader) && r@ == destination_step(
                        Transfer::Move(overwrite),
                        #[trigger] destination_start(ws@, reader, parts(target@), destination@),
                    );
                assert(r@ == goal_start(ws@, reader, parts(target@), whole));
            }
            r
        },
        Goal::Rm { recursive, max_entries } => {
            let r = as_remove_step(recursive, max_entries, remove_path(ws, target));
            assert(r@ == goal_start(ws@, plain, parts(target@), whole));
            r
        },
    }
}

// ---------------------------------------------------------------------------
// The run
// ---------------------------------------------------------------------------

/// A step of the command as a step of the run in the workspace.
pub open spec fn site_step(site: Site, step: Step<Seq<Part>, Stage, Report, ToolFailure>) -> Step<
    Seq<Part>,
    RunState,
    Report,
    ToolFailure,
> {
    match step {
        Step::Ask(request, stage) => Step::Ask(request, RunState { site, stage }),
        Step::Done(report) => Step::Done(report),
        Step::Failed(failure) => Step::Failed(failure),
    }
}

/// Starts a run: the workspace root must be found before anything else.
pub open spec fn run_start(
    root: Seq<Part>,
    text: Seq<char>,
    separator: char,
    command: WorkspaceCommand,
) -> Step<Seq<Part>, RunState, Report, ToolFailure> {
    Step::Ask(
        FsRequest::Canonicalize(root),
        RunState { site: Site { root, separator }, stage: Stage::Root { text, command } },
    )
}

/// Goes on with a command in the workspace, once the workspace root is known.
pub open spec fn stage_next(
    site: Site,
    reader: spec_fn(Seq<char>) -> Seq<Part>,
    stage: Stage,
    reply: FsReply,
) -> Step<Seq<Part>, Stage, Report, ToolFailure> {
    match stage {
        Stage::Root { text, command } => match reply->Path_0 {
            Ok(canonical) => Step::Ask(
                FsRequest::Stat(parts(canonical@)),
                Stage::RootKind { text, canonical: parts(canonical@), command },
            ),
            Err(error) => Step::Failed(ToolFailure::Io(error.message@)),
        },
        Stage::RootKind { text, canonical, command } => if reply->Status_0 is Ok
            && reply->Status_0->Ok_0.kind == FileKind::Directory {
            command_start(Site { root: canonical, ..site }, reader, command)
        } else {
            Step::Failed(ToolFailure::NotADirectory(text))
        },
        Stage::Target { input, goal } => match existing_path(site, input, reply->Path_0) {
            Ok(target) => goal_start(site, reader, target, goal),
            Err(failure) => Step::Failed(failure),
        },
        Stage::Read { purpose, max_bytes, stage } => read_step(
            purpose,
            max_bytes,
            read_next(site, max_bytes, stage, reply),
        ),
        Stage::Ls { recursive, max_entries, stage } => ls_step(
            recursive,
            max_entries,
            ls_next(site, recursive, max_entries, stage, reply),
        ),
        Stage::Find { max_results, stage } => find_step(
            max_results,
            find_next(site, max_results, stage, reply),
        ),
        Stage::Grep { terms, stage } => grep_step(
            terms,
            grep_next(site, reader, terms, stage, reply),
        ),
        Stage::Mkdir { input, parents, stage } => mkdir_step(
            input,
            parents,
            mkdir_next(site, input, parents, stage, reply),
        ),
        Stage::Destination { transfer, stage } => destination_step(
            transfer,
            destination_next(site, stage, reply),
        ),
        Stage::Copy { rules, stage } => copy_step(rules, copy_next(site, rules, stage, reply)),
        Stage::Move { overwrite, stage } => move_step(
            overwrite,
            move_next(site, overwrite, stage, reply),
        ),
        Stage::Remove { recursive, max_entries, stage } => remove_step(
            recursive,
            max_entries,
            remove_next(site, recursive, max_entries, stage, reply),
        ),
    }
}

/// The workspace after a reply: its root is known once the file system has told
/// where it is and that it is a directory.
pub open spec fn site_next(state: RunState) -> Site {
    match state.stage {
        Stage::RootKind { canonical, .. } => Site { root: canonical, ..state.site },
        _ => state.site,
    }
}

/// Goes on with a run on a platform that reads paths by `reader`.
pub open spec fn run_next(
    reader: spec_fn(Seq<char>) -> Seq<Part>,
    state: RunState,
    reply: FsReply,
) -> Step<Seq<Part>, RunState, Report, ToolFailure> {
    site_step(site_next(state), stage_next(state.site, reader, state.stage, reply))
}

/// Whether a run can go on with `step`, on some platform.
pub open spec fn follows(
    state: RunState,
    reply: FsReply,
    step: Step<Seq<Part>, RunState, Report, ToolFailure>,
) -> bool {
    exists|reader: spec_fn(Seq<char>) -> Seq<Part>|
        reads_plainly(reader) && step == #[trigger] run_next(reader, state, reply)
}

fn in_workspace(
    workspace: Workspace,
    step: Step<Vec<PathPart>, Phase, WorkspaceCommandOutput, ToolboxError>,
) -> (r: Step<Vec<PathPart>, WorkspaceRun, WorkspaceCommandOutput, ToolboxError>)
    ensures
        r@ == site_step(workspace@, step@),
{
    match step {
        Step::Ask(request, phase) => Step::Ask(request, WorkspaceRun { workspace, phase }),
        Step::Done(output) => Step::Done(output),
        Step::Failed(error) => Step::Failed(error),
    }
}

/// Starts to run `command` in the workspace below `root`, which is shown as
/// `root_text`.
pub fn run_workspace_command(
    root: Vec<PathPart>,
    root_text: String,
    separator: char,
    command: WorkspaceCommand,
) -> (r: Step<Vec<PathPart>, WorkspaceRun, WorkspaceCommandOutput, ToolboxError>)
    ensures
        r@ == run_start(parts(root@), root_text@, separator, command),
{
    let asked = copy_path_parts(&root);
    Step::Ask(
        FsRequest::Canonicalize(asked),
        WorkspaceRun {
            workspace: Workspace { root, separator },
            phase: Phase::Root { text: root_text, command },
        },
    )
}

/// Goes on with a run once the file system has told what is at the workspace
/// root.
fn canonical_root(
    workspace: Workspace,
    text: String,
    canonical: Vec<PathPart>,
    command: WorkspaceCommand,
    reply: FsReply,
) -> (r: Step<Vec<PathPart>, WorkspaceRun, WorkspaceCommandOutput, ToolboxError>)
    requires
        reply is Status,
    ensures
        follows(
            (RunState {
                site: workspace@,
                stage: Stage::RootKind { text: text@, canonical: parts(canonical@), command },
            }),
            reply,
            r@,
        ),
{
    let ghost plain = |s: Seq<char>| slash_parts(s);
    assert(reads_plainly(plain));
    let ghost state = RunState {
        site: workspace@,
        stage: Stage::RootKind { text: text@, canonical: parts(canonical@), command },
    };
    match reply {
        FsReply::Status(Ok(FileStat { kind: FileKind::Directory, len: _ })) => {
            let workspace = Workspace { root: canonical, separator: workspace.separator };
            let ghost site = workspace@;
            let step = start_command(&workspace, command);
            let ghost reader = choose|reader: spec_fn(Seq<char>) -> Seq<Part>|
                reads_plainly(reader) && step@ == #[trigger] command_start(site, reader, command);
            let r = in_workspace(workspace, step);
            assert(r@ == run_next(reader, state, reply));
            r
        },
        _ => {
            let r = Step::Failed(ToolboxError::NotADirectory(text));
            assert(r@ == run_next(plain, state, reply));
            r
        },
    }
}

/// Goes on with a command, once the workspace root is known.
fn resume_phase(ws: &Workspace, phase: Phase, reply: FsReply) -> (r: Step<
    Vec<PathPart>,
    Phase,
    WorkspaceCommandOutput,
    ToolboxError,
>)
    requires
        reply.kind_of() == phase@.awaits(),
        !(phase is RootKind),
    ensures
        exists|reader: spec_fn(Seq<char>) -> Seq<Part>|
            reads_plainly(reader) && r@ == #[trigger] stage_next(ws@, reader, phase@, reply),
{
    let ghost plain = |s: Seq<char>| slash_parts(s);
    assert(reads_plainly(plain));
    let ghost before = phase@;
    match phase {
        Phase::Root { text, command } => {
            let r = match reply {
                FsReply::Path(Ok(canonical)) => {
                    let asked = copy_path_parts(&canonical);
                    Step::Ask(FsRequest::Stat(asked), Phase::RootKind { text, canonical, command })
                },
                FsReply::Path(Err(error)) => Step::Failed(io_error(error)),
                _ => unreached(),
            };
            assert(r@ == stage_next(ws@, plain, before, reply));
            r
        },
        Phase::RootKind { .. } => unreached(),
        Phase::Target { input, goal } => match reply {
            FsReply::Path(told) => match resolve_existing_path(ws, input.as_str(), told) {
                Ok(target) => {
                    let r = start_goal(ws, target, goal);
                    proof {
                        let reader = choose|reader: spec_fn(Seq<char>) -> Seq<Part>|
                            reads_plainly(reader) && r@ == #[trigger] goal_start(
                                ws@,
                                reader,
                                parts(target@),
                                goal,
                            );
                        assert(r@ == stage_next(ws@, reader, before, reply));
                    }
                    r
                },
                Err(e) => {
                    let r = Step::Failed(e);
                    assert(r@ == stage_next(ws@, plain, before, reply));
                    r
                },
            },
            _ => unreached(),
        },
        Phase::Read { purpose, max_bytes, phase } => {
            let r = as_read_step(purpose, max_bytes, resume_read(ws, max_bytes, phase, reply));
            assert(r@ == stage_next(ws@, plain, before, reply));
            r
        },
        Phase::Ls { recursive, max_entries, phase } => {
            let step = resume_list(ws, recursive, max_entries, phase, reply);
            let r = as_ls_step(recursive, max_entries, step);
            assert(r@ == stage_next(ws@, plain, before, reply));
            r
        },
        Phase::Find { max_results, phase } => {
            let r = as_find_step(max_results, resume_find(ws, max_results, phase, reply));
            assert(r@ == stage_next(ws@, plain, before, reply));
            r
        },
        Phase::Grep { terms, phase } => {
            let ghost part = phase@;
            let step = resume_grep(ws, &terms, phase, reply);
            let ghost reader = choose|reader: spec_fn(Seq<char>) -> Seq<Part>|
                reads_plainly(reader) && step@ == #[trigger] grep_next(
                    ws@,
                    reader,
                    terms,
                    part,
                    reply,
                );
            let r = as_grep_step(terms, step);
            assert(r@ == stage_next(ws@, reader, before, reply));
            r
        },
        Phase::Mkdir { input, parents, phase } => {
            let step = resume_mkdir(ws, input.as_str(), parents, phase, reply);
            let r = as_mkdir_step(input, parents, step);
            assert(r@ == stage_next(ws@, plain, before, reply));
            r
        },
        Phase::Destination { transfer, phase } => {
            let r = as_destination_step(transfer, resume_destination(ws, phase, reply));
            assert(r@ == stage_next(ws@, plain, before, reply));
            r
        },
        Phase::Copy { rules, phase } => {
            let r = as_copy_step(rules, resume_copy(ws, rules, phase, reply));
            assert(r@ == stage_next(ws@, plain, before, reply));
            r
        },
        Phase::Move { overwrite, phase } => {
            let r = as_move_step(overwrite, resume_move(ws, overwrite, phase, reply));
            assert(r@ == stage_next(ws@, plain, before, reply));
            r
        },
        Phase::Remove { recursive, max_entries, phase } => {
            let step = resume_remove(ws, recursive, max_entries, phase, reply);
            let r = as_remove_step(recursive, max_entries, step);
            assert(r@ == stage_next(ws@, plain, before, reply));
            r
        },
    }
}

impl WorkspaceRun {
    /// The kind of reply that the run waits for.
    pub fn awaits(&self) -> (r: ReplyKind)
        ensures
            r == self@.stage.awaits(),
    {
        self.phase.awaits()
    }

    /// Goes on with the run, given the reply to what it asked for.
    pub fn resume(self, reply: FsReply) -> (r: Step<
        Vec<PathPart>,
        WorkspaceRun,
        WorkspaceCommandOutput,
        ToolboxError,
    >)
        requires
            reply.kind_of() == self@.stage.awaits(),
        ensures
            follows(self@, reply, r@),
    {
        let ghost state = self@;
        let WorkspaceRun { workspace, phase } = self;
        match phase {
            Phase::RootKind { text, canonical, command } => canonical_root(
                workspace,
                text,
                canonical,
                command,
                reply,
            ),
            phase => {
                let ghost part = phase@;
                let ghost site = workspace@;
                let step = resume_phase(&workspace, phase, reply);
                let ghost reader = choose|reader: spec_fn(Seq<char>) -> Seq<Part>|
                    reads_plainly(reader) && step@ == #[trigger] stage_next(
                        site,
                        reader,
                        part,
                        reply,
                    );
                let r = in_workspace(workspace, step);
                assert(r@ == run_next(reader, state, reply));
                r
            },
        }
    }
}

} // verus!
