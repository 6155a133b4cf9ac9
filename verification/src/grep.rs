//! Searching a file or a directory of the workspace.

use regex::Regex;

use vstd::pervasive::unreached;
use vstd::prelude::*;

use crate::errors::{SearchError, SearchFailure, ToolFailure, ToolboxError};
use crate::fs::{FileKind, FileStat, FsReply, FsRequest, ReplyKind, Step};
use crate::listing::optional_text;
use crate::paths::{
    copy_path_parts, parts, path_to_display, reads_plainly, shown, slash_parts, Part, PathPart,
};
use crate::pattern::{compile_regex, regex_error, regex_text};
use crate::reading::{read_next, read_start, read_text_file, resume_read, ReadPhase, ReadStage};
use crate::resolve::{Site, Workspace};
use crate::search::{
    found, search, search_next, search_start, search_text, searched, FoundLines, SearchMatch,
    SearchOutcome, SearchRun, SearchState,
};
use crate::toolbox::{Report, WorkspaceCommandOutput};

verus! {

/// What is searched for and how far the search may go.
#[derive(Debug)]
pub struct GrepTerms {
    pub pattern: String,
    pub glob: Option<String>,
    pub max_results: usize,
    pub max_file_bytes: u64,
    pub max_total_bytes: u64,
}

/// Where the search stands.
#[derive(Debug)]
#[allow(inconsistent_fields)]
pub enum GrepPhase {
    /// Asked what is to be searched.
    Kind { target: Vec<PathPart> },
    /// Reading the one file to search, which is shown as `path`.
    Read { pattern: Regex, path: String, phase: ReadPhase },
    /// Searching a directory.
    Search { run: SearchRun },
}

/// A [`GrepPhase`] over sequences.
#[allow(inconsistent_fields)]
pub enum GrepStage {
    Kind { target: Seq<Part> },
    Read { pattern: Seq<char>, path: Seq<char>, stage: ReadStage },
    Search { state: SearchState },
}

impl View for GrepPhase {
    type V = GrepStage;

    open spec fn view(&self) -> GrepStage {
        match *self {
            GrepPhase::Kind { target } => GrepStage::Kind { target: parts(target@) },
            GrepPhase::Read { pattern, path, phase } => GrepStage::Read {
                pattern: regex_text(pattern),
                path: path@,
                stage: phase@,
            },
            GrepPhase::Search { run } => GrepStage::Search { state: run@ },
        }
    }
}

impl GrepStage {
    /// The kind of reply that the search waits for.
    pub open spec fn awaits(self) -> ReplyKind {
        match self {
            GrepStage::Kind { .. } => ReplyKind::Status,
            GrepStage::Read { stage, .. } => stage.awaits(),
            GrepStage::Search { state } => state.awaits(),
        }
    }
}

impl GrepPhase {
    /// The kind of reply that is waited for.
    pub fn awaits(&self) -> (r: ReplyKind)
        ensures
            r == self@.awaits(),
    {
        match self {
            GrepPhase::Kind { .. } => ReplyKind::Status,
            GrepPhase::Read { phase, .. } => phase.awaits(),
            GrepPhase::Search { run } => run.awaits(),
        }
    }
}

/// How a failed search is reported: a glob that is not valid, on its own.
pub open spec fn search_failure(failure: SearchFailure) -> ToolFailure {
    match failure {
        SearchFailure::InvalidGlob(message) => ToolFailure::InvalidGlob(message),
        other => ToolFailure::Search(other),
    }
}

/// A step of the search of a directory as a step of the command.
pub open spec fn grep_search(step: Step<Seq<Part>, SearchState, FoundLines, SearchFailure>) -> Step<
    Seq<Part>,
    GrepStage,
    Report,
    ToolFailure,
> {
    match step {
        Step::Ask(request, state) => Step::Ask(request, GrepStage::Search { state }),
        Step::Done(lines) => Step::Done(
            Report::Grep { matches: lines.matches, truncated: lines.truncated },
        ),
        Step::Failed(failure) => Step::Failed(search_failure(failure)),
    }
}

/// A step of the reading of a file as a step of the command: its text is searched
/// for the pattern.
pub open spec fn grep_read(
    pattern: Seq<char>,
    path: Seq<char>,
    max_results: usize,
    step: Step<Seq<Part>, ReadStage, Seq<char>, ToolFailure>,
) -> Step<Seq<Part>, GrepStage, Report, ToolFailure> {
    match step {
        Step::Ask(request, stage) => Step::Ask(request, GrepStage::Read { pattern, path, stage }),
        Step::Done(text) => {
            let lines = searched(pattern, path, text, max_results as nat, seq![]);
            Step::Done(Report::Grep { matches: lines.matches, truncated: lines.truncated })
        },
        Step::Failed(failure) => Step::Failed(failure),
    }
}

/// Starts to search what is at `target`.
pub open spec fn grep_start(target: Seq<Part>) -> Step<Seq<Part>, GrepStage, Report, ToolFailure> {
    Step::Ask(FsRequest::Stat(target), GrepStage::Kind { target })
}

/// Goes on with a search where `target` is a file: it is read anew by the path
/// that it is shown as.
pub open spec fn grep_file_next(
    site: Site,
    reader: spec_fn(Seq<char>) -> Seq<Part>,
    terms: GrepTerms,
    target: Seq<Part>,
) -> Step<Seq<Part>, GrepStage, Report, ToolFailure> {
    let path = shown(site.root, target);
    match regex_error(terms.pattern@, usize::BITS as nat) {
        Some(message) => Step::Failed(ToolFailure::Search(SearchFailure::InvalidRegex(message))),
        None => grep_read(
            terms.pattern@,
            path,
            terms.max_results,
            read_start(site, reader, path),
        ),
    }
}

/// Goes on with a search.
pub open spec fn grep_next(
    site: Site,
    reader: spec_fn(Seq<char>) -> Seq<Part>,
    terms: GrepTerms,
    stage: GrepStage,
    reply: FsReply,
) -> Step<Seq<Part>, GrepStage, Report, ToolFailure> {
    match stage {
        GrepStage::Kind { target } => if reply->Status_0 is Ok && reply->Status_0->Ok_0.kind
            == FileKind::File {
            grep_file_next(site, reader, terms, target)
        } else {
            grep_search(
                search_start(
                    target,
                    site.separator,
                    terms.pattern@,
                    optional_text(terms.glob),
                    terms.max_results,
                    terms.max_file_bytes,
                    terms.max_total_bytes,
                ),
            )
        },
        GrepStage::Read { pattern, path, stage } => grep_read(
            pattern,
            path,
            terms.max_results,
            read_next(site, terms.max_file_bytes, stage, reply),
        ),
        GrepStage::Search { state } => grep_search(search_next(state, reply)),
    }
}

fn grep_output(outcome: SearchOutcome) -> (r: WorkspaceCommandOutput)
    ensures
        r@ == (Report::Grep { matches: outcome@.matches, truncated: outcome@.truncated }),
{
    WorkspaceCommandOutput::Grep { matches: outcome.matches, truncated: outcome.truncated }
}

fn as_grep_search(step: Step<Vec<PathPart>, SearchRun, SearchOutcome, SearchError>) -> (r: Step<
    Vec<PathPart>,
    GrepPhase,
    WorkspaceCommandOutput,
    ToolboxError,
>)
    ensures
        r@ == grep_search(step@),
{
    match step {
        Step::Ask(request, run) => Step::Ask(request, GrepPhase::Search { run }),
        Step::Done(outcome) => Step::Done(grep_output(outcome)),
        Step::Failed(error) => Step::Failed(ToolboxError::from(error)),
    }
}

fn as_grep_read(
    pattern: Regex,
    path: String,
    max_results: usize,
    step: Step<Vec<PathPart>, ReadPhase, String, ToolboxError>,
) -> (r: Step<Vec<PathPart>, GrepPhase, WorkspaceCommandOutput, ToolboxError>)
    ensures
        r@ == grep_read(regex_text(pattern), path@, max_results, step@),
{
    match step {
        Step::Ask(request, phase) => Step::Ask(request, GrepPhase::Read { pattern, path, phase }),
        Step::Done(text) => {
            let none: Vec<SearchMatch> = Vec::new();
            assert(found(none@) =~= seq![]);
            let outcome = search_text(&pattern, path.as_str(), text.as_str(), max_results, none);
            Step::Done(grep_output(outcome))
        },
        Step::Failed(error) => Step::Failed(error),
    }
}

/// Starts to search what is at `target`.
pub fn grep_path(target: Vec<PathPart>) -> (r: Step<
    Vec<PathPart>,
    GrepPhase,
    WorkspaceCommandOutput,
    ToolboxError,
>)
    ensures
        r@ == grep_start(parts(target@)),
{
    let asked = copy_path_parts(&target);
    Step::Ask(FsRequest::Stat(asked), GrepPhase::Kind { target })
}

fn grep_file(ws: &Workspace, terms: &GrepTerms, target: &Vec<PathPart>) -> (r: Step<
    Vec<PathPart>,
    GrepPhase,
    WorkspaceCommandOutput,
    ToolboxError,
>)
    ensures
        exists|reader: spec_fn(Seq<char>) -> Seq<Part>|
            reads_plainly(reader) && r@ == #[trigger] grep_file_next(
                ws@,
                reader,
                *terms,
                parts(target@),
            ),
{
    let path = path_to_display(&ws.root, target);
    let step = read_text_file(ws, path.as_str());
    let ghost reader = choose|reader: spec_fn(Seq<char>) -> Seq<Part>|
        reads_plainly(reader) && step@ == #[trigger] read_start(ws@, reader, path@);
    let r = match compile_regex(terms.pattern.as_str()) {
        Ok(pattern) => as_grep_read(pattern, path, terms.max_results, step),
        Err(message) => Step::Failed(ToolboxError::Search(SearchError::InvalidRegex(message))),
    };
    assert(r@ == grep_file_next(ws@, reader, *terms, parts(target@)));
    r
}

/// Goes on with a search.
pub fn resume_grep(ws: &Workspace, terms: &GrepTerms, phase: GrepPhase, reply: FsReply) -> (r:
    Step<Vec<PathPart>, GrepPhase, WorkspaceCommandOutput, ToolboxError>)
    requires
        reply.kind_of() == phase@.awaits(),
    ensures
        exists|reader: spec_fn(Seq<char>) -> Seq<Part>|
            reads_plainly(reader) && r@ == #[trigger] grep_next(
                ws@,
                reader,
                *terms,
                phase@,
                reply,
            ),
{
    let ghost plain = |s: Seq<char>| slash_parts(s);
    assert(reads_plainly(plain));
    let ghost before = phase@;
    match phase {
        GrepPhase::Kind { target } => match reply {
            FsReply::Status(Ok(FileStat { kind: FileKind::File, len: _ })) => {
                let r = grep_file(ws, terms, &target);
                let ghost reader = choose|reader: spec_fn(Seq<char>) -> Seq<Part>|
                    reads_plainly(reader) && r@ == #[trigger] grep_file_next(
                        ws@,
                        reader,
                        *terms,
                        parts(target@),
                    );
                assert(r@ == grep_next(ws@, reader, *terms, before, reply));
                r
            },
            FsReply::Status(_) => {
                let r = as_grep_search(
                    search(
                        target,
                        ws.separator,
                        terms.pattern.as_str(),
                        &terms.glob,
                        terms.max_results,
                        terms.max_file_bytes,
                        terms.max_total_bytes,
                    ),
                );
                assert(r@ == grep_next(ws@, plain, *terms, before, reply));
                r
            },
            _ => unreached(),
        },
        GrepPhase::Read { pattern, path, phase } => {
            let step = resume_read(ws, terms.max_file_bytes, phase, reply);
            let r = as_grep_read(pattern, path, terms.max_results, step);
            assert(r@ == grep_next(ws@, plain, *terms, before, reply));
            r
        },
        GrepPhase::Search { run } => {
            let r = as_grep_search(run.resume(reply));
            assert(r@ == grep_next(ws@, plain, *terms, before, reply));
            r
        },
    }
}

} // verus!
