//! What every run that searches the text of files asks for and answers.

use vstd::prelude::*;

use crate::effect_laws::{site_of, told_kind};
use crate::errors::{SearchFailure, ToolFailure};
use crate::fs::{FileKind, FsReply, FsRequest, Step};
use crate::grep::{GrepStage, GrepTerms};
use crate::listing_laws::glob_said;
use crate::path_laws::{law_below, leads_from};
use crate::paths::{parts, shown, Part};
use crate::pattern::regex_error;
use crate::resolve::named_path;
use crate::run_laws::{
    asks_for, fails_with, is_named_by, is_refused, is_there, lemma_is_there, lemma_step,
    path_told, refusal, separator_of,
};
use crate::search::{
    hits, search_next, search_start, searched, text_lines, FoundLine, FoundLines, SearchState,
};
use crate::search_laws::{is_search, law_which_lines_are_found, reports, search_answers};
use crate::text::decimal;
use crate::toolbox::{Report, WorkspaceCommand};
use crate::workspace::{run_next, RunState, Stage};
use crate::workspace_laws::is_course;

verus! {

proof fn lemma_grep_starts(
    command: WorkspaceCommand,
    steps: Seq<Step<Seq<Part>, RunState, Report, ToolFailure>>,
    replies: Seq<FsReply>,
) -> (terms: GrepTerms)
    requires
        is_course(command, steps, replies),
        command is Grep,
        is_there(replies),
    ensures
        steps[3] == Step::<Seq<Part>, RunState, Report, ToolFailure>::Ask(
            FsRequest::Stat(path_told(replies, 2)),
            RunState {
                site: site_of(steps, replies),
                stage: Stage::Grep {
                    terms,
                    stage: GrepStage::Kind { target: path_told(replies, 2) },
                },
            },
        ),
        terms.pattern == command->pattern,
        terms.glob == command->Grep_glob,
        terms.max_results == command->Grep_max_results,
        terms.max_file_bytes == command->max_file_bytes,
        terms.max_total_bytes == command->Grep_max_total_bytes,
{
    lemma_is_there(replies);
    let _ = lemma_step(command, steps, replies, 0);
    let _ = lemma_step(command, steps, replies, 1);
    let _ = lemma_step(command, steps, replies, 2);
    steps[3]->Ask_1.stage->Grep_terms
}

/// A search in the workspace asks what is at its target. Where that is a file it fails if
/// the pattern cannot be compiled, and otherwise asks where the path is by which the
/// file is shown.
pub proof fn law_how_grep_starts(
    command: WorkspaceCommand,
    steps: Seq<Step<Seq<Part>, RunState, Report, ToolFailure>>,
    replies: Seq<FsReply>,
)
    requires
        is_course(command, steps, replies),
        command is Grep,
        is_there(replies),
    ensures
        asks_for(steps[3], FsRequest::Stat(path_told(replies, 2))),
        replies.len() > 3 && told_kind(replies, 3) == Some(FileKind::File) ==> {
            let path = shown(path_told(replies, 0), path_told(replies, 2));
            match regex_error(command->pattern@, usize::BITS as nat) {
                Some(message) => fails_with(
                    steps[4],
                    ToolFailure::Search(SearchFailure::InvalidRegex(message)),
                ),
                None => match steps[4] {
                    Step::Ask(request, _) => request is Canonicalize && is_named_by(
                        request->Canonicalize_0,
                        path_told(replies, 0),
                        separator_of(steps),
                        path,
                        true,
                    ),
                    Step::Failed(failure) => is_refused(
                        failure,
                        path_told(replies, 0),
                        separator_of(steps),
                        path,
                        true,
                    ),
                    Step::Done(_) => false,
                },
            }
        },
{
    let terms = lemma_grep_starts(command, steps, replies);
    if replies.len() > 3 {
        let reader = lemma_step(command, steps, replies, 3);
        let path = shown(path_told(replies, 0), path_told(replies, 2));
        match named_path(site_of(steps, replies), reader, path, true) {
            Ok(_) => {},
            Err(_) => {},
        }
    }
}

/// Whether `report` is what the search of one text answers: just the lines that the
/// pattern matches, or the first of them, as many as the caller allows, which is
/// said.
pub open spec fn greps(
    command: WorkspaceCommand,
    path: Seq<char>,
    text: Seq<char>,
    report: Report,
) -> bool {
    exists|found: Seq<FoundLine>|
        {
            &&& #[trigger] reports(found, command->pattern@, path, text)
            &&& report == if found.len() > 0 && found.len() >= command->Grep_max_results {
                Report::Grep {
                    matches: found.take(command->Grep_max_results as int),
                    truncated: true,
                }
            } else {
                Report::Grep { matches: found, truncated: false }
            }
        }
}

proof fn lemma_greps(command: WorkspaceCommand, path: Seq<char>, text: Seq<char>)
    requires
        command is Grep,
    ensures
        ({
            let lines = searched(
                command->pattern@,
                path,
                text,
                command->Grep_max_results as nat,
                seq![],
            );
            greps(
                command,
                path,
                text,
                Report::Grep { matches: lines.matches, truncated: lines.truncated },
            )
        }),
{
    let lines = text_lines(text);
    let found = hits(command->pattern@, path, lines, lines.len());
    law_which_lines_are_found(command->pattern@, path, text);
    assert(Seq::<FoundLine>::empty() + found =~= found);
    let some = found.take(command->Grep_max_results as int);
    assert(Seq::<FoundLine>::empty() + some =~= some);
}

/// The search of one file asks where it is, what is there, and for its text, and answers
/// with the lines of just that text. It fails as any reading of a file does.
pub proof fn law_grep_in_a_file(
    command: WorkspaceCommand,
    steps: Seq<Step<Seq<Part>, RunState, Report, ToolFailure>>,
    replies: Seq<FsReply>,
)
    requires
        is_course(command, steps, replies),
        command is Grep,
        is_there(replies),
        replies.len() > 4,
        told_kind(replies, 3) == Some(FileKind::File),
    ensures
        ({
            let path = shown(path_told(replies, 0), path_told(replies, 2));
            &&& match replies[4] {
                FsReply::Path(Ok(there)) => if leads_from(parts(there@), path_told(replies, 0)) {
                    asks_for(steps[5], FsRequest::Stat(parts(there@)))
                } else {
                    fails_with(steps[5], ToolFailure::PathEscapesWorkspace(path))
                },
                FsReply::Path(Err(error)) => fails_with(
                    steps[5],
                    if error.not_found {
                        ToolFailure::NotFound(path)
                    } else {
                        refusal(error)
                    },
                ),
                _ => false,
            }
            &&& replies.len() > 5 ==> match replies[5] {
                FsReply::Status(Ok(stat)) => if stat.kind != FileKind::File {
                    fails_with(steps[6], ToolFailure::NotAFile(path))
                } else if stat.len > command->max_file_bytes {
                    fails_with(
                        steps[6],
                        ToolFailure::TooLarge(
                            path + " is "@ + decimal(stat.len as nat) + " bytes and exceeds the "@
                                + decimal(command->max_file_bytes as nat) + "-byte limit"@,
                        ),
                    )
                } else {
                    asks_for(steps[6], FsRequest::ReadText(path_told(replies, 4)))
                },
                FsReply::Status(Err(_)) => fails_with(steps[6], ToolFailure::NotAFile(path)),
                _ => false,
            }
            &&& replies.len() > 6 ==> match replies[6] {
                FsReply::Text(Ok(text)) => steps[7] matches Step::Done(report) && greps(
                    command,
                    path,
                    text@,
                    report,
                ),
                FsReply::Text(Err(error)) => fails_with(steps[7], refusal(error)),
                _ => false,
            }
            &&& replies.len() <= 7
        }),
{
    let terms = lemma_grep_starts(command, steps, replies);
    let path = shown(path_told(replies, 0), path_told(replies, 2));
    let _ = lemma_step(command, steps, replies, 3);
    let _ = lemma_step(command, steps, replies, 4);
    law_below(path_told(replies, 4), path_told(replies, 0));
    if replies.len() > 5 {
        let _ = lemma_step(command, steps, replies, 5);
    }
    if replies.len() > 6 {
        let _ = lemma_step(command, steps, replies, 6);
        match replies[6] {
            FsReply::Text(Ok(text)) => {
                lemma_greps(command, path, text@);
            },
            _ => {},
        }
    }
    if replies.len() > 7 {
        let _ = lemma_step(command, steps, replies, 7);
    }
}

/// Whether a step of a run is this step of a search: it asks for the same, ends with the
/// same lines, or fails for the same reason. A glob that is not valid is a failure of
/// its own.
pub open spec fn is_step_of(
    step: Step<Seq<Part>, RunState, Report, ToolFailure>,
    inner: Step<Seq<Part>, SearchState, FoundLines, SearchFailure>,
) -> bool {
    match inner {
        Step::Ask(request, _) => asks_for(step, request),
        Step::Done(lines) => step == Step::<Seq<Part>, RunState, Report, ToolFailure>::Done(
            Report::Grep { matches: lines.matches, truncated: lines.truncated },
        ),
        Step::Failed(SearchFailure::InvalidGlob(message)) => fails_with(
            step,
            ToolFailure::InvalidGlob(message),
        ),
        Step::Failed(failure) => fails_with(step, ToolFailure::Search(failure)),
    }
}

/// Whether a run is, from its fifth step on, this search.
pub open spec fn goes_as(
    steps: Seq<Step<Seq<Part>, RunState, Report, ToolFailure>>,
    inner: Seq<Step<Seq<Part>, SearchState, FoundLines, SearchFailure>>,
    n: int,
) -> bool {
    inner.len() == n - 3 && forall|i: int|
        0 <= i < inner.len() ==> is_step_of(steps[i + 4], #[trigger] inner[i])
}

proof fn lemma_grep_step(
    reader: spec_fn(Seq<char>) -> Seq<Part>,
    state: RunState,
    inner: SearchState,
    reply: FsReply,
)
    requires
        state.stage matches Stage::Grep { stage, .. } && stage == (GrepStage::Search {
            state: inner,
        }),
    ensures
        is_step_of(run_next(reader, state, reply), search_next(inner, reply)),
        run_next(reader, state, reply) matches Step::Ask(_, next) ==> next.stage
            == (Stage::Grep {
            terms: state.stage->Grep_terms,
            stage: GrepStage::Search { state: search_next(inner, reply)->Ask_1 },
        }) && search_next(inner, reply) is Ask,
{
}

proof fn lemma_search_extends(
    start: Step<Seq<Part>, SearchState, FoundLines, SearchFailure>,
    before: Seq<Step<Seq<Part>, SearchState, FoundLines, SearchFailure>>,
    told: Seq<FsReply>,
    reply: FsReply,
    next: Step<Seq<Part>, SearchState, FoundLines, SearchFailure>,
)
    requires
        is_search(start, before, told),
        search_answers(before.last(), reply, next),
    ensures
        is_search(start, before.push(next), told.push(reply)),
{
    let inner = before.push(next);
    let all = told.push(reply);
    assert(inner[0] == before[0]);
    assert forall|i: int| 0 <= i < all.len() implies search_answers(
        inner[i],
        #[trigger] all[i],
        inner[i + 1],
    ) by {
        if i < told.len() {
            assert(all[i] == told[i]);
            assert(inner[i] == before[i]);
            assert(inner[i + 1] == before[i + 1]);
        } else {
            assert(inner[i] == before.last());
            assert(inner[i + 1] == next);
        }
    }
}

proof fn lemma_grep_begins(
    command: WorkspaceCommand,
    steps: Seq<Step<Seq<Part>, RunState, Report, ToolFailure>>,
    replies: Seq<FsReply>,
) -> (first: Step<Seq<Part>, SearchState, FoundLines, SearchFailure>)
    requires
        is_course(command, steps, replies),
        command is Grep,
        is_there(replies),
        replies.len() > 3,
        told_kind(replies, 3) != Some(FileKind::File),
    ensures
        first == search_start(
            path_told(replies, 2),
            separator_of(steps),
            command->pattern@,
            glob_said(command),
            command->Grep_max_results,
            command->max_file_bytes,
            command->Grep_max_total_bytes,
        ),
        is_step_of(steps[4], first),
        steps[4] is Ask ==> first is Ask && (steps[4]->Ask_1.stage matches Stage::Grep {
            stage,
            ..
        } && stage == (GrepStage::Search { state: first->Ask_1 })),
{
    let terms = lemma_grep_starts(command, steps, replies);
    let _ = lemma_step(command, steps, replies, 3);
    search_start(
        path_told(replies, 2),
        separator_of(steps),
        command->pattern@,
        glob_said(command),
        command->Grep_max_results,
        command->max_file_bytes,
        command->Grep_max_total_bytes,
    )
}

proof fn lemma_grep_goes_on(
    command: WorkspaceCommand,
    steps: Seq<Step<Seq<Part>, RunState, Report, ToolFailure>>,
    replies: Seq<FsReply>,
    n: int,
) -> (inner: Seq<Step<Seq<Part>, SearchState, FoundLines, SearchFailure>>)
    requires
        is_course(command, steps, replies),
        command is Grep,
        is_there(replies),
        4 <= n < steps.len(),
        told_kind(replies, 3) != Some(FileKind::File),
    ensures
        goes_as(steps, inner, n),
        is_search(
            search_start(
                path_told(replies, 2),
                separator_of(steps),
                command->pattern@,
                glob_said(command),
                command->Grep_max_results,
                command->max_file_bytes,
                command->Grep_max_total_bytes,
            ),
            inner,
            replies.subrange(4, n),
        ),
        steps[n] is Ask ==> inner.last() is Ask && (steps[n]->Ask_1.stage matches Stage::Grep {
            stage,
            ..
        } && stage == (GrepStage::Search { state: inner.last()->Ask_1 })),
    decreases n,
{
    if n == 4 {
        let first = lemma_grep_begins(command, steps, replies);
        let inner = seq![first];
        assert(inner[0] == first);
        assert(replies.subrange(4, 4) =~= seq![]);
        inner
    } else {
        let before = lemma_grep_goes_on(command, steps, replies, n - 1);
        let reader = lemma_step(command, steps, replies, n - 1);
        let reply = replies[n - 1];
        let inner = before.last()->Ask_1;
        let next = search_next(inner, reply);
        lemma_grep_step(reader, steps[n - 1]->Ask_1, inner, reply);
        assert(is_step_of(steps[n - 1], before[before.len() - 1]));
        assert(search_answers(before.last(), reply, next));
        lemma_search_extends(
            search_start(
                path_told(replies, 2),
                separator_of(steps),
                command->pattern@,
                glob_said(command),
                command->Grep_max_results,
                command->max_file_bytes,
                command->Grep_max_total_bytes,
            ),
            before,
            replies.subrange(4, n - 1),
            reply,
            next,
        );
        assert(replies.subrange(4, n) =~= replies.subrange(4, n - 1).push(reply));
        let all = before.push(next);
        assert forall|i: int| 0 <= i < all.len() implies is_step_of(
            steps[i + 4],
            #[trigger] all[i],
        ) by {
            if i < before.len() {
                assert(all[i] == before[i]);
            }
        }
        all
    }
}

/// Where the target is no file, a search in the workspace is from then on just the search
/// of the files below it, with what the caller said: it asks for the same, finds the
/// same and fails for the same reasons.
pub proof fn law_grep_below_a_directory(
    command: WorkspaceCommand,
    steps: Seq<Step<Seq<Part>, RunState, Report, ToolFailure>>,
    replies: Seq<FsReply>,
) -> (inner: Seq<Step<Seq<Part>, SearchState, FoundLines, SearchFailure>>)
    requires
        is_course(command, steps, replies),
        command is Grep,
        is_there(replies),
        replies.len() > 3,
        told_kind(replies, 3) != Some(FileKind::File),
    ensures
        is_search(
            search_start(
                path_told(replies, 2),
                separator_of(steps),
                command->pattern@,
                glob_said(command),
                command->Grep_max_results,
                command->max_file_bytes,
                command->Grep_max_total_bytes,
            ),
            inner,
            replies.skip(4),
        ),
        goes_as(steps, inner, replies.len() as int),
{
    let n = replies.len() as int;
    let inner = lemma_grep_goes_on(command, steps, replies, n);
    assert(replies.subrange(4, n) =~= replies.skip(4));
    inner
}

} // verus!
