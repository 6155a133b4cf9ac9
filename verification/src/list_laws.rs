//! What holds of every run that lists entries or finds paths.

use vstd::prelude::*;

use crate::errors::ToolFailure;
use crate::fs::{FileKind, FsReply, NextEntry, Step};
use crate::listing::{
    entry_at_path, find_in_file, glob_or_error, listing, ls_next, optional_text, FindStage,
    LsStage,
};
use crate::order::{in_order, law_sorting, lemma_text_le_total, ordered};
use crate::paths::{parts, reads_plainly, shown, Part};
use crate::pattern::glob_admits;
use crate::toolbox::{
    ListedEntry, Report, WorkspaceCommand, WorkspaceEntry, TOOLBOX_DEFAULT_MAX_FIND_RESULTS,
    TOOLBOX_DEFAULT_MAX_LIST_ENTRIES,
};
use crate::workspace::{ls_step, or_default, run_next, site_step, Goal, RunState, Stage};
use crate::workspace_laws::{goes_on, is_course, law_each_request_awaits_its_reply};

verus! {

// ---------------------------------------------------------------------------
// How much is listed and found
// ---------------------------------------------------------------------------

/// How many entries or paths a command may return: at least one.
pub open spec fn list_limit(command: WorkspaceCommand) -> nat {
    let limit = match command {
        WorkspaceCommand::Ls { max_entries, .. } => or_default(
            max_entries,
            TOOLBOX_DEFAULT_MAX_LIST_ENTRIES,
        ),
        WorkspaceCommand::Find { max_results, .. } => or_default(
            max_results,
            TOOLBOX_DEFAULT_MAX_FIND_RESULTS,
        ),
        _ => 0,
    };
    at_least_one(limit)
}

/// A limit that allows for one, whatever it is.
pub open spec fn at_least_one(limit: usize) -> nat {
    if limit == 0 {
        1
    } else {
        limit as nat
    }
}

/// Whether a stage of a command that lists or finds has not come to the limit.
pub open spec fn list_within(stage: Stage, limit: nat) -> bool {
    match stage {
        Stage::Root { command, .. } => (command is Ls || command is Find) && list_limit(command)
            == limit,
        Stage::RootKind { command, .. } => (command is Ls || command is Find) && list_limit(command)
            == limit,
        Stage::Target { goal, .. } => match goal {
            Goal::Ls { max_entries, .. } => at_least_one(max_entries) == limit,
            Goal::Find { max_results, .. } => at_least_one(max_results) == limit,
            _ => false,
        },
        Stage::Ls { max_entries, stage, .. } => at_least_one(max_entries) == limit && match stage {
            LsStage::Kind { .. } => true,
            LsStage::Entry { entries } => entries.len() < limit,
            LsStage::Stat { entries, .. } => entries.len() < limit,
        },
        Stage::Find { max_results, stage } => at_least_one(max_results) == limit && match stage {
            FindStage::Kind { .. } => true,
            FindStage::Entry { paths, .. } => paths.len() < limit,
        },
        _ => false,
    }
}

/// In every run that lists or finds, no more is returned than the limit allows,
/// in the order of the paths, and it is called truncated only where it came to
/// the limit.
pub proof fn law_lists_are_bounded_and_sorted(
    command: WorkspaceCommand,
    steps: Seq<Step<Seq<Part>, RunState, Report, ToolFailure>>,
    replies: Seq<FsReply>,
    n: int,
)
    requires
        is_course(command, steps, replies),
        command is Ls || command is Find,
        0 <= n < steps.len(),
    ensures
        match steps[n] {
            Step::Ask(_, state) => list_within(state.stage, list_limit(command)),
            Step::Done(Report::Ls { entries, truncated }) => {
                &&& entries.len() <= list_limit(command)
                &&& truncated ==> entries.len() == list_limit(command)
                &&& ordered::<WorkspaceEntry>(entries)
            },
            Step::Done(Report::Find { paths, truncated }) => {
                &&& paths.len() <= list_limit(command)
                &&& truncated ==> paths.len() == list_limit(command)
                &&& ordered::<String>(paths)
            },
            Step::Done(_) => false,
            Step::Failed(_) => true,
        },
    decreases n,
{
    if n > 0 {
        law_lists_are_bounded_and_sorted(command, steps, replies, n - 1);
        law_each_request_awaits_its_reply(command, steps, replies, n - 1);
        assert(goes_on(steps[n - 1], replies[n - 1], steps[n]));
        let state = steps[n - 1]->Ask_1;
        let reply = replies[n - 1];
        let reader = choose|reader: spec_fn(Seq<char>) -> Seq<Part>|
            reads_plainly(reader) && steps[n] == #[trigger] run_next(reader, state, reply);
        assert(steps[n] == run_next(reader, state, reply));
        match state.stage {
            Stage::Ls { stage, .. } => {
                match stage {
                    LsStage::Kind { target } => {
                        let path = shown(state.site.root, target);
                        lemma_text_le_total(path, path);
                    },
                    LsStage::Entry { entries } => {
                        law_sorting::<WorkspaceEntry>(entries);
                    },
                    LsStage::Stat { path, entries } => {
                        match reply->Status_0 {
                            Ok(stat) => {
                                match entry_at_path(state.site, path, stat) {
                                    Ok(entry) => {
                                        law_sorting::<WorkspaceEntry>(entries.push(entry));
                                    },
                                    Err(_) => {},
                                }
                            },
                            Err(_) => {},
                        }
                    },
                }
            },
            Stage::Find { stage, .. } => {
                match stage {
                    FindStage::Kind { target, .. } => {
                        let path = shown(state.site.root, target);
                        lemma_text_le_total(path, path);
                    },
                    FindStage::Entry { paths, .. } => {
                        law_sorting::<String>(paths);
                        match reply->Entry_0 {
                            NextEntry::Found(entry) => {
                                law_sorting::<String>(
                                    paths.push(shown(state.site.root, parts(entry.path@))),
                                );
                            },
                            _ => {},
                        }
                    },
                }
            },
            _ => {},
        }
    }
}

// ---------------------------------------------------------------------------
// What is listed and found
// ---------------------------------------------------------------------------

/// Whether step `i` of a listing or a search for paths is told of an entry.
pub open spec fn finds_entry(
    steps: Seq<Step<Seq<Part>, RunState, Report, ToolFailure>>,
    replies: Seq<FsReply>,
    i: int,
) -> bool {
    &&& steps[i] matches Step::Ask(_, state) && match state.stage {
        Stage::Ls { stage, .. } => stage is Entry,
        Stage::Find { stage, .. } => stage is Entry,
        _ => false,
    }
    &&& replies[i] matches FsReply::Entry(NextEntry::Found(_))
}

/// The path of the entry that step `i` is told of.
pub open spec fn path_told(replies: Seq<FsReply>, i: int) -> Seq<Part> {
    parts(replies[i]->Entry_0->Found_0.path@)
}

/// How the entry that step `i` of a listing is told of is listed, once it is told
/// at the next step what it is.
pub open spec fn listed_entry(
    steps: Seq<Step<Seq<Part>, RunState, Report, ToolFailure>>,
    replies: Seq<FsReply>,
    i: int,
) -> Seq<ListedEntry> {
    match replies[i + 1] {
        FsReply::Status(Ok(stat)) => if finds_entry(steps, replies, i) {
            match entry_at_path(steps[i]->Ask_1.site, path_told(replies, i), stat) {
                Ok(entry) => seq![entry],
                Err(_) => seq![],
            }
        } else {
            seq![]
        },
        _ => seq![],
    }
}

/// The entries that a listing was told of before step `n`, in the order in which
/// it was.
pub open spec fn entries_listed(
    steps: Seq<Step<Seq<Part>, RunState, Report, ToolFailure>>,
    replies: Seq<FsReply>,
    n: int,
) -> Seq<ListedEntry>
    decreases n,
{
    if n < 2 {
        seq![]
    } else {
        entries_listed(steps, replies, n - 1) + listed_entry(steps, replies, n - 2)
    }
}

/// What the entry that step `i` of a search for paths is told of adds to what is
/// found: its path, where the glob admits it.
pub open spec fn found_path(
    steps: Seq<Step<Seq<Part>, RunState, Report, ToolFailure>>,
    replies: Seq<FsReply>,
    glob: Option<Seq<char>>,
    i: int,
) -> Seq<Seq<char>> {
    let path = shown(steps[i]->Ask_1.site.root, path_told(replies, i));
    if finds_entry(steps, replies, i) && glob_admits(glob, path) {
        seq![path]
    } else {
        seq![]
    }
}

/// The paths that a search was told of before step `n` and that the glob admits,
/// in the order in which it was.
pub open spec fn paths_found(
    steps: Seq<Step<Seq<Part>, RunState, Report, ToolFailure>>,
    replies: Seq<FsReply>,
    glob: Option<Seq<char>>,
    n: int,
) -> Seq<Seq<char>>
    decreases n,
{
    if n <= 0 {
        seq![]
    } else {
        paths_found(steps, replies, glob, n - 1) + found_path(steps, replies, glob, n - 1)
    }
}

/// Whether each entry that a listing was told of before step `n` is listed.
pub open spec fn each_is_listed(
    steps: Seq<Step<Seq<Part>, RunState, Report, ToolFailure>>,
    replies: Seq<FsReply>,
    n: int,
) -> bool {
    forall|i: int|
        0 <= i < n - 1 && #[trigger] finds_entry(steps, replies, i) ==> listed_entry(
            steps,
            replies,
            i,
        ).len() == 1
}

/// What a listing knows at step `n`.
pub open spec fn ls_knows(
    steps: Seq<Step<Seq<Part>, RunState, Report, ToolFailure>>,
    replies: Seq<FsReply>,
    n: int,
) -> bool {
    match steps[n] {
        Step::Ask(request, state) => match state.stage {
            Stage::Ls { stage, .. } => match stage {
                LsStage::Kind { target } => nothing_found(steps, replies, n),
                LsStage::Entry { entries } => entries == entries_listed(steps, replies, n)
                    && each_is_listed(steps, replies, n) && (n > 0 ==> !finds_entry(
                    steps,
                    replies,
                    n - 1,
                )),
                LsStage::Stat { path, entries } => entries == entries_listed(steps, replies, n)
                    && each_is_listed(steps, replies, n) && n > 0 && finds_entry(
                    steps,
                    replies,
                    n - 1,
                ) && path == path_told(replies, n - 1) && state.site
                    == steps[n - 1]->Ask_1.site,
            },
            _ => starts_ls(state.stage) && nothing_found(steps, replies, n),
        },
        _ => true,
    }
}

/// Whether no entry was told of before step `n`.
pub open spec fn nothing_found(
    steps: Seq<Step<Seq<Part>, RunState, Report, ToolFailure>>,
    replies: Seq<FsReply>,
    n: int,
) -> bool {
    forall|i: int| 0 <= i < n ==> !(#[trigger] finds_entry(steps, replies, i))
}

proof fn lemma_nothing_found(
    steps: Seq<Step<Seq<Part>, RunState, Report, ToolFailure>>,
    replies: Seq<FsReply>,
    glob: Option<Seq<char>>,
    n: int,
)
    requires
        nothing_found(steps, replies, n),
    ensures
        entries_listed(steps, replies, n) == Seq::<ListedEntry>::empty(),
        entries_listed(steps, replies, n + 1) == Seq::<ListedEntry>::empty(),
        paths_found(steps, replies, glob, n) == Seq::<Seq<char>>::empty(),
    decreases n,
{
    if n > 0 {
        lemma_nothing_found(steps, replies, glob, n - 1);
        assert(!finds_entry(steps, replies, n - 1));
    }
}

/// What a listing gives that ends at step `n`: the one file that was named, or, in
/// the order of their paths, the entries that it was told of. It is truncated if
/// and only if these are as many as the limit allows; otherwise it was told of no
/// more, and each of them is there.
pub open spec fn lists_what_was_told(
    steps: Seq<Step<Seq<Part>, RunState, Report, ToolFailure>>,
    replies: Seq<FsReply>,
    limit: nat,
    n: int,
) -> bool {
    let state = steps[n - 1]->Ask_1;
    let told = entries_listed(steps, replies, n);
    match state.stage {
        Stage::Ls { stage: LsStage::Kind { target }, .. } => {
            &&& replies[n - 1] matches FsReply::Status(Ok(stat))
            &&& stat.kind == FileKind::File
            &&& entry_at_path(state.site, target, stat) matches Ok(entry)
            &&& steps[n] == Step::<Seq<Part>, RunState, Report, ToolFailure>::Done(
                Report::Ls { entries: seq![entry], truncated: false },
            )
        },
        _ => {
            &&& steps[n] == Step::<Seq<Part>, RunState, Report, ToolFailure>::Done(
                listing(told, told.len() == limit),
            )
            &&& told.len() <= limit
            &&& each_is_listed(steps, replies, n)
            &&& told.len() < limit ==> replies[n - 1] == FsReply::Entry(NextEntry::End)
        },
    }
}

proof fn lemma_ls_step(
    steps: Seq<Step<Seq<Part>, RunState, Report, ToolFailure>>,
    replies: Seq<FsReply>,
    limit: nat,
    m: int,
)
    requires
        0 <= m < replies.len(),
        steps.len() == replies.len() + 1,
        ls_knows(steps, replies, m),
        steps[m] matches Step::Ask(request, state) && {
            &&& state.stage matches Stage::Ls { recursive, max_entries, stage }
            &&& replies[m].kind_of() == stage.awaits()
            &&& list_within(state.stage, limit)
            &&& steps[m + 1] == site_step(
                state.site,
                ls_step(
                    recursive,
                    max_entries,
                    ls_next(state.site, recursive, max_entries, stage, replies[m]),
                ),
            )
        },
    ensures
        ls_knows(steps, replies, m + 1),
        steps[m + 1] is Done ==> lists_what_was_told(steps, replies, limit, m + 1),
{
    let n = m + 1;
    let state = steps[m]->Ask_1;
    let reply = replies[m];
    match state.stage->Ls_stage {
        LsStage::Kind { target } => {
            assert(nothing_found(steps, replies, n));
            lemma_nothing_found(steps, replies, None, m);
        },
        LsStage::Entry { entries } => {
            if m > 0 {
                assert(listed_entry(steps, replies, m - 1) =~= seq![]);
            }
            assert(entries_listed(steps, replies, n) =~= entries);
        },
        LsStage::Stat { path, entries } => {
            assert(!finds_entry(steps, replies, m));
            match reply->Status_0 {
                Ok(stat) => {
                    match entry_at_path(state.site, path, stat) {
                        Ok(entry) => {
                            assert(listed_entry(steps, replies, m - 1) =~= seq![entry]);
                            assert(entries_listed(steps, replies, n) =~= entries.push(entry));
                        },
                        Err(_) => {},
                    }
                },
                Err(_) => {},
            }
        },
    }
}

proof fn lemma_ls_knows(
    command: WorkspaceCommand,
    steps: Seq<Step<Seq<Part>, RunState, Report, ToolFailure>>,
    replies: Seq<FsReply>,
    n: int,
)
    requires
        is_course(command, steps, replies),
        command is Ls,
        0 <= n < steps.len(),
    ensures
        ls_knows(steps, replies, n),
        steps[n] is Done ==> n > 0 && lists_what_was_told(steps, replies, list_limit(command), n),
    decreases n,
{
    if n > 0 {
        let m = n - 1;
        lemma_ls_knows(command, steps, replies, m);
        law_lists_are_bounded_and_sorted(command, steps, replies, m);
        law_each_request_awaits_its_reply(command, steps, replies, m);
        assert(goes_on(steps[m], replies[m], steps[n]));
        let state = steps[m]->Ask_1;
        let reply = replies[m];
        let reader = choose|reader: spec_fn(Seq<char>) -> Seq<Part>|
            reads_plainly(reader) && steps[n] == #[trigger] run_next(reader, state, reply);
        match state.stage {
            Stage::Ls { .. } => {
                lemma_ls_step(steps, replies, list_limit(command), m);
            },
            _ => {
                assert(nothing_found(steps, replies, n));
                lemma_nothing_found(steps, replies, None, n);
                lemma_before_ls(reader, state, reply, list_limit(command));
            },
        }
    }
}

proof fn lemma_before_ls(
    reader: spec_fn(Seq<char>) -> Seq<Part>,
    state: RunState,
    reply: FsReply,
    limit: nat,
)
    requires
        list_within(state.stage, limit),
        !(state.stage is Ls),
        !(state.stage is Find),
        starts_ls(state.stage),
    ensures
        match run_next(reader, state, reply) {
            Step::Ask(_, next) => starts_ls(next.stage),
            Step::Done(_) => false,
            Step::Failed(_) => true,
        },
{
}

/// Whether a listing is at its start.
pub open spec fn starts_ls(stage: Stage) -> bool {
    match stage {
        Stage::Root { command, .. } => command is Ls,
        Stage::RootKind { command, .. } => command is Ls,
        Stage::Target { goal, .. } => goal is Ls,
        Stage::Ls { stage, .. } => stage is Kind,
        _ => false,
    }
}

/// In every run that lists and ends well, the list is the one file that was named,
/// or just the entries that were told of; it is truncated exactly where these are
/// as many as the limit allows.
pub proof fn law_lists_hold_what_was_told(
    command: WorkspaceCommand,
    steps: Seq<Step<Seq<Part>, RunState, Report, ToolFailure>>,
    replies: Seq<FsReply>,
    n: int,
)
    requires
        is_course(command, steps, replies),
        command is Ls,
        0 <= n < steps.len(),
        steps[n] is Done,
    ensures
        lists_what_was_told(steps, replies, list_limit(command), n),
{
    lemma_ls_knows(command, steps, replies, n);
}

/// The glob of a command that searches for paths.
pub open spec fn glob_of(command: WorkspaceCommand) -> Option<Seq<char>>
    recommends
        command is Find,
{
    optional_text(command->Find_glob)
}

/// What a search for paths knows at step `n`.
pub open spec fn find_knows(
    steps: Seq<Step<Seq<Part>, RunState, Report, ToolFailure>>,
    replies: Seq<FsReply>,
    glob: Option<Seq<char>>,
    n: int,
) -> bool {
    match steps[n] {
        Step::Ask(request, state) => match state.stage {
            Stage::Root { command, .. } => command is Find && glob_of(command) == glob
                && nothing_found(steps, replies, n),
            Stage::RootKind { command, .. } => command is Find && glob_of(command) == glob
                && nothing_found(steps, replies, n),
            Stage::Target { goal: Goal::Find { glob: text, .. }, .. } => optional_text(text) == glob
                && nothing_found(steps, replies, n),
            Stage::Find { stage, .. } => match stage {
                FindStage::Kind { glob: pattern, .. } => glob_or_error(glob) == Ok::<
                    Option<Seq<char>>,
                    Seq<char>,
                >(pattern) && nothing_found(steps, replies, n),
                FindStage::Entry { glob: pattern, paths } => glob_or_error(glob) == Ok::<
                    Option<Seq<char>>,
                    Seq<char>,
                >(pattern) && paths == paths_found(steps, replies, pattern, n),
            },
            _ => false,
        },
        _ => true,
    }
}

/// What a search for paths gives that ends at step `n`: the one file that was
/// named, if the glob admits it, or, in order, the paths that it was told of and
/// that the glob admits. It is truncated if and only if these are as many as the
/// limit allows; otherwise it was told of no more.
pub open spec fn finds_what_was_told(
    steps: Seq<Step<Seq<Part>, RunState, Report, ToolFailure>>,
    replies: Seq<FsReply>,
    glob: Option<Seq<char>>,
    limit: nat,
    n: int,
) -> bool {
    let state = steps[n - 1]->Ask_1;
    &&& glob_or_error(glob) matches Ok(pattern)
    &&& match state.stage {
        Stage::Find { stage: FindStage::Kind { target, .. }, .. } => {
            let path = shown(state.site.root, target);
            &&& replies[n - 1] matches FsReply::Status(Ok(stat)) && stat.kind == FileKind::File
            &&& steps[n] == Step::<Seq<Part>, RunState, Report, ToolFailure>::Done(
                find_in_file(path, glob_admits(pattern, path)),
            )
        },
        _ => {
            let told = paths_found(steps, replies, pattern, n);
            &&& steps[n] == Step::<Seq<Part>, RunState, Report, ToolFailure>::Done(
                Report::Find { paths: in_order::<String>(told), truncated: told.len() == limit },
            )
            &&& told.len() <= limit
            &&& told.len() < limit ==> replies[n - 1] == FsReply::Entry(NextEntry::End)
        },
    }
}

proof fn lemma_find_knows(
    command: WorkspaceCommand,
    steps: Seq<Step<Seq<Part>, RunState, Report, ToolFailure>>,
    replies: Seq<FsReply>,
    n: int,
)
    requires
        is_course(command, steps, replies),
        command is Find,
        0 <= n < steps.len(),
    ensures
        find_knows(steps, replies, glob_of(command), n),
        steps[n] is Done ==> n > 0 && finds_what_was_told(
            steps,
            replies,
            glob_of(command),
            list_limit(command),
            n,
        ),
    decreases n,
{
    if n > 0 {
        let m = n - 1;
        lemma_find_knows(command, steps, replies, m);
        law_lists_are_bounded_and_sorted(command, steps, replies, m);
        law_each_request_awaits_its_reply(command, steps, replies, m);
        assert(goes_on(steps[m], replies[m], steps[n]));
        let state = steps[m]->Ask_1;
        let reply = replies[m];
        let reader = choose|reader: spec_fn(Seq<char>) -> Seq<Part>|
            reads_plainly(reader) && steps[n] == #[trigger] run_next(reader, state, reply);
        assert(steps[n] == run_next(reader, state, reply));
        match state.stage {
            Stage::Find { stage, .. } => {
                match stage {
                    FindStage::Kind { glob: pattern, .. } => {
                        assert(nothing_found(steps, replies, n));
                        lemma_nothing_found(steps, replies, pattern, n);
                    },
                    FindStage::Entry { glob: pattern, paths } => {
                        let added = found_path(steps, replies, pattern, m);
                        assert(paths_found(steps, replies, pattern, n) == paths + added);
                        assert(added.len() == 0 ==> paths + added =~= paths);
                        assert(added.len() == 1 ==> paths + added =~= paths.push(added[0]));
                    },
                }
            },
            _ => {
                assert(nothing_found(steps, replies, n));
            },
        }
    }
}

/// In every run that searches for paths and ends well, what is found is the one
/// file that was named, or just the paths that were told of and that the glob
/// admits; it is truncated exactly where these are as many as the limit allows.
pub proof fn law_finds_hold_what_was_told(
    command: WorkspaceCommand,
    steps: Seq<Step<Seq<Part>, RunState, Report, ToolFailure>>,
    replies: Seq<FsReply>,
    n: int,
)
    requires
        is_course(command, steps, replies),
        command is Find,
        0 <= n < steps.len(),
        steps[n] is Done,
    ensures
        finds_what_was_told(steps, replies, glob_of(command), list_limit(command), n),
{
    lemma_find_knows(command, steps, replies, n);
}

} // verus!
