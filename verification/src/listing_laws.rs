//! What every run that lists, or that searches for paths, asks for and answers.

use vstd::prelude::*;
use vstd::seq_lib::group_to_multiset_ensures;

use crate::effect_laws::{site_of, told_kind};
use crate::errors::ToolFailure;
use crate::fs::{FileKind, FsReply, FsRequest, NextEntry, Step};
use crate::listing::{FindStage, LsStage};
use crate::order::{in_order, law_sorting, merged, Listed};
use crate::path_laws::{law_written_paths, written};
use crate::paths::{parts, shown, Part};
use crate::pattern::{glob_regex, regex_error, regex_matches};
use crate::run_laws::{
    asks_for, ends_with, fails_with, is_there, lemma_is_there, lemma_step, path_told,
    refusal, separator_of,
};
use crate::text_laws::{law_text_order, parts_at};
use crate::toolbox::{
    ListedEntry, Report, WorkspaceCommand, WorkspaceEntry, WorkspaceEntryKind,
};
use crate::workspace::{RunState, Stage};
use crate::workspace_laws::is_course;

verus! {

// ---------------------------------------------------------------------------
// Order
// ---------------------------------------------------------------------------

/// Whether one text stands before another, character by character, or is it.
pub open spec fn stands_before(a: Seq<char>, b: Seq<char>) -> bool {
    exists|k: int| #[trigger] parts_at(a, b, k)
}

/// Whether `entries` are those of `told`, each as often, in the order of their paths.
pub open spec fn are_sorted(entries: Seq<ListedEntry>, told: Seq<ListedEntry>) -> bool {
    &&& entries.to_multiset() == told.to_multiset()
    &&& entries.len() == told.len()
    &&& forall|i: int, j: int|
        0 <= i <= j < entries.len() ==> stands_before(
            #[trigger] entries[i].path,
            #[trigger] entries[j].path,
        )
}

/// Whether `paths` are those of `told`, each as often, in their order.
pub open spec fn are_sorted_paths(paths: Seq<Seq<char>>, told: Seq<Seq<char>>) -> bool {
    &&& paths.to_multiset() == told.to_multiset()
    &&& paths.len() == told.len()
    &&& forall|i: int, j: int|
        0 <= i <= j < paths.len() ==> stands_before(#[trigger] paths[i], #[trigger] paths[j])
}

proof fn lemma_merged_contents<T: Listed>(a: Seq<T::V>, b: Seq<T::V>)
    ensures
        merged::<T>(a, b).to_multiset() == a.to_multiset().add(b.to_multiset()),
    decreases a.len() + b.len(),
{
    broadcast use group_to_multiset_ensures;

    let r = merged::<T>(a, b);
    if a.len() == 0 {
        assert(a =~= Seq::empty());
        assert(r.to_multiset() =~= a.to_multiset().add(b.to_multiset()));
    } else if b.len() == 0 {
        assert(b =~= Seq::empty());
        assert(r.to_multiset() =~= a.to_multiset().add(b.to_multiset()));
    } else {
        assert(a =~= a.drop_last().push(a.last()));
        assert(b =~= b.drop_last().push(b.last()));
        lemma_merged_contents::<T>(a, b.drop_last());
        lemma_merged_contents::<T>(a.drop_last(), b);
        assert(r.to_multiset() =~= a.to_multiset().add(b.to_multiset()));
    }
}

proof fn lemma_sorted_contents<T: Listed>(s: Seq<T::V>)
    ensures
        in_order::<T>(s).to_multiset() == s.to_multiset(),
    decreases s.len(),
{
    broadcast use group_to_multiset_ensures;

    if s.len() > 0 {
        let before = s.drop_last();
        let one = seq![s.last()];
        lemma_sorted_contents::<T>(before);
        lemma_merged_contents::<T>(in_order::<T>(before), one);
        assert(s =~= before.push(s.last()));
        assert(one =~= Seq::<T::V>::empty().push(s.last()));
        assert(in_order::<T>(s).to_multiset() =~= s.to_multiset());
    }
}

proof fn lemma_sorted_entries(told: Seq<ListedEntry>)
    ensures
        are_sorted(in_order::<WorkspaceEntry>(told), told),
{
    let entries = in_order::<WorkspaceEntry>(told);
    lemma_sorted_contents::<WorkspaceEntry>(told);
    law_sorting::<WorkspaceEntry>(told);
    assert forall|i: int, j: int| 0 <= i <= j < entries.len() implies stands_before(
        #[trigger] entries[i].path,
        #[trigger] entries[j].path,
    ) by {
        law_text_order(entries[i].path, entries[j].path);
    }
}

proof fn lemma_sorted_paths(told: Seq<Seq<char>>)
    ensures
        are_sorted_paths(in_order::<String>(told), told),
{
    let paths = in_order::<String>(told);
    lemma_sorted_contents::<String>(told);
    law_sorting::<String>(told);
    assert forall|i: int, j: int| 0 <= i <= j < paths.len() implies stands_before(
        #[trigger] paths[i],
        #[trigger] paths[j],
    ) by {
        law_text_order(paths[i], paths[j]);
    }
}

// ---------------------------------------------------------------------------
// Listing
// ---------------------------------------------------------------------------

/// How many entries may be listed: as many as the caller says, or 1024.
pub open spec fn most_listed(command: WorkspaceCommand) -> usize {
    match command {
        WorkspaceCommand::Ls { max_entries, .. } => match max_entries {
            Some(limit) => limit,
            None => 1024,
        },
        WorkspaceCommand::Find { max_results, .. } => match max_results {
            Some(limit) => limit,
            None => 1024,
        },
        _ => 0,
    }
}

/// Whether a listing goes into directories.
pub open spec fn goes_deep(command: WorkspaceCommand) -> bool {
    command matches WorkspaceCommand::Ls { recursive, .. } && recursive
}

/// How a path is listed where this is there: a file with its size, a directory without
/// one, and nothing else.
pub open spec fn listed_as(root: Seq<Part>, path: Seq<Part>, reply: FsReply) -> Seq<ListedEntry> {
    match reply {
        FsReply::Status(Ok(stat)) => match stat.kind {
            FileKind::File => seq![
                ListedEntry {
                    path: shown(root, path),
                    kind: WorkspaceEntryKind::File,
                    size_bytes: Some(stat.len),
                },
            ],
            FileKind::Directory => seq![
                ListedEntry {
                    path: shown(root, path),
                    kind: WorkspaceEntryKind::Directory,
                    size_bytes: None,
                },
            ],
            FileKind::Other => seq![],
        },
        _ => seq![],
    }
}

/// The entries that were told of before step `n`, in the order in which they were: each
/// path that was asked about, as what it was told to be.
pub open spec fn entries_seen(
    steps: Seq<Step<Seq<Part>, RunState, Report, ToolFailure>>,
    replies: Seq<FsReply>,
    n: int,
) -> Seq<ListedEntry>
    decreases n,
{
    if n <= 4 {
        seq![]
    } else {
        entries_seen(steps, replies, n - 1) + match steps[n - 1] {
            Step::Ask(FsRequest::Stat(path), _) => listed_as(
                path_told(replies, 0),
                path,
                replies[n - 1],
            ),
            _ => seq![],
        }
    }
}

/// What is known at step `n` of a listing.
pub open spec fn listing_knows(
    command: WorkspaceCommand,
    steps: Seq<Step<Seq<Part>, RunState, Report, ToolFailure>>,
    replies: Seq<FsReply>,
    n: int,
) -> bool {
    let target = path_told(replies, 2);
    steps[n] matches Step::Ask(request, state) ==> {
        &&& state.site == site_of(steps, replies)
        &&& state.stage matches Stage::Ls { recursive, max_entries, stage } && recursive
            == goes_deep(command) && max_entries == most_listed(command) && match stage {
            LsStage::Kind { target: t } => n == 3 && t == target && request == FsRequest::Stat(
                target,
            ),
            LsStage::Entry { entries } => n > 3 && entries == entries_seen(steps, replies, n)
                && request == (if n > 4 {
                FsRequest::NextEntry
            } else if goes_deep(command) {
                FsRequest::Walk(target, 1)
            } else {
                FsRequest::ReadDir(target)
            }),
            LsStage::Stat { path, entries } => n > 4 && entries == entries_seen(steps, replies, n)
                && request == FsRequest::Stat(path),
        }
    }
}

proof fn lemma_listing_starts(
    command: WorkspaceCommand,
    steps: Seq<Step<Seq<Part>, RunState, Report, ToolFailure>>,
    replies: Seq<FsReply>,
)
    requires
        is_course(command, steps, replies),
        command is Ls,
        is_there(replies),
    ensures
        listing_knows(command, steps, replies, 3),
        steps[3] is Ask,
{
    lemma_is_there(replies);
    let _ = lemma_step(command, steps, replies, 0);
    let _ = lemma_step(command, steps, replies, 1);
    let _ = lemma_step(command, steps, replies, 2);
}

proof fn lemma_listing_goes_on(
    command: WorkspaceCommand,
    steps: Seq<Step<Seq<Part>, RunState, Report, ToolFailure>>,
    replies: Seq<FsReply>,
    n: int,
)
    requires
        is_course(command, steps, replies),
        command is Ls,
        is_there(replies),
        3 <= n < steps.len(),
    ensures
        listing_knows(command, steps, replies, n),
    decreases n,
{
    lemma_listing_starts(command, steps, replies);
    if n > 3 {
        lemma_listing_goes_on(command, steps, replies, n - 1);
        let _ = lemma_step(command, steps, replies, n - 1);
        let before = entries_seen(steps, replies, n - 1);
        let new = listed_as(
            path_told(replies, 0),
            match steps[n - 1]->Ask_0 {
                FsRequest::Stat(path) => path,
                _ => seq![],
            },
            replies[n - 1],
        );
        assert(before + Seq::<ListedEntry>::empty() =~= before);
        assert(new.len() == 1 ==> before + new =~= before.push(new[0]));
    }
}

/// A listing asks what is at its target. A file is listed alone. The entries of a
/// directory, or with the wish of the caller everything below it, are asked for one
/// after the other, and of each what it is. What was told of is listed in the order
/// of the paths, once there is no more or as soon as the limit is reached, which is
/// said.
pub proof fn law_listing(
    command: WorkspaceCommand,
    steps: Seq<Step<Seq<Part>, RunState, Report, ToolFailure>>,
    replies: Seq<FsReply>,
    n: int,
)
    requires
        is_course(command, steps, replies),
        command is Ls,
        is_there(replies),
        3 <= n < replies.len(),
    ensures
        asks_for(steps[3], FsRequest::Stat(path_told(replies, 2))),
        n == 3 ==> {
            let target = path_told(replies, 2);
            match told_kind(replies, 3) {
                Some(FileKind::File) => ends_with(
                    steps[4],
                    Report::Ls {
                        entries: seq![
                            ListedEntry {
                                path: shown(path_told(replies, 0), target),
                                kind: WorkspaceEntryKind::File,
                                size_bytes: Some(replies[3]->Status_0->Ok_0.len),
                            },
                        ],
                        truncated: false,
                    },
                ),
                Some(FileKind::Directory) => asks_for(
                    steps[4],
                    if goes_deep(command) {
                        FsRequest::Walk(target, 1)
                    } else {
                        FsRequest::ReadDir(target)
                    },
                ),
                _ => fails_with(
                    steps[4],
                    ToolFailure::NotADirectory(written(target, separator_of(steps))),
                ),
            }
        },
        n > 3 ==> match replies[n] {
            FsReply::Entry(NextEntry::Found(entry)) => asks_for(
                steps[n + 1],
                FsRequest::Stat(parts(entry.path@)),
            ),
            FsReply::Entry(NextEntry::Failed(error)) => if goes_deep(command) {
                asks_for(steps[n + 1], FsRequest::NextEntry)
            } else {
                fails_with(steps[n + 1], refusal(error))
            },
            FsReply::Entry(NextEntry::End) => steps[n + 1] matches Step::Done(
                Report::Ls { entries, truncated },
            ) && !truncated && are_sorted(entries, entries_seen(steps, replies, n)),
            FsReply::Status(Ok(stat)) => {
                let seen = entries_seen(steps, replies, n + 1);
                if stat.kind == FileKind::Other {
                    fails_with(
                        steps[n + 1],
                        ToolFailure::InvalidArgument(
                            "unsupported entry type: "@ + written(
                                steps[n]->Ask_0->Stat_0,
                                separator_of(steps),
                            ),
                        ),
                    )
                } else if seen.len() >= most_listed(command) {
                    steps[n + 1] matches Step::Done(Report::Ls { entries, truncated }) && truncated
                        && are_sorted(entries, seen)
                } else {
                    asks_for(steps[n + 1], FsRequest::NextEntry)
                }
            },
            FsReply::Status(Err(error)) => fails_with(steps[n + 1], refusal(error)),
            _ => false,
        },
{
    lemma_listing_starts(command, steps, replies);
    lemma_listing_goes_on(command, steps, replies, n);
    law_written_paths(path_told(replies, 2), separator_of(steps));
    let _ = lemma_step(command, steps, replies, n);
    let seen = entries_seen(steps, replies, n);
    lemma_sorted_entries(seen);
    match replies[n] {
        FsReply::Status(Ok(stat)) => {
            let path = steps[n]->Ask_0->Stat_0;
            law_written_paths(path, separator_of(steps));
            let new = listed_as(path_told(replies, 0), path, replies[n]);
            assert(new.len() == 1 ==> seen + new =~= seen.push(new[0]));
            lemma_sorted_entries(seen + new);
        },
        _ => {},
    }
}

// ---------------------------------------------------------------------------
// Searching for paths
// ---------------------------------------------------------------------------

/// The glob of a search for paths.
pub open spec fn glob_said(command: WorkspaceCommand) -> Option<Seq<char>> {
    match command {
        WorkspaceCommand::Find { glob, .. } => match glob {
            Some(glob) => Some(glob@),
            None => None,
        },
        WorkspaceCommand::Grep { glob, .. } => match glob {
            Some(glob) => Some(glob@),
            None => None,
        },
        _ => None,
    }
}

/// Whether the glob of a command, if there is one, admits a path.
pub open spec fn lets_pass(command: WorkspaceCommand, path: Seq<char>) -> bool {
    glob_said(command) matches Some(glob) ==> regex_matches(glob_regex(glob), path)
}

/// The pattern of the glob of a command.
pub open spec fn glob_pattern_said(command: WorkspaceCommand) -> Option<Seq<char>> {
    match glob_said(command) {
        Some(glob) => Some(glob_regex(glob)),
        None => None,
    }
}

/// The paths that were told of before step `n` and that the glob admits, in the order in
/// which they were.
pub open spec fn paths_seen(
    command: WorkspaceCommand,
    replies: Seq<FsReply>,
    n: int,
) -> Seq<Seq<char>>
    decreases n,
{
    if n <= 4 {
        seq![]
    } else {
        let before = paths_seen(command, replies, n - 1);
        match replies[n - 1] {
            FsReply::Entry(NextEntry::Found(entry)) => {
                let path = shown(path_told(replies, 0), parts(entry.path@));
                if lets_pass(command, path) {
                    before.push(path)
                } else {
                    before
                }
            },
            _ => before,
        }
    }
}

/// What is known at step `n` of a search for paths.
pub open spec fn finding_knows(
    command: WorkspaceCommand,
    steps: Seq<Step<Seq<Part>, RunState, Report, ToolFailure>>,
    replies: Seq<FsReply>,
    n: int,
) -> bool {
    let target = path_told(replies, 2);
    steps[n] matches Step::Ask(request, state) ==> {
        &&& state.site == site_of(steps, replies)
        &&& state.stage matches Stage::Find { max_results, stage } && max_results == most_listed(
            command,
        ) && match stage {
            FindStage::Kind { target: t, glob } => n == 3 && t == target && glob
                == glob_pattern_said(command) && request == FsRequest::Stat(target),
            FindStage::Entry { glob, paths } => n > 3 && glob == glob_pattern_said(command)
                && paths == paths_seen(command, replies, n) && request == (if n > 4 {
                FsRequest::NextEntry
            } else {
                FsRequest::Walk(target, 1)
            }),
        }
    }
}

proof fn lemma_finding_starts(
    command: WorkspaceCommand,
    steps: Seq<Step<Seq<Part>, RunState, Report, ToolFailure>>,
    replies: Seq<FsReply>,
)
    requires
        is_course(command, steps, replies),
        command is Find,
        is_there(replies),
    ensures
        finding_knows(command, steps, replies, 3),
        glob_said(command) matches Some(glob) && regex_error(
            glob_regex(glob),
            usize::BITS as nat,
        ) is Some ==> fails_with(
            steps[3],
            ToolFailure::InvalidGlob(
                regex_error(glob_regex(glob_said(command)->0), usize::BITS as nat)->0,
            ),
        ),
        !(glob_said(command) matches Some(glob) && regex_error(
            glob_regex(glob),
            usize::BITS as nat,
        ) is Some) ==> steps[3] is Ask,
{
    lemma_is_there(replies);
    let _ = lemma_step(command, steps, replies, 0);
    let _ = lemma_step(command, steps, replies, 1);
    let _ = lemma_step(command, steps, replies, 2);
}

proof fn lemma_finding_goes_on(
    command: WorkspaceCommand,
    steps: Seq<Step<Seq<Part>, RunState, Report, ToolFailure>>,
    replies: Seq<FsReply>,
    n: int,
)
    requires
        is_course(command, steps, replies),
        command is Find,
        is_there(replies),
        3 <= n < steps.len(),
    ensures
        finding_knows(command, steps, replies, n),
    decreases n,
{
    lemma_finding_starts(command, steps, replies);
    if n > 3 {
        lemma_finding_goes_on(command, steps, replies, n - 1);
        let _ = lemma_step(command, steps, replies, n - 1);
    }
}

/// A search for paths whose glob cannot be compiled fails with the words that come with
/// that. Any other asks what is at its target.
pub proof fn law_how_finding_starts(
    command: WorkspaceCommand,
    steps: Seq<Step<Seq<Part>, RunState, Report, ToolFailure>>,
    replies: Seq<FsReply>,
)
    requires
        is_course(command, steps, replies),
        command is Find,
        is_there(replies),
    ensures
        match glob_said(command) {
            Some(glob) => match regex_error(glob_regex(glob), usize::BITS as nat) {
                Some(message) => fails_with(steps[3], ToolFailure::InvalidGlob(message)),
                None => asks_for(steps[3], FsRequest::Stat(path_told(replies, 2))),
            },
            None => asks_for(steps[3], FsRequest::Stat(path_told(replies, 2))),
        },
{
    lemma_finding_starts(command, steps, replies);
}

/// A search for paths finds a file alone, where its glob admits it. Otherwise it walks
/// all that is below its target and finds just the paths that it is told of and that
/// the glob admits, in their order, once there are no more or as soon as the limit is
/// reached, which is said. What cannot be reached is left out.
pub proof fn law_finding(
    command: WorkspaceCommand,
    steps: Seq<Step<Seq<Part>, RunState, Report, ToolFailure>>,
    replies: Seq<FsReply>,
    n: int,
)
    requires
        is_course(command, steps, replies),
        command is Find,
        is_there(replies),
        3 <= n < replies.len(),
    ensures
        n == 3 ==> {
            let target = path_told(replies, 2);
            let path = shown(path_told(replies, 0), target);
            if told_kind(replies, 3) == Some(FileKind::File) {
                ends_with(
                    steps[4],
                    Report::Find {
                        paths: if lets_pass(command, path) {
                            seq![path]
                        } else {
                            seq![]
                        },
                        truncated: false,
                    },
                )
            } else {
                asks_for(steps[4], FsRequest::Walk(target, 1))
            }
        },
        n > 3 ==> match replies[n] {
            FsReply::Entry(NextEntry::Found(entry)) => {
                let seen = paths_seen(command, replies, n + 1);
                if seen.len() > paths_seen(command, replies, n).len() && seen.len()
                    >= most_listed(command) {
                    steps[n + 1] matches Step::Done(Report::Find { paths, truncated }) && truncated
                        && are_sorted_paths(paths, seen)
                } else {
                    asks_for(steps[n + 1], FsRequest::NextEntry)
                }
            },
            FsReply::Entry(NextEntry::Failed(_)) => asks_for(steps[n + 1], FsRequest::NextEntry),
            FsReply::Entry(NextEntry::End) => steps[n + 1] matches Step::Done(
                Report::Find { paths, truncated },
            ) && !truncated && are_sorted_paths(paths, paths_seen(command, replies, n)),
            _ => false,
        },
{
    lemma_finding_goes_on(command, steps, replies, n);
    let _ = lemma_step(command, steps, replies, n);
    lemma_sorted_paths(paths_seen(command, replies, n));
    lemma_sorted_paths(paths_seen(command, replies, n + 1));
}

} // verus!
