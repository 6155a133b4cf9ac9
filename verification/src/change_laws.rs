//! What holds of every run that copies, moves or removes.

use vstd::prelude::*;

use crate::errors::ToolFailure;
use crate::fs::{Entry, FileKind, FsReply, FsRequest, NextEntry, Step};
use crate::mutation::{mutation, RemoveStage};
use crate::paths::{is_under, parts, reads_plainly, shown, Part};
use crate::resolve::Site;
use crate::toolbox::{
    Report, WorkspaceCommand, TOOLBOX_DEFAULT_MAX_COPY_BYTES, TOOLBOX_DEFAULT_MAX_MUTATION_ENTRIES,
};
use crate::transfer::{
    copy_next, destination_next, move_next, CopyRules, CopyStage, CopyTask, MoveStage, Way,
};
use crate::workspace::{or_default, run_next, Goal, RunState, Stage, Transfer};
use crate::workspace_laws::{goes_on, is_course, law_each_request_awaits_its_reply};
use crate::zip_reader::counted;

verus! {

// ---------------------------------------------------------------------------
// How much is copied
// ---------------------------------------------------------------------------

/// The rules of a copy.
pub open spec fn rules_of(command: WorkspaceCommand) -> CopyRules
    recommends
        command is Cp,
{
    command_rules(
        command->Cp_recursive,
        command->Cp_overwrite,
        command->Cp_max_total_bytes,
        command->Cp_max_entries,
    )
}

/// The rules that the limits of a copy give.
pub open spec fn command_rules(
    recursive: bool,
    overwrite: bool,
    max_total_bytes: Option<u64>,
    max_entries: Option<usize>,
) -> CopyRules {
    CopyRules {
        recursive,
        overwrite,
        max_total_bytes: or_default(
            max_total_bytes,
            TOOLBOX_DEFAULT_MAX_COPY_BYTES,
        ),
        max_entries: or_default(
            max_entries,
            TOOLBOX_DEFAULT_MAX_MUTATION_ENTRIES,
        ),
    }
}

/// How many files the first `n` steps ask to copy.
pub open spec fn files_copied(
    steps: Seq<Step<Seq<Part>, RunState, Report, ToolFailure>>,
    n: int,
) -> nat
    decreases n,
{
    if n <= 0 {
        0
    } else {
        files_copied(steps, n - 1) + if asks_to_copy(steps[n - 1]) {
            1nat
        } else {
            0nat
        }
    }
}

/// Whether a step asks to copy a file.
pub open spec fn asks_to_copy(step: Step<Seq<Part>, RunState, Report, ToolFailure>) -> bool {
    step matches Step::Ask(request, _) && request is CopyFile
}

/// Whether a stage waits for a file to be copied.
pub open spec fn waits_for_a_copy(stage: Stage) -> bool {
    match stage {
        Stage::Copy { stage, .. } => stage is File,
        _ => false,
    }
}

/// The size that a step of the copy of a directory is told of a file.
pub open spec fn size_told(
    step: Step<Seq<Part>, RunState, Report, ToolFailure>,
    reply: FsReply,
) -> nat {
    match step {
        Step::Ask(_, state) => match state.stage {
            Stage::Copy { stage: CopyStage::Size { .. }, .. } => match reply {
                FsReply::Status(Ok(stat)) => stat.len as nat,
                _ => 0,
            },
            _ => 0,
        },
        _ => 0,
    }
}

/// The sizes that the first `n` steps of the copy of a directory are told of its
/// files, in all.
pub open spec fn bytes_told(
    steps: Seq<Step<Seq<Part>, RunState, Report, ToolFailure>>,
    replies: Seq<FsReply>,
    n: int,
) -> nat
    decreases n,
{
    if n <= 0 {
        0
    } else {
        bytes_told(steps, replies, n - 1) + size_told(steps[n - 1], replies[n - 1])
    }
}

/// Whether a task is within the limits, after so many files and bytes.
pub open spec fn task_within(task: CopyTask, rules: CopyRules, files: nat, bytes: nat) -> bool {
    &&& rules.recursive
    &&& files <= task.entries <= rules.max_entries
    &&& counted(bytes) == task.bytes
    &&& task.bytes <= rules.max_total_bytes
}

/// Whether the copy of a file is within the limits.
pub open spec fn file_within(
    after: Option<CopyTask>,
    rules: CopyRules,
    files: nat,
    bytes: nat,
) -> bool {
    match after {
        Some(task) => task_within(task, rules, files + 1, bytes),
        None => files == 0 && bytes == 0,
    }
}

/// Whether a stage of a copy is within the limits, after so many files and bytes.
pub open spec fn copy_within(stage: CopyStage, rules: CopyRules, files: nat, bytes: nat) -> bool {
    match stage {
        CopyStage::Kind { .. } => files == 0 && bytes == 0,
        CopyStage::Fresh { .. } => rules.recursive && files == 0 && bytes == 0,
        CopyStage::Itself { .. } => rules.recursive && files == 0 && bytes == 0,
        CopyStage::Entry { task } => task_within(task, rules, files, bytes),
        CopyStage::Directory { task } => task_within(task, rules, files, bytes),
        CopyStage::Size { task, .. } => task_within(task, rules, files + 1, bytes),
        CopyStage::Parent { after, .. } => file_within(after, rules, files, bytes),
        CopyStage::Check { after, .. } => file_within(after, rules, files, bytes),
        CopyStage::File { after, .. } => file_within(after, rules, files, bytes),
    }
}

/// Whether a stage of a command that copies by `rules` is within the limits, after
/// so many files and bytes.
pub open spec fn within(stage: Stage, rules: CopyRules, files: nat, bytes: nat) -> bool {
    match stage {
        Stage::Root { command, .. } => command is Cp && rules_of(command) == rules && files == 0
            && bytes == 0,
        Stage::RootKind { command, .. } => command is Cp && rules_of(command) == rules && files == 0
            && bytes == 0,
        Stage::Target { goal, .. } => goal is Cp && goal->Cp_rules == rules && files == 0 && bytes
            == 0,
        Stage::Destination { transfer, .. } => transfer == Transfer::Copy(rules) && files == 0
            && bytes == 0,
        Stage::Copy { rules: r, stage } => r == rules && copy_within(stage, rules, files, bytes),
        _ => false,
    }
}

proof fn lemma_copy_within(
    site: Site,
    rules: CopyRules,
    stage: CopyStage,
    reply: FsReply,
    files: nat,
    bytes: nat,
    copies: nat,
    told: nat,
)
    requires
        copy_within(stage, rules, files, bytes),
        reply.kind_of() == stage.awaits(),
        copies == (if stage is File {
            1nat
        } else {
            0nat
        }),
        told == (if stage is Size && reply->Status_0 is Ok {
            reply->Status_0->Ok_0.len as nat
        } else {
            0nat
        }),
    ensures
        copy_next(site, rules, stage, reply) matches Step::Ask(request, next) ==> copy_within(
            next,
            rules,
            files + copies,
            bytes + told,
        ) && (request is CopyFile <==> next is File) && (request is Walk ==> rules.recursive),
{
}

proof fn lemma_run_within(
    command: WorkspaceCommand,
    steps: Seq<Step<Seq<Part>, RunState, Report, ToolFailure>>,
    replies: Seq<FsReply>,
    n: int,
)
    requires
        is_course(command, steps, replies),
        command is Cp,
        0 <= n < steps.len(),
    ensures
        steps[n] matches Step::Ask(request, state) ==> {
            &&& within(
                state.stage,
                rules_of(command),
                files_copied(steps, n),
                bytes_told(steps, replies, n),
            )
            &&& request is CopyFile <==> waits_for_a_copy(state.stage)
            &&& request is Walk ==> rules_of(command).recursive
        },
    decreases n,
{
    let rules = rules_of(command);
    if n > 0 {
        lemma_run_within(command, steps, replies, n - 1);
        law_each_request_awaits_its_reply(command, steps, replies, n - 1);
        assert(goes_on(steps[n - 1], replies[n - 1], steps[n]));
        let state = steps[n - 1]->Ask_1;
        let reply = replies[n - 1];
        let reader = choose|reader: spec_fn(Seq<char>) -> Seq<Part>|
            reads_plainly(reader) && steps[n] == #[trigger] run_next(reader, state, reply);
        let files = files_copied(steps, n - 1);
        let bytes = bytes_told(steps, replies, n - 1);
        match state.stage {
            Stage::Copy { rules: r, stage } => {
                let copies = if stage is File {
                    1nat
                } else {
                    0nat
                };
                let told = if stage is Size && reply->Status_0 is Ok {
                    reply->Status_0->Ok_0.len as nat
                } else {
                    0nat
                };
                assert(size_told(steps[n - 1], reply) == told);
                lemma_copy_within(state.site, r, stage, reply, files, bytes, copies, told);
            },
            _ => {
                assert(!asks_to_copy(steps[n - 1]));
            },
        }
    }
}

/// In every run of a copy, at most as many files are copied as the limit allows,
/// or the one file that was named. Where a file of a directory is copied, the
/// files of the directory that are copied up to it, it included, are told to hold
/// no more bytes in all than the limit allows, as far as bytes can be counted.
/// Without leave to copy directories, none is walked, and at most one file is
/// copied.
pub proof fn law_copies_are_bounded(
    command: WorkspaceCommand,
    steps: Seq<Step<Seq<Part>, RunState, Report, ToolFailure>>,
    replies: Seq<FsReply>,
    n: int,
)
    requires
        is_course(command, steps, replies),
        command is Cp,
        0 <= n < steps.len(),
    ensures
        files_copied(steps, n + 1) <= rules_of(command).max_entries || files_copied(steps, n + 1)
            <= 1,
        asks_to_copy(steps[n]) ==> counted(bytes_told(steps, replies, n)) <= rules_of(
            command,
        ).max_total_bytes,
        !rules_of(command).recursive ==> files_copied(steps, n + 1) <= 1 && !(steps[n] is Ask
            && steps[n]->Ask_0 is Walk),
    decreases n,
{
    lemma_run_within(command, steps, replies, n);
    match steps[n] {
        Step::Ask(request, state) => {},
        _ => {
            if n > 0 {
                law_copies_are_bounded(command, steps, replies, n - 1);
            }
        },
    }
}

// ---------------------------------------------------------------------------
// What a copy comes to
// ---------------------------------------------------------------------------

/// Whether the file at `from` was asked to be copied to `to`, and was, after step
/// `i` and before step `n`.
pub open spec fn was_copied(
    steps: Seq<Step<Seq<Part>, RunState, Report, ToolFailure>>,
    replies: Seq<FsReply>,
    from: Seq<Part>,
    to: Seq<Part>,
    i: int,
    n: int,
) -> bool {
    exists|j: int|
        i < j < n && (steps[j] matches Step::Ask(request, _) && request == FsRequest::CopyFile(
            from,
            to,
        )) && (#[trigger] replies[j] matches FsReply::Done(Ok(_)))
}

/// Whether the directory `to` was asked to be made, and was or was there, after
/// step `i` and before step `n`.
pub open spec fn was_made(
    steps: Seq<Step<Seq<Part>, RunState, Report, ToolFailure>>,
    replies: Seq<FsReply>,
    to: Seq<Part>,
    i: int,
    n: int,
) -> bool {
    exists|j: int|
        i < j < n && (steps[j] matches Step::Ask(request, _) && request == FsRequest::CreateDirAll(
            to,
        )) && (#[trigger] replies[j] matches FsReply::Done(Ok(_)))
}

/// Whether step `i` walks a directory to copy it, and is told of an entry.
pub open spec fn tells_entry(
    steps: Seq<Step<Seq<Part>, RunState, Report, ToolFailure>>,
    replies: Seq<FsReply>,
    i: int,
) -> bool {
    &&& steps[i] matches Step::Ask(_, state)
    &&& state.stage matches Stage::Copy { stage, .. }
    &&& stage is Entry
    &&& replies[i] matches FsReply::Entry(NextEntry::Found(_))
}

/// The entry that step `i` is told of.
pub open spec fn entry_told(replies: Seq<FsReply>, i: int) -> Entry {
    replies[i]->Entry_0->Found_0
}

/// Where an entry goes: to the same place below the destination as it has below
/// the source.
pub open spec fn place_of(way: Way, path: Seq<Part>) -> Seq<Part> {
    way.destination + path.skip(way.source.len() as int)
}

/// Whether the entry that step `i` is told of is below the source and, before
/// step `n`, was copied to the same place below the destination, or made there
/// where it is a directory.
pub open spec fn entry_done(
    steps: Seq<Step<Seq<Part>, RunState, Report, ToolFailure>>,
    replies: Seq<FsReply>,
    way: Way,
    i: int,
    n: int,
) -> bool {
    let path = parts(entry_told(replies, i).path@);
    &&& is_under(path, way.source)
    &&& match entry_told(replies, i).kind {
        FileKind::File => was_copied(steps, replies, path, place_of(way, path), i, n),
        FileKind::Directory => was_made(steps, replies, place_of(way, path), i, n),
        FileKind::Other => true,
    }
}

/// Whether every file and directory that the walk told of before step `n` was
/// copied or made.
pub open spec fn all_done(
    steps: Seq<Step<Seq<Part>, RunState, Report, ToolFailure>>,
    replies: Seq<FsReply>,
    way: Way,
    n: int,
) -> bool {
    forall|i: int|
        0 <= i < n && #[trigger] tells_entry(steps, replies, i) ==> entry_done(
            steps,
            replies,
            way,
            i,
            n,
        )
}

/// Whether the entry that step `i` is told of is the one that goes to `to`: a file
/// at `from`, or a directory where there is none.
pub open spec fn is_next(
    replies: Seq<FsReply>,
    way: Way,
    from: Option<Seq<Part>>,
    to: Seq<Part>,
    i: int,
) -> bool {
    let entry = entry_told(replies, i);
    let path = parts(entry.path@);
    &&& is_under(path, way.source)
    &&& to == place_of(way, path)
    &&& match from {
        Some(from) => entry.kind == FileKind::File && path == from,
        None => entry.kind == FileKind::Directory,
    }
}

/// As [`all_done`], but for the entry that goes to `to`.
pub open spec fn done_but(
    steps: Seq<Step<Seq<Part>, RunState, Report, ToolFailure>>,
    replies: Seq<FsReply>,
    way: Way,
    from: Option<Seq<Part>>,
    to: Seq<Part>,
    n: int,
) -> bool {
    forall|i: int|
        0 <= i < n && #[trigger] tells_entry(steps, replies, i) ==> entry_done(
            steps,
            replies,
            way,
            i,
            n,
        ) || is_next(replies, way, from, to, i)
}

/// Whether no entry was told of before step `n`.
pub open spec fn none_told(
    steps: Seq<Step<Seq<Part>, RunState, Report, ToolFailure>>,
    replies: Seq<FsReply>,
    n: int,
) -> bool {
    forall|i: int| 0 <= i < n ==> !(#[trigger] tells_entry(steps, replies, i))
}

/// Whether a task is to go that way.
pub open spec fn goes(task: CopyTask, way: Way) -> bool {
    task.source == way.source && task.destination == way.destination
}

/// What the copy of a file knows of the entries before it.
pub open spec fn file_done(
    steps: Seq<Step<Seq<Part>, RunState, Report, ToolFailure>>,
    replies: Seq<FsReply>,
    way: Way,
    after: Option<CopyTask>,
    from: Seq<Part>,
    to: Seq<Part>,
    n: int,
) -> bool {
    match after {
        Some(task) => goes(task, way) && done_but(steps, replies, way, Some(from), to, n),
        None => from == way.source && to == way.destination && none_told(steps, replies, n),
    }
}

/// What a copy knows of the entries that were told of, when it makes the request
/// of step `n`.
pub open spec fn copy_done(
    steps: Seq<Step<Seq<Part>, RunState, Report, ToolFailure>>,
    replies: Seq<FsReply>,
    way: Way,
    request: FsRequest<Seq<Part>>,
    stage: CopyStage,
    n: int,
) -> bool {
    match stage {
        CopyStage::Kind { source, destination } => way == (Way { source, destination })
            && none_told(steps, replies, n),
        CopyStage::Fresh { source, destination } => way == (Way { source, destination })
            && none_told(steps, replies, n),
        CopyStage::Itself { source, destination } => way == (Way { source, destination })
            && none_told(steps, replies, n),
        CopyStage::Entry { task } => goes(task, way) && all_done(steps, replies, way, n),
        CopyStage::Directory { task } => goes(task, way) && (request matches
            FsRequest::CreateDirAll(to) && done_but(steps, replies, way, None, to, n)),
        CopyStage::Size { task, from, to } => goes(task, way) && done_but(
            steps,
            replies,
            way,
            Some(from),
            to,
            n,
        ),
        CopyStage::Parent { after, from, to } => file_done(
            steps,
            replies,
            way,
            after,
            from,
            to,
            n,
        ),
        CopyStage::Check { after, from, to } => file_done(
            steps,
            replies,
            way,
            after,
            from,
            to,
            n,
        ),
        CopyStage::File { after, to } => request matches FsRequest::CopyFile(from, there) && there
            == to && file_done(steps, replies, way, after, from, to, n),
    }
}

/// Whether the copy from `way.source` to `way.destination` came to its end before
/// step `n`: the file was copied, or the directory was walked to its end and all
/// that was told of in it was copied or made.
pub open spec fn way_done(
    steps: Seq<Step<Seq<Part>, RunState, Report, ToolFailure>>,
    replies: Seq<FsReply>,
    way: Way,
    n: int,
) -> bool {
    ||| was_copied(steps, replies, way.source, way.destination, -1, n) && none_told(
        steps,
        replies,
        n,
    )
    ||| all_done(steps, replies, way, n) && replies[n - 1] == FsReply::Entry(NextEntry::End)
}

proof fn lemma_still_done(
    steps: Seq<Step<Seq<Part>, RunState, Report, ToolFailure>>,
    replies: Seq<FsReply>,
    way: Way,
    from: Option<Seq<Part>>,
    to: Seq<Part>,
    n: int,
)
    requires
        done_but(steps, replies, way, from, to, n),
        !tells_entry(steps, replies, n),
    ensures
        done_but(steps, replies, way, from, to, n + 1),
{
    assert forall|i: int| 0 <= i < n + 1 && #[trigger] tells_entry(steps, replies, i) implies
        entry_done(steps, replies, way, i, n + 1) || is_next(replies, way, from, to, i) by {
        lemma_entry_still_done(steps, replies, way, i, n);
    }
}

proof fn lemma_entry_still_done(
    steps: Seq<Step<Seq<Part>, RunState, Report, ToolFailure>>,
    replies: Seq<FsReply>,
    way: Way,
    i: int,
    n: int,
)
    ensures
        entry_done(steps, replies, way, i, n) ==> entry_done(steps, replies, way, i, n + 1),
{
}

proof fn lemma_file_still_done(
    steps: Seq<Step<Seq<Part>, RunState, Report, ToolFailure>>,
    replies: Seq<FsReply>,
    way: Way,
    after: Option<CopyTask>,
    from: Seq<Part>,
    to: Seq<Part>,
    n: int,
)
    requires
        file_done(steps, replies, way, after, from, to, n),
        !tells_entry(steps, replies, n),
    ensures
        file_done(steps, replies, way, after, from, to, n + 1),
{
    match after {
        Some(task) => {
            lemma_still_done(steps, replies, way, Some(from), to, n);
        },
        None => {},
    }
}

pub(crate) proof fn lemma_copy_done(
    site: Site,
    steps: Seq<Step<Seq<Part>, RunState, Report, ToolFailure>>,
    replies: Seq<FsReply>,
    rules: CopyRules,
    stage: CopyStage,
    way: Way,
    n: int,
)
    requires
        0 <= n < steps.len(),
        n < replies.len(),
        steps[n] matches Step::Ask(request, state) && replies[n].kind_of() == request.answered_by()
            && request.answered_by() == stage.awaits() && state.stage == (Stage::Copy {
            rules,
            stage,
        }) && copy_done(steps, replies, way, request, stage, n),
    ensures
        match copy_next(site, rules, stage, replies[n]) {
            Step::Ask(request, next) => copy_done(steps, replies, way, request, next, n + 1),
            Step::Done(report) => way_done(steps, replies, way, n + 1) && report == mutation(
                site,
                "cp"@,
                way.destination,
            ),
            Step::Failed(_) => true,
        },
{
    let reply = replies[n];
    match stage {
        CopyStage::Entry { task } => {
            match reply->Entry_0 {
                NextEntry::Found(entry) => {
                    let path = parts(entry.path@);
                    let to = place_of(way, path);
                    let from = if entry.kind == FileKind::File {
                        Some(path)
                    } else {
                        None
                    };
                    if is_under(path, task.source) {
                        assert forall|i: int|
                            0 <= i < n + 1 && #[trigger] tells_entry(
                                steps,
                                replies,
                                i,
                            ) implies entry_done(steps, replies, way, i, n + 1) || is_next(
                            replies,
                            way,
                            from,
                            to,
                            i,
                        ) by {
                            lemma_entry_still_done(steps, replies, way, i, n);
                        }
                    }
                },
                _ => {
                    assert forall|i: int|
                        0 <= i < n + 1 && #[trigger] tells_entry(
                            steps,
                            replies,
                            i,
                        ) implies entry_done(steps, replies, way, i, n + 1) by {
                        lemma_entry_still_done(steps, replies, way, i, n);
                    }
                },
            }
        },
        CopyStage::Directory { task } => {
            let to = steps[n]->Ask_0->CreateDirAll_0;
            if reply->Done_0 is Ok {
                assert forall|i: int|
                    0 <= i < n + 1 && #[trigger] tells_entry(
                        steps,
                        replies,
                        i,
                    ) implies entry_done(steps, replies, way, i, n + 1) by {
                    lemma_entry_still_done(steps, replies, way, i, n);
                    if is_next(replies, way, None, to, i) {
                        assert(was_made(steps, replies, to, i, n + 1));
                    }
                }
            }
        },
        CopyStage::Size { task, from, to } => {
            lemma_still_done(steps, replies, way, Some(from), to, n);
        },
        CopyStage::Parent { after, from, to } => {
            lemma_file_still_done(steps, replies, way, after, from, to, n);
        },
        CopyStage::Check { after, from, to } => {
            lemma_file_still_done(steps, replies, way, after, from, to, n);
        },
        CopyStage::File { after, to } => {
            let from = steps[n]->Ask_0->CopyFile_0;
            if reply->Done_0 is Ok {
                match after {
                    Some(task) => {
                        assert forall|i: int|
                            0 <= i < n + 1 && #[trigger] tells_entry(
                                steps,
                                replies,
                                i,
                            ) implies entry_done(steps, replies, way, i, n + 1) by {
                            lemma_entry_still_done(steps, replies, way, i, n);
                            if is_next(replies, way, Some(from), to, i) {
                                assert(was_copied(steps, replies, from, to, i, n + 1));
                            }
                        }
                    },
                    None => {
                        assert(was_copied(steps, replies, from, to, -1, n + 1));
                    },
                }
            }
        },
        _ => {},
    }
}

/// What a run that copies knows at step `n`.
pub open spec fn run_done(
    steps: Seq<Step<Seq<Part>, RunState, Report, ToolFailure>>,
    replies: Seq<FsReply>,
    n: int,
) -> bool {
    match steps[n] {
        Step::Ask(request, state) => match state.stage {
            Stage::Copy { stage, .. } => exists|way: Way| #[trigger]
                copy_done(steps, replies, way, request, stage, n),
            _ => none_told(steps, replies, n),
        },
        Step::Done(report) => exists|way: Way| #[trigger]
            way_done(steps, replies, way, n) && n > 0 && report == mutation(
                steps[n - 1]->Ask_1.site,
                "cp"@,
                way.destination,
            ),
        Step::Failed(_) => true,
    }
}

pub(crate) proof fn lemma_run_done(
    command: WorkspaceCommand,
    steps: Seq<Step<Seq<Part>, RunState, Report, ToolFailure>>,
    replies: Seq<FsReply>,
    n: int,
)
    requires
        is_course(command, steps, replies),
        command is Cp,
        0 <= n < steps.len(),
    ensures
        run_done(steps, replies, n),
    decreases n,
{
    if n > 0 {
        let m = n - 1;
        lemma_run_done(command, steps, replies, m);
        lemma_run_within(command, steps, replies, m);
        law_each_request_awaits_its_reply(command, steps, replies, m);
        assert(goes_on(steps[m], replies[m], steps[n]));
        let state = steps[m]->Ask_1;
        let request = steps[m]->Ask_0;
        let reply = replies[m];
        let reader = choose|reader: spec_fn(Seq<char>) -> Seq<Part>|
            reads_plainly(reader) && steps[n] == #[trigger] run_next(reader, state, reply);
        match state.stage {
            Stage::Copy { rules, stage } => {
                let way = choose|way: Way| #[trigger]
                    copy_done(steps, replies, way, request, stage, m);
                lemma_copy_done(state.site, steps, replies, rules, stage, way, m);
                match steps[n] {
                    Step::Ask(asked, next) => {
                        assert(copy_done(steps, replies, way, asked, next.stage->Copy_stage, n));
                    },
                    Step::Done(report) => {
                        assert(report == mutation(state.site, "cp"@, way.destination));
                        assert(way_done(steps, replies, way, n));
                    },
                    Step::Failed(_) => {},
                }
            },
            Stage::Destination { stage, .. } => {
                assert(none_told(steps, replies, n));
                match destination_next(state.site, stage, reply) {
                    Step::Done(way) => {
                        assert(copy_done(
                            steps,
                            replies,
                            way,
                            steps[n]->Ask_0,
                            steps[n]->Ask_1.stage->Copy_stage,
                            n,
                        ));
                    },
                    _ => {},
                }
            },
            _ => {
                assert(none_told(steps, replies, n));
            },
        }
    }
}

/// In every run of a copy that ends well, either the one file was copied from the
/// source to the destination, or the directory was walked to its end and every file
/// and directory that was told of in it was copied or made at the same place below
/// the destination. The destination is what is returned.
pub proof fn law_copies_are_complete(
    command: WorkspaceCommand,
    steps: Seq<Step<Seq<Part>, RunState, Report, ToolFailure>>,
    replies: Seq<FsReply>,
    n: int,
)
    requires
        is_course(command, steps, replies),
        command is Cp,
        0 <= n < steps.len(),
        steps[n] is Done,
    ensures
        exists|way: Way| #[trigger]
            way_done(steps, replies, way, n) && steps[n]->Done_0 == mutation(
                steps[n - 1]->Ask_1.site,
                "cp"@,
                way.destination,
            ),
{
    lemma_run_done(command, steps, replies, n);
}

// ---------------------------------------------------------------------------
// What is removed
// ---------------------------------------------------------------------------

/// Whether a command is to remove directories with what is in them.
pub open spec fn removes_all(command: WorkspaceCommand) -> bool {
    match command {
        WorkspaceCommand::Rm { recursive, .. } => recursive,
        _ => false,
    }
}

/// How many entries may be removed with a directory.
pub open spec fn removal_limit(command: WorkspaceCommand) -> usize {
    match command {
        WorkspaceCommand::Rm { max_entries, .. } => or_default(
            max_entries,
            TOOLBOX_DEFAULT_MAX_MUTATION_ENTRIES,
        ),
        _ => 0,
    }
}

/// Whether a reply tells of a file or a directory.
pub open spec fn counts_entry(reply: FsReply) -> bool {
    match reply {
        FsReply::Entry(NextEntry::Found(entry)) => entry.kind != FileKind::Other,
        _ => false,
    }
}

/// How many files and directories the first `n` replies tell of.
pub open spec fn entries_told(replies: Seq<FsReply>, n: int) -> nat
    decreases n,
{
    if n <= 0 {
        0
    } else {
        entries_told(replies, n - 1) + if counts_entry(replies[n - 1]) {
            1nat
        } else {
            0nat
        }
    }
}

/// Whether a stage of a removal is within the limit, after so many entries.
pub open spec fn removal_within(stage: Stage, recursive: bool, limit: usize, entries: nat) -> bool {
    match stage {
        Stage::Root { command, .. } => command is Rm && removes_all(command) == recursive
            && removal_limit(command) == limit && entries == 0,
        Stage::RootKind { command, .. } => command is Rm && removes_all(command) == recursive
            && removal_limit(command) == limit && entries == 0,
        Stage::Target { goal, .. } => goal == (Goal::Rm { recursive, max_entries: limit })
            && entries == 0,
        Stage::Remove { recursive: r, max_entries, stage } => r == recursive && max_entries == limit
            && match stage {
            RemoveStage::Kind { .. } => entries == 0,
            RemoveStage::Count { seen, .. } => recursive && entries == seen && seen <= limit,
            RemoveStage::Remove { .. } => entries <= limit,
        },
        _ => false,
    }
}

/// In every run of a removal, a directory is removed with what is in it only
/// where the caller asked for that, and only after it was walked and no more files
/// and directories were found in it than the limit allows.
pub proof fn law_removals_are_bounded(
    command: WorkspaceCommand,
    steps: Seq<Step<Seq<Part>, RunState, Report, ToolFailure>>,
    replies: Seq<FsReply>,
    n: int,
)
    requires
        is_course(command, steps, replies),
        command is Rm,
        0 <= n < steps.len(),
    ensures
        steps[n] matches Step::Ask(request, state) ==> {
            &&& removal_within(
                state.stage,
                removes_all(command),
                removal_limit(command),
                entries_told(replies, n),
            )
            &&& request is RemoveDirAll ==> removes_all(command) && entries_told(replies, n)
                <= removal_limit(command) && n > 0 && replies[n - 1] == FsReply::Entry(
                NextEntry::End,
            )
            &&& request is Walk ==> removes_all(command)
        },
    decreases n,
{
    if n > 0 {
        law_removals_are_bounded(command, steps, replies, n - 1);
        law_each_request_awaits_its_reply(command, steps, replies, n - 1);
        assert(goes_on(steps[n - 1], replies[n - 1], steps[n]));
        let state = steps[n - 1]->Ask_1;
        let reply = replies[n - 1];
        let reader = choose|reader: spec_fn(Seq<char>) -> Seq<Part>|
            reads_plainly(reader) && steps[n] == #[trigger] run_next(reader, state, reply);
        assert(steps[n] == run_next(reader, state, reply));
    }
}

// ---------------------------------------------------------------------------
// What is not replaced
// ---------------------------------------------------------------------------

/// A file is copied to a place only where the file system told that nothing is
/// there, or something other than a directory that the caller lets be replaced.
pub proof fn law_copies_replace_only_what_they_may(
    site: Site,
    rules: CopyRules,
    stage: CopyStage,
    reply: FsReply,
)
    requires
        reply.kind_of() == stage.awaits(),
    ensures
        copy_next(site, rules, stage, reply) matches Step::Ask(request, _) ==> {
            request matches FsRequest::CopyFile(from, to) ==> {
                &&& stage matches CopyStage::Check { to: asked, .. } && asked == to
                &&& reply matches FsReply::Status(Ok(stat)) ==> rules.overwrite && stat.kind
                    != FileKind::Directory
            }
        },
{
}

/// A directory is copied only where the caller asked for it, and never to a place
/// that exists or that is inside it.
pub proof fn law_directories_are_copied_only_with_leave(
    site: Site,
    rules: CopyRules,
    source: Seq<Part>,
    destination: Seq<Part>,
    reply: FsReply,
)
    ensures
        (reply matches FsReply::Status(Ok(stat)) && stat.kind == FileKind::Directory
            && !rules.recursive) ==> copy_next(
            site,
            rules,
            CopyStage::Kind { source, destination },
            reply,
        ) == Step::<Seq<Part>, CopyStage, Report, ToolFailure>::Failed(
            ToolFailure::RecursiveRequired(
                shown(site.root, source) + " is a directory"@,
            ),
        ),
        (reply matches FsReply::Status(Ok(_))) ==> copy_next(
            site,
            rules,
            CopyStage::Fresh { source, destination },
            reply,
        ) == Step::<Seq<Part>, CopyStage, Report, ToolFailure>::Failed(
            ToolFailure::AlreadyExists(shown(site.root, destination)),
        ),
        (reply matches FsReply::Path(Ok(there)) && is_under(destination, parts(there@)))
            ==> copy_next(site, rules, CopyStage::Itself { source, destination }, reply) == Step::<
            Seq<Part>,
            CopyStage,
            Report,
            ToolFailure,
        >::Failed(ToolFailure::InvalidArgument("refusing to copy a directory into itself"@)),
{
}

/// A move removes nothing but a file at its destination, where the caller lets it
/// be replaced, and moves nothing to a place where something is told to be.
pub proof fn law_moves_replace_only_what_they_may(
    site: Site,
    overwrite: bool,
    stage: MoveStage,
    reply: FsReply,
)
    requires
        reply.kind_of() == stage.awaits(),
    ensures
        move_next(site, overwrite, stage, reply) matches Step::Ask(request, _) ==> {
            &&& request matches FsRequest::RemoveFile(path) ==> {
                &&& overwrite
                &&& stage matches MoveStage::Check { destination, .. } && destination == path
                &&& reply matches FsReply::Status(Ok(stat)) && stat.kind == FileKind::File
            }
            &&& (stage is Check && reply->Status_0 is Ok) ==> request is RemoveFile
        },
{
}


} // verus!
