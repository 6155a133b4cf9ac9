//! What every run of a command that changes something does before it answers.

use vstd::prelude::*;

use crate::change_laws::{
    copy_done, entries_told, lemma_copy_done, lemma_run_done, way_done,
};
use crate::errors::ToolFailure;
use crate::fs::{FileKind, FsReply, FsRequest, NextEntry, Step};
use crate::mutation::{MkdirStage, RemoveStage};
use crate::path_laws::{law_below, law_written_paths, leads_from, written};
use crate::paths::{shown, Part};
use crate::resolve::{ancestor_next, named_path, AncestorStage, Site};
use crate::run_laws::{
    asks_for, ends_with, fails_with, is_named_by, is_there, lemma_found_it, lemma_is_there,
    lemma_step, path_told, refusal, separator_of,
};
use crate::text::decimal;
use crate::toolbox::{Report, WorkspaceCommand};
use crate::transfer::{destination_next, CopyRules, CopyStage, DestinationStage, MoveStage, Way};
use crate::workspace::{RunState, Stage, Transfer};
use crate::workspace_laws::{is_course, law_each_request_awaits_its_reply};

verus! {

/// The workspace of a run, once its root is known.
pub open spec fn site_of(
    steps: Seq<Step<Seq<Part>, RunState, Report, ToolFailure>>,
    replies: Seq<FsReply>,
) -> Site {
    Site { root: path_told(replies, 0), separator: separator_of(steps) }
}

/// Whether two paths are the same, part by part.
pub open spec fn same_place(a: Seq<Part>, b: Seq<Part>) -> bool {
    leads_from(a, b) && a.len() == b.len()
}

// ---------------------------------------------------------------------------
// Removing
// ---------------------------------------------------------------------------

/// Whether a removal is to remove directories with what is in them.
pub open spec fn is_recursive(command: WorkspaceCommand) -> bool {
    match command {
        WorkspaceCommand::Rm { recursive, .. } => recursive,
        WorkspaceCommand::Cp { recursive, .. } => recursive,
        _ => false,
    }
}

/// How many entries may be removed with a directory: as many as the caller says, or
/// 2048.
pub open spec fn most_removed(command: WorkspaceCommand) -> usize {
    match command {
        WorkspaceCommand::Rm { max_entries, .. } => match max_entries {
            Some(limit) => limit,
            None => 2048,
        },
        _ => 0,
    }
}

/// What kind of thing the file system told in reply `i`.
pub open spec fn told_kind(replies: Seq<FsReply>, i: int) -> Option<FileKind> {
    match replies[i] {
        FsReply::Status(Ok(stat)) => Some(stat.kind),
        _ => None,
    }
}

/// The request that removes what was told to be at the target of a removal.
pub open spec fn right_removal(command: WorkspaceCommand, replies: Seq<FsReply>) -> FsRequest<
    Seq<Part>,
> {
    let target = path_told(replies, 2);
    if told_kind(replies, 3) == Some(FileKind::File) {
        FsRequest::RemoveFile(target)
    } else if is_recursive(command) {
        FsRequest::RemoveDirAll(target)
    } else {
        FsRequest::RemoveDir(target)
    }
}

proof fn lemma_removal_starts(
    command: WorkspaceCommand,
    steps: Seq<Step<Seq<Part>, RunState, Report, ToolFailure>>,
    replies: Seq<FsReply>,
)
    requires
        is_course(command, steps, replies),
        command is Rm,
        is_there(replies),
    ensures
        same_place(path_told(replies, 2), path_told(replies, 0)) ==> fails_with(
            steps[3],
            ToolFailure::InvalidArgument("refusing to remove workspace root"@),
        ),
        !same_place(path_told(replies, 2), path_told(replies, 0)) ==> steps[3] == Step::<
            Seq<Part>,
            RunState,
            Report,
            ToolFailure,
        >::Ask(
            FsRequest::Stat(path_told(replies, 2)),
            RunState {
                site: site_of(steps, replies),
                stage: Stage::Remove {
                    recursive: is_recursive(command),
                    max_entries: most_removed(command),
                    stage: RemoveStage::Kind { target: path_told(replies, 2) },
                },
            },
        ),
        entries_told(replies, 3) == 0,
{
    lemma_is_there(replies);
    let _ = lemma_step(command, steps, replies, 0);
    let _ = lemma_step(command, steps, replies, 1);
    let _ = lemma_step(command, steps, replies, 2);
    law_below(path_told(replies, 2), path_told(replies, 0));
    reveal_with_fuel(entries_told, 4);
}

proof fn lemma_removal_goes_on(
    command: WorkspaceCommand,
    steps: Seq<Step<Seq<Part>, RunState, Report, ToolFailure>>,
    replies: Seq<FsReply>,
    n: int,
)
    requires
        is_course(command, steps, replies),
        command is Rm,
        is_there(replies),
        3 <= n < steps.len(),
    ensures
        steps[n] matches Step::Ask(request, state) ==> {
            let target = path_told(replies, 2);
            &&& state.site == site_of(steps, replies)
            &&& state.stage matches Stage::Remove { recursive, max_entries, stage } && recursive
                == is_recursive(command) && max_entries == most_removed(command) && match stage {
                RemoveStage::Kind { target: t } => n == 3 && t == target && request
                    == FsRequest::Stat(target) && entries_told(replies, n) == 0,
                RemoveStage::Count { target: t, seen } => n > 3 && t == target && request == (
                if n == 4 {
                    FsRequest::Walk(target, 1)
                } else {
                    FsRequest::NextEntry
                }) && seen == entries_told(replies, n) && is_recursive(command) && told_kind(
                    replies,
                    3,
                ) == Some(FileKind::Directory),
                RemoveStage::Remove { target: t } => n > 3 && t == target && request
                    == right_removal(command, replies) && (told_kind(replies, 3) == Some(
                    FileKind::File,
                ) || told_kind(replies, 3) == Some(FileKind::Directory)),
            }
        },
    decreases n,
{
    lemma_removal_starts(command, steps, replies);
    if n > 3 {
        lemma_removal_goes_on(command, steps, replies, n - 1);
        let _ = lemma_step(command, steps, replies, n - 1);
    }
}

/// A removal whose target is the root of the workspace is refused. Any other asks what is at
/// its target.
pub proof fn law_the_root_is_not_removed(
    command: WorkspaceCommand,
    steps: Seq<Step<Seq<Part>, RunState, Report, ToolFailure>>,
    replies: Seq<FsReply>,
)
    requires
        is_course(command, steps, replies),
        command is Rm,
        is_there(replies),
    ensures
        if same_place(path_told(replies, 2), path_told(replies, 0)) {
            fails_with(
                steps[3],
                ToolFailure::InvalidArgument("refusing to remove workspace root"@),
            )
        } else {
            asks_for(steps[3], FsRequest::Stat(path_told(replies, 2)))
        },
{
    lemma_removal_starts(command, steps, replies);
}

/// A removal asks what is at its target and removes a file as a file and a directory as a
/// directory. With the leave of the caller it removes a directory with everything in it,
/// once it has walked it and not found too much in it. It ends when it is told that the
/// removal is done, and says what it removed.
pub proof fn law_removing(
    command: WorkspaceCommand,
    steps: Seq<Step<Seq<Part>, RunState, Report, ToolFailure>>,
    replies: Seq<FsReply>,
    n: int,
)
    requires
        is_course(command, steps, replies),
        command is Rm,
        is_there(replies),
        3 <= n < replies.len(),
    ensures
        !same_place(path_told(replies, 2), path_told(replies, 0)),
        asks_for(steps[3], FsRequest::Stat(path_told(replies, 2))),
        n == 3 ==> match told_kind(replies, 3) {
            Some(FileKind::File) => asks_for(
                steps[4],
                FsRequest::RemoveFile(path_told(replies, 2)),
            ),
            Some(FileKind::Directory) => if is_recursive(command) {
                asks_for(steps[4], FsRequest::Walk(path_told(replies, 2), 1))
            } else {
                asks_for(steps[4], FsRequest::RemoveDir(path_told(replies, 2)))
            },
            _ => fails_with(
                steps[4],
                ToolFailure::NotFound(written(path_told(replies, 2), separator_of(steps))),
            ),
        },
        n > 3 ==> match replies[n] {
            FsReply::Entry(NextEntry::Found(entry)) => if entries_told(replies, n + 1)
                > most_removed(command) && entry.kind != FileKind::Other {
                fails_with(
                    steps[n + 1],
                    ToolFailure::TooLarge(
                        "remove exceeded "@ + decimal(most_removed(command) as nat) + " entries"@,
                    ),
                )
            } else {
                asks_for(steps[n + 1], FsRequest::NextEntry)
            },
            FsReply::Entry(NextEntry::Failed(_)) => asks_for(steps[n + 1], FsRequest::NextEntry),
            FsReply::Entry(NextEntry::End) => asks_for(
                steps[n + 1],
                FsRequest::RemoveDirAll(path_told(replies, 2)),
            ),
            FsReply::Done(Ok(_)) => asks_for(steps[n], right_removal(command, replies))
                && ends_with(
                steps[n + 1],
                Report::Mutation {
                    action: "rm"@,
                    path: shown(path_told(replies, 0), path_told(replies, 2)),
                },
            ),
            FsReply::Done(Err(error)) => asks_for(steps[n], right_removal(command, replies))
                && fails_with(steps[n + 1], refusal(error)),
            _ => false,
        },
{
    lemma_removal_starts(command, steps, replies);
    lemma_removal_goes_on(command, steps, replies, n);
    law_written_paths(path_told(replies, 2), separator_of(steps));
    let _ = lemma_step(command, steps, replies, 3);
    let _ = lemma_step(command, steps, replies, n);
}

/// In every removal that ends well, the last request before the end was to remove just
/// the target that the answer shows: as a file where it was told to be one, else as a
/// directory, with everything in it if and only if the caller asked for that. The
/// file system told that this was done.
pub proof fn law_what_is_said_to_be_removed_was(
    command: WorkspaceCommand,
    steps: Seq<Step<Seq<Part>, RunState, Report, ToolFailure>>,
    replies: Seq<FsReply>,
    n: int,
)
    requires
        is_course(command, steps, replies),
        command is Rm,
        0 <= n < steps.len(),
        steps[n] is Done,
    ensures
        n >= 5,
        ({
            let target = path_told(replies, 2);
            &&& told_kind(replies, 3) == Some(FileKind::File) ==> asks_for(
                steps[n - 1],
                FsRequest::RemoveFile(target),
            )
            &&& told_kind(replies, 3) != Some(FileKind::File) ==> told_kind(replies, 3) == Some(
                FileKind::Directory,
            ) && asks_for(
                steps[n - 1],
                if is_recursive(command) {
                    FsRequest::RemoveDirAll(target)
                } else {
                    FsRequest::RemoveDir(target)
                },
            )
            &&& replies[n - 1] matches FsReply::Done(Ok(_))
            &&& steps[n]->Done_0 == (Report::Mutation {
                action: "rm"@,
                path: shown(path_told(replies, 0), target),
            })
        }),
{
    lemma_found_it(command, steps, replies, n);
    lemma_removal_starts(command, steps, replies);
    if n > 3 {
        lemma_removal_goes_on(command, steps, replies, n - 1);
        let _ = lemma_step(command, steps, replies, n - 1);
    }
}

// ---------------------------------------------------------------------------
// Making a directory
// ---------------------------------------------------------------------------

proof fn lemma_place_keeps(site: Site, stage: AncestorStage, reply: FsReply)
    ensures
        match ancestor_next(site, stage, reply) {
            Step::Ask(_, next) => next.path() == stage.path(),
            Step::Done(placed) => placed.path == stage.path(),
            Step::Failed(_) => true,
        },
{
}

/// What is asked for while a place is looked for.
pub open spec fn place_asks(request: FsRequest<Seq<Part>>, stage: AncestorStage) -> bool {
    match stage {
        AncestorStage::Climb { current, .. } => request == FsRequest::Stat(current),
        AncestorStage::Link { current, .. } => request == FsRequest::ReadLink(current),
        AncestorStage::Anchor { .. } => request is Canonicalize,
    }
}

/// What is known at step `n` of a run that makes a directory.
pub open spec fn making_knows(
    steps: Seq<Step<Seq<Part>, RunState, Report, ToolFailure>>,
    replies: Seq<FsReply>,
    input: Seq<char>,
    parents: bool,
    n: int,
) -> bool {
    steps[n] matches Step::Ask(request, state) ==> {
        &&& state.site == site_of(steps, replies)
        &&& state.stage matches Stage::Mkdir { input: i, parents: p, stage } && i == input && p
            == parents && match stage {
            MkdirStage::Place { stage } => place_asks(request, stage) && is_named_by(
                stage.path(),
                path_told(replies, 0),
                separator_of(steps),
                input,
                false,
            ),
            MkdirStage::Parent { path, above } => is_named_by(
                path,
                path_told(replies, 0),
                separator_of(steps),
                input,
                false,
            ) && path.len() > 0 && above == path.drop_last() && request == FsRequest::Stat(above),
            MkdirStage::Exists { path } => is_named_by(
                path,
                path_told(replies, 0),
                separator_of(steps),
                input,
                false,
            ) && path.len() > 0 && request == FsRequest::Stat(path) && n > 2 && asks_for(
                steps[n - 1],
                FsRequest::Stat(path.drop_last()),
            ) && told_kind(replies, n - 1) is Some,
            MkdirStage::Create { path } => is_named_by(
                path,
                path_told(replies, 0),
                separator_of(steps),
                input,
                false,
            ) && path.len() > 0 && request == (if parents {
                FsRequest::CreateDirAll(path)
            } else {
                FsRequest::CreateDir(path)
            }) && n > 3 && asks_for(steps[n - 1], FsRequest::Stat(path)) && told_kind(
                replies,
                n - 1,
            ) is None && asks_for(steps[n - 2], FsRequest::Stat(path.drop_last())) && told_kind(
                replies,
                n - 2,
            ) is Some,
        }
    }
}

pub(crate) proof fn lemma_making_knows(
    command: WorkspaceCommand,
    steps: Seq<Step<Seq<Part>, RunState, Report, ToolFailure>>,
    replies: Seq<FsReply>,
    n: int,
)
    requires
        is_course(command, steps, replies),
        command is Mkdir,
        2 <= n < steps.len(),
    ensures
        making_knows(steps, replies, command->Mkdir_path@, command->Mkdir_parents, n),
    decreases n,
{
    if n == 2 {
        let _ = lemma_step(command, steps, replies, 0);
        let reader = lemma_step(command, steps, replies, 1);
        match named_path(site_of(steps, replies), reader, command->Mkdir_path@, false) {
            Ok(path) => {
                assert(is_named_by(
                    path,
                    path_told(replies, 0),
                    separator_of(steps),
                    command->Mkdir_path@,
                    false,
                ));
            },
            Err(_) => {},
        }
    } else {
        lemma_making_knows(command, steps, replies, n - 1);
        let _ = lemma_step(command, steps, replies, n - 1);
        match steps[n - 1]->Ask_1.stage {
            Stage::Mkdir { stage: MkdirStage::Place { stage }, .. } => {
                lemma_place_keeps(site_of(steps, replies), stage, replies[n - 1]);
            },
            _ => {},
        }
    }
}

/// In every run that makes a directory and ends well, the file system told that the
/// directory above is there and that nothing is at the path, then that the directory
/// was made as it was asked to be: with those above it if and only if the caller
/// wanted that. The path is the one that the caller named, and the answer shows it.
pub proof fn law_what_is_said_to_be_made_was(
    command: WorkspaceCommand,
    steps: Seq<Step<Seq<Part>, RunState, Report, ToolFailure>>,
    replies: Seq<FsReply>,
    n: int,
) -> (path: Seq<Part>)
    requires
        is_course(command, steps, replies),
        command is Mkdir,
        0 <= n < steps.len(),
        steps[n] is Done,
    ensures
        n >= 5,
        is_named_by(
            path,
            path_told(replies, 0),
            separator_of(steps),
            command->Mkdir_path@,
            false,
        ),
        asks_for(steps[n - 3], FsRequest::Stat(path.drop_last())),
        told_kind(replies, n - 3) is Some,
        asks_for(steps[n - 2], FsRequest::Stat(path)),
        told_kind(replies, n - 2) is None,
        asks_for(
            steps[n - 1],
            if command->Mkdir_parents {
                FsRequest::CreateDirAll(path)
            } else {
                FsRequest::CreateDir(path)
            },
        ),
        replies[n - 1] matches FsReply::Done(Ok(_)),
        steps[n]->Done_0 == (Report::Mutation {
            action: "mkdir"@,
            path: shown(path_told(replies, 0), path),
        }),
{
    if n > 0 {
        let _ = lemma_step(command, steps, replies, 0);
    }
    if n > 1 {
        let _ = lemma_step(command, steps, replies, 1);
    }
    if n > 2 {
        lemma_making_knows(command, steps, replies, n - 1);
        let _ = lemma_step(command, steps, replies, n - 1);
        match steps[n - 1]->Ask_1.stage {
            Stage::Mkdir { stage: MkdirStage::Create { path }, .. } => path,
            _ => Seq::empty(),
        }
    } else {
        Seq::empty()
    }
}

/// A directory is not made where the one above it is not there, nor where something is
/// there already, and is asked to be made where neither holds. The run ends when it is
/// told that the directory was made.
pub proof fn law_making_a_directory(
    command: WorkspaceCommand,
    steps: Seq<Step<Seq<Part>, RunState, Report, ToolFailure>>,
    replies: Seq<FsReply>,
    n: int,
)
    requires
        is_course(command, steps, replies),
        command is Mkdir,
        2 <= n < replies.len(),
        !(steps[n]->Ask_1.stage->Mkdir_stage is Place),
    ensures
        steps[n] matches Step::Ask(request, state) && match request {
            FsRequest::Stat(asked) => match replies[n] {
                FsReply::Status(Ok(_)) => if state.stage->Mkdir_stage is Parent {
                    steps[n + 1] matches Step::Ask(FsRequest::Stat(path), _) && path.len() > 0
                        && path.drop_last() == asked
                } else {
                    fails_with(steps[n + 1], ToolFailure::AlreadyExists(command->Mkdir_path@))
                },
                _ => if state.stage->Mkdir_stage is Parent {
                    fails_with(
                        steps[n + 1],
                        ToolFailure::NotFound(written(asked, separator_of(steps))),
                    )
                } else {
                    asks_for(
                        steps[n + 1],
                        if command->Mkdir_parents {
                            FsRequest::CreateDirAll(asked)
                        } else {
                            FsRequest::CreateDir(asked)
                        },
                    )
                },
            },
            _ => {
                let made = match request {
                    FsRequest::CreateDirAll(path) => path,
                    FsRequest::CreateDir(path) => path,
                    _ => seq![],
                };
                match replies[n] {
                    FsReply::Done(Ok(_)) => ends_with(
                        steps[n + 1],
                        Report::Mutation {
                            action: "mkdir"@,
                            path: shown(path_told(replies, 0), made),
                        },
                    ),
                    FsReply::Done(Err(error)) => fails_with(steps[n + 1], refusal(error)),
                    _ => false,
                }
            },
        },
{
    lemma_making_knows(command, steps, replies, n);
    let _ = lemma_step(command, steps, replies, n);
    match steps[n]->Ask_0 {
        FsRequest::Stat(asked) => {
            law_written_paths(asked, separator_of(steps));
        },
        _ => {},
    }
}

// ---------------------------------------------------------------------------
// Copying and moving
// ---------------------------------------------------------------------------

/// The path that a copy or a move is to go to.
pub open spec fn goes_to(command: WorkspaceCommand) -> Seq<char> {
    match command {
        WorkspaceCommand::Cp { destination, .. } => destination@,
        WorkspaceCommand::Mv { destination, .. } => destination@,
        _ => seq![],
    }
}

/// How a copy or a move is to go: what may be replaced, and for a copy how much there
/// may be, which is 64 MiB in 2048 files where the caller does not say.
pub open spec fn rules_said(command: WorkspaceCommand) -> Transfer {
    match command {
        WorkspaceCommand::Cp { recursive, overwrite, max_total_bytes, max_entries, .. } => {
            Transfer::Copy(
                CopyRules {
                    recursive,
                    overwrite,
                    max_total_bytes: match max_total_bytes {
                        Some(limit) => limit,
                        None => 67108864,
                    },
                    max_entries: match max_entries {
                        Some(limit) => limit,
                        None => 2048,
                    },
                },
            )
        },
        WorkspaceCommand::Mv { overwrite, .. } => Transfer::Move(overwrite),
        _ => Transfer::Move(false),
    }
}

/// Whether step `i` asks what is at `named`, to tell whether it is a directory to put
/// something into.
pub open spec fn asks_to_go_into(
    steps: Seq<Step<Seq<Part>, RunState, Report, ToolFailure>>,
    named: Seq<Part>,
    i: int,
) -> bool {
    &&& asks_for(steps[i], FsRequest::Stat(named))
    &&& steps[i]->Ask_1.stage matches Stage::Destination { stage, .. } && stage is Kind
}

/// Whether `destination` is where a copy or a move goes: to the path that the caller named
/// or, where a directory was told to be there, to what has the name of the source in
/// it.
pub open spec fn is_destination(
    command: WorkspaceCommand,
    steps: Seq<Step<Seq<Part>, RunState, Report, ToolFailure>>,
    replies: Seq<FsReply>,
    destination: Seq<Part>,
    n: int,
) -> bool {
    exists|named: Seq<Part>, i: int|
        {
            &&& 0 <= i < n
            &&& #[trigger] asks_to_go_into(steps, named, i)
            &&& is_named_by(
                named,
                path_told(replies, 0),
                separator_of(steps),
                goes_to(command),
                false,
            )
            &&& if told_kind(replies, i) == Some(FileKind::Directory) {
                path_told(replies, 2).len() > 0 && path_told(replies, 2).last() is Normal
                    && destination == named.push(path_told(replies, 2).last())
            } else {
                destination == named
            }
        }
}

/// What is known of where a copy or a move goes while that is looked for.
pub open spec fn looking_knows(
    command: WorkspaceCommand,
    steps: Seq<Step<Seq<Part>, RunState, Report, ToolFailure>>,
    replies: Seq<FsReply>,
    request: FsRequest<Seq<Part>>,
    stage: DestinationStage,
    n: int,
) -> bool {
    match stage {
        DestinationStage::Place { source, nested, stage } => {
            &&& source == path_told(replies, 2)
            &&& place_asks(request, stage)
            &&& if nested {
                is_destination(command, steps, replies, stage.path(), n)
            } else {
                is_named_by(
                    stage.path(),
                    path_told(replies, 0),
                    separator_of(steps),
                    goes_to(command),
                    false,
                )
            }
        },
        DestinationStage::Kind { source, path } => source == path_told(replies, 2) && request
            == FsRequest::Stat(path) && is_named_by(
            path,
            path_told(replies, 0),
            separator_of(steps),
            goes_to(command),
            false,
        ),
    }
}

/// Where a copy comes from and goes to.
pub open spec fn copy_ends(
    request: FsRequest<Seq<Part>>,
    stage: CopyStage,
    source: Seq<Part>,
    destination: Seq<Part>,
) -> bool {
    match stage {
        CopyStage::Kind { source: s, destination: d } => s == source && d == destination,
        CopyStage::Fresh { source: s, destination: d } => s == source && d == destination,
        CopyStage::Itself { source: s, destination: d } => s == source && d == destination,
        CopyStage::Entry { task } => task.source == source && task.destination == destination,
        CopyStage::Directory { task } => task.source == source && task.destination == destination,
        CopyStage::Size { task, .. } => task.source == source && task.destination == destination,
        CopyStage::Parent { after, from, to } => match after {
            Some(task) => task.source == source && task.destination == destination,
            None => from == source && to == destination,
        },
        CopyStage::Check { after, from, to } => match after {
            Some(task) => task.source == source && task.destination == destination,
            None => from == source && to == destination,
        },
        CopyStage::File { after, to } => match after {
            Some(task) => task.source == source && task.destination == destination,
            None => to == destination && request == FsRequest::CopyFile(source, destination),
        },
    }
}

/// What is known of a move.
pub open spec fn move_knows(
    steps: Seq<Step<Seq<Part>, RunState, Report, ToolFailure>>,
    replies: Seq<FsReply>,
    request: FsRequest<Seq<Part>>,
    stage: MoveStage,
    destination: Seq<Part>,
    n: int,
) -> bool {
    let source = path_told(replies, 2);
    match stage {
        MoveStage::Check { source: s, destination: d } => s == source && d == destination
            && request == FsRequest::Stat(destination),
        MoveStage::Clear { source: s, destination: d } => s == source && d == destination
            && request == FsRequest::RemoveFile(destination),
        MoveStage::Parent { source: s, destination: d } => s == source && d == destination
            && destination.len() > 0 && request == FsRequest::CreateDirAll(destination.drop_last()),
        MoveStage::Rename { destination: d } => d == destination && request == FsRequest::Rename(
            source,
            destination,
        ) && (destination.len() > 0 && destination.last() is Normal ==> n > 0 && asks_for(
            steps[n - 1],
            FsRequest::CreateDirAll(destination.drop_last()),
        ) && (replies[n - 1] matches FsReply::Done(Ok(_)))),
    }
}

/// What is known at step `n` of a run that copies or moves.
pub open spec fn transfer_knows(
    command: WorkspaceCommand,
    steps: Seq<Step<Seq<Part>, RunState, Report, ToolFailure>>,
    replies: Seq<FsReply>,
    destination: Seq<Part>,
    n: int,
) -> bool {
    steps[n] matches Step::Ask(request, state) ==> {
        &&& state.site == site_of(steps, replies)
        &&& match state.stage {
            Stage::Destination { transfer, stage } => transfer == rules_said(command)
                && looking_knows(command, steps, replies, request, stage, n),
            Stage::Copy { rules, stage } => rules_said(command) == Transfer::Copy(rules)
                && is_destination(command, steps, replies, destination, n) && copy_ends(
                request,
                stage,
                path_told(replies, 2),
                destination,
            ),
            Stage::Move { overwrite, stage } => rules_said(command) == Transfer::Move(overwrite)
                && is_destination(command, steps, replies, destination, n) && move_knows(
                steps,
                replies,
                request,
                stage,
                destination,
                n,
            ),
            _ => false,
        }
    }
}

proof fn lemma_still_destination(
    command: WorkspaceCommand,
    steps: Seq<Step<Seq<Part>, RunState, Report, ToolFailure>>,
    replies: Seq<FsReply>,
    destination: Seq<Part>,
    m: int,
    n: int,
)
    requires
        is_destination(command, steps, replies, destination, m),
        m <= n,
    ensures
        is_destination(command, steps, replies, destination, n),
{
}

proof fn lemma_transfer_starts(
    command: WorkspaceCommand,
    steps: Seq<Step<Seq<Part>, RunState, Report, ToolFailure>>,
    replies: Seq<FsReply>,
)
    requires
        is_course(command, steps, replies),
        command is Cp || command is Mv,
        is_there(replies),
    ensures
        transfer_knows(command, steps, replies, seq![], 3),
        steps[3] is Ask ==> steps[3]->Ask_1.stage is Destination,
        !(steps[3] is Done),
{
    lemma_is_there(replies);
    let _ = lemma_step(command, steps, replies, 0);
    let _ = lemma_step(command, steps, replies, 1);
    let reader = lemma_step(command, steps, replies, 2);
    match named_path(site_of(steps, replies), reader, goes_to(command), false) {
        Ok(path) => {
            assert(is_named_by(
                path,
                path_told(replies, 0),
                separator_of(steps),
                goes_to(command),
                false,
            ));
        },
        Err(_) => {},
    }
}

proof fn lemma_looking_goes_on(
    command: WorkspaceCommand,
    steps: Seq<Step<Seq<Part>, RunState, Report, ToolFailure>>,
    replies: Seq<FsReply>,
    n: int,
) -> (destination: Seq<Part>)
    requires
        is_course(command, steps, replies),
        command is Cp || command is Mv,
        0 < n < steps.len(),
        steps[n - 1] is Ask,
        steps[n - 1]->Ask_1.stage is Destination,
        transfer_knows(command, steps, replies, seq![], n - 1),
    ensures
        transfer_knows(command, steps, replies, destination, n),
        steps[n] is Ask && steps[n]->Ask_1.stage is Destination ==> destination
            == Seq::<Part>::empty(),
        !(steps[n] is Done),
{
    let m = n - 1;
    let _ = lemma_step(command, steps, replies, m);
    let state = steps[m]->Ask_1;
    let stage = state.stage->Destination_stage;
    match stage {
        DestinationStage::Place { source, nested, stage: inner } => {
            lemma_place_keeps(state.site, inner, replies[m]);
            if nested {
                lemma_still_destination(command, steps, replies, inner.path(), m, n);
            }
        },
        DestinationStage::Kind { source, path } => {
            assert(asks_to_go_into(steps, path, m));
            assert(source.len() > 0 && source.last() is Normal ==> Part::Normal(
                source.last()->Normal_0,
            ) == source.last());
            if told_kind(replies, m) == Some(FileKind::Directory) {
                if source.len() > 0 && source.last() is Normal {
                    assert(is_destination(
                        command,
                        steps,
                        replies,
                        path.push(source.last()),
                        n,
                    ));
                }
            } else {
                assert(is_destination(command, steps, replies, path, n));
            }
        },
    }
    match destination_next(state.site, stage, replies[m]) {
        Step::Done(way) => way.destination,
        _ => Seq::empty(),
    }
}

pub(crate) proof fn lemma_transfer_goes_on(
    command: WorkspaceCommand,
    steps: Seq<Step<Seq<Part>, RunState, Report, ToolFailure>>,
    replies: Seq<FsReply>,
    n: int,
) -> (destination: Seq<Part>)
    requires
        is_course(command, steps, replies),
        command is Cp || command is Mv,
        is_there(replies),
        3 <= n < steps.len(),
    ensures
        transfer_knows(command, steps, replies, destination, n),
        steps[n] is Ask && steps[n]->Ask_1.stage is Destination ==> destination
            == Seq::<Part>::empty(),
        steps[n] is Done ==> n > 3 && is_destination(command, steps, replies, destination, n)
            && transfer_knows(command, steps, replies, destination, n - 1)
            && !(steps[n - 1]->Ask_1.stage is Destination),
    decreases n,
{
    lemma_transfer_starts(command, steps, replies);
    if n == 3 {
        Seq::empty()
    } else {
        let m = n - 1;
        let destination = lemma_transfer_goes_on(command, steps, replies, m);
        let _ = lemma_step(command, steps, replies, m);
        if steps[m]->Ask_1.stage is Destination {
            lemma_looking_goes_on(command, steps, replies, n)
        } else {
            lemma_still_destination(command, steps, replies, destination, m, n);
            lemma_change_goes_on(command, steps, replies, destination, n);
            destination
        }
    }
}

proof fn lemma_change_goes_on(
    command: WorkspaceCommand,
    steps: Seq<Step<Seq<Part>, RunState, Report, ToolFailure>>,
    replies: Seq<FsReply>,
    destination: Seq<Part>,
    n: int,
)
    requires
        is_course(command, steps, replies),
        command is Cp || command is Mv,
        0 < n < steps.len(),
        steps[n - 1] is Ask,
        !(steps[n - 1]->Ask_1.stage is Destination),
        transfer_knows(command, steps, replies, destination, n - 1),
        is_destination(command, steps, replies, destination, n),
    ensures
        transfer_knows(command, steps, replies, destination, n),
        steps[n] is Ask ==> !(steps[n]->Ask_1.stage is Destination),
        steps[n] is Done ==> steps[n]->Done_0 == (Report::Mutation {
            action: if command is Cp {
                "cp"@
            } else {
                "mv"@
            },
            path: shown(path_told(replies, 0), destination),
        }),
{
    let _ = lemma_step(command, steps, replies, n - 1);
}

/// In every move that ends well, the last request before the end was to move the source to
/// the destination, and the file system told that this was done. The source is where
/// the file system told that the path of the caller leads, the destination is the
/// path that the caller named or, where a directory was told to be there, what has the
/// name of the source in it. The directory above the destination was asked for before.
/// The answer shows the destination.
pub proof fn law_what_is_said_to_be_moved_was(
    command: WorkspaceCommand,
    steps: Seq<Step<Seq<Part>, RunState, Report, ToolFailure>>,
    replies: Seq<FsReply>,
    n: int,
) -> (destination: Seq<Part>)
    requires
        is_course(command, steps, replies),
        command is Mv,
        0 <= n < steps.len(),
        steps[n] is Done,
    ensures
        n > 3,
        is_there(replies),
        is_destination(command, steps, replies, destination, n),
        asks_for(steps[n - 1], FsRequest::Rename(path_told(replies, 2), destination)),
        replies[n - 1] matches FsReply::Done(Ok(_)),
        destination.len() > 0 && destination.last() is Normal ==> asks_for(
            steps[n - 2],
            FsRequest::CreateDirAll(destination.drop_last()),
        ) && (replies[n - 2] matches FsReply::Done(Ok(_))),
        steps[n]->Done_0 == (Report::Mutation {
            action: "mv"@,
            path: shown(path_told(replies, 0), destination),
        }),
{
    lemma_found_it(command, steps, replies, n);
    let destination = lemma_transfer_goes_on(command, steps, replies, n);
    let _ = lemma_step(command, steps, replies, n - 1);
    lemma_change_goes_on(command, steps, replies, destination, n);
    destination
}

/// In every copy that ends well, either the file at the source was copied to the
/// destination, or the directory at the source was walked to its end and all that was
/// told of in it was copied or made at the same place below the destination. The
/// source is where the file system told that the path of the caller leads, the
/// destination is the path that the caller named or, where a directory was told to
/// be there, what has the name of the source in it. The answer shows the destination.
pub proof fn law_what_is_said_to_be_copied_was(
    command: WorkspaceCommand,
    steps: Seq<Step<Seq<Part>, RunState, Report, ToolFailure>>,
    replies: Seq<FsReply>,
    n: int,
) -> (destination: Seq<Part>)
    requires
        is_course(command, steps, replies),
        command is Cp,
        0 <= n < steps.len(),
        steps[n] is Done,
    ensures
        n > 3,
        is_there(replies),
        is_destination(command, steps, replies, destination, n),
        way_done(steps, replies, Way { source: path_told(replies, 2), destination }, n),
        steps[n]->Done_0 == (Report::Mutation {
            action: "cp"@,
            path: shown(path_told(replies, 0), destination),
        }),
{
    lemma_found_it(command, steps, replies, n);
    let destination = lemma_transfer_goes_on(command, steps, replies, n);
    let m = n - 1;
    let _ = lemma_step(command, steps, replies, m);
    lemma_change_goes_on(command, steps, replies, destination, n);
    let state = steps[m]->Ask_1;
    let request = steps[m]->Ask_0;
    lemma_run_done(command, steps, replies, m);
    law_each_request_awaits_its_reply(command, steps, replies, m);
    let (rules, stage) = (state.stage->Copy_rules, state.stage->Copy_stage);
    let way = choose|way: Way| #[trigger] copy_done(steps, replies, way, request, stage, m);
    lemma_copy_done(state.site, steps, replies, rules, stage, way, m);
    assert(way == Way { source: path_told(replies, 2), destination });
    destination
}

} // verus!
