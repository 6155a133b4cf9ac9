//! What every run that looks for a place, copies or moves does with each reply.

use vstd::prelude::*;

use crate::effect_laws::{
    goes_to, is_destination, lemma_making_knows, lemma_transfer_goes_on, place_asks, rules_said,
    site_of, told_kind,
};
use crate::errors::ToolFailure;
use crate::fs::{FileKind, FsReply, FsRequest, NextEntry, Step};
use crate::mutation::MkdirStage;
use crate::path_laws::{law_below, law_written_paths, leads_from, written};
use crate::paths::{parts, shown, Part};
use crate::resolve::{link_target, named_path, settled, settles_inside, AncestorStage};
use crate::run_laws::{
    asks_for, ends_with, fails_with, is_named_by, is_refused, is_there, law_how_a_run_starts,
    lemma_is_there, lemma_step, path_told, refusal, separator_of,
};
use crate::text::decimal;
use crate::text_laws::smaller;
use crate::toolbox::{Report, WorkspaceCommand};
use crate::transfer::{CopyStage, DestinationStage};
use crate::workspace::{RunState, Stage};
use crate::workspace_laws::is_course;

verus! {

// ---------------------------------------------------------------------------
// Looking for a place
// ---------------------------------------------------------------------------

/// Whether something holds what is at a path: the path does not end in a root or a
/// prefix.
pub open spec fn has_parent(path: Seq<Part>) -> bool {
    path.len() > 0 && !(path.last() is RootDir) && !(path.last() is Prefix)
}

/// Where the link at a path leads, given what it says: to just that where it starts at a
/// root or a prefix, else to that from the directory of the link.
pub open spec fn link_leads_to(at: Seq<Part>, says: Seq<Part>) -> Seq<Part> {
    if says.len() > 0 && says[0] is Prefix {
        says
    } else if says.len() > 0 && says[0] is RootDir {
        if at.len() > 0 && at[0] is Prefix {
            seq![at[0]] + says
        } else {
            says
        }
    } else if has_parent(at) {
        at.drop_last() + says
    } else {
        at + says
    }
}

/// Where a path leads that does not exist is one step on from where its front leads: a
/// name leads down, two dots lead up to the directory above, if there is one, and
/// nothing else leads anywhere.
pub proof fn law_settling(base: Seq<Part>, rest: Seq<Part>, last: Part)
    ensures
        settled(base, seq![]) == base,
        settled(base, rest.push(last)) == ({
            let before = settled(base, rest);
            if last is Normal {
                before.push(last)
            } else if last is ParentDir && has_parent(before) {
                before.drop_last()
            } else {
                before
            }
        }),
{
    assert(rest.push(last).drop_last() =~= rest);
    assert(rest.push(last).last() == last);
}

/// Whether what does not exist at `rest` below `there` is in the workspace.
pub open spec fn is_inside(there: Seq<Part>, rest: Seq<Part>, root: Seq<Part>) -> bool {
    leads_from(there, root) && leads_from(settled(there, rest), root)
}

/// The search for a place that a run is at, if it is at one.
pub open spec fn place_at(
    step: Step<Seq<Part>, RunState, Report, ToolFailure>,
) -> Option<AncestorStage> {
    match step {
        Step::Ask(_, state) => match state.stage {
            Stage::Mkdir { stage: MkdirStage::Place { stage }, .. } => Some(stage),
            Stage::Destination { stage: DestinationStage::Place { stage, .. }, .. } => Some(stage),
            _ => None,
        },
        _ => None,
    }
}

/// Whether a run goes on with the directory above `current`, or fails where there is
/// none.
pub open spec fn looks_above(
    step: Step<Seq<Part>, RunState, Report, ToolFailure>,
    path: Seq<Part>,
    current: Seq<Part>,
    rest: Seq<Part>,
    separator: char,
) -> bool {
    if has_parent(current) {
        asks_for(step, FsRequest::Stat(current.drop_last())) && place_at(step) == Some(
            AncestorStage::Climb {
                path,
                current: current.drop_last(),
                rest: seq![current.last()] + rest,
            },
        )
    } else {
        fails_with(step, ToolFailure::PathEscapesWorkspace(written(path, separator)))
    }
}

/// What follows when it is told what is at `current`, what the link there says, or where
/// what exists of the path is.
pub open spec fn place_follows(
    step: Step<Seq<Part>, RunState, Report, ToolFailure>,
    stage: AncestorStage,
    reply: FsReply,
    root: Seq<Part>,
    separator: char,
) -> bool {
    match stage {
        AncestorStage::Climb { path, current, rest } => match reply {
            FsReply::Status(Ok(_)) => asks_for(step, FsRequest::Canonicalize(current)) && place_at(
                step,
            ) == Some(AncestorStage::Anchor { path, rest }),
            FsReply::Status(Err(error)) => if error.not_found {
                asks_for(step, FsRequest::ReadLink(current)) && place_at(step) == Some(
                    AncestorStage::Link { path, current, rest },
                )
            } else {
                looks_above(step, path, current, rest, separator)
            },
            _ => false,
        },
        AncestorStage::Link { path, current, rest } => match reply {
            FsReply::Link(Ok(says)) => {
                let aim = link_leads_to(current, parts(says@)) + rest;
                asks_for(step, FsRequest::Stat(aim)) && place_at(step) == Some(
                    AncestorStage::Climb { path, current: aim, rest: seq![] },
                )
            },
            FsReply::Link(Err(_)) => looks_above(step, path, current, rest, separator),
            _ => false,
        },
        AncestorStage::Anchor { path, rest } => match reply {
            FsReply::Path(Ok(there)) => if is_inside(parts(there@), rest, root) {
                place_at(step) is None && !fails_with(
                    step,
                    ToolFailure::PathEscapesWorkspace(written(path, separator)),
                )
            } else {
                fails_with(step, ToolFailure::PathEscapesWorkspace(written(path, separator)))
            },
            FsReply::Path(Err(error)) => fails_with(step, refusal(error)),
            _ => false,
        },
    }
}

proof fn lemma_inside(there: Seq<Part>, rest: Seq<Part>, root: Seq<Part>)
    ensures
        is_inside(there, rest, root) <==> settles_inside(there, rest, root),
{
    law_below(there, root);
    law_below(settled(there, rest), root);
}

proof fn lemma_link(at: Seq<Part>, says: Seq<Part>)
    ensures
        link_target(at, says) == link_leads_to(at, says),
{
}

proof fn lemma_place_follows(
    command: WorkspaceCommand,
    steps: Seq<Step<Seq<Part>, RunState, Report, ToolFailure>>,
    replies: Seq<FsReply>,
    n: int,
)
    requires
        is_course(command, steps, replies),
        0 <= n < replies.len(),
        place_at(steps[n]) is Some,
        steps[n]->Ask_1.site == site_of(steps, replies),
        place_asks(steps[n]->Ask_0, place_at(steps[n])->0),
    ensures
        place_follows(
            steps[n + 1],
            place_at(steps[n])->0,
            replies[n],
            path_told(replies, 0),
            separator_of(steps),
        ),
{
    let stage = place_at(steps[n])->0;
    law_written_paths(stage.path(), separator_of(steps));
    match stage {
        AncestorStage::Climb { path, current, rest } => {
            let _ = lemma_step(command, steps, replies, n);
        },
        AncestorStage::Link { path, current, rest } => {
            match replies[n] {
                FsReply::Link(Ok(says)) => {
                    lemma_link(current, parts(says@));
                },
                _ => {},
            }
            let _ = lemma_step(command, steps, replies, n);
        },
        AncestorStage::Anchor { path, rest } => {
            match replies[n] {
                FsReply::Path(Ok(there)) => {
                    lemma_inside(parts(there@), rest, path_told(replies, 0));
                },
                _ => {},
            }
            let _ = lemma_step(command, steps, replies, n);
        },
    }
}

/// A run that looks for a place asks what is at the path, at the directory above where
/// nothing can be told of it, and so on, and follows the links on the way that lead to
/// what does not exist. It goes on where what exists of the path, and the path with it,
/// is in the workspace, and fails where it is not.
pub proof fn law_looking_for_a_place(
    command: WorkspaceCommand,
    steps: Seq<Step<Seq<Part>, RunState, Report, ToolFailure>>,
    replies: Seq<FsReply>,
    n: int,
)
    requires
        is_course(command, steps, replies),
        0 <= n < replies.len(),
        place_at(steps[n]) is Some,
        command is Mkdir && n >= 2 || (command is Cp || command is Mv) && is_there(replies) && n
            >= 3,
    ensures
        place_follows(
            steps[n + 1],
            place_at(steps[n])->0,
            replies[n],
            path_told(replies, 0),
            separator_of(steps),
        ),
{
    if command is Mkdir {
        lemma_making_knows(command, steps, replies, n);
    } else {
        let _ = lemma_transfer_goes_on(command, steps, replies, n);
    }
    lemma_place_follows(command, steps, replies, n);
}

/// Whether a run starts to look for a place at this path.
pub open spec fn starts_to_look(
    step: Step<Seq<Part>, RunState, Report, ToolFailure>,
    path: Seq<Part>,
) -> bool {
    asks_for(step, FsRequest::Stat(path)) && place_at(step) == Some(
        AncestorStage::Climb { path, current: path, rest: seq![] },
    )
}

/// A run that makes a directory starts to look for it at the path that the caller named,
/// unless that path is refused.
pub proof fn law_where_a_directory_is_to_be(
    command: WorkspaceCommand,
    steps: Seq<Step<Seq<Part>, RunState, Report, ToolFailure>>,
    replies: Seq<FsReply>,
)
    requires
        is_course(command, steps, replies),
        command is Mkdir,
        replies.len() > 1,
        told_kind(replies, 1) == Some(FileKind::Directory),
    ensures
        match steps[2] {
            Step::Ask(FsRequest::Stat(path), _) => starts_to_look(steps[2], path) && is_named_by(
                path,
                path_told(replies, 0),
                separator_of(steps),
                command->Mkdir_path@,
                false,
            ),
            Step::Failed(failure) => is_refused(
                failure,
                path_told(replies, 0),
                separator_of(steps),
                command->Mkdir_path@,
                false,
            ),
            _ => false,
        },
{
    let _ = lemma_step(command, steps, replies, 0);
    let reader = lemma_step(command, steps, replies, 1);
    match named_path(site_of(steps, replies), reader, command->Mkdir_path@, false) {
        Ok(_) => {},
        Err(_) => {},
    }
}

/// A copy or a move starts to look for its destination at the path that the caller named,
/// unless that path is refused.
pub proof fn law_where_a_destination_is_to_be(
    command: WorkspaceCommand,
    steps: Seq<Step<Seq<Part>, RunState, Report, ToolFailure>>,
    replies: Seq<FsReply>,
)
    requires
        is_course(command, steps, replies),
        command is Cp || command is Mv,
        is_there(replies),
    ensures
        match steps[3] {
            Step::Ask(FsRequest::Stat(path), _) => starts_to_look(steps[3], path) && is_named_by(
                path,
                path_told(replies, 0),
                separator_of(steps),
                goes_to(command),
                false,
            ),
            Step::Failed(failure) => is_refused(
                failure,
                path_told(replies, 0),
                separator_of(steps),
                goes_to(command),
                false,
            ),
            _ => false,
        },
{
    lemma_is_there(replies);
    let _ = lemma_step(command, steps, replies, 0);
    let _ = lemma_step(command, steps, replies, 1);
    let reader = lemma_step(command, steps, replies, 2);
    match named_path(site_of(steps, replies), reader, goes_to(command), false) {
        Ok(_) => {},
        Err(_) => {},
    }
}

/// A place that is in the workspace is used: a directory is made there once it is known
/// what is above it. A copy or a move asks what is there and, where that is a directory,
/// looks for the name of the source in it.
pub proof fn law_a_place_is_used(
    command: WorkspaceCommand,
    steps: Seq<Step<Seq<Part>, RunState, Report, ToolFailure>>,
    replies: Seq<FsReply>,
    n: int,
)
    requires
        is_course(command, steps, replies),
        0 <= n < replies.len(),
        place_at(steps[n]) is Some,
        command is Mkdir && n >= 2 || (command is Cp || command is Mv) && is_there(replies) && n
            >= 3,
        replies[n] matches FsReply::Path(Ok(there)) && is_inside(
            parts(there@),
            place_at(steps[n])->0->Anchor_rest,
            path_told(replies, 0),
        ),
    ensures
        ({
            let path = place_at(steps[n])->0.path();
            if command is Mkdir {
                if has_parent(path) {
                    asks_for(steps[n + 1], FsRequest::Stat(path.drop_last()))
                } else {
                    fails_with(steps[n + 1], ToolFailure::InvalidPath(command->Mkdir_path@))
                }
            } else if steps[n]->Ask_1.stage->Destination_stage->nested && command is Cp {
                asks_for(steps[n + 1], FsRequest::Stat(path_told(replies, 2)))
            } else {
                asks_for(steps[n + 1], FsRequest::Stat(path))
            }
        }),
{
    if command is Mkdir {
        lemma_making_knows(command, steps, replies, n);
    } else {
        let _ = lemma_transfer_goes_on(command, steps, replies, n);
    }
    let stage = place_at(steps[n])->0;
    let _ = lemma_step(command, steps, replies, n);
    lemma_inside(path_told(replies, n), stage->Anchor_rest, path_told(replies, 0));
}

/// Once it is told what is at the path that the caller named, a copy or a move goes there,
/// or to the name of the source in it where a directory is there. A source without a
/// name cannot be put into a directory.
pub proof fn law_going_into_a_directory(
    command: WorkspaceCommand,
    steps: Seq<Step<Seq<Part>, RunState, Report, ToolFailure>>,
    replies: Seq<FsReply>,
    n: int,
)
    requires
        is_course(command, steps, replies),
        command is Cp || command is Mv,
        is_there(replies),
        3 <= n < replies.len(),
        steps[n]->Ask_1.stage is Destination,
        place_at(steps[n]) is None,
    ensures
        steps[n] matches Step::Ask(FsRequest::Stat(path), _) && {
            let source = path_told(replies, 2);
            if told_kind(replies, n) == Some(FileKind::Directory) {
                if source.len() > 0 && source.last() is Normal {
                    starts_to_look(steps[n + 1], path.push(source.last()))
                } else {
                    fails_with(
                        steps[n + 1],
                        ToolFailure::InvalidArgument(
                            "cannot derive destination basename from "@ + written(
                                source,
                                separator_of(steps),
                            ),
                        ),
                    )
                }
            } else {
                asks_for(
                    steps[n + 1],
                    FsRequest::Stat(
                        if command is Cp {
                            source
                        } else {
                            path
                        },
                    ),
                )
            }
        },
{
    let _ = lemma_transfer_goes_on(command, steps, replies, n);
    law_written_paths(path_told(replies, 2), separator_of(steps));
    let _ = lemma_step(command, steps, replies, n);
}

// ---------------------------------------------------------------------------
// Moving
// ---------------------------------------------------------------------------

/// A move fails where something is at its destination, unless that is a file and the
/// caller lets it be replaced: then that file is removed first. It makes the directory
/// above its destination, and moves.
pub proof fn law_moving(
    command: WorkspaceCommand,
    steps: Seq<Step<Seq<Part>, RunState, Report, ToolFailure>>,
    replies: Seq<FsReply>,
    n: int,
) -> (destination: Seq<Part>)
    requires
        is_course(command, steps, replies),
        command is Mv,
        is_there(replies),
        3 <= n < replies.len(),
        steps[n]->Ask_1.stage is Move,
    ensures
        is_destination(command, steps, replies, destination, n),
        ({
            let goes_on = asks_for(
                steps[n + 1],
                if has_parent(destination) {
                    FsRequest::CreateDirAll(destination.drop_last())
                } else {
                    FsRequest::Rename(path_told(replies, 2), destination)
                },
            );
            &&& steps[n] matches Step::Ask(request, _)
            &&& match replies[n] {
                FsReply::Status(Ok(stat)) => request == FsRequest::Stat(destination) && if
                    command->Mv_overwrite && stat.kind == FileKind::File {
                    asks_for(steps[n + 1], FsRequest::RemoveFile(destination))
                } else {
                    fails_with(
                        steps[n + 1],
                        ToolFailure::AlreadyExists(shown(path_told(replies, 0), destination)),
                    )
                },
                FsReply::Status(Err(_)) => request == FsRequest::Stat(destination) && goes_on,
                FsReply::Done(Err(error)) => fails_with(steps[n + 1], refusal(error)),
                FsReply::Done(Ok(_)) => if request is RemoveFile {
                    goes_on
                } else if request is CreateDirAll {
                    asks_for(
                        steps[n + 1],
                        FsRequest::Rename(path_told(replies, 2), destination),
                    )
                } else {
                    request == FsRequest::Rename(path_told(replies, 2), destination) && ends_with(
                        steps[n + 1],
                        Report::Mutation {
                            action: "mv"@,
                            path: shown(path_told(replies, 0), destination),
                        },
                    )
                },
                _ => false,
            }
        }),
{
    let destination = lemma_transfer_goes_on(command, steps, replies, n);
    let _ = lemma_step(command, steps, replies, n);
    destination
}

// ---------------------------------------------------------------------------
// Copying
// ---------------------------------------------------------------------------

/// How many files were asked about before step `n`.
pub open spec fn files_asked(
    steps: Seq<Step<Seq<Part>, RunState, Report, ToolFailure>>,
    n: int,
) -> int
    decreases n,
{
    if n <= 0 {
        0
    } else {
        files_asked(steps, n - 1) + match steps[n - 1] {
            Step::Ask(FsRequest::StatEntry(_), _) => 1int,
            _ => 0int,
        }
    }
}

/// The sizes of the files that were asked about before step `n`, in all.
pub open spec fn sizes_told(
    steps: Seq<Step<Seq<Part>, RunState, Report, ToolFailure>>,
    replies: Seq<FsReply>,
    n: int,
) -> int
    decreases n,
{
    if n <= 0 {
        0
    } else {
        sizes_told(steps, replies, n - 1) + match (steps[n - 1], replies[n - 1]) {
            (Step::Ask(FsRequest::StatEntry(_), _), FsReply::Status(Ok(stat))) => stat.len as int,
            _ => 0int,
        }
    }
}

/// What a copy has counted.
pub open spec fn copy_counts(stage: CopyStage, files: int, bytes: int) -> bool {
    match stage {
        CopyStage::Entry { task } => task.entries == files && task.bytes == smaller(
            bytes,
            u64::MAX as int,
        ),
        CopyStage::Directory { task } => task.entries == files && task.bytes == smaller(
            bytes,
            u64::MAX as int,
        ),
        CopyStage::Size { task, .. } => task.entries == files + 1 && task.bytes == smaller(
            bytes,
            u64::MAX as int,
        ),
        CopyStage::Parent { after: Some(task), .. } => task.entries == files && task.bytes
            == smaller(bytes, u64::MAX as int),
        CopyStage::Check { after: Some(task), .. } => task.entries == files && task.bytes
            == smaller(bytes, u64::MAX as int),
        CopyStage::File { after: Some(task), .. } => task.entries == files && task.bytes
            == smaller(bytes, u64::MAX as int),
        _ => files == 0 && bytes == 0,
    }
}

/// What a copy asks for at each stage.
pub open spec fn copy_asks(request: FsRequest<Seq<Part>>, stage: CopyStage) -> bool {
    match stage {
        CopyStage::Kind { source, .. } => request == FsRequest::Stat(source),
        CopyStage::Fresh { destination, .. } => request == FsRequest::Stat(destination),
        CopyStage::Itself { source, .. } => request == FsRequest::Canonicalize(source),
        CopyStage::Entry { .. } => request is Walk || request is NextEntry,
        CopyStage::Directory { .. } => request is CreateDirAll,
        CopyStage::Size { from, .. } => request == FsRequest::StatEntry(from),
        CopyStage::Parent { to, .. } => has_parent(to) && request == FsRequest::CreateDirAll(
            to.drop_last(),
        ),
        CopyStage::Check { to, .. } => request == FsRequest::Stat(to),
        CopyStage::File { to, .. } => request matches FsRequest::CopyFile(_, there) && there == to,
    }
}

proof fn lemma_no_files_asked(
    command: WorkspaceCommand,
    steps: Seq<Step<Seq<Part>, RunState, Report, ToolFailure>>,
    replies: Seq<FsReply>,
)
    requires
        is_course(command, steps, replies),
        command is Cp,
        is_there(replies),
    ensures
        files_asked(steps, 3) == 0,
        sizes_told(steps, replies, 3) == 0,
{
    let _ = lemma_step(command, steps, replies, 0);
    let _ = lemma_step(command, steps, replies, 1);
    reveal_with_fuel(files_asked, 4);
    reveal_with_fuel(sizes_told, 4);
    law_how_a_run_starts(
        steps[0]->Ask_0->Canonicalize_0,
        steps[0]->Ask_1.stage->Root_text,
        separator_of(steps),
        command,
        steps,
        replies,
    );
}

/// What is known of what a copy has counted, at step `n`.
pub open spec fn counting_knows(
    steps: Seq<Step<Seq<Part>, RunState, Report, ToolFailure>>,
    replies: Seq<FsReply>,
    n: int,
) -> bool {
    steps[n] matches Step::Ask(request, state) ==> {
        &&& sizes_told(steps, replies, n) >= 0
        &&& match state.stage {
            Stage::Destination { .. } => files_asked(steps, n) == 0 && sizes_told(
                steps,
                replies,
                n,
            ) == 0 && !(request is StatEntry),
            Stage::Copy { stage, .. } => copy_asks(request, stage) && copy_counts(
                stage,
                files_asked(steps, n),
                sizes_told(steps, replies, n),
            ),
            _ => false,
        }
    }
}

proof fn lemma_counting_step(
    command: WorkspaceCommand,
    steps: Seq<Step<Seq<Part>, RunState, Report, ToolFailure>>,
    replies: Seq<FsReply>,
    n: int,
)
    requires
        is_course(command, steps, replies),
        command is Cp,
        0 < n < steps.len(),
        steps[n - 1] is Ask,
        steps[n - 1]->Ask_1.stage is Copy,
        counting_knows(steps, replies, n - 1),
    ensures
        counting_knows(steps, replies, n),
{
    let _ = lemma_step(command, steps, replies, n - 1);
}

proof fn lemma_counting(
    command: WorkspaceCommand,
    steps: Seq<Step<Seq<Part>, RunState, Report, ToolFailure>>,
    replies: Seq<FsReply>,
    n: int,
)
    requires
        is_course(command, steps, replies),
        command is Cp,
        is_there(replies),
        3 <= n < steps.len(),
    ensures
        counting_knows(steps, replies, n),
    decreases n,
{
    let _ = lemma_transfer_goes_on(command, steps, replies, n);
    if n == 3 {
        lemma_no_files_asked(command, steps, replies);
        law_where_a_destination_is_to_be(command, steps, replies);
    } else {
        lemma_counting(command, steps, replies, n - 1);
        if steps[n - 1]->Ask_1.stage is Copy {
            let _ = lemma_step(command, steps, replies, n - 1);
            lemma_counting_step(command, steps, replies, n);
        } else {
            let _ = lemma_transfer_goes_on(command, steps, replies, n - 1);
            let _ = lemma_step(command, steps, replies, n - 1);
        }
    }
}

/// Whether the copy of a file from `from` to `to` starts: the directory above `to` is
/// made.
pub open spec fn starts_to_copy(
    step: Step<Seq<Part>, RunState, Report, ToolFailure>,
    to: Seq<Part>,
    separator: char,
) -> bool {
    if has_parent(to) {
        asks_for(step, FsRequest::CreateDirAll(to.drop_last()))
    } else {
        fails_with(step, ToolFailure::InvalidArgument(written(to, separator)))
    }
}

/// What follows an entry that is told of while a directory is copied: a directory is made
/// and a file is asked about at the same place below the destination, unless there are
/// too many files.
pub open spec fn entry_follows(
    step: Step<Seq<Part>, RunState, Report, ToolFailure>,
    path: Seq<Part>,
    kind: FileKind,
    source: Seq<Part>,
    destination: Seq<Part>,
    files: int,
    limit: usize,
) -> bool {
    if !leads_from(path, source) {
        fails_with(step, ToolFailure::InvalidArgument("failed to compute relative path"@))
    } else if kind == FileKind::Directory {
        asks_for(step, FsRequest::CreateDirAll(destination + path.skip(source.len() as int)))
    } else if kind == FileKind::File {
        if files + 1 > limit {
            fails_with(
                step,
                ToolFailure::TooLarge("copy exceeded "@ + decimal(limit as nat) + " file entries"@),
            )
        } else {
            asks_for(step, FsRequest::StatEntry(path))
        }
    } else {
        asks_for(step, FsRequest::NextEntry)
    }
}

/// A copy asks what is at its source. A file is copied. A directory is copied only with
/// the leave of the caller, to where nothing is, and not into itself: all that is in it
/// is walked.
pub proof fn law_how_a_copy_starts(
    command: WorkspaceCommand,
    steps: Seq<Step<Seq<Part>, RunState, Report, ToolFailure>>,
    replies: Seq<FsReply>,
    n: int,
) -> (destination: Seq<Part>)
    requires
        is_course(command, steps, replies),
        command is Cp,
        is_there(replies),
        3 <= n < replies.len(),
        steps[n]->Ask_1.stage is Copy,
    ensures
        is_destination(command, steps, replies, destination, n),
        ({
            let source = path_told(replies, 2);
            let root = path_told(replies, 0);
            match steps[n]->Ask_1.stage->Copy_stage {
                CopyStage::Kind { .. } => asks_for(steps[n], FsRequest::Stat(source)) && match
                    told_kind(replies, n) {
                    Some(FileKind::File) => starts_to_copy(
                        steps[n + 1],
                        destination,
                        separator_of(steps),
                    ),
                    Some(FileKind::Directory) => if command->Cp_recursive {
                        asks_for(steps[n + 1], FsRequest::Stat(destination))
                    } else {
                        fails_with(
                            steps[n + 1],
                            ToolFailure::RecursiveRequired(
                                shown(root, source) + " is a directory"@,
                            ),
                        )
                    },
                    _ => fails_with(
                        steps[n + 1],
                        ToolFailure::InvalidArgument(
                            "unsupported source type: "@ + written(source, separator_of(steps)),
                        ),
                    ),
                },
                CopyStage::Fresh { .. } => asks_for(steps[n], FsRequest::Stat(destination)) && if
                    told_kind(replies, n) is Some {
                    fails_with(
                        steps[n + 1],
                        ToolFailure::AlreadyExists(shown(root, destination)),
                    )
                } else {
                    asks_for(steps[n + 1], FsRequest::Canonicalize(source))
                },
                CopyStage::Itself { .. } => asks_for(steps[n], FsRequest::Canonicalize(source))
                    && match replies[n] {
                    FsReply::Path(Ok(there)) => if leads_from(destination, parts(there@)) {
                        fails_with(
                            steps[n + 1],
                            ToolFailure::InvalidArgument(
                                "refusing to copy a directory into itself"@,
                            ),
                        )
                    } else {
                        asks_for(steps[n + 1], FsRequest::Walk(source, 0))
                    },
                    FsReply::Path(Err(error)) => fails_with(steps[n + 1], refusal(error)),
                    _ => false,
                },
                _ => true,
            }
        }),
{
    let destination = lemma_transfer_goes_on(command, steps, replies, n);
    lemma_counting(command, steps, replies, n);
    law_written_paths(path_told(replies, 2), separator_of(steps));
    law_written_paths(destination, separator_of(steps));
    if replies[n] is Path {
        law_below(destination, path_told(replies, n));
    }
    let _ = lemma_step(command, steps, replies, n);
    destination
}

/// While a directory is copied, each file and directory that is told of goes to the same
/// place below the destination. A copy fails where there are too many files or too
/// many bytes, counted exactly.
pub proof fn law_copying_entries(
    command: WorkspaceCommand,
    steps: Seq<Step<Seq<Part>, RunState, Report, ToolFailure>>,
    replies: Seq<FsReply>,
    n: int,
) -> (destination: Seq<Part>)
    requires
        is_course(command, steps, replies),
        command is Cp,
        is_there(replies),
        3 <= n < replies.len(),
        steps[n]->Ask_1.stage is Copy,
    ensures
        is_destination(command, steps, replies, destination, n),
        match steps[n]->Ask_1.stage->Copy_stage {
            CopyStage::Entry { .. } => match replies[n] {
                FsReply::Entry(NextEntry::Found(entry)) => entry_follows(
                    steps[n + 1],
                    parts(entry.path@),
                    entry.kind,
                    path_told(replies, 2),
                    destination,
                    files_asked(steps, n),
                    rules_said(command)->Copy_0.max_entries,
                ),
                FsReply::Entry(NextEntry::Failed(_)) => asks_for(
                    steps[n + 1],
                    FsRequest::NextEntry,
                ),
                FsReply::Entry(NextEntry::End) => ends_with(
                    steps[n + 1],
                    Report::Mutation {
                        action: "cp"@,
                        path: shown(path_told(replies, 0), destination),
                    },
                ),
                _ => false,
            },
            CopyStage::Directory { .. } => match replies[n] {
                FsReply::Done(Ok(_)) => asks_for(steps[n + 1], FsRequest::NextEntry),
                FsReply::Done(Err(error)) => fails_with(steps[n + 1], refusal(error)),
                _ => false,
            },
            CopyStage::Size { from, to, .. } => asks_for(steps[n], FsRequest::StatEntry(from))
                && match replies[n] {
                FsReply::Status(Ok(stat)) => {
                    let limit = rules_said(command)->Copy_0.max_total_bytes;
                    if sizes_told(steps, replies, n) + stat.len > limit && limit < u64::MAX {
                        fails_with(
                            steps[n + 1],
                            ToolFailure::TooLarge(
                                "copy exceeded "@ + decimal(limit as nat) + " bytes"@,
                            ),
                        )
                    } else {
                        starts_to_copy(steps[n + 1], to, separator_of(steps))
                    }
                },
                FsReply::Status(Err(error)) => fails_with(steps[n + 1], refusal(error)),
                _ => false,
            },
            _ => true,
        },
{
    let destination = lemma_transfer_goes_on(command, steps, replies, n);
    lemma_counting(command, steps, replies, n);
    match steps[n]->Ask_1.stage->Copy_stage {
        CopyStage::Entry { .. } => {
            match replies[n] {
                FsReply::Entry(NextEntry::Found(entry)) => {
                    law_below(parts(entry.path@), path_told(replies, 2));
                },
                _ => {},
            }
        },
        CopyStage::Size { to, .. } => {
            law_written_paths(to, separator_of(steps));
        },
        _ => {},
    }
    let _ = lemma_step(command, steps, replies, n);
    destination
}

/// A file is copied once the directory above its place is made, to where nothing is or
/// where something other than a directory is that the caller lets be replaced.
pub proof fn law_copying_a_file(
    command: WorkspaceCommand,
    steps: Seq<Step<Seq<Part>, RunState, Report, ToolFailure>>,
    replies: Seq<FsReply>,
    n: int,
) -> (destination: Seq<Part>)
    requires
        is_course(command, steps, replies),
        command is Cp,
        is_there(replies),
        3 <= n < replies.len(),
        steps[n]->Ask_1.stage is Copy,
    ensures
        is_destination(command, steps, replies, destination, n),
        match steps[n]->Ask_1.stage->Copy_stage {
            CopyStage::Parent { to, .. } => match replies[n] {
                FsReply::Done(Ok(_)) => asks_for(steps[n + 1], FsRequest::Stat(to)),
                FsReply::Done(Err(error)) => fails_with(steps[n + 1], refusal(error)),
                _ => false,
            },
            CopyStage::Check { from, to, .. } => asks_for(steps[n], FsRequest::Stat(to)) && match
                told_kind(replies, n) {
                Some(kind) => if kind == FileKind::Directory || !command->Cp_overwrite {
                    fails_with(
                        steps[n + 1],
                        ToolFailure::AlreadyExists(written(to, separator_of(steps))),
                    )
                } else {
                    asks_for(steps[n + 1], FsRequest::CopyFile(from, to))
                },
                None => asks_for(steps[n + 1], FsRequest::CopyFile(from, to)),
            },
            CopyStage::File { after, .. } => match replies[n] {
                FsReply::Done(Ok(_)) => if after is Some {
                    asks_for(steps[n + 1], FsRequest::NextEntry)
                } else {
                    ends_with(
                        steps[n + 1],
                        Report::Mutation {
                            action: "cp"@,
                            path: shown(path_told(replies, 0), destination),
                        },
                    )
                },
                FsReply::Done(Err(error)) => fails_with(steps[n + 1], refusal(error)),
                _ => false,
            },
            _ => true,
        },
{
    let destination = lemma_transfer_goes_on(command, steps, replies, n);
    lemma_counting(command, steps, replies, n);
    match steps[n]->Ask_1.stage->Copy_stage {
        CopyStage::Check { to, .. } => {
            law_written_paths(to, separator_of(steps));
        },
        _ => {},
    }
    let _ = lemma_step(command, steps, replies, n);
    destination
}

} // verus!
