//! What holds of paths that lead out of the workspace, by their text or through a
//! link: nothing is done with them.

use vstd::prelude::*;

use crate::errors::ToolFailure;
use crate::fs::{FsReply, FsRequest, NextEntry, Step};
use crate::mutation::{mkdir_next, MkdirStage};
use crate::paths::{
    is_under, name_of, parent_of, parts, piece_len, piece_part, piece_parts, reads_plainly,
    resolved, same_part, slash_parts, starts_anew, workspace_names, Part,
};
use crate::resolve::{
    ancestor_above, ancestor_next, ancestor_start, link_target, named_path, settled,
    settles_inside, AncestorStage, Site,
};
use crate::search::size_sum;
use crate::text::trimmed;
use crate::toolbox::{Report, WorkspaceCommand};
use crate::transfer::{
    copy_file_start, copy_next, destination_next, move_next, CopyRules, CopyStage, CopyTask,
    DestinationStage, MoveStage,
};
use crate::workspace::{
    path_or_root, run_next, run_start, stage_next, Goal, RunState, Stage, Transfer,
};
use crate::workspace_laws::{
    climbs_out, goes_on, is_course, is_relative, law_absolute_paths_are_refused,
    law_escaping_paths_are_refused, looks_for_a_place,
};

verus! {

// ---------------------------------------------------------------------------
// Paths that lead out by their text
// ---------------------------------------------------------------------------

/// Whether a path starts with a slash, once the white space around it is left out.
pub open spec fn starts_with_slash(input: Seq<char>) -> bool {
    trimmed(input).len() > 0 && trimmed(input)[0] == '/'
}

/// Whether a path that is read at its slashes, without the white space around it,
/// starts at the root directory or leads above where it starts, even if it comes
/// back.
pub open spec fn leads_out(input: Seq<char>) -> bool {
    starts_with_slash(input) || climbs_out(slash_parts(trimmed(input)))
}

proof fn lemma_pieces_are_relative(s: Seq<char>, at_start: bool)
    ensures
        is_relative(piece_parts(s, at_start)),
    decreases s.len(),
{
    if s.len() > 0 {
        let n = piece_len(s) as int;
        let first = piece_part(s.take(n), at_start);
        assert(is_relative(first));
        if n < s.len() {
            let rest = piece_parts(s.skip(n + 1), false);
            lemma_pieces_are_relative(s.skip(n + 1), false);
            let whole = first + rest;
            assert forall|i: int| 0 <= i < whole.len() implies !(#[trigger] whole[i] is RootDir)
                && !(whole[i] is Prefix) by {
                if i < first.len() {
                    assert(whole[i] == first[i]);
                } else {
                    assert(whole[i] == rest[i - first.len()]);
                }
            }
        }
    }
}

/// A path that leads out is refused wherever paths are read at their slashes.
pub proof fn law_paths_that_lead_out_are_refused(
    reader: spec_fn(Seq<char>) -> Seq<Part>,
    input: Seq<char>,
    allow_root: bool,
)
    requires
        leads_out(input),
        reader(trimmed(input)) == slash_parts(trimmed(input)),
    ensures
        workspace_names(reader, input, allow_root) is Err,
{
    let path = slash_parts(trimmed(input));
    if starts_with_slash(input) {
        assert(path[0] is RootDir);
        law_absolute_paths_are_refused(input, path, allow_root);
    } else {
        lemma_pieces_are_relative(trimmed(input), true);
        law_escaping_paths_are_refused(input, path);
        assert(resolved(input, path, seq![]) is Err);
    }
}

/// A path that leads out is refused on every platform, where no backslash is in it
/// or it starts with a slash.
pub proof fn law_paths_that_lead_out_are_refused_everywhere(
    reader: spec_fn(Seq<char>) -> Seq<Part>,
    input: Seq<char>,
    allow_root: bool,
)
    requires
        reads_plainly(reader),
        leads_out(input),
        !trimmed(input).contains('\\') || starts_with_slash(input),
    ensures
        workspace_names(reader, input, allow_root) is Err,
{
    let path = reader(trimmed(input));
    if starts_anew(path) {
        assert(path[0] is RootDir || path[0] is Prefix);
        law_absolute_paths_are_refused(input, path, allow_root);
    } else {
        law_paths_that_lead_out_are_refused(reader, input, allow_root);
    }
}

// ---------------------------------------------------------------------------
// Runs of commands that name such a path
// ---------------------------------------------------------------------------

/// Whether `input` is a path that `command` names: the one it works on, its source
/// or its destination. With `allow_root` it may be the root of the workspace.
pub open spec fn is_named(command: WorkspaceCommand, input: Seq<char>, allow_root: bool) -> bool {
    match command {
        WorkspaceCommand::Pwd => false,
        WorkspaceCommand::Ls { path, .. } => input == path_or_root(path) && allow_root,
        WorkspaceCommand::Cat { path, .. } => input == path@ && allow_root,
        WorkspaceCommand::Head { path, .. } => input == path@ && allow_root,
        WorkspaceCommand::Tail { path, .. } => input == path@ && allow_root,
        WorkspaceCommand::Wc { path, .. } => input == path@ && allow_root,
        WorkspaceCommand::Find { path, .. } => input == path_or_root(path) && allow_root,
        WorkspaceCommand::Grep { path, .. } => input == path_or_root(path) && allow_root,
        WorkspaceCommand::Mkdir { path, .. } => input == path@ && !allow_root,
        WorkspaceCommand::Cp { source, destination, .. } => if allow_root {
            input == source@
        } else {
            input == destination@
        },
        WorkspaceCommand::Mv { source, destination, .. } => if allow_root {
            input == source@
        } else {
            input == destination@
        },
        WorkspaceCommand::Rm { path, .. } => input == path@ && allow_root,
    }
}

/// Whether `input`, which the command names, was not looked at yet.
pub open spec fn is_ahead(stage: Stage, input: Seq<char>, allow_root: bool) -> bool {
    match stage {
        Stage::Root { command, .. } => is_named(command, input, allow_root),
        Stage::RootKind { command, .. } => is_named(command, input, allow_root),
        Stage::Target { goal: Goal::Cp { destination, .. }, .. } => input == destination@
            && !allow_root,
        Stage::Target { goal: Goal::Mv { destination, .. }, .. } => input == destination@
            && !allow_root,
        _ => false,
    }
}

/// Whether a step of a run comes before `input` is looked at and changes nothing
/// on disk, or ends the run with an error.
pub open spec fn does_nothing(
    step: Step<Seq<Part>, RunState, Report, ToolFailure>,
    input: Seq<char>,
    allow_root: bool,
) -> bool {
    match step {
        Step::Ask(request, state) => !request.mutates() && is_ahead(state.stage, input, allow_root),
        Step::Done(_) => false,
        Step::Failed(_) => true,
    }
}

proof fn lemma_refusal(
    reader: spec_fn(Seq<char>) -> Seq<Part>,
    state: RunState,
    reply: FsReply,
    input: Seq<char>,
    allow_root: bool,
)
    requires
        is_ahead(state.stage, input, allow_root),
        workspace_names(reader, input, allow_root) is Err,
    ensures
        does_nothing(run_next(reader, state, reply), input, allow_root),
{
}

/// Whether `steps` are those of a run of `command` that got `replies`, to its end
/// or to some point of it, on a platform that reads paths by `reader`. Nothing is
/// asked of the replies but that each is of the kind that was waited for.
pub open spec fn is_course_by(
    reader: spec_fn(Seq<char>) -> Seq<Part>,
    command: WorkspaceCommand,
    steps: Seq<Step<Seq<Part>, RunState, Report, ToolFailure>>,
    replies: Seq<FsReply>,
) -> bool {
    &&& steps.len() == replies.len() + 1
    &&& exists|root: Seq<Part>, text: Seq<char>, separator: char|
        steps[0] == #[trigger] run_start(root, text, separator, command)
    &&& forall|i: int|
        0 <= i < replies.len() ==> (steps[i] matches Step::Ask(request, state) && (
        #[trigger] replies[i]).kind_of() == request.answered_by() && steps[i + 1] == run_next(
            reader,
            state,
            replies[i],
        ))
}

/// Where a command names a path that is refused, no run of it returns anything or
/// changes anything on disk, whatever the replies.
pub proof fn law_refused_paths_stop_a_run(
    reader: spec_fn(Seq<char>) -> Seq<Part>,
    command: WorkspaceCommand,
    input: Seq<char>,
    allow_root: bool,
    steps: Seq<Step<Seq<Part>, RunState, Report, ToolFailure>>,
    replies: Seq<FsReply>,
    n: int,
)
    requires
        is_course_by(reader, command, steps, replies),
        is_named(command, input, allow_root),
        workspace_names(reader, input, allow_root) is Err,
        0 <= n < steps.len(),
    ensures
        does_nothing(steps[n], input, allow_root),
    decreases n,
{
    if n > 0 {
        law_refused_paths_stop_a_run(reader, command, input, allow_root, steps, replies, n - 1);
        let reply = replies[n - 1];
        lemma_refusal(reader, steps[n - 1]->Ask_1, reply, input, allow_root);
    }
}

/// Where a command names a path that leads out of the workspace, no run of it
/// returns anything or changes anything on disk, whatever the replies and on every
/// platform. Of a path with a backslash in it, which some platforms take for a
/// separator, this is said where it starts with a slash.
pub proof fn law_paths_that_lead_out_stop_every_run(
    command: WorkspaceCommand,
    input: Seq<char>,
    allow_root: bool,
    steps: Seq<Step<Seq<Part>, RunState, Report, ToolFailure>>,
    replies: Seq<FsReply>,
    n: int,
)
    requires
        is_course(command, steps, replies),
        is_named(command, input, allow_root),
        leads_out(input),
        !trimmed(input).contains('\\') || starts_with_slash(input),
        0 <= n < steps.len(),
    ensures
        does_nothing(steps[n], input, allow_root),
    decreases n,
{
    if n > 0 {
        law_paths_that_lead_out_stop_every_run(command, input, allow_root, steps, replies, n - 1);
        assert(goes_on(steps[n - 1], replies[n - 1], steps[n]));
        let state = steps[n - 1]->Ask_1;
        let reply = replies[n - 1];
        let reader = choose|reader: spec_fn(Seq<char>) -> Seq<Part>|
            reads_plainly(reader) && steps[n] == #[trigger] run_next(reader, state, reply);
        law_paths_that_lead_out_are_refused_everywhere(reader, input, allow_root);
        lemma_refusal(reader, state, reply, input, allow_root);
    }
}

// ---------------------------------------------------------------------------
// Paths that lead out through a link
// ---------------------------------------------------------------------------

/// Whether one of the first `n` replies told that no link at `path` leads on: there
/// is none, or what is there is out of reach.
pub open spec fn told_bare(
    steps: Seq<Step<Seq<Part>, RunState, Report, ToolFailure>>,
    replies: Seq<FsReply>,
    path: Seq<Part>,
    n: int,
) -> bool {
    exists|i: int|
        0 <= i < n && (steps[i] matches Step::Ask(request, _) && match #[trigger] replies[i] {
            FsReply::Link(Err(_)) => request == FsRequest::ReadLink(path),
            FsReply::Status(Err(error)) => request == FsRequest::Stat(path) && !error.not_found,
            _ => false,
        })
}

/// Whether one of the first `n` replies told that a link at `path` says `target`.
pub open spec fn told_link(
    steps: Seq<Step<Seq<Part>, RunState, Report, ToolFailure>>,
    replies: Seq<FsReply>,
    path: Seq<Part>,
    target: Seq<Part>,
    n: int,
) -> bool {
    exists|i: int|
        0 <= i < n && (steps[i] matches Step::Ask(request, _) && request == FsRequest::ReadLink(
            path,
        )) && (#[trigger] replies[i] matches FsReply::Link(Ok(told)) && parts(told@) == target)
}

/// Whether one of the first `n` replies told where `path` is, every link resolved,
/// and `rest` leads to somewhere in the workspace from there.
pub open spec fn told_inside(
    steps: Seq<Step<Seq<Part>, RunState, Report, ToolFailure>>,
    replies: Seq<FsReply>,
    path: Seq<Part>,
    rest: Seq<Part>,
    root: Seq<Part>,
    n: int,
) -> bool {
    exists|i: int|
        0 <= i < n && (steps[i] matches Step::Ask(request, _) && request == FsRequest::Canonicalize(
            path,
        )) && (#[trigger] replies[i] matches FsReply::Path(Ok(there)) && settles_inside(
            parts(there@),
            rest,
            root,
        ))
}

/// Whether the first `n` replies told of no link that leads on at `path`, nor at
/// anything above it that is longer than its first `k` parts.
pub open spec fn bare_beyond(
    steps: Seq<Step<Seq<Part>, RunState, Report, ToolFailure>>,
    replies: Seq<FsReply>,
    path: Seq<Part>,
    k: int,
    n: int,
) -> bool {
    &&& 0 <= k <= path.len()
    &&& forall|j: int|
        k < j <= path.len() ==> told_bare(steps, replies, #[trigger] path.take(j), n)
}

/// Whether the first `n` replies told of a link on `path` by which it leads to
/// `aim`, and of none behind it.
pub open spec fn leads_by_link(
    steps: Seq<Step<Seq<Part>, RunState, Report, ToolFailure>>,
    replies: Seq<FsReply>,
    path: Seq<Part>,
    aim: Seq<Part>,
    n: int,
) -> bool {
    exists|k: int, target: Seq<Part>|
        {
            &&& bare_beyond(steps, replies, path, k, n)
            &&& #[trigger] told_link(steps, replies, path.take(k), target, n)
            &&& aim == link_target(path.take(k), target) + path.skip(k)
        }
}

/// Whether the first `n` replies told of so many links by which `path` leads to
/// `aim`, one after the other.
pub open spec fn leads_on(
    steps: Seq<Step<Seq<Part>, RunState, Report, ToolFailure>>,
    replies: Seq<FsReply>,
    path: Seq<Part>,
    aim: Seq<Part>,
    links: nat,
    n: int,
) -> bool
    decreases links,
{
    if links == 0 {
        aim == path
    } else {
        exists|via: Seq<Part>|
            leads_on(steps, replies, path, via, (links - 1) as nat, n) && #[trigger] leads_by_link(
                steps,
                replies,
                via,
                aim,
                n,
            )
    }
}

/// Whether the first `n` replies told that the first parts of `path`, some or all
/// of them, exist and are in the workspace, that the rest stays in it, and of no
/// link that leads on at the rest.
pub open spec fn ends_inside(
    steps: Seq<Step<Seq<Part>, RunState, Report, ToolFailure>>,
    replies: Seq<FsReply>,
    path: Seq<Part>,
    root: Seq<Part>,
    n: int,
) -> bool {
    exists|k: int|
        bare_beyond(steps, replies, path, k, n) && told_inside(
            steps,
            replies,
            #[trigger] path.take(k),
            path.skip(k),
            root,
            n,
        )
}

/// Whether the first `n` replies told that `path` leads, by the links on it that
/// lead to what does not exist, to somewhere in the workspace. Then what is made at
/// `path` comes to be in the workspace.
pub open spec fn leads_inside(
    steps: Seq<Step<Seq<Part>, RunState, Report, ToolFailure>>,
    replies: Seq<FsReply>,
    path: Seq<Part>,
    root: Seq<Part>,
    n: int,
) -> bool {
    exists|aim: Seq<Part>, links: nat| #[trigger]
        leads_on(steps, replies, path, aim, links, n) && ends_inside(steps, replies, aim, root, n)
}

/// What a search for what exists of `path` knows when it came to `current`, below
/// which the path leads to `rest`.
pub open spec fn climb_knows(
    steps: Seq<Step<Seq<Part>, RunState, Report, ToolFailure>>,
    replies: Seq<FsReply>,
    path: Seq<Part>,
    current: Seq<Part>,
    rest: Seq<Part>,
    n: int,
) -> bool {
    &&& exists|links: nat| #[trigger] leads_on(steps, replies, path, current + rest, links, n)
    &&& bare_beyond(steps, replies, current + rest, current.len() as int, n)
}

/// What a search for what exists of a path knows, when it makes the request of
/// step `n`.
pub open spec fn search_knows(
    steps: Seq<Step<Seq<Part>, RunState, Report, ToolFailure>>,
    replies: Seq<FsReply>,
    request: FsRequest<Seq<Part>>,
    stage: AncestorStage,
    n: int,
) -> bool {
    match stage {
        AncestorStage::Climb { path, current, rest } => request == FsRequest::Stat(current)
            && climb_knows(steps, replies, path, current, rest, n),
        AncestorStage::Link { path, current, rest } => request == FsRequest::ReadLink(current)
            && climb_knows(steps, replies, path, current, rest, n),
        AncestorStage::Anchor { path, rest } => request matches FsRequest::Canonicalize(current)
            && climb_knows(steps, replies, path, current, rest, n),
    }
}

proof fn lemma_still_bare(
    steps: Seq<Step<Seq<Part>, RunState, Report, ToolFailure>>,
    replies: Seq<FsReply>,
    path: Seq<Part>,
    k: int,
    n: int,
)
    requires
        bare_beyond(steps, replies, path, k, n),
    ensures
        bare_beyond(steps, replies, path, k, n + 1),
{
    assert forall|j: int| k < j <= path.len() implies told_bare(
        steps,
        replies,
        #[trigger] path.take(j),
        n + 1,
    ) by {
        assert(told_bare(steps, replies, path.take(j), n));
    }
}

proof fn lemma_still_leads(
    steps: Seq<Step<Seq<Part>, RunState, Report, ToolFailure>>,
    replies: Seq<FsReply>,
    path: Seq<Part>,
    aim: Seq<Part>,
    links: nat,
    n: int,
)
    requires
        leads_on(steps, replies, path, aim, links, n),
    ensures
        leads_on(steps, replies, path, aim, links, n + 1),
    decreases links,
{
    if links > 0 {
        let less = (links - 1) as nat;
        let via = choose|via: Seq<Part>|
            leads_on(steps, replies, path, via, less, n) && #[trigger] leads_by_link(
                steps,
                replies,
                via,
                aim,
                n,
            );
        lemma_still_leads(steps, replies, path, via, less, n);
        let (k, target) = choose|k: int, target: Seq<Part>|
            {
                &&& bare_beyond(steps, replies, via, k, n)
                &&& #[trigger] told_link(steps, replies, via.take(k), target, n)
                &&& aim == link_target(via.take(k), target) + via.skip(k)
            };
        lemma_still_bare(steps, replies, via, k, n);
        assert(told_link(steps, replies, via.take(k), target, n + 1));
        assert(leads_by_link(steps, replies, via, aim, n + 1));
    }
}

proof fn lemma_still_climbs(
    steps: Seq<Step<Seq<Part>, RunState, Report, ToolFailure>>,
    replies: Seq<FsReply>,
    path: Seq<Part>,
    current: Seq<Part>,
    rest: Seq<Part>,
    n: int,
)
    requires
        climb_knows(steps, replies, path, current, rest, n),
    ensures
        climb_knows(steps, replies, path, current, rest, n + 1),
{
    let links = choose|links: nat| #[trigger]
        leads_on(steps, replies, path, current + rest, links, n);
    lemma_still_leads(steps, replies, path, current + rest, links, n);
    lemma_still_bare(steps, replies, current + rest, current.len() as int, n);
}

proof fn lemma_still_inside(
    steps: Seq<Step<Seq<Part>, RunState, Report, ToolFailure>>,
    replies: Seq<FsReply>,
    path: Seq<Part>,
    root: Seq<Part>,
    n: int,
)
    requires
        leads_inside(steps, replies, path, root, n),
    ensures
        leads_inside(steps, replies, path, root, n + 1),
{
    let (aim, links) = choose|aim: Seq<Part>, links: nat| #[trigger]
        leads_on(steps, replies, path, aim, links, n) && ends_inside(steps, replies, aim, root, n);
    let k = choose|k: int|
        bare_beyond(steps, replies, aim, k, n) && told_inside(
            steps,
            replies,
            #[trigger] aim.take(k),
            aim.skip(k),
            root,
            n,
        );
    lemma_still_leads(steps, replies, path, aim, links, n);
    lemma_still_bare(steps, replies, aim, k, n);
    assert(told_inside(steps, replies, aim.take(k), aim.skip(k), root, n + 1));
}

proof fn lemma_search_start(
    steps: Seq<Step<Seq<Part>, RunState, Report, ToolFailure>>,
    replies: Seq<FsReply>,
    path: Seq<Part>,
    n: int,
)
    ensures
        ancestor_start(path) matches Step::Ask(request, stage) && search_knows(
            steps,
            replies,
            request,
            stage,
            n,
        ),
{
    assert(path + Seq::<Part>::empty() =~= path);
    assert(leads_on(steps, replies, path, path, 0, n));
}

proof fn lemma_search_above(
    site: Site,
    steps: Seq<Step<Seq<Part>, RunState, Report, ToolFailure>>,
    replies: Seq<FsReply>,
    path: Seq<Part>,
    current: Seq<Part>,
    rest: Seq<Part>,
    n: int,
)
    requires
        climb_knows(steps, replies, path, current, rest, n),
        told_bare(steps, replies, current, n),
    ensures
        ancestor_above(site, path, current, rest) matches Step::Ask(request, stage)
            ==> search_knows(steps, replies, request, stage, n) && stage.path() == path,
{
    match parent_of(current) {
        Some(above) => {
            let aim = current + rest;
            let more = seq![current.last()] + rest;
            assert(above + more =~= aim);
            assert forall|j: int| above.len() < j <= aim.len() implies told_bare(
                steps,
                replies,
                #[trigger] aim.take(j),
                n,
            ) by {
                if j == current.len() {
                    assert(aim.take(j) =~= current);
                }
            }
        },
        None => {},
    }
}

proof fn lemma_search_next(
    site: Site,
    steps: Seq<Step<Seq<Part>, RunState, Report, ToolFailure>>,
    replies: Seq<FsReply>,
    request: FsRequest<Seq<Part>>,
    stage: AncestorStage,
    n: int,
)
    requires
        0 <= n < steps.len(),
        n < replies.len(),
        steps[n] matches Step::Ask(asked, _) && asked == request,
        replies[n].kind_of() == request.answered_by(),
        search_knows(steps, replies, request, stage, n),
    ensures
        match ancestor_next(site, stage, replies[n]) {
            Step::Ask(asked, next) => search_knows(steps, replies, asked, next, n + 1)
                && next.path() == stage.path(),
            Step::Done(placed) => leads_inside(steps, replies, placed.path, site.root, n + 1),
            Step::Failed(_) => true,
        },
{
    let reply = replies[n];
    match stage {
        AncestorStage::Climb { path, current, rest } => {
            lemma_still_climbs(steps, replies, path, current, rest, n);
            if reply->Status_0 is Err && !reply->Status_0->Err_0.not_found {
                assert(told_bare(steps, replies, current, n + 1));
                lemma_search_above(site, steps, replies, path, current, rest, n + 1);
            }
        },
        AncestorStage::Link { path, current, rest } => {
            lemma_still_climbs(steps, replies, path, current, rest, n);
            match reply->Link_0 {
                Ok(told) => {
                    let via = current + rest;
                    let k = current.len() as int;
                    let target = parts(told@);
                    let aim = link_target(current, target) + rest;
                    assert(via.take(k) =~= current);
                    assert(via.skip(k) =~= rest);
                    assert(told_link(steps, replies, via.take(k), target, n + 1));
                    assert(leads_by_link(steps, replies, via, aim, n + 1));
                    let links = choose|links: nat| #[trigger]
                        leads_on(steps, replies, path, via, links, n + 1);
                    assert(leads_on(steps, replies, path, aim, links + 1, n + 1));
                    assert(aim + Seq::<Part>::empty() =~= aim);
                },
                Err(_) => {
                    assert(told_bare(steps, replies, current, n + 1));
                    lemma_search_above(site, steps, replies, path, current, rest, n + 1);
                },
            }
        },
        AncestorStage::Anchor { path, rest } => {
            let current = request->Canonicalize_0;
            lemma_still_climbs(steps, replies, path, current, rest, n);
            if ancestor_next(site, stage, reply) is Done {
                let aim = current + rest;
                let k = current.len() as int;
                assert(aim.take(k) =~= current);
                assert(aim.skip(k) =~= rest);
                assert(told_inside(steps, replies, aim.take(k), aim.skip(k), site.root, n + 1));
                assert(ends_inside(steps, replies, aim, site.root, n + 1));
            }
        },
    }
}

/// Whether `path` is `above` or something below it, name for name.
pub open spec fn starts_as(path: Seq<Part>, above: Seq<Part>) -> bool {
    above.len() <= path.len() && above == path.take(above.len() as int)
}

/// Where a request puts something: the path that it makes, copies or moves to.
pub open spec fn writes_to(request: FsRequest<Seq<Part>>) -> Option<Seq<Part>> {
    match request {
        FsRequest::CreateDir(path) => Some(path),
        FsRequest::CreateDirAll(path) => Some(path),
        FsRequest::CopyFile(_, to) => Some(to),
        FsRequest::Rename(_, to) => Some(to),
        _ => None,
    }
}

/// Whether `path` is a destination that was told to lead to somewhere in the
/// workspace, something below it, or the directory that holds it.
pub open spec fn lands_inside(
    steps: Seq<Step<Seq<Part>, RunState, Report, ToolFailure>>,
    replies: Seq<FsReply>,
    path: Seq<Part>,
    root: Seq<Part>,
    n: int,
) -> bool {
    exists|destination: Seq<Part>| #[trigger]
        leads_inside(steps, replies, destination, root, n) && (starts_as(path, destination)
            || parent_of(destination) == Some(path))
}

/// Whether the destination of a copy was told to lead to somewhere in the
/// workspace.
pub open spec fn copy_knows(
    steps: Seq<Step<Seq<Part>, RunState, Report, ToolFailure>>,
    replies: Seq<FsReply>,
    stage: CopyStage,
    root: Seq<Part>,
    n: int,
) -> bool {
    match stage {
        CopyStage::Kind { destination, .. } => leads_inside(steps, replies, destination, root, n),
        CopyStage::Fresh { destination, .. } => leads_inside(steps, replies, destination, root, n),
        CopyStage::Itself { destination, .. } => leads_inside(steps, replies, destination, root, n),
        CopyStage::Entry { task } => leads_inside(steps, replies, task.destination, root, n),
        CopyStage::Directory { task } => leads_inside(steps, replies, task.destination, root, n),
        CopyStage::Size { task, to, .. } => leads_inside(steps, replies, task.destination, root, n)
            && starts_as(to, task.destination),
        CopyStage::Parent { after, to, .. } => file_knows(steps, replies, after, to, root, n),
        CopyStage::Check { after, to, .. } => file_knows(steps, replies, after, to, root, n),
        CopyStage::File { after, to } => file_knows(steps, replies, after, to, root, n),
    }
}

/// Whether the place that a file is copied to was told to lead to somewhere in the
/// workspace, or is below one that was.
pub open spec fn file_knows(
    steps: Seq<Step<Seq<Part>, RunState, Report, ToolFailure>>,
    replies: Seq<FsReply>,
    after: Option<CopyTask>,
    to: Seq<Part>,
    root: Seq<Part>,
    n: int,
) -> bool {
    match after {
        Some(task) => leads_inside(steps, replies, task.destination, root, n) && starts_as(
            to,
            task.destination,
        ),
        None => leads_inside(steps, replies, to, root, n),
    }
}

/// What a run knows of where it writes to, when it makes the request of step `n`.
pub open spec fn run_knows(
    steps: Seq<Step<Seq<Part>, RunState, Report, ToolFailure>>,
    replies: Seq<FsReply>,
    request: FsRequest<Seq<Part>>,
    stage: Stage,
    root: Seq<Part>,
    n: int,
) -> bool {
    match stage {
        Stage::Mkdir { stage, .. } => match stage {
            MkdirStage::Place { stage } => search_knows(steps, replies, request, stage, n),
            MkdirStage::Parent { path, .. } => leads_inside(steps, replies, path, root, n),
            MkdirStage::Exists { path } => leads_inside(steps, replies, path, root, n),
            MkdirStage::Create { path } => leads_inside(steps, replies, path, root, n),
        },
        Stage::Destination { stage, .. } => match stage {
            DestinationStage::Place { stage, .. } => search_knows(
                steps,
                replies,
                request,
                stage,
                n,
            ),
            DestinationStage::Kind { path, .. } => leads_inside(steps, replies, path, root, n),
        },
        Stage::Copy { stage, .. } => request.answered_by() == stage.awaits() && copy_knows(
            steps,
            replies,
            stage,
            root,
            n,
        ),
        Stage::Move { stage, .. } => match stage {
            MoveStage::Check { destination, .. } => leads_inside(
                steps,
                replies,
                destination,
                root,
                n,
            ),
            MoveStage::Clear { destination, .. } => leads_inside(
                steps,
                replies,
                destination,
                root,
                n,
            ),
            MoveStage::Parent { destination, .. } => leads_inside(
                steps,
                replies,
                destination,
                root,
                n,
            ),
            MoveStage::Rename { .. } => true,
        },
        _ => true,
    }
}

proof fn lemma_mkdir_knows(
    site: Site,
    steps: Seq<Step<Seq<Part>, RunState, Report, ToolFailure>>,
    replies: Seq<FsReply>,
    input: Seq<char>,
    parents: bool,
    stage: MkdirStage,
    n: int,
)
    requires
        0 <= n < steps.len(),
        n < replies.len(),
        steps[n] matches Step::Ask(request, _) && replies[n].kind_of() == request.answered_by()
            && run_knows(
            steps,
            replies,
            request,
            Stage::Mkdir { input, parents, stage },
            site.root,
            n,
        ),
    ensures
        mkdir_next(site, input, parents, stage, replies[n]) matches Step::Ask(request, next) ==> {
            &&& run_knows(
                steps,
                replies,
                request,
                Stage::Mkdir { input, parents, stage: next },
                site.root,
                n + 1,
            )
            &&& writes_to(request) matches Some(path) ==> leads_inside(
                steps,
                replies,
                path,
                site.root,
                n + 1,
            )
        },
{
    match stage {
        MkdirStage::Place { stage } => {
            lemma_search_next(site, steps, replies, steps[n]->Ask_0, stage, n);
        },
        MkdirStage::Parent { path, .. } => {
            lemma_still_inside(steps, replies, path, site.root, n);
        },
        MkdirStage::Exists { path } => {
            lemma_still_inside(steps, replies, path, site.root, n);
        },
        MkdirStage::Create { path } => {},
    }
}

proof fn lemma_destination_knows(
    site: Site,
    steps: Seq<Step<Seq<Part>, RunState, Report, ToolFailure>>,
    replies: Seq<FsReply>,
    transfer: Transfer,
    stage: DestinationStage,
    n: int,
)
    requires
        0 <= n < steps.len(),
        n < replies.len(),
        steps[n] matches Step::Ask(request, _) && replies[n].kind_of() == request.answered_by()
            && run_knows(
            steps,
            replies,
            request,
            Stage::Destination { transfer, stage },
            site.root,
            n,
        ),
    ensures
        match destination_next(site, stage, replies[n]) {
            Step::Ask(request, next) => run_knows(
                steps,
                replies,
                request,
                Stage::Destination { transfer, stage: next },
                site.root,
                n + 1,
            ) && writes_to(request) is None,
            Step::Done(way) => leads_inside(steps, replies, way.destination, site.root, n + 1),
            Step::Failed(_) => true,
        },
{
    match stage {
        DestinationStage::Place { stage, .. } => {
            lemma_search_next(site, steps, replies, steps[n]->Ask_0, stage, n);
        },
        DestinationStage::Kind { source, path } => {
            lemma_still_inside(steps, replies, path, site.root, n);
            match name_of(source) {
                Some(name) => {
                    lemma_search_start(steps, replies, path.push(Part::Normal(name)), n + 1);
                },
                None => {},
            }
        },
    }
}

proof fn lemma_file_lands(
    site: Site,
    steps: Seq<Step<Seq<Part>, RunState, Report, ToolFailure>>,
    replies: Seq<FsReply>,
    after: Option<CopyTask>,
    from: Seq<Part>,
    to: Seq<Part>,
    n: int,
)
    requires
        file_knows(steps, replies, after, to, site.root, n),
    ensures
        lands_inside(steps, replies, to, site.root, n),
        copy_file_start(site, after, from, to) matches Step::Ask(request, next) ==> copy_knows(
            steps,
            replies,
            next,
            site.root,
            n,
        ) && (writes_to(request) matches Some(path) && lands_inside(
            steps,
            replies,
            path,
            site.root,
            n,
        )),
{
    let destination = match after {
        Some(task) => task.destination,
        None => to,
    };
    assert(leads_inside(steps, replies, destination, site.root, n));
    assert(to.take(to.len() as int) =~= to);
    match parent_of(to) {
        Some(above) => {
            if to.len() > destination.len() {
                assert(above.take(destination.len() as int) =~= to.take(destination.len() as int));
            } else {
                assert(to =~= destination);
            }
        },
        None => {},
    }
}

proof fn lemma_copy_knows(
    site: Site,
    steps: Seq<Step<Seq<Part>, RunState, Report, ToolFailure>>,
    replies: Seq<FsReply>,
    rules: CopyRules,
    stage: CopyStage,
    n: int,
)
    requires
        0 <= n < steps.len(),
        n < replies.len(),
        replies[n].kind_of() == stage.awaits(),
        copy_knows(steps, replies, stage, site.root, n),
    ensures
        copy_next(site, rules, stage, replies[n]) matches Step::Ask(request, next) ==> {
            &&& request.answered_by() == next.awaits()
            &&& copy_knows(steps, replies, next, site.root, n + 1)
            &&& writes_to(request) matches Some(path) ==> lands_inside(
                steps,
                replies,
                path,
                site.root,
                n + 1,
            )
        },
{
    let root = site.root;
    let reply = replies[n];
    match stage {
        CopyStage::Kind { source, destination } => {
            lemma_still_inside(steps, replies, destination, root, n);
            lemma_file_lands(site, steps, replies, None, source, destination, n + 1);
        },
        CopyStage::Fresh { destination, .. } => {
            lemma_still_inside(steps, replies, destination, root, n);
        },
        CopyStage::Itself { destination, .. } => {
            lemma_still_inside(steps, replies, destination, root, n);
        },
        CopyStage::Entry { task } => {
            lemma_still_inside(steps, replies, task.destination, root, n);
            match reply->Entry_0 {
                NextEntry::Found(entry) => {
                    let to = task.destination + parts(entry.path@).skip(task.source.len() as int);
                    assert(to.take(task.destination.len() as int) =~= task.destination);
                },
                _ => {},
            }
        },
        CopyStage::Directory { task } => {
            lemma_still_inside(steps, replies, task.destination, root, n);
        },
        CopyStage::Size { task, from, to } => {
            lemma_still_inside(steps, replies, task.destination, root, n);
            match reply->Status_0 {
                Ok(stat) => {
                    let bytes = size_sum(task.bytes, stat.len);
                    let after = Some(CopyTask { bytes, ..task });
                    lemma_file_lands(site, steps, replies, after, from, to, n + 1);
                },
                Err(_) => {},
            }
        },
        CopyStage::Parent { after, from, to } => {
            lemma_file_still_lands(steps, replies, after, to, root, n);
        },
        CopyStage::Check { after, from, to } => {
            lemma_file_still_lands(steps, replies, after, to, root, n);
            lemma_file_lands(site, steps, replies, after, from, to, n + 1);
        },
        CopyStage::File { after, to } => {
            lemma_file_still_lands(steps, replies, after, to, root, n);
        },
    }
}

proof fn lemma_file_still_lands(
    steps: Seq<Step<Seq<Part>, RunState, Report, ToolFailure>>,
    replies: Seq<FsReply>,
    after: Option<CopyTask>,
    to: Seq<Part>,
    root: Seq<Part>,
    n: int,
)
    requires
        file_knows(steps, replies, after, to, root, n),
    ensures
        file_knows(steps, replies, after, to, root, n + 1),
{
    match after {
        Some(task) => {
            lemma_still_inside(steps, replies, task.destination, root, n);
        },
        None => {
            lemma_still_inside(steps, replies, to, root, n);
        },
    }
}

proof fn lemma_move_knows(
    site: Site,
    steps: Seq<Step<Seq<Part>, RunState, Report, ToolFailure>>,
    replies: Seq<FsReply>,
    overwrite: bool,
    stage: MoveStage,
    n: int,
)
    requires
        0 <= n < steps.len(),
        n < replies.len(),
        steps[n] matches Step::Ask(request, _) && replies[n].kind_of() == request.answered_by()
            && run_knows(
            steps,
            replies,
            request,
            Stage::Move { overwrite, stage },
            site.root,
            n,
        ),
    ensures
        move_next(site, overwrite, stage, replies[n]) matches Step::Ask(request, next) ==> {
            &&& run_knows(
                steps,
                replies,
                request,
                Stage::Move { overwrite, stage: next },
                site.root,
                n + 1,
            )
            &&& writes_to(request) matches Some(path) ==> lands_inside(
                steps,
                replies,
                path,
                site.root,
                n + 1,
            )
        },
{
    match stage {
        MoveStage::Check { destination, .. } => {
            assert(destination.take(destination.len() as int) =~= destination);
            lemma_still_inside(steps, replies, destination, site.root, n);
        },
        MoveStage::Clear { destination, .. } => {
            assert(destination.take(destination.len() as int) =~= destination);
            lemma_still_inside(steps, replies, destination, site.root, n);
        },
        MoveStage::Parent { destination, .. } => {
            lemma_still_inside(steps, replies, destination, site.root, n);
            assert(destination.take(destination.len() as int) =~= destination);
        },
        MoveStage::Rename { .. } => {},
    }
}

proof fn lemma_others_write_nothing(
    site: Site,
    reader: spec_fn(Seq<char>) -> Seq<Part>,
    stage: Stage,
    reply: FsReply,
)
    requires
        stage is Read || stage is Ls || stage is Find || stage is Grep || stage is Remove,
    ensures
        stage_next(site, reader, stage, reply) matches Step::Ask(request, next) ==> writes_to(
            request,
        ) is None && (next is Read || next is Ls || next is Find || next is Grep || next is Remove),
{
}

proof fn lemma_run_knows(
    command: WorkspaceCommand,
    steps: Seq<Step<Seq<Part>, RunState, Report, ToolFailure>>,
    replies: Seq<FsReply>,
    n: int,
)
    requires
        is_course(command, steps, replies),
        0 <= n < steps.len(),
    ensures
        steps[n] matches Step::Ask(request, state) ==> {
            &&& run_knows(steps, replies, request, state.stage, state.site.root, n)
            &&& writes_to(request) matches Some(path) ==> lands_inside(
                steps,
                replies,
                path,
                state.site.root,
                n,
            )
        },
    decreases n,
{
    if n > 0 {
        let m = n - 1;
        lemma_run_knows(command, steps, replies, m);
        assert(goes_on(steps[m], replies[m], steps[n]));
        let state = steps[m]->Ask_1;
        let reply = replies[m];
        let reader = choose|reader: spec_fn(Seq<char>) -> Seq<Part>|
            reads_plainly(reader) && steps[n] == #[trigger] run_next(reader, state, reply);
        let site = state.site;
        match state.stage {
            Stage::Root { .. } => {},
            Stage::RootKind { canonical, command: inner, .. } => {
                match inner {
                    WorkspaceCommand::Mkdir { path, .. } => {
                        let there = Site { root: canonical, ..site };
                        match named_path(there, reader, path@, false) {
                            Ok(path) => {
                                lemma_search_start(steps, replies, path, n);
                            },
                            Err(_) => {},
                        }
                    },
                    _ => {},
                }
            },
            Stage::Target { goal, .. } => {
                let destination = match goal {
                    Goal::Cp { destination, .. } => destination@,
                    Goal::Mv { destination, .. } => destination@,
                    _ => seq![],
                };
                match named_path(site, reader, destination, false) {
                    Ok(path) => {
                        lemma_search_start(steps, replies, path, n);
                    },
                    Err(_) => {},
                }
            },
            Stage::Mkdir { input, parents, stage } => {
                lemma_mkdir_knows(site, steps, replies, input, parents, stage, m);
                match mkdir_next(site, input, parents, stage, reply) {
                    Step::Ask(FsRequest::CreateDir(path), _) => {
                        assert(path.take(path.len() as int) =~= path);
                    },
                    Step::Ask(FsRequest::CreateDirAll(path), _) => {
                        assert(path.take(path.len() as int) =~= path);
                    },
                    _ => {},
                }
            },
            Stage::Destination { transfer, stage } => {
                lemma_destination_knows(site, steps, replies, transfer, stage, m);
            },
            Stage::Copy { rules, stage } => {
                lemma_copy_knows(site, steps, replies, rules, stage, m);
            },
            Stage::Move { overwrite, stage } => {
                lemma_move_knows(site, steps, replies, overwrite, stage, m);
            },
            stage => {
                lemma_others_write_nothing(site, reader, stage, reply);
            },
        }
    }
}

/// In every run, what is made, copied or moved goes to a destination of which the
/// file system told that it leads to somewhere in the workspace, also by the links
/// on it that lead to what does not exist; or it goes to something below such a
/// destination, or is the directory that holds it.
pub proof fn law_what_is_written_lands_inside(
    command: WorkspaceCommand,
    steps: Seq<Step<Seq<Part>, RunState, Report, ToolFailure>>,
    replies: Seq<FsReply>,
    n: int,
)
    requires
        is_course(command, steps, replies),
        0 <= n < steps.len(),
    ensures
        steps[n] matches Step::Ask(request, state) ==> {
            writes_to(request) matches Some(path) ==> lands_inside(
                steps,
                replies,
                path,
                state.site.root,
                n,
            )
        },
{
    lemma_run_knows(command, steps, replies, n);
}

/// In every run that looks for a place where something is to be made: where a link
/// leads to what does not exist, the run looks where it leads, and where what
/// exists there is not in the workspace, the run ends with an error.
pub proof fn law_links_are_followed_to_where_they_lead(
    command: WorkspaceCommand,
    steps: Seq<Step<Seq<Part>, RunState, Report, ToolFailure>>,
    replies: Seq<FsReply>,
    n: int,
)
    requires
        is_course(command, steps, replies),
        0 <= n < replies.len(),
        looks_for_a_place(steps[n]->Ask_1.stage),
    ensures
        steps[n] matches Step::Ask(request, state) && {
            &&& request matches FsRequest::Stat(path) ==> {
                replies[n] matches FsReply::Status(Err(error)) ==> {
                    error.not_found ==> (steps[n + 1] matches Step::Ask(next, _) && next
                        == FsRequest::ReadLink(path))
                }
            }
            &&& request matches FsRequest::ReadLink(path) ==> {
                replies[n] matches FsReply::Link(Ok(target)) ==> {
                    &&& steps[n + 1] matches Step::Ask(next, _)
                    &&& next matches FsRequest::Stat(aim)
                    &&& starts_as(aim, link_target(path, parts(target@)))
                }
            }
            &&& request is Canonicalize ==> {
                replies[n] matches FsReply::Path(Ok(there)) ==> {
                    !is_under(parts(there@), state.site.root) ==> (steps[n
                        + 1] matches Step::Failed(failure) && failure is PathEscapesWorkspace)
                }
            }
        },
{
    lemma_run_knows(command, steps, replies, n);
    assert(goes_on(steps[n], replies[n], steps[n + 1]));
    let state = steps[n]->Ask_1;
    let reader = choose|reader: spec_fn(Seq<char>) -> Seq<Part>|
        reads_plainly(reader) && steps[n + 1] == #[trigger] run_next(reader, state, replies[n]);
    assert(steps[n + 1] == run_next(reader, state, replies[n]));
    match (steps[n]->Ask_0, replies[n]) {
        (FsRequest::ReadLink(path), FsReply::Link(Ok(target))) => {
            let there = link_target(path, parts(target@));
            assert forall|rest: Seq<Part>| #[trigger] (there + rest).take(there.len() as int)
                == there by {
                assert((there + rest).take(there.len() as int) =~= there);
            }
        },
        _ => {},
    }
}

proof fn lemma_settled_names(base: Seq<Part>, rest: Seq<Part>)
    requires
        forall|i: int| 0 <= i < rest.len() ==> #[trigger] rest[i] is Normal,
    ensures
        settled(base, rest) == base + rest,
    decreases rest.len(),
{
    if rest.len() == 0 {
        assert(base + rest =~= base);
    } else {
        assert(rest.last() == rest[rest.len() - 1]);
        assert forall|i: int| 0 <= i < rest.drop_last().len() implies #[trigger]
            rest.drop_last()[i] is Normal by {
            assert(rest.drop_last()[i] == rest[i]);
        }
        lemma_settled_names(base, rest.drop_last());
        assert((base + rest.drop_last()).push(rest.last()) =~= base + rest);
    }
}

/// Where no step up is in it, a path is in the workspace if and only if what exists
/// of it is.
pub proof fn law_what_exists_decides(there: Seq<Part>, rest: Seq<Part>, root: Seq<Part>)
    requires
        forall|i: int| 0 <= i < rest.len() ==> #[trigger] rest[i] is Normal,
    ensures
        settles_inside(there, rest, root) <==> is_under(there, root),
{
    lemma_settled_names(there, rest);
    if is_under(there, root) {
        let whole = there + rest;
        assert forall|i: int| 0 <= i < root.len() implies same_part(
            #[trigger] whole[i],
            root[i],
        ) by {
            assert(whole[i] == there[i]);
        }
    }
}

} // verus!
