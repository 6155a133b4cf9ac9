//! What holds of every run of a command, whatever the file system replies.

use vstd::prelude::*;

use crate::errors::ToolFailure;
use crate::fs::{FsReply, FsRequest, NextEntry, Step};
use crate::grep::{grep_next, GrepStage, GrepTerms};
use crate::listing::{find_next, ls_next, FindStage, LsStage};
use crate::mutation::{mkdir_next, mkdir_start, remove_next, MkdirStage, RemoveStage};
use crate::paths::{
    is_under, joined, name_of, normalized, parent_of, parts, reads_plainly, resolved, same_part,
    shown, workspace_names, Part, PathName,
};
use crate::reading::{read_next, read_start, ReadStage};
use crate::resolve::{ancestor_next, existing_path, named_path, AncestorStage, Site};
use crate::search::{search_next, size_sum, SearchStage, SearchState};
use crate::toolbox::{Report, WorkspaceCommand};
use crate::transfer::{
    copy_file_start, copy_next, destination_next, destination_start, move_next, CopyRules,
    CopyStage, CopyTask, DestinationStage, MoveStage, Way,
};
use crate::workspace::{
    command_start, follows, goal_start, path_or_root, run_next, run_start, site_next, Goal,
    RunState, Stage,
};

verus! {

// ---------------------------------------------------------------------------
// Paths in the workspace
// ---------------------------------------------------------------------------

/// Whether `path` is `root` or something below it, with no step up.
pub open spec fn inside(path: Seq<Part>, root: Seq<Part>) -> bool {
    &&& is_under(path, root)
    &&& forall|i: int| root.len() <= i < path.len() ==> #[trigger] path[i] is Normal
}

/// Whether `path` is something below `root`, with no step up.
pub open spec fn strictly_inside(path: Seq<Part>, root: Seq<Part>) -> bool {
    inside(path, root) && path.len() > root.len()
}

/// Whether a request keeps to the workspace, by the paths in it. All that is read,
/// made, changed or removed lies in it, and the root itself is never removed nor
/// anything put in its place. Paths are taken as they are written, names after
/// names. That nothing is written through a link that leads out is
/// `refusal_laws::law_what_is_written_lands_inside`.
pub open spec fn keeps_to(request: FsRequest<Seq<Part>>, root: Seq<Part>) -> bool {
    match request {
        FsRequest::Canonicalize(path) => inside(path, root),
        FsRequest::Stat(path) => inside(path, root),
        FsRequest::StatEntry(path) => inside(path, root),
        FsRequest::ReadLink(path) => inside(path, root),
        FsRequest::ReadText(path) => inside(path, root),
        FsRequest::ReadStart(path, _) => inside(path, root),
        FsRequest::ReadDir(path) => inside(path, root),
        FsRequest::Walk(path, _) => inside(path, root),
        FsRequest::NextEntry => true,
        FsRequest::SkipEntry => true,
        FsRequest::CreateDir(path) => strictly_inside(path, root),
        FsRequest::CreateDirAll(path) => inside(path, root),
        FsRequest::CopyFile(from, to) => inside(from, root) && strictly_inside(to, root),
        FsRequest::Rename(from, to) => inside(from, root) && strictly_inside(to, root),
        FsRequest::RemoveFile(path) => strictly_inside(path, root),
        FsRequest::RemoveDir(path) => strictly_inside(path, root),
        FsRequest::RemoveDirAll(path) => strictly_inside(path, root),
    }
}

/// Whether a request only asks whether something exists, where it is, or what a
/// link says.
pub open spec fn only_looks(request: FsRequest<Seq<Part>>) -> bool {
    request is Stat || request is Canonicalize || request is ReadLink
}

/// Whether a request keeps to the workspace. One that looks for a place where
/// something is to be made may also look at what is above the root, and where
/// links lead.
pub open spec fn keeps_or_looks(
    request: FsRequest<Seq<Part>>,
    looking: bool,
    root: Seq<Part>,
) -> bool {
    keeps_to(request, root) || (looking && only_looks(request))
}

/// What a file system tells of paths: a resolved path below the root has no step
/// up in it, and the entries of what is in the workspace are in it.
pub open spec fn honest(reply: FsReply, root: Seq<Part>) -> bool {
    match reply {
        FsReply::Path(Ok(path)) => is_under(parts(path@), root) ==> inside(parts(path@), root),
        FsReply::Entry(NextEntry::Found(entry)) => inside(parts(entry.path@), root),
        _ => true,
    }
}

proof fn lemma_parent_inside(path: Seq<Part>, root: Seq<Part>)
    requires
        strictly_inside(path, root),
    ensures
        parent_of(path) == Some(path.drop_last()),
        inside(path.drop_last(), root),
{
    assert(path.last() == path[path.len() - 1]);
    assert forall|i: int| 0 <= i < root.len() implies same_part(
        #[trigger] path.drop_last()[i],
        root[i],
    ) by {
        assert(path.drop_last()[i] == path[i]);
    }
    assert forall|i: int| root.len() <= i < path.drop_last().len() implies #[trigger]
        path.drop_last()[i] is Normal by {
        assert(path.drop_last()[i] == path[i]);
    }
}

proof fn lemma_inside_push(path: Seq<Part>, root: Seq<Part>, name: PathName)
    requires
        inside(path, root),
    ensures
        strictly_inside(path.push(Part::Normal(name)), root),
{
    let longer = path.push(Part::Normal(name));
    assert forall|i: int| 0 <= i < root.len() implies same_part(
        #[trigger] longer[i],
        root[i],
    ) by {
        assert(longer[i] == path[i]);
    }
    assert forall|i: int| root.len() <= i < longer.len() implies #[trigger] longer[i] is Normal by {
        if i < path.len() {
            assert(longer[i] == path[i]);
        }
    }
}

proof fn lemma_inside_tail(base: Seq<Part>, path: Seq<Part>, skip: int, root: Seq<Part>)
    requires
        strictly_inside(base, root),
        inside(path, root),
        root.len() <= skip <= path.len(),
    ensures
        strictly_inside(base + path.skip(skip), root),
{
    let whole = base + path.skip(skip);
    assert forall|i: int| 0 <= i < root.len() implies same_part(#[trigger] whole[i], root[i]) by {
        assert(whole[i] == base[i]);
    }
    assert forall|i: int| root.len() <= i < whole.len() implies #[trigger] whole[i] is Normal by {
        if i < base.len() {
            assert(whole[i] == base[i]);
        } else {
            assert(whole[i] == path[skip + (i - base.len())]);
        }
    }
}

proof fn lemma_joined_inside(root: Seq<Part>, names: Seq<PathName>)
    ensures
        inside(joined(root, names), root),
        joined(root, names).len() == root.len() + names.len(),
{
    let path = joined(root, names);
    assert forall|i: int| 0 <= i < root.len() implies same_part(#[trigger] path[i], root[i]) by {
        assert(path[i] == root[i]);
    }
}

/// A path that a caller names is in the workspace, and below its root where the
/// root is not allowed.
pub proof fn law_named_paths_are_inside(
    site: Site,
    reader: spec_fn(Seq<char>) -> Seq<Part>,
    input: Seq<char>,
    allow_root: bool,
)
    ensures
        named_path(site, reader, input, allow_root) matches Ok(path) ==> inside(path, site.root)
            && (!allow_root ==> strictly_inside(path, site.root)),
{
    match workspace_names(reader, input, allow_root) {
        Ok(names) => {
            lemma_joined_inside(site.root, names);
        },
        Err(_) => {},
    }
}

/// A path that starts anew, at a root or at a prefix, is refused, whatever else
/// is in it.
pub proof fn law_absolute_paths_are_refused(input: Seq<char>, path: Seq<Part>, allow_root: bool)
    requires
        exists|i: int|
            0 <= i < path.len() && (#[trigger] path[i] is RootDir || path[i] is Prefix),
    ensures
        normalized(input, path, allow_root) is Err,
{
    lemma_absolute_is_refused(input, path, seq![]);
}

proof fn lemma_absolute_is_refused(input: Seq<char>, path: Seq<Part>, at: Seq<PathName>)
    requires
        exists|i: int|
            0 <= i < path.len() && (#[trigger] path[i] is RootDir || path[i] is Prefix),
    ensures
        resolved(input, path, at) is Err,
    decreases path.len(),
{
    let i = choose|i: int|
        0 <= i < path.len() && (#[trigger] path[i] is RootDir || path[i] is Prefix);
    if i > 0 {
        let rest = path.drop_first();
        assert(rest[i - 1] == path[i]);
        match path.first() {
            Part::CurDir => {
                lemma_absolute_is_refused(input, rest, at);
            },
            Part::Normal(name) => {
                lemma_absolute_is_refused(input, rest, at.push(name));
            },
            Part::ParentDir => {
                if at.len() > 0 {
                    lemma_absolute_is_refused(input, rest, at.drop_last());
                }
            },
            _ => {},
        }
    }
}

/// How many names deep a path leads, counted from where it starts.
pub open spec fn depth(path: Seq<Part>) -> int
    decreases path.len(),
{
    if path.len() == 0 {
        0
    } else {
        depth(path.drop_last()) + match path.last() {
            Part::Normal(_) => 1int,
            Part::ParentDir => -1int,
            _ => 0int,
        }
    }
}

/// Whether a path that is relative leads above where it starts, at any of its
/// steps.
pub open spec fn climbs_out(path: Seq<Part>) -> bool {
    exists|k: int| 0 <= k <= path.len() && depth(#[trigger] path.take(k)) < 0
}

/// Whether a path is relative: it has no root and no prefix.
pub open spec fn is_relative(path: Seq<Part>) -> bool {
    forall|i: int| 0 <= i < path.len() ==> !(#[trigger] path[i] is RootDir) && !(path[i] is Prefix)
}

/// A relative path is refused as one that escapes the workspace if and only if
/// it leads above the root at one of its steps, even if it comes back.
pub proof fn law_escaping_paths_are_refused(input: Seq<char>, path: Seq<Part>)
    requires
        is_relative(path),
    ensures
        climbs_out(path) <==> normalized(input, path, true) == Err::<Seq<PathName>, ToolFailure>(
            ToolFailure::PathEscapesWorkspace(input),
        ),
        !climbs_out(path) ==> normalized(input, path, true) is Ok && normalized(
            input,
            path,
            true,
        )->Ok_0.len() == depth(path),
{
    assert(path.take(0) =~= Seq::empty());
    assert(path.skip(0) =~= path);
    assert forall|j: int| 0 <= j <= 0 implies depth(#[trigger] path.take(j)) >= 0 by {}
    lemma_depth(input, path, 0, seq![]);
}

proof fn lemma_depth(input: Seq<char>, path: Seq<Part>, k: int, at: Seq<PathName>)
    requires
        is_relative(path),
        0 <= k <= path.len(),
        at.len() == depth(path.take(k)),
        forall|j: int| 0 <= j <= k ==> depth(#[trigger] path.take(j)) >= 0,
    ensures
        climbs_out(path) ==> resolved(input, path.skip(k), at) == Err::<Seq<PathName>, ToolFailure>(
            ToolFailure::PathEscapesWorkspace(input),
        ),
        !climbs_out(path) ==> resolved(input, path.skip(k), at) is Ok && resolved(
            input,
            path.skip(k),
            at,
        )->Ok_0.len() == depth(path),
    decreases path.len() - k,
{
    let rest = path.skip(k);
    if k == path.len() {
        assert(path.take(k) =~= path);
    } else {
        assert(rest.first() == path[k]);
        assert(rest.drop_first() =~= path.skip(k + 1));
        assert(path.take(k + 1).drop_last() =~= path.take(k));
        assert(path.take(k + 1).last() == path[k]);
        let next = path.take(k + 1);
        if path[k] is ParentDir && at.len() == 0 {
            assert(depth(next) < 0);
        } else {
            assert forall|j: int| 0 <= j <= k + 1 implies depth(#[trigger] path.take(j)) >= 0 by {
                if j == k + 1 {
                    assert(path.take(j) == next);
                }
            }
            match path[k] {
                Part::CurDir => {
                    lemma_depth(input, path, k + 1, at);
                },
                Part::Normal(name) => {
                    lemma_depth(input, path, k + 1, at.push(name));
                },
                Part::ParentDir => {
                    lemma_depth(input, path, k + 1, at.drop_last());
                },
                _ => {},
            }
        }
    }
}

// ---------------------------------------------------------------------------
// What the stages of each command keep
// ---------------------------------------------------------------------------

/// Whether the search for what exists of a path is for one below the root.
pub open spec fn ancestor_kept(stage: AncestorStage, root: Seq<Part>) -> bool {
    strictly_inside(stage.path(), root)
}

/// Whether a file is read only inside the workspace.
pub open spec fn read_kept(stage: ReadStage, root: Seq<Part>) -> bool {
    stage matches ReadStage::Kind { target, .. } ==> inside(target, root)
}

/// Whether only what is inside the workspace is listed.
pub open spec fn ls_kept(stage: LsStage, root: Seq<Part>) -> bool {
    match stage {
        LsStage::Kind { target } => inside(target, root),
        LsStage::Entry { .. } => true,
        LsStage::Stat { path, .. } => inside(path, root),
    }
}

/// Whether only what is inside the workspace is found.
pub open spec fn find_kept(stage: FindStage, root: Seq<Part>) -> bool {
    stage matches FindStage::Kind { target, .. } ==> inside(target, root)
}

/// Whether only what is inside the workspace is searched.
pub open spec fn search_kept(state: SearchState, root: Seq<Part>) -> bool {
    &&& inside(state.terms.root, root)
    &&& match state.stage {
        SearchStage::Size { path, .. } => inside(path, root),
        SearchStage::Start { path, .. } => inside(path, root),
        _ => true,
    }
}

/// Whether only what is inside the workspace is searched.
pub open spec fn grep_kept(stage: GrepStage, root: Seq<Part>) -> bool {
    match stage {
        GrepStage::Kind { target } => inside(target, root),
        GrepStage::Read { stage, .. } => read_kept(stage, root),
        GrepStage::Search { state } => search_kept(state, root),
    }
}

/// Whether a directory is made only below the root.
pub open spec fn mkdir_kept(stage: MkdirStage, root: Seq<Part>) -> bool {
    match stage {
        MkdirStage::Place { stage } => ancestor_kept(stage, root),
        MkdirStage::Parent { path, .. } => strictly_inside(path, root),
        MkdirStage::Exists { path } => strictly_inside(path, root),
        MkdirStage::Create { path } => strictly_inside(path, root),
    }
}

/// Whether something inside the workspace goes below the root.
pub open spec fn way_kept(way: Way, root: Seq<Part>) -> bool {
    inside(way.source, root) && strictly_inside(way.destination, root)
}

/// Whether the destination that is looked for is below the root.
pub open spec fn destination_kept(stage: DestinationStage, root: Seq<Part>) -> bool {
    match stage {
        DestinationStage::Place { source, stage, .. } => inside(source, root) && ancestor_kept(
            stage,
            root,
        ),
        DestinationStage::Kind { source, path } => inside(source, root) && strictly_inside(
            path,
            root,
        ),
    }
}

/// Whether a directory is copied from the workspace to below its root.
pub open spec fn task_kept(task: CopyTask, root: Seq<Part>) -> bool {
    inside(task.source, root) && strictly_inside(task.destination, root)
}

/// Whether a file is copied from the workspace to below its root.
pub open spec fn file_kept(
    after: Option<CopyTask>,
    from: Seq<Part>,
    to: Seq<Part>,
    root: Seq<Part>,
) -> bool {
    &&& after matches Some(task) ==> task_kept(task, root)
    &&& inside(from, root)
    &&& strictly_inside(to, root)
}

/// Whether a copy is from the workspace to below its root.
pub open spec fn copy_kept(stage: CopyStage, root: Seq<Part>) -> bool {
    match stage {
        CopyStage::Kind { source, destination } => way_kept(Way { source, destination }, root),
        CopyStage::Fresh { source, destination } => way_kept(Way { source, destination }, root),
        CopyStage::Itself { source, destination } => way_kept(Way { source, destination }, root),
        CopyStage::Entry { task } => task_kept(task, root),
        CopyStage::Directory { task } => task_kept(task, root),
        CopyStage::Size { task, from, to } => file_kept(Some(task), from, to, root),
        CopyStage::Parent { after, from, to } => file_kept(after, from, to, root),
        CopyStage::Check { after, from, to } => file_kept(after, from, to, root),
        CopyStage::File { after, .. } => after matches Some(task) ==> task_kept(task, root),
    }
}

/// Whether a move is from the workspace to below its root.
pub open spec fn move_kept(stage: MoveStage, root: Seq<Part>) -> bool {
    match stage {
        MoveStage::Check { source, destination } => way_kept(Way { source, destination }, root),
        MoveStage::Clear { source, destination } => way_kept(Way { source, destination }, root),
        MoveStage::Parent { source, destination } => way_kept(Way { source, destination }, root),
        MoveStage::Rename { destination } => true,
    }
}

/// Whether only what is below the root is removed.
pub open spec fn remove_kept(stage: RemoveStage, root: Seq<Part>) -> bool {
    match stage {
        RemoveStage::Kind { target } => strictly_inside(target, root),
        RemoveStage::Count { target, .. } => strictly_inside(target, root),
        RemoveStage::Remove { target } => strictly_inside(target, root),
    }
}

/// Whether a command keeps to the workspace.
pub open spec fn stage_kept(stage: Stage, root: Seq<Part>) -> bool {
    match stage {
        Stage::Root { .. } => true,
        Stage::RootKind { .. } => true,
        Stage::Target { .. } => true,
        Stage::Read { stage, .. } => read_kept(stage, root),
        Stage::Ls { stage, .. } => ls_kept(stage, root),
        Stage::Find { stage, .. } => find_kept(stage, root),
        Stage::Grep { stage, .. } => grep_kept(stage, root),
        Stage::Mkdir { stage, .. } => mkdir_kept(stage, root),
        Stage::Destination { stage, .. } => destination_kept(stage, root),
        Stage::Copy { stage, .. } => copy_kept(stage, root),
        Stage::Move { stage, .. } => move_kept(stage, root),
        Stage::Remove { stage, .. } => remove_kept(stage, root),
    }
}

/// Whether a stage looks for a place where something is to be made.
pub open spec fn looks_for_a_place(stage: Stage) -> bool {
    match stage {
        Stage::Mkdir { stage, .. } => stage is Place,
        Stage::Destination { stage, .. } => stage is Place,
        _ => false,
    }
}

/// Whether the root of the workspace is known.
pub open spec fn root_known(stage: Stage) -> bool {
    !(stage is Root) && !(stage is RootKind)
}

proof fn lemma_ancestor_next(site: Site, stage: AncestorStage, reply: FsReply)
    ensures
        match ancestor_next(site, stage, reply) {
            Step::Ask(request, next) => only_looks(request) && request.answered_by()
                == next.awaits() && next.path() == stage.path(),
            Step::Done(placed) => placed.path == stage.path(),
            Step::Failed(_) => true,
        },
{
}

proof fn lemma_read_next(site: Site, max_bytes: u64, stage: ReadStage, reply: FsReply)
    requires
        read_kept(stage, site.root),
        honest(reply, site.root),
        reply.kind_of() == stage.awaits(),
    ensures
        read_next(site, max_bytes, stage, reply) matches Step::Ask(request, next) ==> keeps_to(
            request,
            site.root,
        ) && read_kept(next, site.root) && request.answered_by() == next.awaits()
            && !request.mutates(),
{
}

proof fn lemma_read_start(site: Site, reader: spec_fn(Seq<char>) -> Seq<Part>, input: Seq<char>)
    ensures
        read_start(site, reader, input) matches Step::Ask(request, next) ==> keeps_to(
            request,
            site.root,
        ) && read_kept(next, site.root) && request.answered_by() == next.awaits()
            && !request.mutates(),
{
    law_named_paths_are_inside(site, reader, input, true);
}

proof fn lemma_ls_next(
    site: Site,
    recursive: bool,
    max_entries: usize,
    stage: LsStage,
    reply: FsReply,
)
    requires
        ls_kept(stage, site.root),
        honest(reply, site.root),
        reply.kind_of() == stage.awaits(),
    ensures
        ls_next(site, recursive, max_entries, stage, reply) matches Step::Ask(request, next)
            ==> keeps_to(request, site.root) && ls_kept(next, site.root) && request.answered_by()
            == next.awaits() && !request.mutates(),
{
}

proof fn lemma_find_next(site: Site, max_results: usize, stage: FindStage, reply: FsReply)
    requires
        find_kept(stage, site.root),
        honest(reply, site.root),
        reply.kind_of() == stage.awaits(),
    ensures
        find_next(site, max_results, stage, reply) matches Step::Ask(request, next) ==> keeps_to(
            request,
            site.root,
        ) && find_kept(next, site.root) && request.answered_by() == next.awaits()
            && !request.mutates(),
{
}

proof fn lemma_search_next(state: SearchState, reply: FsReply, root: Seq<Part>)
    requires
        search_kept(state, root),
        honest(reply, root),
        reply.kind_of() == state.awaits(),
    ensures
        search_next(state, reply) matches Step::Ask(request, next) ==> keeps_to(request, root)
            && search_kept(next, root) && request.answered_by() == next.awaits()
            && !request.mutates(),
{
}

proof fn lemma_grep_next(
    site: Site,
    reader: spec_fn(Seq<char>) -> Seq<Part>,
    terms: GrepTerms,
    stage: GrepStage,
    reply: FsReply,
)
    requires
        grep_kept(stage, site.root),
        honest(reply, site.root),
        reply.kind_of() == stage.awaits(),
    ensures
        grep_next(site, reader, terms, stage, reply) matches Step::Ask(request, next) ==> keeps_to(
            request,
            site.root,
        ) && grep_kept(next, site.root) && request.answered_by() == next.awaits()
            && !request.mutates(),
{
    match stage {
        GrepStage::Kind { target } => {
            lemma_read_start(site, reader, shown(site.root, target));
        },
        GrepStage::Read { pattern, path, stage } => {
            lemma_read_next(site, terms.max_file_bytes, stage, reply);
        },
        GrepStage::Search { state } => {
            lemma_search_next(state, reply, site.root);
        },
    }
}

proof fn lemma_mkdir_start(site: Site, reader: spec_fn(Seq<char>) -> Seq<Part>, input: Seq<char>)
    ensures
        mkdir_start(site, reader, input) matches Step::Ask(request, next) ==> keeps_or_looks(
            request,
            next is Place,
            site.root,
        ) && mkdir_kept(next, site.root) && request.answered_by() == next.awaits(),
{
    law_named_paths_are_inside(site, reader, input, false);
}

proof fn lemma_mkdir_next(
    site: Site,
    input: Seq<char>,
    parents: bool,
    stage: MkdirStage,
    reply: FsReply,
)
    requires
        mkdir_kept(stage, site.root),
        honest(reply, site.root),
        reply.kind_of() == stage.awaits(),
    ensures
        mkdir_next(site, input, parents, stage, reply) matches Step::Ask(request, next)
            ==> keeps_or_looks(request, next is Place, site.root) && mkdir_kept(next, site.root)
            && request.answered_by() == next.awaits(),
{
    match stage {
        MkdirStage::Place { stage } => {
            lemma_ancestor_next(site, stage, reply);
            lemma_parent_inside(stage.path(), site.root);
        },
        _ => {},
    }
}

proof fn lemma_destination_start(
    site: Site,
    reader: spec_fn(Seq<char>) -> Seq<Part>,
    source: Seq<Part>,
    input: Seq<char>,
)
    requires
        inside(source, site.root),
    ensures
        match destination_start(site, reader, source, input) {
            Step::Ask(request, next) => {
                &&& keeps_or_looks(request, next is Place, site.root)
                &&& destination_kept(next, site.root)
                &&& request.answered_by() == next.awaits()
            },
            Step::Done(way) => way_kept(way, site.root),
            Step::Failed(_) => true,
        },
{
    law_named_paths_are_inside(site, reader, input, false);
}

proof fn lemma_destination_next(site: Site, stage: DestinationStage, reply: FsReply)
    requires
        destination_kept(stage, site.root),
        honest(reply, site.root),
        reply.kind_of() == stage.awaits(),
    ensures
        match destination_next(site, stage, reply) {
            Step::Ask(request, next) => {
                &&& keeps_or_looks(request, next is Place, site.root)
                &&& destination_kept(next, site.root)
                &&& request.answered_by() == next.awaits()
            },
            Step::Done(way) => way_kept(way, site.root),
            Step::Failed(_) => true,
        },
{
    match stage {
        DestinationStage::Place { source, nested, stage } => {
            lemma_ancestor_next(site, stage, reply);
        },
        DestinationStage::Kind { source, path } => {
            match name_of(source) {
                Some(name) => {
                    lemma_inside_push(path, site.root, name);
                },
                None => {},
            }
        },
    }
}

proof fn lemma_copy_file_start(
    site: Site,
    after: Option<CopyTask>,
    from: Seq<Part>,
    to: Seq<Part>,
)
    requires
        file_kept(after, from, to, site.root),
    ensures
        copy_file_start(site, after, from, to) matches Step::Ask(request, next) ==> keeps_to(
            request,
            site.root,
        ) && copy_kept(next, site.root) && request.answered_by() == next.awaits(),
{
    lemma_parent_inside(to, site.root);
}

proof fn lemma_copy_next(site: Site, rules: CopyRules, stage: CopyStage, reply: FsReply)
    requires
        copy_kept(stage, site.root),
        honest(reply, site.root),
        reply.kind_of() == stage.awaits(),
    ensures
        copy_next(site, rules, stage, reply) matches Step::Ask(request, next) ==> keeps_to(
            request,
            site.root,
        ) && copy_kept(next, site.root) && request.answered_by() == next.awaits(),
{
    match stage {
        CopyStage::Kind { source, destination } => {
            lemma_copy_file_start(site, None, source, destination);
        },
        CopyStage::Entry { task } => {
            match reply->Entry_0 {
                NextEntry::Found(entry) => {
                    let path = parts(entry.path@);
                    if is_under(path, task.source) {
                        lemma_inside_tail(
                            task.destination,
                            path,
                            task.source.len() as int,
                            site.root,
                        );
                    }
                },
                _ => {},
            }
        },
        CopyStage::Size { task, from, to } => {
            match reply->Status_0 {
                Ok(stat) => {
                    let bytes = size_sum(task.bytes, stat.len);
                    lemma_copy_file_start(site, Some(CopyTask { bytes, ..task }), from, to);
                },
                Err(_) => {},
            }
        },
        _ => {},
    }
}

proof fn lemma_move_next(site: Site, overwrite: bool, stage: MoveStage, reply: FsReply)
    requires
        move_kept(stage, site.root),
        honest(reply, site.root),
        reply.kind_of() == stage.awaits(),
    ensures
        move_next(site, overwrite, stage, reply) matches Step::Ask(request, next) ==> keeps_to(
            request,
            site.root,
        ) && move_kept(next, site.root) && request.answered_by() == next.awaits(),
{
    match stage {
        MoveStage::Check { source, destination } => {
            lemma_parent_inside(destination, site.root);
        },
        MoveStage::Clear { source, destination } => {
            lemma_parent_inside(destination, site.root);
        },
        _ => {},
    }
}

proof fn lemma_remove_next(
    site: Site,
    recursive: bool,
    max_entries: usize,
    stage: RemoveStage,
    reply: FsReply,
)
    requires
        remove_kept(stage, site.root),
        honest(reply, site.root),
        reply.kind_of() == stage.awaits(),
    ensures
        remove_next(site, recursive, max_entries, stage, reply) matches Step::Ask(request, next)
            ==> keeps_to(request, site.root) && remove_kept(next, site.root)
            && request.answered_by() == next.awaits(),
{
}

proof fn lemma_command_start(
    site: Site,
    reader: spec_fn(Seq<char>) -> Seq<Part>,
    command: WorkspaceCommand,
)
    ensures
        command_start(site, reader, command) matches Step::Ask(request, next) ==> keeps_or_looks(
            request,
            looks_for_a_place(next),
            site.root,
        ) && stage_kept(next, site.root) && request.answered_by() == next.awaits() && root_known(
            next,
        ),
{
    match command {
        WorkspaceCommand::Pwd => {},
        WorkspaceCommand::Ls { path, .. } => {
            law_named_paths_are_inside(site, reader, path_or_root(path), true);
        },
        WorkspaceCommand::Cat { path, .. } => {
            lemma_read_start(site, reader, path@);
        },
        WorkspaceCommand::Head { path, .. } => {
            lemma_read_start(site, reader, path@);
        },
        WorkspaceCommand::Tail { path, .. } => {
            lemma_read_start(site, reader, path@);
        },
        WorkspaceCommand::Wc { path, .. } => {
            lemma_read_start(site, reader, path@);
        },
        WorkspaceCommand::Find { path, .. } => {
            law_named_paths_are_inside(site, reader, path_or_root(path), true);
        },
        WorkspaceCommand::Grep { path, .. } => {
            law_named_paths_are_inside(site, reader, path_or_root(path), true);
        },
        WorkspaceCommand::Mkdir { path, .. } => {
            lemma_mkdir_start(site, reader, path@);
        },
        WorkspaceCommand::Cp { source, .. } => {
            law_named_paths_are_inside(site, reader, source@, true);
        },
        WorkspaceCommand::Mv { source, .. } => {
            law_named_paths_are_inside(site, reader, source@, true);
        },
        WorkspaceCommand::Rm { path, .. } => {
            law_named_paths_are_inside(site, reader, path@, true);
        },
    }
}

proof fn lemma_goal_start(
    site: Site,
    reader: spec_fn(Seq<char>) -> Seq<Part>,
    target: Seq<Part>,
    goal: Goal,
)
    requires
        inside(target, site.root),
    ensures
        goal_start(site, reader, target, goal) matches Step::Ask(request, next) ==> keeps_or_looks(
            request,
            looks_for_a_place(next),
            site.root,
        ) && stage_kept(next, site.root) && request.answered_by() == next.awaits() && root_known(
            next,
        ),
{
    match goal {
        Goal::Cp { destination, .. } => {
            lemma_destination_start(site, reader, target, destination@);
        },
        Goal::Mv { destination, .. } => {
            lemma_destination_start(site, reader, target, destination@);
        },
        _ => {},
    }
}

/// One step of a run: a command that keeps to the workspace goes on to do so, asks
/// for nothing outside of it, and waits for the kind of reply that answers what
/// it asks for.
pub proof fn law_each_step_keeps_to_the_workspace(
    reader: spec_fn(Seq<char>) -> Seq<Part>,
    state: RunState,
    reply: FsReply,
)
    requires
        stage_kept(state.stage, state.site.root),
        reply.kind_of() == state.stage.awaits(),
        honest(reply, site_next(state).root),
    ensures
        run_next(reader, state, reply) matches Step::Ask(request, next) ==> {
            &&& next.site == site_next(state)
            &&& stage_kept(next.stage, next.site.root)
            &&& request.answered_by() == next.stage.awaits()
            &&& root_known(next.stage) ==> keeps_or_looks(
                request,
                looks_for_a_place(next.stage),
                next.site.root,
            )
            &&& !(next.stage is Root)
            &&& !(state.stage is Root) ==> root_known(next.stage)
        },
{
    let site = state.site;
    match state.stage {
        Stage::Root { .. } => {},
        Stage::RootKind { canonical, command, .. } => {
            lemma_command_start(Site { root: canonical, ..site }, reader, command);
        },
        Stage::Target { input, goal } => {
            match existing_path(site, input, reply->Path_0) {
                Ok(target) => {
                    lemma_goal_start(site, reader, target, goal);
                },
                Err(_) => {},
            }
        },
        Stage::Read { max_bytes, stage, .. } => {
            lemma_read_next(site, max_bytes, stage, reply);
        },
        Stage::Ls { recursive, max_entries, stage } => {
            lemma_ls_next(site, recursive, max_entries, stage, reply);
        },
        Stage::Find { max_results, stage } => {
            lemma_find_next(site, max_results, stage, reply);
        },
        Stage::Grep { terms, stage } => {
            lemma_grep_next(site, reader, terms, stage, reply);
        },
        Stage::Mkdir { input, parents, stage } => {
            lemma_mkdir_next(site, input, parents, stage, reply);
        },
        Stage::Destination { stage, .. } => {
            lemma_destination_next(site, stage, reply);
        },
        Stage::Copy { rules, stage } => {
            lemma_copy_next(site, rules, stage, reply);
        },
        Stage::Move { overwrite, stage } => {
            lemma_move_next(site, overwrite, stage, reply);
        },
        Stage::Remove { recursive, max_entries, stage } => {
            lemma_remove_next(site, recursive, max_entries, stage, reply);
        },
    }
}

// ---------------------------------------------------------------------------
// Whole runs
// ---------------------------------------------------------------------------

/// Whether `after` follows `before`, which asked for something, on `reply`.
pub open spec fn goes_on(
    before: Step<Seq<Part>, RunState, Report, ToolFailure>,
    reply: FsReply,
    after: Step<Seq<Part>, RunState, Report, ToolFailure>,
) -> bool {
    before matches Step::Ask(request, state) && reply.kind_of() == request.answered_by() && follows(
        state,
        reply,
        after,
    )
}

/// Whether `steps` are those of a run of `command` that got `replies`, to its end
/// or to some point of it. Nothing is asked of the replies but that each is of the
/// kind that was waited for.
pub open spec fn is_course(
    command: WorkspaceCommand,
    steps: Seq<Step<Seq<Part>, RunState, Report, ToolFailure>>,
    replies: Seq<FsReply>,
) -> bool {
    &&& steps.len() == replies.len() + 1
    &&& exists|root: Seq<Part>, text: Seq<char>, separator: char|
        steps[0] == #[trigger] run_start(root, text, separator, command)
    &&& forall|i: int|
        0 <= i < replies.len() ==> goes_on(steps[i], #[trigger] replies[i], steps[i + 1])
}

/// Whether `steps` are those of a run of `command`, and the replies tell the truth
/// about paths.
pub open spec fn is_run(
    command: WorkspaceCommand,
    steps: Seq<Step<Seq<Part>, RunState, Report, ToolFailure>>,
    replies: Seq<FsReply>,
) -> bool {
    &&& is_course(command, steps, replies)
    &&& forall|i: int|
        0 <= i < replies.len() ==> honest(
            #[trigger] replies[i],
            site_next(steps[i]->Ask_1).root,
        )
}

/// In every run in which the file system tells the truth about paths: once the
/// root is known, each request keeps to the workspace, but for what looks for a
/// place where something is to be made.
pub proof fn law_every_run_keeps_to_the_workspace(
    command: WorkspaceCommand,
    steps: Seq<Step<Seq<Part>, RunState, Report, ToolFailure>>,
    replies: Seq<FsReply>,
    n: int,
)
    requires
        is_run(command, steps, replies),
        0 <= n < steps.len(),
    ensures
        steps[n] matches Step::Ask(request, state) ==> {
            &&& root_known(state.stage) ==> keeps_or_looks(
                request,
                looks_for_a_place(state.stage),
                state.site.root,
            )
            &&& n >= 1 ==> !(state.stage is Root)
            &&& n >= 2 ==> root_known(state.stage)
            &&& stage_kept(state.stage, state.site.root)
            &&& request.answered_by() == state.stage.awaits()
        },
    decreases n,
{
    if n > 0 {
        law_every_run_keeps_to_the_workspace(command, steps, replies, n - 1);
        assert(goes_on(steps[n - 1], replies[n - 1], steps[n]));
        let state = steps[n - 1]->Ask_1;
        let reply = replies[n - 1];
        let reader = choose|reader: spec_fn(Seq<char>) -> Seq<Part>|
            reads_plainly(reader) && steps[n] == #[trigger] run_next(reader, state, reply);
        law_each_step_keeps_to_the_workspace(reader, state, reply);
    }
}

/// Whether a command only reads.
pub open spec fn only_reads(command: WorkspaceCommand) -> bool {
    match command {
        WorkspaceCommand::Mkdir { .. } => false,
        WorkspaceCommand::Cp { .. } => false,
        WorkspaceCommand::Mv { .. } => false,
        WorkspaceCommand::Rm { .. } => false,
        _ => true,
    }
}

/// Whether a stage is one of a command that only reads.
pub open spec fn reading_stage(stage: Stage) -> bool {
    match stage {
        Stage::Root { command, .. } => only_reads(command),
        Stage::RootKind { command, .. } => only_reads(command),
        Stage::Target { goal, .. } => goal is Ls || goal is Find || goal is Grep,
        Stage::Read { .. } => true,
        Stage::Ls { .. } => true,
        Stage::Find { .. } => true,
        Stage::Grep { .. } => true,
        _ => false,
    }
}

/// Whether a step after `state` waits for the kind of reply that answers it, and
/// only reads if the command does.
pub open spec fn awaits_reply(
    state: RunState,
    step: Step<Seq<Part>, RunState, Report, ToolFailure>,
) -> bool {
    step matches Step::Ask(request, next) ==> {
        &&& request.answered_by() == next.stage.awaits()
        &&& reading_stage(state.stage) ==> reading_stage(next.stage) && !request.mutates()
    }
}

proof fn lemma_start_awaits(
    reader: spec_fn(Seq<char>) -> Seq<Part>,
    state: RunState,
    reply: FsReply,
)
    requires
        reply.kind_of() == state.stage.awaits(),
        state.stage is Root || state.stage is RootKind || state.stage is Target,
    ensures
        awaits_reply(state, run_next(reader, state, reply)),
{
}

proof fn lemma_read_awaits(
    reader: spec_fn(Seq<char>) -> Seq<Part>,
    state: RunState,
    reply: FsReply,
)
    requires
        reply.kind_of() == state.stage.awaits(),
        state.stage is Read || state.stage is Ls || state.stage is Find,
    ensures
        awaits_reply(state, run_next(reader, state, reply)),
{
}

proof fn lemma_grep_awaits(
    reader: spec_fn(Seq<char>) -> Seq<Part>,
    state: RunState,
    reply: FsReply,
)
    requires
        reply.kind_of() == state.stage.awaits(),
        state.stage is Grep,
    ensures
        awaits_reply(state, run_next(reader, state, reply)),
{
}

proof fn lemma_place_awaits(
    reader: spec_fn(Seq<char>) -> Seq<Part>,
    state: RunState,
    reply: FsReply,
)
    requires
        reply.kind_of() == state.stage.awaits(),
        state.stage is Mkdir || state.stage is Destination,
    ensures
        awaits_reply(state, run_next(reader, state, reply)),
{
}

proof fn lemma_change_awaits(
    reader: spec_fn(Seq<char>) -> Seq<Part>,
    state: RunState,
    reply: FsReply,
)
    requires
        reply.kind_of() == state.stage.awaits(),
        state.stage is Copy || state.stage is Move || state.stage is Remove,
    ensures
        awaits_reply(state, run_next(reader, state, reply)),
{
}

proof fn lemma_awaits(
    reader: spec_fn(Seq<char>) -> Seq<Part>,
    state: RunState,
    reply: FsReply,
)
    requires
        reply.kind_of() == state.stage.awaits(),
    ensures
        awaits_reply(state, run_next(reader, state, reply)),
{
    match state.stage {
        Stage::Root { .. } => lemma_start_awaits(reader, state, reply),
        Stage::RootKind { .. } => lemma_start_awaits(reader, state, reply),
        Stage::Target { .. } => lemma_start_awaits(reader, state, reply),
        Stage::Read { .. } => lemma_read_awaits(reader, state, reply),
        Stage::Ls { .. } => lemma_read_awaits(reader, state, reply),
        Stage::Find { .. } => lemma_read_awaits(reader, state, reply),
        Stage::Grep { .. } => lemma_grep_awaits(reader, state, reply),
        Stage::Mkdir { .. } => lemma_place_awaits(reader, state, reply),
        Stage::Destination { .. } => lemma_place_awaits(reader, state, reply),
        _ => lemma_change_awaits(reader, state, reply),
    }
}

proof fn lemma_course(
    command: WorkspaceCommand,
    steps: Seq<Step<Seq<Part>, RunState, Report, ToolFailure>>,
    replies: Seq<FsReply>,
    n: int,
)
    requires
        is_course(command, steps, replies),
        0 <= n < steps.len(),
    ensures
        steps[n] matches Step::Ask(request, state) ==> {
            &&& request.answered_by() == state.stage.awaits()
            &&& only_reads(command) ==> !request.mutates() && reading_stage(state.stage)
        },
    decreases n,
{
    if n > 0 {
        lemma_course(command, steps, replies, n - 1);
        assert(goes_on(steps[n - 1], replies[n - 1], steps[n]));
        let state = steps[n - 1]->Ask_1;
        let reply = replies[n - 1];
        let reader = choose|reader: spec_fn(Seq<char>) -> Seq<Part>|
            reads_plainly(reader) && steps[n] == #[trigger] run_next(reader, state, reply);
        lemma_awaits(reader, state, reply);
    }
}

/// In every run, whatever the replies, each request is made where the kind of reply
/// that answers it is waited for.
pub proof fn law_each_request_awaits_its_reply(
    command: WorkspaceCommand,
    steps: Seq<Step<Seq<Part>, RunState, Report, ToolFailure>>,
    replies: Seq<FsReply>,
    n: int,
)
    requires
        is_course(command, steps, replies),
        0 <= n < steps.len(),
    ensures
        steps[n] matches Step::Ask(request, state) ==> request.answered_by()
            == state.stage.awaits(),
{
    lemma_course(command, steps, replies, n);
}

/// In every run of a command that only reads, whatever the replies, no request
/// changes what is on disk.
pub proof fn law_reading_changes_nothing(
    command: WorkspaceCommand,
    steps: Seq<Step<Seq<Part>, RunState, Report, ToolFailure>>,
    replies: Seq<FsReply>,
    n: int,
)
    requires
        is_course(command, steps, replies),
        only_reads(command),
        0 <= n < steps.len(),
    ensures
        steps[n] matches Step::Ask(request, _) ==> !request.mutates(),
{
    lemma_course(command, steps, replies, n);
}

} // verus!
