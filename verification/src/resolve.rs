//! Finding the paths that callers name, inside the workspace only.

use vstd::pervasive::unreached;
use vstd::prelude::*;

use crate::errors::{ToolFailure, ToolboxError};
use crate::fs::{FsError, FsReply, FsRequest, ReplyKind, Step};
use crate::paths::{
    copy_first, copy_path_parts, full_path_text, full_text, is_prefix, is_root_dir, is_start,
    is_under, join_names, join_tail, joined, lies_under, names_or_failure,
    normalize_relative_path, parent, parent_of, parts, reads_plainly, starts_anew,
    workspace_names, Part, PathPart,
};

verus! {

/// The workspace that a command works in: its root, every link in it resolved,
/// and the character that the platform puts between the names of a path.
#[derive(Debug)]
pub struct Workspace {
    pub root: Vec<PathPart>,
    pub separator: char,
}

/// A [`Workspace`] with its root as a sequence.
pub struct Site {
    pub root: Seq<Part>,
    pub separator: char,
}

impl View for Workspace {
    type V = Site;

    open spec fn view(&self) -> Site {
        Site { root: parts(self.root@), separator: self.separator }
    }
}

/// The error for a request that the file system refused.
pub fn io_error(error: FsError) -> (r: ToolboxError)
    ensures
        r@ == ToolFailure::Io(error.message@),
{
    ToolboxError::Io(error.message)
}

// ---------------------------------------------------------------------------
// Paths that must exist
// ---------------------------------------------------------------------------

/// The path that `input` names in the workspace.
pub open spec fn named_path(
    site: Site,
    reader: spec_fn(Seq<char>) -> Seq<Part>,
    input: Seq<char>,
    allow_root: bool,
) -> Result<Seq<Part>, ToolFailure> {
    match workspace_names(reader, input, allow_root) {
        Ok(names) => Ok(joined(site.root, names)),
        Err(e) => Err(e),
    }
}

/// The path that `r` holds.
pub open spec fn path_or_failure(r: Result<Vec<PathPart>, ToolboxError>) -> Result<
    Seq<Part>,
    ToolFailure,
> {
    match r {
        Ok(path) => Ok(parts(path@)),
        Err(e) => Err(e@),
    }
}

/// The path that `input` names in the workspace.
pub fn candidate_path(ws: &Workspace, input: &str, allow_root: bool) -> (r: Result<
    Vec<PathPart>,
    ToolboxError,
>)
    ensures
        exists|reader: spec_fn(Seq<char>) -> Seq<Part>|
            reads_plainly(reader) && path_or_failure(r) == #[trigger] named_path(
                ws@,
                reader,
                input@,
                allow_root,
            ),
{
    let names = normalize_relative_path(input, allow_root);
    let ghost reader = choose|reader: spec_fn(Seq<char>) -> Seq<Part>|
        reads_plainly(reader) && names_or_failure(names) == #[trigger] workspace_names(
            reader,
            input@,
            allow_root,
        );
    let r = match names {
        Ok(names) => Ok(join_names(&ws.root, &names)),
        Err(e) => Err(e),
    };
    assert(path_or_failure(r) == named_path(ws@, reader, input@, allow_root));
    r
}

/// What a path that must exist, named as `input`, leads to, once the file
/// system has told where it is.
pub open spec fn existing_path(
    site: Site,
    input: Seq<char>,
    told: Result<Vec<PathPart>, FsError>,
) -> Result<Seq<Part>, ToolFailure> {
    match told {
        Ok(path) => if is_under(parts(path@), site.root) {
            Ok(parts(path@))
        } else {
            Err(ToolFailure::PathEscapesWorkspace(input))
        },
        Err(error) => if error.not_found {
            Err(ToolFailure::NotFound(input))
        } else {
            Err(ToolFailure::Io(error.message@))
        },
    }
}

/// What a path that must exist leads to, once the file system has told where it
/// is: nowhere outside the workspace.
pub fn resolve_existing_path(
    ws: &Workspace,
    input: &str,
    told: Result<Vec<PathPart>, FsError>,
) -> (r: Result<Vec<PathPart>, ToolboxError>)
    ensures
        path_or_failure(r) == existing_path(ws@, input@, told),
{
    match told {
        Ok(path) => if lies_under(&path, &ws.root) {
            Ok(path)
        } else {
            Err(ToolboxError::PathEscapesWorkspace(input.to_owned()))
        },
        Err(error) => if error.not_found {
            Err(ToolboxError::NotFound(input.to_owned()))
        } else {
            Err(io_error(error))
        },
    }
}

// ---------------------------------------------------------------------------
// Where links lead
// ---------------------------------------------------------------------------

/// Where a link at `at` leads that says `target`: from the directory that holds
/// it, unless what it says starts anew. A prefix stays where it names none.
pub open spec fn link_target(at: Seq<Part>, target: Seq<Part>) -> Seq<Part> {
    if starts_anew(target) {
        if target[0] is RootDir && at.len() > 0 && at[0] is Prefix {
            seq![at[0]] + target
        } else {
            target
        }
    } else {
        match parent_of(at) {
            Some(above) => above + target,
            None => at + target,
        }
    }
}

/// Where a link at `at` leads that says `target`.
pub fn follow_link(at: &Vec<PathPart>, target: &Vec<PathPart>) -> (r: Vec<PathPart>)
    ensures
        parts(r@) == link_target(parts(at@), parts(target@)),
{
    assert(parts(target@).skip(0) =~= parts(target@));
    assert(target@.len() > 0 ==> parts(target@)[0] == target@[0]@);
    assert(at@.len() > 0 ==> parts(at@)[0] == at@[0]@);
    if target.len() > 0 && is_start(&target[0]) {
        if is_root_dir(&target[0]) && at.len() > 0 && is_prefix(&at[0]) {
            let prefix = copy_first(at, 1);
            assert(parts(prefix@) =~= seq![parts(at@)[0]]);
            join_tail(&prefix, target, 0)
        } else {
            copy_path_parts(target)
        }
    } else {
        match parent(at) {
            Some(above) => join_tail(&above, target, 0),
            None => join_tail(at, target, 0),
        }
    }
}

/// Where `rest` leads from `base`, by its names and steps alone. No step leads
/// above a root.
pub open spec fn settled(base: Seq<Part>, rest: Seq<Part>) -> Seq<Part>
    decreases rest.len(),
{
    if rest.len() == 0 {
        base
    } else {
        let before = settled(base, rest.drop_last());
        match rest.last() {
            Part::Normal(name) => before.push(Part::Normal(name)),
            Part::ParentDir => match parent_of(before) {
                Some(above) => above,
                None => before,
            },
            _ => before,
        }
    }
}

/// Where `rest` leads from `base`, by its names and steps alone.
pub fn settle(base: &Vec<PathPart>, rest: &Vec<PathPart>) -> (r: Vec<PathPart>)
    ensures
        parts(r@) == settled(parts(base@), parts(rest@)),
{
    let mut r = copy_path_parts(base);
    let ghost all = parts(rest@);
    let mut i: usize = 0;
    assert(all.take(0) =~= seq![]);
    while i < rest.len()
        invariant
            0 <= i <= rest@.len(),
            all == parts(rest@),
            parts(r@) == settled(parts(base@), all.take(i as int)),
        decreases rest@.len() - i,
    {
        let ghost now = all.take(i as int + 1);
        let ghost before = parts(r@);
        assert(now.drop_last() =~= all.take(i as int));
        assert(now.last() == rest@[i as int]@);
        match &rest[i] {
            PathPart::Normal(name) => {
                r.push(PathPart::Normal(name.copy()));
                assert(parts(r@) =~= before.push(Part::Normal(name@)));
            },
            PathPart::ParentDir => {
                match parent(&r) {
                    Some(above) => {
                        r = above;
                    },
                    None => {},
                }
            },
            _ => {},
        }
        i = i + 1;
    }
    assert(all.take(i as int) =~= all);
    r
}

/// Whether `rest` leads to somewhere in the workspace from `there`, which exists.
pub open spec fn settles_inside(there: Seq<Part>, rest: Seq<Part>, root: Seq<Part>) -> bool {
    is_under(there, root) && is_under(settled(there, rest), root)
}

// ---------------------------------------------------------------------------
// Paths that need not exist
// ---------------------------------------------------------------------------

/// The search for what exists of a path: the path or the nearest directory
/// above it must lie in the workspace. Where a link stands on the way that leads
/// to what does not exist, what is made through it comes to be where it leads, so
/// the search goes on there.
#[derive(Debug)]
#[allow(inconsistent_fields)]
pub enum AncestorPhase {
    /// Asked whether `current` exists. `path` leads to `rest` below it.
    Climb { path: Vec<PathPart>, current: Vec<PathPart>, rest: Vec<PathPart> },
    /// Asked what the link at `current` says, which does not exist.
    Link { path: Vec<PathPart>, current: Vec<PathPart>, rest: Vec<PathPart> },
    /// Asked where that is, below which `rest` does not exist.
    Anchor { path: Vec<PathPart>, rest: Vec<PathPart> },
}

/// An [`AncestorPhase`] over sequences.
#[allow(inconsistent_fields)]
pub enum AncestorStage {
    Climb { path: Seq<Part>, current: Seq<Part>, rest: Seq<Part> },
    Link { path: Seq<Part>, current: Seq<Part>, rest: Seq<Part> },
    Anchor { path: Seq<Part>, rest: Seq<Part> },
}

impl View for AncestorPhase {
    type V = AncestorStage;

    open spec fn view(&self) -> AncestorStage {
        match *self {
            AncestorPhase::Climb { path, current, rest } => AncestorStage::Climb {
                path: parts(path@),
                current: parts(current@),
                rest: parts(rest@),
            },
            AncestorPhase::Link { path, current, rest } => AncestorStage::Link {
                path: parts(path@),
                current: parts(current@),
                rest: parts(rest@),
            },
            AncestorPhase::Anchor { path, rest } => AncestorStage::Anchor {
                path: parts(path@),
                rest: parts(rest@),
            },
        }
    }
}

impl AncestorStage {
    /// The kind of reply that the search waits for.
    pub open spec fn awaits(self) -> ReplyKind {
        match self {
            AncestorStage::Climb { .. } => ReplyKind::Status,
            AncestorStage::Link { .. } => ReplyKind::Link,
            AncestorStage::Anchor { .. } => ReplyKind::Path,
        }
    }

    /// The path that the search is for.
    pub open spec fn path(self) -> Seq<Part> {
        match self {
            AncestorStage::Climb { path, .. } => path,
            AncestorStage::Link { path, .. } => path,
            AncestorStage::Anchor { path, .. } => path,
        }
    }
}

impl AncestorPhase {
    /// The kind of reply that is waited for.
    pub fn awaits(&self) -> (r: ReplyKind)
        ensures
            r == self@.awaits(),
    {
        match self {
            AncestorPhase::Climb { .. } => ReplyKind::Status,
            AncestorPhase::Link { .. } => ReplyKind::Link,
            AncestorPhase::Anchor { .. } => ReplyKind::Path,
        }
    }
}

/// A path that was found to be in the workspace.
#[derive(Debug)]
pub struct Placed {
    pub path: Vec<PathPart>,
}

/// A [`Placed`] path as a sequence.
pub struct PlacedPath {
    pub path: Seq<Part>,
}

impl View for Placed {
    type V = PlacedPath;

    open spec fn view(&self) -> PlacedPath {
        PlacedPath { path: parts(self.path@) }
    }
}

/// Looks at `current`, below which `path` leads to `rest`.
pub open spec fn ancestor_at(path: Seq<Part>, current: Seq<Part>, rest: Seq<Part>) -> Step<
    Seq<Part>,
    AncestorStage,
    PlacedPath,
    ToolFailure,
> {
    Step::Ask(FsRequest::Stat(current), AncestorStage::Climb { path, current, rest })
}

/// Starts the search for what exists of `path`.
pub open spec fn ancestor_start(path: Seq<Part>) -> Step<
    Seq<Part>,
    AncestorStage,
    PlacedPath,
    ToolFailure,
> {
    ancestor_at(path, path, seq![])
}

/// Goes on above `current`, where nothing is.
pub open spec fn ancestor_above(
    site: Site,
    path: Seq<Part>,
    current: Seq<Part>,
    rest: Seq<Part>,
) -> Step<Seq<Part>, AncestorStage, PlacedPath, ToolFailure> {
    match parent_of(current) {
        Some(above) => ancestor_at(path, above, seq![current.last()] + rest),
        None => Step::Failed(ToolFailure::PathEscapesWorkspace(full_text(path, site.separator))),
    }
}

/// Goes on with the search for what exists of a path. Where a link leads to what
/// does not exist, the search goes on where it leads; a file system that finds
/// nothing there came to the last of such links itself. What it cannot tell of for
/// another reason, such as links that lead in a circle, cannot be made either.
pub open spec fn ancestor_next(site: Site, stage: AncestorStage, reply: FsReply) -> Step<
    Seq<Part>,
    AncestorStage,
    PlacedPath,
    ToolFailure,
> {
    match stage {
        AncestorStage::Climb { path, current, rest } => match reply->Status_0 {
            Ok(_) => Step::Ask(
                FsRequest::Canonicalize(current),
                AncestorStage::Anchor { path, rest },
            ),
            Err(error) => if error.not_found {
                Step::Ask(
                    FsRequest::ReadLink(current),
                    AncestorStage::Link { path, current, rest },
                )
            } else {
                ancestor_above(site, path, current, rest)
            },
        },
        AncestorStage::Link { path, current, rest } => match reply->Link_0 {
            Ok(target) => ancestor_at(
                path,
                link_target(current, parts(target@)) + rest,
                seq![],
            ),
            Err(_) => ancestor_above(site, path, current, rest),
        },
        AncestorStage::Anchor { path, rest } => match reply->Path_0 {
            Ok(there) => if settles_inside(parts(there@), rest, site.root) {
                Step::Done(PlacedPath { path })
            } else {
                Step::Failed(ToolFailure::PathEscapesWorkspace(full_text(path, site.separator)))
            },
            Err(error) => Step::Failed(ToolFailure::Io(error.message@)),
        },
    }
}

fn look_at(path: Vec<PathPart>, current: Vec<PathPart>, rest: Vec<PathPart>) -> (r: Step<
    Vec<PathPart>,
    AncestorPhase,
    Placed,
    ToolboxError,
>)
    ensures
        r@ == ancestor_at(parts(path@), parts(current@), parts(rest@)),
{
    let asked = copy_path_parts(&current);
    Step::Ask(FsRequest::Stat(asked), AncestorPhase::Climb { path, current, rest })
}

fn look_above(
    ws: &Workspace,
    path: Vec<PathPart>,
    current: Vec<PathPart>,
    rest: Vec<PathPart>,
) -> (r: Step<Vec<PathPart>, AncestorPhase, Placed, ToolboxError>)
    ensures
        r@ == ancestor_above(ws@, parts(path@), parts(current@), parts(rest@)),
{
    match parent(&current) {
        Some(above) => {
            let last: Vec<PathPart> = vec![current[current.len() - 1].copy()];
            assert(parts(last@) =~= seq![parts(current@).last()]);
            assert(parts(rest@).skip(0) =~= parts(rest@));
            let more = join_tail(&last, &rest, 0);
            look_at(path, above, more)
        },
        None => Step::Failed(
            ToolboxError::PathEscapesWorkspace(full_path_text(&path, ws.separator)),
        ),
    }
}

/// Starts the search for what exists of `path`, which must lie in the workspace.
pub fn ensure_existing_ancestor_within_root(path: Vec<PathPart>) -> (r: Step<
    Vec<PathPart>,
    AncestorPhase,
    Placed,
    ToolboxError,
>)
    ensures
        r@ == ancestor_start(parts(path@)),
{
    let current = copy_path_parts(&path);
    let rest: Vec<PathPart> = Vec::new();
    assert(parts(rest@) =~= seq![]);
    look_at(path, current, rest)
}

/// Goes on with the search for what exists of a path.
pub fn resume_ancestor(ws: &Workspace, phase: AncestorPhase, reply: FsReply) -> (r: Step<
    Vec<PathPart>,
    AncestorPhase,
    Placed,
    ToolboxError,
>)
    requires
        reply.kind_of() == phase@.awaits(),
    ensures
        r@ == ancestor_next(ws@, phase@, reply),
{
    match phase {
        AncestorPhase::Climb { path, current, rest } => match reply {
            FsReply::Status(Ok(_)) => Step::Ask(
                FsRequest::Canonicalize(current),
                AncestorPhase::Anchor { path, rest },
            ),
            FsReply::Status(Err(error)) => if error.not_found {
                let asked = copy_path_parts(&current);
                Step::Ask(FsRequest::ReadLink(asked), AncestorPhase::Link { path, current, rest })
            } else {
                look_above(ws, path, current, rest)
            },
            _ => unreached(),
        },
        AncestorPhase::Link { path, current, rest } => match reply {
            FsReply::Link(Ok(target)) => {
                let there = follow_link(&current, &target);
                assert(parts(rest@).skip(0) =~= parts(rest@));
                let aim = join_tail(&there, &rest, 0);
                let none: Vec<PathPart> = Vec::new();
                assert(parts(none@) =~= seq![]);
                look_at(path, aim, none)
            },
            FsReply::Link(Err(_)) => look_above(ws, path, current, rest),
            _ => unreached(),
        },
        AncestorPhase::Anchor { path, rest } => match reply {
            FsReply::Path(Ok(there)) => if lies_under(&there, &ws.root) && lies_under(
                &settle(&there, &rest),
                &ws.root,
            ) {
                Step::Done(Placed { path })
            } else {
                Step::Failed(
                    ToolboxError::PathEscapesWorkspace(full_path_text(&path, ws.separator)),
                )
            },
            FsReply::Path(Err(error)) => Step::Failed(io_error(error)),
            _ => unreached(),
        },
    }
}

} // verus!
