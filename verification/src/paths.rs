//! Paths as sequences of parts, and the rules that keep a path that a caller
//! names inside the workspace.

use std::path::{Component, Path};

use vstd::prelude::*;
use vstd::string::*;
use vstd::utf8::*;

use crate::errors::{ToolFailure, ToolboxError};
use crate::text::{trim, trimmed};

verus! {

/// The name of a file or a directory: the bytes that the platform holds, and
/// the text to show for them.
#[derive(Debug, PartialEq, Eq)]
pub struct Name {
    pub raw: Vec<u8>,
    pub text: String,
}

/// One part of a path.
#[derive(Debug, PartialEq, Eq)]
pub enum PathPart {
    /// What stands before the root on some platforms, such as a drive.
    Prefix(Name),
    /// The root directory.
    RootDir,
    /// The current directory, `.`.
    CurDir,
    /// The parent directory, `..`.
    ParentDir,
    /// A file or a directory.
    Normal(Name),
}

/// A [`Name`] as sequences.
pub struct PathName {
    pub raw: Seq<u8>,
    pub text: Seq<char>,
}

/// A [`PathPart`] with its name as sequences.
pub enum Part {
    Prefix(PathName),
    RootDir,
    CurDir,
    ParentDir,
    Normal(PathName),
}

impl View for Name {
    type V = PathName;

    open spec fn view(&self) -> PathName {
        PathName { raw: self.raw@, text: self.text@ }
    }
}

impl View for PathPart {
    type V = Part;

    open spec fn view(&self) -> Part {
        match *self {
            PathPart::Prefix(name) => Part::Prefix(name@),
            PathPart::RootDir => Part::RootDir,
            PathPart::CurDir => Part::CurDir,
            PathPart::ParentDir => Part::ParentDir,
            PathPart::Normal(name) => Part::Normal(name@),
        }
    }
}

/// The path that `path` holds.
pub open spec fn parts(path: Seq<PathPart>) -> Seq<Part> {
    path.map_values(|p: PathPart| p@)
}

/// The names that `names` holds.
pub open spec fn path_names(names: Seq<Name>) -> Seq<PathName> {
    names.map_values(|n: Name| n@)
}

/// The name that a text gives.
pub open spec fn text_name(text: Seq<char>) -> PathName {
    PathName { raw: encode_utf8(text), text }
}

impl Name {
    /// A copy of the name.
    pub fn copy(&self) -> (r: Name)
        ensures
            r@ == self@,
    {
        Name { raw: copy_bytes(&self.raw), text: self.text.clone() }
    }
}

fn copy_bytes(bytes: &Vec<u8>) -> (r: Vec<u8>)
    ensures
        r@ == bytes@,
{
    let r = bytes.clone();
    assert(r@ =~= bytes@);
    r
}

impl PathPart {
    /// A copy of the part.
    pub fn copy(&self) -> (r: PathPart)
        ensures
            r@ == self@,
    {
        match self {
            PathPart::Prefix(name) => PathPart::Prefix(name.copy()),
            PathPart::RootDir => PathPart::RootDir,
            PathPart::CurDir => PathPart::CurDir,
            PathPart::ParentDir => PathPart::ParentDir,
            PathPart::Normal(name) => PathPart::Normal(name.copy()),
        }
    }
}

/// A copy of the first `n` parts of `path`.
pub fn copy_first(path: &Vec<PathPart>, n: usize) -> (r: Vec<PathPart>)
    requires
        n <= path@.len(),
    ensures
        parts(r@) == parts(path@).take(n as int),
{
    let mut r: Vec<PathPart> = Vec::new();
    let mut i: usize = 0;
    assert(parts(r@) =~= parts(path@).take(0));
    while i < n
        invariant
            0 <= i <= n <= path@.len(),
            parts(r@) == parts(path@).take(i as int),
        decreases n - i,
    {
        let ghost before = parts(r@);
        r.push(path[i].copy());
        assert(parts(r@) =~= before.push(path@[i as int]@));
        assert(parts(path@).take(i as int + 1) =~= parts(path@).take(i as int).push(
            path@[i as int]@,
        ));
        i = i + 1;
    }
    r
}

/// A copy of `path`.
pub fn copy_path_parts(path: &Vec<PathPart>) -> (r: Vec<PathPart>)
    ensures
        parts(r@) == parts(path@),
{
    let r = copy_first(path, path.len());
    assert(parts(path@).take(path@.len() as int) =~= parts(path@));
    r
}

// ---------------------------------------------------------------------------
// Comparing
// ---------------------------------------------------------------------------

/// Whether two parts name the same thing: names are compared by their bytes.
pub open spec fn same_part(a: Part, b: Part) -> bool {
    match (a, b) {
        (Part::Prefix(x), Part::Prefix(y)) => x.raw == y.raw,
        (Part::RootDir, Part::RootDir) => true,
        (Part::CurDir, Part::CurDir) => true,
        (Part::ParentDir, Part::ParentDir) => true,
        (Part::Normal(x), Part::Normal(y)) => x.raw == y.raw,
        _ => false,
    }
}

/// Whether `path` starts with all the parts of `base`.
pub open spec fn is_under(path: Seq<Part>, base: Seq<Part>) -> bool {
    &&& base.len() <= path.len()
    &&& forall|i: int| 0 <= i < base.len() ==> same_part(#[trigger] path[i], base[i])
}

fn same_bytes(a: &Vec<u8>, b: &Vec<u8>) -> (r: bool)
    ensures
        r == (a@ == b@),
{
    if a.len() != b.len() {
        return false;
    }
    let mut i: usize = 0;
    while i < a.len()
        invariant
            0 <= i <= a@.len() == b@.len(),
            forall|k: int| 0 <= k < i ==> a@[k] == b@[k],
        decreases a@.len() - i,
    {
        if a[i] != b[i] {
            return false;
        }
        i = i + 1;
    }
    assert(a@ =~= b@);
    true
}

fn same_part_as(a: &PathPart, b: &PathPart) -> (r: bool)
    ensures
        r == same_part(a@, b@),
{
    match (a, b) {
        (PathPart::Prefix(x), PathPart::Prefix(y)) => same_bytes(&x.raw, &y.raw),
        (PathPart::RootDir, PathPart::RootDir) => true,
        (PathPart::CurDir, PathPart::CurDir) => true,
        (PathPart::ParentDir, PathPart::ParentDir) => true,
        (PathPart::Normal(x), PathPart::Normal(y)) => same_bytes(&x.raw, &y.raw),
        _ => false,
    }
}

/// Whether `path` starts with all the parts of `base`.
pub fn lies_under(path: &Vec<PathPart>, base: &Vec<PathPart>) -> (r: bool)
    ensures
        r == is_under(parts(path@), parts(base@)),
{
    if base.len() > path.len() {
        return false;
    }
    let mut i: usize = 0;
    while i < base.len()
        invariant
            0 <= i <= base@.len() <= path@.len(),
            forall|k: int|
                0 <= k < i ==> same_part(#[trigger] parts(path@)[k], parts(base@)[k]),
        decreases base@.len() - i,
    {
        if !same_part_as(&path[i], &base[i]) {
            assert(!same_part(parts(path@)[i as int], parts(base@)[i as int]));
            return false;
        }
        i = i + 1;
    }
    true
}

// ---------------------------------------------------------------------------
// Taking apart and putting together
// ---------------------------------------------------------------------------

/// `base` with `names` below it.
pub open spec fn joined(base: Seq<Part>, names: Seq<PathName>) -> Seq<Part> {
    base + names.map_values(|n: PathName| Part::Normal(n))
}

/// `base` with `names` below it.
pub fn join_names(base: &Vec<PathPart>, names: &Vec<Name>) -> (r: Vec<PathPart>)
    ensures
        parts(r@) == joined(parts(base@), path_names(names@)),
{
    let mut r = copy_path_parts(base);
    let ghost all = path_names(names@);
    let ghost start = parts(base@);
    let mut i: usize = 0;
    assert(joined(start, all.take(0)) =~= start);
    while i < names.len()
        invariant
            0 <= i <= names@.len(),
            all == path_names(names@),
            parts(r@) == joined(start, all.take(i as int)),
        decreases names@.len() - i,
    {
        let ghost before = parts(r@);
        r.push(PathPart::Normal(names[i].copy()));
        assert(parts(r@) =~= before.push(Part::Normal(all[i as int])));
        assert(joined(start, all.take(i as int + 1)) =~= joined(start, all.take(i as int)).push(
            Part::Normal(all[i as int]),
        ));
        i = i + 1;
    }
    assert(all.take(i as int) =~= all);
    r
}

/// The path that holds the last part of `path`: none for a root, a prefix and
/// the empty path.
pub open spec fn parent_of(path: Seq<Part>) -> Option<Seq<Part>> {
    if path.len() == 0 {
        None
    } else {
        match path.last() {
            Part::Prefix(_) => None,
            Part::RootDir => None,
            _ => Some(path.drop_last()),
        }
    }
}

/// The path that holds the last part of `path`.
pub fn parent(path: &Vec<PathPart>) -> (r: Option<Vec<PathPart>>)
    ensures
        match parent_of(parts(path@)) {
            None => r is None,
            Some(p) => r is Some && parts(r->0@) == p,
        },
{
    if path.len() == 0 {
        return None;
    }
    let n: usize = path.len() - 1;
    assert(parts(path@).last() == path@[n as int]@);
    assert(parts(path@).drop_last() =~= parts(path@).take(n as int));
    match &path[n] {
        PathPart::Prefix(_) => None,
        PathPart::RootDir => None,
        _ => Some(copy_first(path, n)),
    }
}

/// The name of what `path` leads to, where it ends in one.
pub open spec fn name_of(path: Seq<Part>) -> Option<PathName> {
    if path.len() == 0 {
        None
    } else {
        match path.last() {
            Part::Normal(name) => Some(name),
            _ => None,
        }
    }
}

/// The name of what `path` leads to.
pub fn file_name(path: &Vec<PathPart>) -> (r: Option<Name>)
    ensures
        match name_of(parts(path@)) {
            None => r is None,
            Some(name) => r is Some && r->0@ == name,
        },
{
    if path.len() == 0 {
        return None;
    }
    let n: usize = path.len() - 1;
    assert(parts(path@).last() == path@[n as int]@);
    match &path[n] {
        PathPart::Normal(name) => Some(name.copy()),
        _ => None,
    }
}

/// `base` followed by what `path` holds behind its first `skip` parts.
pub fn join_tail(base: &Vec<PathPart>, path: &Vec<PathPart>, skip: usize) -> (r: Vec<PathPart>)
    requires
        skip <= path@.len(),
    ensures
        parts(r@) == parts(base@) + parts(path@).skip(skip as int),
{
    let mut r = copy_path_parts(base);
    let ghost all = parts(path@);
    let ghost start = parts(base@);
    let mut i: usize = skip;
    assert(start + all.subrange(skip as int, skip as int) =~= start);
    while i < path.len()
        invariant
            skip <= i <= path@.len(),
            all == parts(path@),
            parts(r@) == start + all.subrange(skip as int, i as int),
        decreases path@.len() - i,
    {
        let ghost before = parts(r@);
        r.push(path[i].copy());
        assert(parts(r@) =~= before.push(all[i as int]));
        assert(all.subrange(skip as int, i as int + 1) =~= all.subrange(
            skip as int,
            i as int,
        ).push(all[i as int]));
        assert(start + all.subrange(skip as int, i as int + 1) =~= (start + all.subrange(
            skip as int,
            i as int,
        )).push(all[i as int]));
        i = i + 1;
    }
    assert(all.subrange(skip as int, i as int) =~= all.skip(skip as int));
    r
}

// ---------------------------------------------------------------------------
// Showing
// ---------------------------------------------------------------------------

/// The texts of the names in `path`; other parts are left out.
pub open spec fn name_texts(path: Seq<Part>) -> Seq<Seq<char>>
    decreases path.len(),
{
    if path.len() == 0 {
        seq![]
    } else {
        match path.last() {
            Part::Normal(name) => name_texts(path.drop_last()).push(name.text),
            _ => name_texts(path.drop_last()),
        }
    }
}

/// `names` with a slash between each two.
pub open spec fn slashed(names: Seq<Seq<char>>) -> Seq<char>
    decreases names.len(),
{
    if names.len() == 0 {
        seq![]
    } else if names.len() == 1 {
        names[0]
    } else {
        slashed(names.drop_last()).push('/') + names.last()
    }
}

/// What `path` holds below `root`, or `path` itself where it is not under it.
pub open spec fn relative_to(root: Seq<Part>, path: Seq<Part>) -> Seq<Part> {
    if is_under(path, root) {
        path.skip(root.len() as int)
    } else {
        path
    }
}

/// How `path` is shown to the caller: relative to the workspace root, with
/// slashes, and `.` for the root itself.
pub open spec fn shown(root: Seq<Part>, path: Seq<Part>) -> Seq<char> {
    let names = name_texts(relative_to(root, path));
    if names.len() == 0 {
        "."@
    } else {
        slashed(names)
    }
}

/// How `path` is shown to the caller.
pub fn path_to_display(root: &Vec<PathPart>, path: &Vec<PathPart>) -> (r: String)
    ensures
        r@ == shown(parts(root@), parts(path@)),
{
    let from: usize = if lies_under(path, root) {
        root.len()
    } else {
        0
    };
    let ghost rel = relative_to(parts(root@), parts(path@));
    assert(rel =~= parts(path@).skip(from as int));
    let mut r = String::new();
    let mut empty = true;
    let mut i: usize = from;
    assert(rel.take(0) =~= seq![]);
    while i < path.len()
        invariant
            from <= i <= path@.len(),
            rel == parts(path@).skip(from as int),
            r@ == slashed(name_texts(rel.take(i - from))),
            empty == (name_texts(rel.take(i - from)).len() == 0),
        decreases path@.len() - i,
    {
        assert(rel.take(i - from + 1).drop_last() =~= rel.take(i - from));
        assert(rel.take(i - from + 1).last() == path@[i as int]@);
        let ghost names = name_texts(rel.take(i - from));
        match &path[i] {
            PathPart::Normal(name) => {
                assert(names.push(name.text@).drop_last() =~= names);
                if !empty {
                    r.push('/');
                }
                let ghost before = r@;
                r.append(name.text.as_str());
                assert(names.len() == 0 ==> before + name.text@ =~= name.text@);
                empty = false;
            },
            _ => {},
        }
        i = i + 1;
    }
    assert(rel.take(rel.len() as int) =~= rel);
    if empty {
        ".".to_owned()
    } else {
        r
    }
}

/// The text of one part of a path.
pub open spec fn part_text(part: Part, separator: char) -> Seq<char> {
    match part {
        Part::Prefix(name) => name.text,
        Part::RootDir => seq![separator],
        Part::CurDir => "."@,
        Part::ParentDir => ".."@,
        Part::Normal(name) => name.text,
    }
}

/// Whether `next` is written behind `last` without a separator.
pub open spec fn adjoins(last: Part, next: Part) -> bool {
    last is Prefix || last is RootDir || next is RootDir
}

/// The whole of `path`, with the platform's separator between its parts.
pub open spec fn full_text(path: Seq<Part>, separator: char) -> Seq<char>
    decreases path.len(),
{
    if path.len() == 0 {
        seq![]
    } else if path.len() == 1 {
        part_text(path[0], separator)
    } else {
        let before = full_text(path.drop_last(), separator);
        if adjoins(path.drop_last().last(), path.last()) {
            before + part_text(path.last(), separator)
        } else {
            before.push(separator) + part_text(path.last(), separator)
        }
    }
}

fn append_part(r: &mut String, part: &PathPart, separator: char)
    ensures
        final(r)@ == old(r)@ + part_text(part@, separator),
{
    match part {
        PathPart::Prefix(name) => r.append(name.text.as_str()),
        PathPart::RootDir => {
            r.push(separator);
            assert(r@ =~= old(r)@ + seq![separator]);
        },
        PathPart::CurDir => r.append("."),
        PathPart::ParentDir => r.append(".."),
        PathPart::Normal(name) => r.append(name.text.as_str()),
    }
}

/// Whether a path starts anew at `part`.
pub(crate) fn is_start(part: &PathPart) -> (r: bool)
    ensures
        r == (part@ is Prefix || part@ is RootDir),
{
    match part {
        PathPart::Prefix(_) => true,
        PathPart::RootDir => true,
        _ => false,
    }
}

/// Whether `part` is the root directory.
pub(crate) fn is_root_dir(part: &PathPart) -> (r: bool)
    ensures
        r == (part@ is RootDir),
{
    match part {
        PathPart::RootDir => true,
        _ => false,
    }
}

/// Whether `part` is a prefix.
pub(crate) fn is_prefix(part: &PathPart) -> (r: bool)
    ensures
        r == (part@ is Prefix),
{
    match part {
        PathPart::Prefix(_) => true,
        _ => false,
    }
}

/// The whole of `path`, with `separator` between its parts.
pub fn full_path_text(path: &Vec<PathPart>, separator: char) -> (r: String)
    ensures
        r@ == full_text(parts(path@), separator),
{
    let mut r = String::new();
    let ghost all = parts(path@);
    let mut i: usize = 0;
    assert(all.take(0) =~= seq![]);
    while i < path.len()
        invariant
            0 <= i <= path@.len(),
            all == parts(path@),
            r@ == full_text(all.take(i as int), separator),
        decreases path@.len() - i,
    {
        let ghost now = all.take(i as int + 1);
        assert(now.drop_last() =~= all.take(i as int));
        assert(now.last() == path@[i as int]@);
        if i > 0 {
            assert(now.drop_last().last() == path@[i as int - 1]@);
            if !is_start(&path[i - 1]) && !is_root_dir(&path[i]) {
                r.push(separator);
            }
        } else {
            assert(r@ + part_text(now[0], separator) =~= part_text(now[0], separator));
        }
        append_part(&mut r, &path[i], separator);
        i = i + 1;
    }
    assert(all.take(i as int) =~= all);
    r
}

// ---------------------------------------------------------------------------
// The paths that callers name
// ---------------------------------------------------------------------------

/// Length of the first piece of a path: up to its first slash.
pub open spec fn piece_len(s: Seq<char>) -> nat
    decreases s.len(),
{
    if s.len() == 0 || s.first() == '/' {
        0
    } else {
        1 + piece_len(s.drop_first())
    }
}

/// What a piece of a path stands for: nothing where it is empty or `.`, except
/// that a path may start with `.`.
pub open spec fn piece_part(piece: Seq<char>, at_start: bool) -> Seq<Part> {
    if piece.len() == 0 {
        seq![]
    } else if piece == "."@ {
        if at_start {
            seq![Part::CurDir]
        } else {
            seq![]
        }
    } else if piece == ".."@ {
        seq![Part::ParentDir]
    } else {
        seq![Part::Normal(text_name(piece))]
    }
}

/// The parts of the pieces of `s`.
pub open spec fn piece_parts(s: Seq<char>, at_start: bool) -> Seq<Part>
    decreases s.len(),
{
    if s.len() == 0 {
        seq![]
    } else {
        let n = piece_len(s) as int;
        piece_part(s.take(n), at_start) + (if n < s.len() {
            piece_parts(s.skip(n + 1), false)
        } else {
            seq![]
        })
    }
}

/// The parts of a path that is written with slashes.
pub open spec fn slash_parts(s: Seq<char>) -> Seq<Part> {
    if s.len() > 0 && s.first() == '/' {
        seq![Part::RootDir] + piece_parts(s, false)
    } else {
        piece_parts(s, true)
    }
}

/// Whether every platform reads `s` as a path written with slashes: it holds
/// no backslash, and starts neither as a drive does, with a colon in second
/// place, nor with two slashes.
pub open spec fn plain_path(s: Seq<char>) -> bool {
    &&& !s.contains('\\')
    &&& !(s.len() >= 2 && s[1] == ':')
    &&& !(s.len() >= 2 && s[0] == '/' && s[1] == '/')
}

/// Whether `path` starts anew, at a root or at a prefix.
pub open spec fn starts_anew(path: Seq<Part>) -> bool {
    path.len() > 0 && (path[0] is RootDir || path[0] is Prefix)
}

/// `Path::components` of std: the parts of the path that `s` writes. Which
/// characters separate parts, and whether a path can have a prefix, is up to the
/// platform, so this says what the parts are only for a path that every
/// platform reads alike. There repeated and trailing slashes count for nothing,
/// nor does `.`, except at the start of a relative path. On every platform a
/// path with a slash at its start starts at a root or at a prefix, and one without
/// a backslash that does not start so is read at its slashes. Which of the two
/// holds of a path with a colon in second place, what follows where a path starts
/// with two slashes, and how one with a backslash in it is read, is left unsaid.
#[verifier::external_body]
fn path_components(s: &str) -> (r: Vec<PathPart>)
    ensures
        plain_path(s@) ==> parts(r@) == slash_parts(s@),
        s@.len() > 0 && s@[0] == '/' ==> starts_anew(parts(r@)),
        !s@.contains('\\') ==> parts(r@) == slash_parts(s@) || starts_anew(parts(r@)),
{
    Path::new(s).components().map(|c| match c {
        Component::Prefix(p) => PathPart::Prefix(Name {
            raw: p.as_os_str().as_encoded_bytes().to_vec(),
            text: p.as_os_str().to_string_lossy().into_owned(),
        }),
        Component::RootDir => PathPart::RootDir,
        Component::CurDir => PathPart::CurDir,
        Component::ParentDir => PathPart::ParentDir,
        Component::Normal(p) => PathPart::Normal(Name {
            raw: p.as_encoded_bytes().to_vec(),
            text: p.to_string_lossy().into_owned(),
        }),
    }).collect()
}

/// Where `path` leads from `at`, a directory that many names below the
/// workspace root. It may pass the root by no step, and may not start anew.
pub open spec fn resolved(input: Seq<char>, path: Seq<Part>, at: Seq<PathName>) -> Result<
    Seq<PathName>,
    ToolFailure,
>
    decreases path.len(),
{
    if path.len() == 0 {
        Ok(at)
    } else {
        let rest = path.drop_first();
        match path.first() {
            Part::CurDir => resolved(input, rest, at),
            Part::Normal(name) => resolved(input, rest, at.push(name)),
            Part::ParentDir => if at.len() == 0 {
                Err(ToolFailure::PathEscapesWorkspace(input))
            } else {
                resolved(input, rest, at.drop_last())
            },
            _ => Err(ToolFailure::InvalidPath(input)),
        }
    }
}

/// The names below the workspace root that `path`, which the caller wrote as
/// `input`, leads to.
pub open spec fn normalized(input: Seq<char>, path: Seq<Part>, allow_root: bool) -> Result<
    Seq<PathName>,
    ToolFailure,
> {
    match resolved(input, path, seq![]) {
        Ok(names) => if names.len() == 0 && !allow_root {
            Err(ToolFailure::InvalidPath(input))
        } else {
            Ok(names)
        },
        Err(e) => Err(e),
    }
}

/// The names below the workspace root that `path` leads to.
pub fn normalize_parts(input: &str, path: &Vec<PathPart>, allow_root: bool) -> (r: Result<
    Vec<Name>,
    ToolboxError,
>)
    ensures
        names_or_failure(r) == normalized(input@, parts(path@), allow_root),
{
    let mut names: Vec<Name> = Vec::new();
    let ghost all = parts(path@);
    let mut i: usize = 0;
    assert(all.skip(0) =~= all);
    assert(path_names(names@) =~= seq![]);
    while i < path.len()
        invariant
            0 <= i <= path@.len(),
            all == parts(path@),
            resolved(input@, all, seq![]) == resolved(
                input@,
                all.skip(i as int),
                path_names(names@),
            ),
        decreases path@.len() - i,
    {
        assert(all.skip(i as int).first() == path@[i as int]@);
        assert(all.skip(i as int).drop_first() =~= all.skip(i as int + 1));
        let ghost before = path_names(names@);
        match &path[i] {
            PathPart::CurDir => {},
            PathPart::Normal(name) => {
                names.push(name.copy());
                assert(path_names(names@) =~= before.push(name@));
            },
            PathPart::ParentDir => {
                if names.len() == 0 {
                    return Err(ToolboxError::PathEscapesWorkspace(input.to_owned()));
                }
                let _ = names.pop();
                assert(path_names(names@) =~= before.drop_last());
            },
            _ => {
                return Err(ToolboxError::InvalidPath(input.to_owned()));
            },
        }
        i = i + 1;
    }
    assert(all.skip(i as int) =~= seq![]);
    if !allow_root && names.len() == 0 {
        return Err(ToolboxError::InvalidPath(input.to_owned()));
    }
    Ok(names)
}

/// Whether a way to read paths reads those that every platform reads alike as
/// every platform does, a path with a slash at its start as one that starts anew,
/// and any without a backslash at its slashes or as one that starts anew.
pub open spec fn reads_plainly(reader: spec_fn(Seq<char>) -> Seq<Part>) -> bool {
    forall|s: Seq<char>|
        {
            &&& plain_path(s) ==> #[trigger] reader(s) == slash_parts(s)
            &&& s.len() > 0 && s[0] == '/' ==> starts_anew(reader(s))
            &&& !s.contains('\\') ==> reader(s) == slash_parts(s) || starts_anew(reader(s))
        }
}

/// The names below the workspace root that the caller's path `input` leads to
/// on a platform that reads paths by `reader`. White space around the path is
/// left out. An empty path is the root.
pub open spec fn workspace_names(
    reader: spec_fn(Seq<char>) -> Seq<Part>,
    input: Seq<char>,
    allow_root: bool,
) -> Result<Seq<PathName>, ToolFailure> {
    normalized(input, reader(trimmed(input)), allow_root)
}

/// The names that `r` holds.
pub open spec fn names_or_failure(r: Result<Vec<Name>, ToolboxError>) -> Result<
    Seq<PathName>,
    ToolFailure,
> {
    match r {
        Ok(names) => Ok(path_names(names@)),
        Err(e) => Err(e@),
    }
}

/// The names below the workspace root that the caller's path `input` leads to.
pub fn normalize_relative_path(input: &str, allow_root: bool) -> (r: Result<
    Vec<Name>,
    ToolboxError,
>)
    ensures
        exists|reader: spec_fn(Seq<char>) -> Seq<Part>|
            reads_plainly(reader) && names_or_failure(r) == #[trigger] workspace_names(
                reader,
                input@,
                allow_root,
            ),
        plain_path(trimmed(input@)) ==> names_or_failure(r) == normalized(
            input@,
            slash_parts(trimmed(input@)),
            allow_root,
        ),
        !trimmed(input@).contains('\\') ==> names_or_failure(r) == normalized(
            input@,
            slash_parts(trimmed(input@)),
            allow_root,
        ) || names_or_failure(r) == Err::<Seq<PathName>, ToolFailure>(
            ToolFailure::InvalidPath(input@),
        ),
{
    let raw = trim(input);
    let path = if raw.as_str().is_empty() {
        let none: Vec<PathPart> = Vec::new();
        assert(raw@ =~= Seq::empty());
        assert(parts(none@) =~= slash_parts(raw@));
        none
    } else {
        path_components(raw.as_str())
    };
    let ghost reader = |s: Seq<char>| if s == raw@ { parts(path@) } else { slash_parts(s) };
    let r = normalize_parts(input, &path, allow_root);
    assert(reads_plainly(reader));
    assert(names_or_failure(r) == workspace_names(reader, input@, allow_root));
    r
}

} // verus!
