//! What holds of the paths that are shown and read.

use vstd::prelude::*;
use vstd::utf8::encode_utf8;

use crate::errors::ToolFailure;
use crate::paths::{
    full_text, is_under, joined, name_texts, part_text, piece_len, piece_part, piece_parts,
    plain_path, reads_plainly, relative_to, resolved, same_part, shown, slash_parts, slashed,
    text_name, workspace_names, Part, PathName,
};
use crate::text::trimmed;
use crate::text_laws::{is_core_of, law_trimming, lemma_one_core};

verus! {

/// Whether a name is written as it is: it is not empty, holds no slash, is no
/// step to the same or to the parent directory, and its bytes are its text.
pub open spec fn plain_name(name: PathName) -> bool {
    &&& name == text_name(name.text)
    &&& name.text.len() > 0
    &&& !name.text.contains('/')
    &&& name.text != "."@
    &&& name.text != ".."@
}

/// The texts of names.
pub open spec fn texts_of(names: Seq<PathName>) -> Seq<Seq<char>> {
    names.map_values(|n: PathName| n.text)
}

/// The path that leads to names.
pub open spec fn normal_parts(names: Seq<PathName>) -> Seq<Part> {
    names.map_values(|n: PathName| Part::Normal(n))
}

proof fn lemma_slashed_front(names: Seq<Seq<char>>)
    requires
        names.len() >= 2,
    ensures
        slashed(names) == names[0].push('/') + slashed(names.drop_first()),
    decreases names.len(),
{
    let front = names.drop_last();
    let rest = names.drop_first();
    if names.len() == 2 {
        assert(slashed(front) == names[0]);
        assert(slashed(rest) == names[1]);
    } else {
        lemma_slashed_front(front);
        assert(front.drop_first() =~= rest.drop_last());
        let inner = slashed(rest.drop_last());
        assert((names[0].push('/') + inner).push('/') + names.last() =~= names[0].push('/') + (
        inner.push('/') + names.last()));
    }
}

proof fn lemma_piece_len(name: Seq<char>, rest: Seq<char>)
    requires
        !name.contains('/'),
    ensures
        piece_len(name) == name.len(),
        piece_len(name.push('/') + rest) == name.len(),
    decreases name.len(),
{
    let whole = name.push('/') + rest;
    if name.len() == 0 {
        assert(whole.first() == '/');
    } else {
        assert(name.contains(name[0]));
        assert forall|i: int| 0 <= i < name.drop_first().len() implies name.drop_first()[i]
            != '/' by {
            assert(name.contains(name[i + 1]));
        }
        lemma_piece_len(name.drop_first(), rest);
        assert(whole.first() == name[0]);
        assert(whole.drop_first() =~= name.drop_first().push('/') + rest);
    }
}

proof fn lemma_read_back(names: Seq<PathName>, at_start: bool)
    requires
        names.len() > 0,
        forall|i: int| 0 <= i < names.len() ==> plain_name(#[trigger] names[i]),
    ensures
        piece_parts(slashed(texts_of(names)), at_start) == normal_parts(names),
        slashed(texts_of(names)).len() > 0,
        slashed(texts_of(names)).first() != '/',
    decreases names.len(),
{
    let texts = texts_of(names);
    let s = slashed(texts);
    let first = names[0].text;
    assert(plain_name(names[0]));
    assert(first.contains(first[0]));
    assert(piece_part(first, at_start) =~= seq![Part::Normal(names[0])]);
    if names.len() == 1 {
        lemma_piece_len(first, seq![]);
        assert(s == first);
        assert(s.take(first.len() as int) =~= first);
        assert(normal_parts(names) =~= seq![Part::Normal(names[0])]);
        assert(piece_parts(s, at_start) =~= normal_parts(names));
    } else {
        let rest = names.drop_first();
        assert(texts_of(rest) =~= texts.drop_first());
        lemma_slashed_front(texts);
        let tail = slashed(texts.drop_first());
        lemma_piece_len(first, tail);
        assert forall|i: int| 0 <= i < rest.len() implies plain_name(#[trigger] rest[i]) by {
            assert(rest[i] == names[i + 1]);
        }
        lemma_read_back(rest, false);
        assert(s.take(first.len() as int) =~= first);
        assert(s.skip(first.len() as int + 1) =~= tail);
        assert(normal_parts(names) =~= seq![Part::Normal(names[0])] + normal_parts(rest));
    }
}

proof fn lemma_resolved_names(input: Seq<char>, names: Seq<PathName>, at: Seq<PathName>)
    ensures
        resolved(input, normal_parts(names), at) == Ok::<Seq<PathName>, ToolFailure>(at + names),
    decreases names.len(),
{
    let path = normal_parts(names);
    if names.len() == 0 {
        assert(at + names =~= at);
    } else {
        assert(path.first() == Part::Normal(names[0]));
        assert(path.drop_first() =~= normal_parts(names.drop_first()));
        lemma_resolved_names(input, names.drop_first(), at.push(names[0]));
        assert(at.push(names[0]) + names.drop_first() =~= at + names);
    }
}

proof fn lemma_name_texts(names: Seq<PathName>)
    ensures
        name_texts(normal_parts(names)) == texts_of(names),
    decreases names.len(),
{
    let path = normal_parts(names);
    if names.len() == 0 {
        assert(name_texts(path) =~= texts_of(names));
    } else {
        lemma_name_texts(names.drop_last());
        assert(path.drop_last() =~= normal_parts(names.drop_last()));
        assert(texts_of(names) =~= texts_of(names.drop_last()).push(names.last().text));
    }
}

/// What is below the root is shown by its names with slashes between them, and
/// the root itself as a dot.
pub proof fn law_paths_are_shown_by_their_names(root: Seq<Part>, names: Seq<PathName>)
    ensures
        shown(root, joined(root, names)) == (if names.len() == 0 {
            "."@
        } else {
            slashed(texts_of(names))
        }),
{
    let path = joined(root, names);
    assert forall|i: int| 0 <= i < root.len() implies same_part(#[trigger] path[i], root[i]) by {
        assert(path[i] == root[i]);
    }
    assert(relative_to(root, path) =~= normal_parts(names));
    lemma_name_texts(names);
}

/// A path that is shown leads back to what it was shown for, where its names are
/// written as they are, the platform reads it at its slashes, and no white space
/// stands at either end.
pub proof fn law_shown_paths_lead_back_at_slashes(
    reader: spec_fn(Seq<char>) -> Seq<Part>,
    root: Seq<Part>,
    names: Seq<PathName>,
    allow_root: bool,
)
    requires
        forall|i: int| 0 <= i < names.len() ==> plain_name(#[trigger] names[i]),
        names.len() > 0 || allow_root,
        reader(shown(root, joined(root, names))) == slash_parts(shown(root, joined(root, names))),
        trimmed(shown(root, joined(root, names))) == shown(root, joined(root, names)),
    ensures
        workspace_names(reader, shown(root, joined(root, names)), allow_root) == Ok::<
            Seq<PathName>,
            ToolFailure,
        >(names),
{
    law_paths_are_shown_by_their_names(root, names);
    let text = shown(root, joined(root, names));
    if names.len() == 0 {
        reveal_strlit(".");
        assert(piece_len(text) == 1) by {
            assert(text.drop_first() =~= Seq::empty());
            reveal_with_fuel(piece_len, 2);
        }
        assert(text.take(1) =~= text);
        assert(slash_parts(text) =~= seq![Part::CurDir]);
        assert(slash_parts(text).drop_first() =~= Seq::empty());
        reveal_with_fuel(resolved, 2);
        assert(names =~= Seq::empty());
    } else {
        lemma_read_back(names, true);
        lemma_resolved_names(text, names, seq![]);
        assert(Seq::<PathName>::empty() + names =~= names);
    }
}

/// A path that is shown leads back to what it was shown for on every platform,
/// where its names are written as they are, every platform reads it at its
/// slashes, and no white space stands at either end.
pub proof fn law_shown_paths_lead_back(
    reader: spec_fn(Seq<char>) -> Seq<Part>,
    root: Seq<Part>,
    names: Seq<PathName>,
    allow_root: bool,
)
    requires
        reads_plainly(reader),
        forall|i: int| 0 <= i < names.len() ==> plain_name(#[trigger] names[i]),
        names.len() > 0 || allow_root,
        plain_path(shown(root, joined(root, names))),
        trimmed(shown(root, joined(root, names))) == shown(root, joined(root, names)),
    ensures
        workspace_names(reader, shown(root, joined(root, names)), allow_root) == Ok::<
            Seq<PathName>,
            ToolFailure,
        >(names),
{
    law_shown_paths_lead_back_at_slashes(reader, root, names, allow_root);
}

// ---------------------------------------------------------------------------
// How paths are read
// ---------------------------------------------------------------------------

/// What a name between slashes stands for behind the start of a path.
pub open spec fn stands_for(piece: Seq<char>) -> Seq<Part> {
    if piece == Seq::<char>::empty() || piece == seq!['.'] {
        seq![]
    } else if piece == seq!['.', '.'] {
        seq![Part::ParentDir]
    } else {
        seq![Part::Normal(PathName { raw: encode_utf8(piece), text: piece })]
    }
}

proof fn lemma_dots()
    ensures
        "."@ == seq!['.'],
        ".."@ == seq!['.', '.'],
{
    reveal_strlit(".");
    reveal_strlit("..");
    assert("."@ =~= seq!['.']);
    assert(".."@ =~= seq!['.', '.']);
}

proof fn lemma_one_piece(piece: Seq<char>)
    requires
        !piece.contains('/'),
    ensures
        piece_parts(piece, false) == stands_for(piece),
        piece.len() > 0 ==> piece_parts(piece, true) == piece_part(piece, true),
{
    lemma_dots();
    lemma_piece_len(piece, seq![]);
    if piece.len() > 0 {
        assert(piece.take(piece.len() as int) =~= piece);
        assert(piece_parts(piece, false) =~= piece_part(piece, false));
        assert(piece_parts(piece, true) =~= piece_part(piece, true));
    } else {
        assert(piece =~= Seq::empty());
    }
}

proof fn lemma_first_piece(s: Seq<char>)
    ensures
        piece_len(s) <= s.len(),
        !s.take(piece_len(s) as int).contains('/'),
        piece_len(s) < s.len() ==> s[piece_len(s) as int] == '/',
    decreases s.len(),
{
    if s.len() > 0 && s.first() != '/' {
        let rest = s.drop_first();
        lemma_first_piece(rest);
        let n = piece_len(s) as int;
        assert forall|i: int| 0 <= i < n implies s.take(n)[i] != '/' by {
            if i > 0 {
                assert(s.take(n)[i] == rest.take(n - 1)[i - 1]);
                if rest.take(n - 1)[i - 1] == '/' {
                    assert(rest.take(n - 1).contains('/'));
                }
            }
        }
    }
}

proof fn lemma_pieces_join(a: Seq<char>, b: Seq<char>, at_start: bool)
    requires
        !b.contains('/'),
        a.len() > 0 || !at_start,
    ensures
        piece_parts(a + seq!['/'] + b, at_start) == piece_parts(a, at_start) + stands_for(b),
    decreases a.len(),
{
    let s = a + seq!['/'] + b;
    lemma_first_piece(a);
    lemma_one_piece(b);
    let n = piece_len(a) as int;
    let piece = a.take(n);
    if n < a.len() {
        let rest = a.skip(n + 1);
        assert(a =~= piece.push('/') + rest);
        assert(s =~= piece.push('/') + (rest + seq!['/'] + b));
        lemma_piece_len(piece, rest);
        lemma_piece_len(piece, rest + seq!['/'] + b);
        lemma_pieces_join(rest, b, false);
        assert(s.take(n) =~= piece);
        assert(s.skip(n + 1) =~= rest + seq!['/'] + b);
        assert(piece_parts(s, at_start) =~= piece_parts(a, at_start) + stands_for(b));
    } else {
        assert(piece =~= a);
        assert(s =~= a.push('/') + b);
        lemma_piece_len(a, b);
        assert(s.take(n) =~= a);
        assert(s.skip(n + 1) =~= b);
        if n < s.len() {
            if a.len() > 0 {
                assert(a.take(n) =~= a);
                assert(piece_parts(a, at_start) =~= piece_part(a, at_start));
            } else {
                assert(piece_part(a, at_start) =~= seq![]);
            }
            assert(piece_parts(s, at_start) =~= piece_part(a, at_start) + piece_parts(b, false));
        }
    }
}

/// A path without a slash is a name, or a step to the same or to the parent
/// directory.
pub proof fn law_reading_a_name(piece: Seq<char>)
    requires
        !piece.contains('/'),
        piece.len() > 0,
    ensures
        slash_parts(piece) == if piece == seq!['.'] {
            seq![Part::CurDir]
        } else {
            stands_for(piece)
        },
{
    lemma_dots();
    lemma_one_piece(piece);
    if piece[0] == '/' {
        assert(piece.contains(piece[0]));
    }
}

/// What stands behind the last slash of a path is one more part of it, except that
/// nothing and a dot are none. A slash at the start is the root.
pub proof fn law_reading_behind_a_slash(a: Seq<char>, piece: Seq<char>)
    requires
        !piece.contains('/'),
    ensures
        slash_parts(a + seq!['/'] + piece) == (if a.len() == 0 {
            seq![Part::RootDir]
        } else {
            slash_parts(a)
        }) + stands_for(piece),
        slash_parts(seq![]) == Seq::<Part>::empty(),
{
    let s = a + seq!['/'] + piece;
    if a.len() == 0 {
        assert(s[0] == '/');
        lemma_pieces_join(a, piece, false);
        assert(a =~= Seq::empty());
        assert(slash_parts(s) =~= seq![Part::RootDir] + stands_for(piece));
    } else {
        assert(s[0] == a[0]);
        lemma_pieces_join(a, piece, a[0] != '/');
        if a[0] == '/' {
            assert(slash_parts(s) =~= slash_parts(a) + stands_for(piece));
        }
    }
}

/// Where a path leads is where its front leads and one step on: a name leads down,
/// two dots lead up, which from the root is an error, a dot leads nowhere, and a
/// path may start anew nowhere.
pub proof fn law_following_a_path(input: Seq<char>, path: Seq<Part>, last: Part, at: Seq<PathName>)
    ensures
        resolved(input, seq![], at) == Ok::<Seq<PathName>, ToolFailure>(at),
        resolved(input, path.push(last), at) == match resolved(input, path, at) {
            Err(e) => Err(e),
            Ok(names) => match last {
                Part::CurDir => Ok(names),
                Part::Normal(name) => Ok(names.push(name)),
                Part::ParentDir => if names.len() == 0 {
                    Err(ToolFailure::PathEscapesWorkspace(input))
                } else {
                    Ok(names.drop_last())
                },
                _ => Err(ToolFailure::InvalidPath(input)),
            },
        },
    decreases path.len(),
{
    let all = path.push(last);
    if path.len() == 0 {
        assert(all.drop_first() =~= Seq::empty());
        reveal_with_fuel(resolved, 2);
    } else {
        let rest = path.drop_first();
        assert(all.drop_first() =~= rest.push(last));
        assert(all.first() == path.first());
        match path.first() {
            Part::CurDir => {
                law_following_a_path(input, rest, last, at);
            },
            Part::Normal(name) => {
                law_following_a_path(input, rest, last, at.push(name));
            },
            Part::ParentDir => {
                if at.len() > 0 {
                    law_following_a_path(input, rest, last, at.drop_last());
                }
            },
            _ => {},
        }
    }
}

/// A path of the caller is read without the white space around it and followed from
/// the root. The root itself is refused where it is not allowed.
pub proof fn law_the_paths_of_callers(
    reader: spec_fn(Seq<char>) -> Seq<Part>,
    input: Seq<char>,
    core: Seq<char>,
    allow_root: bool,
)
    requires
        is_core_of(core, input),
    ensures
        workspace_names(reader, input, allow_root) == match resolved(input, reader(core), seq![]) {
            Ok(names) => if names == Seq::<PathName>::empty() && !allow_root {
                Err(ToolFailure::InvalidPath(input))
            } else {
                Ok(names)
            },
            Err(e) => Err(e),
        },
{
    law_trimming(input);
    lemma_one_core(core, trimmed(input), input);
    match resolved(input, reader(core), seq![]) {
        Ok(names) => {
            if names.len() == 0 {
                assert(names =~= Seq::empty());
            }
        },
        Err(_) => {},
    }
}

/// Every platform reads a path at its slashes that holds no backslash, has no colon in
/// second place and does not start with two slashes.
pub proof fn law_plain_paths(reader: spec_fn(Seq<char>) -> Seq<Part>, s: Seq<char>)
    requires
        reads_plainly(reader),
        forall|i: int| 0 <= i < s.len() ==> #[trigger] s[i] != '\\',
        s.len() > 1 ==> s[1] != ':' && !(s[0] == '/' && s[1] == '/'),
    ensures
        reader(s) == slash_parts(s),
{
    assert(plain_path(s));
}

// ---------------------------------------------------------------------------
// How paths are written
// ---------------------------------------------------------------------------

/// The texts with `between` between each two.
pub open spec fn glued(texts: Seq<Seq<char>>, between: char) -> Seq<char>
    decreases texts.len(),
{
    if texts.len() == 0 {
        seq![]
    } else if texts.len() == 1 {
        texts[0]
    } else {
        texts[0] + seq![between] + glued(texts.drop_first(), between)
    }
}

/// The texts of the names in a path.
pub open spec fn names_in(path: Seq<Part>) -> Seq<Seq<char>>
    decreases path.len(),
{
    if path.len() == 0 {
        seq![]
    } else {
        (match path[0] {
            Part::Normal(name) => seq![name.text],
            _ => seq![],
        }) + names_in(path.drop_first())
    }
}

/// Whether two parts are the same: two names are where their bytes are.
pub open spec fn alike(a: Part, b: Part) -> bool {
    match a {
        Part::Prefix(name) => b matches Part::Prefix(other) && name.raw == other.raw,
        Part::RootDir => b is RootDir,
        Part::CurDir => b is CurDir,
        Part::ParentDir => b is ParentDir,
        Part::Normal(name) => b matches Part::Normal(other) && name.raw == other.raw,
    }
}

/// Whether a path starts with the parts of another.
pub open spec fn leads_from(path: Seq<Part>, base: Seq<Part>) -> bool {
    base.len() <= path.len() && forall|i: int|
        0 <= i < base.len() ==> alike(#[trigger] path[i], base[i])
}

/// A path is below another if and only if it starts with its parts.
pub proof fn law_below(path: Seq<Part>, base: Seq<Part>)
    ensures
        is_under(path, base) <==> leads_from(path, base),
{
    assert forall|i: int| 0 <= i < base.len() && base.len() <= path.len() implies same_part(
        #[trigger] path[i],
        base[i],
    ) == alike(path[i], base[i]) by {}
}

proof fn lemma_glued(names: Seq<Seq<char>>)
    ensures
        slashed(names) == glued(names, '/'),
    decreases names.len(),
{
    if names.len() >= 2 {
        lemma_slashed_front(names);
        lemma_glued(names.drop_first());
        assert(names[0].push('/') =~= names[0] + seq!['/']);
    }
}

proof fn lemma_names_in(path: Seq<Part>, last: Part)
    ensures
        names_in(path.push(last)) == names_in(path) + (match last {
            Part::Normal(name) => seq![name.text],
            _ => seq![],
        }),
    decreases path.len(),
{
    let all = path.push(last);
    if path.len() == 0 {
        assert(all.drop_first() =~= Seq::empty());
        reveal_with_fuel(names_in, 2);
        assert(names_in(all) =~= names_in(path) + (match last {
            Part::Normal(name) => seq![name.text],
            _ => seq![],
        }));
    } else {
        lemma_names_in(path.drop_first(), last);
        assert(all.drop_first() =~= path.drop_first().push(last));
        assert(names_in(all) =~= names_in(path) + (match last {
            Part::Normal(name) => seq![name.text],
            _ => seq![],
        }));
    }
}

proof fn lemma_name_texts_in(path: Seq<Part>)
    ensures
        name_texts(path) == names_in(path),
    decreases path.len(),
{
    if path.len() > 0 {
        lemma_name_texts_in(path.drop_last());
        lemma_names_in(path.drop_last(), path.last());
        assert(path =~= path.drop_last().push(path.last()));
        assert(name_texts(path) =~= names_in(path));
    }
}

/// A path is shown by the names in what it holds below the root, or in the whole of it
/// where it is not below the root, with slashes between them. Where there is none it
/// is shown as a dot.
pub proof fn law_shown_paths(root: Seq<Part>, path: Seq<Part>)
    ensures
        ({
            let rest = if leads_from(path, root) {
                path.skip(root.len() as int)
            } else {
                path
            };
            shown(root, path) == if names_in(rest) == Seq::<Seq<char>>::empty() {
                seq!['.']
            } else {
                glued(names_in(rest), '/')
            }
        }),
{
    law_below(path, root);
    lemma_dots();
    let rest = relative_to(root, path);
    lemma_name_texts_in(rest);
    lemma_glued(names_in(rest));
    if names_in(rest).len() == 0 {
        assert(names_in(rest) =~= Seq::empty());
    }
}

/// One part of a path in words.
pub open spec fn word(part: Part, separator: char) -> Seq<char> {
    match part {
        Part::Prefix(name) => name.text,
        Part::RootDir => seq![separator],
        Part::CurDir => seq!['.'],
        Part::ParentDir => seq!['.', '.'],
        Part::Normal(name) => name.text,
    }
}

/// A path as the platform writes it: its parts, with the separator between two of
/// them unless the first is a root or a prefix or the second is a root.
pub open spec fn written(path: Seq<Part>, separator: char) -> Seq<char>
    decreases path.len(),
{
    if path.len() == 0 {
        seq![]
    } else if path.len() == 1 {
        word(path[0], separator)
    } else {
        word(path[0], separator) + (if path[0] is RootDir || path[0] is Prefix || path[1]
            is RootDir {
            seq![]
        } else {
            seq![separator]
        }) + written(path.drop_first(), separator)
    }
}

proof fn lemma_full_text(path: Seq<Part>, separator: char)
    requires
        path.len() >= 2,
    ensures
        full_text(path, separator) == word(path[0], separator) + (if path[0] is RootDir || path[0]
            is Prefix || path[1] is RootDir {
            seq![]
        } else {
            seq![separator]
        }) + full_text(path.drop_first(), separator),
    decreases path.len(),
{
    lemma_dots();
    let rest = path.drop_first();
    let front = path.drop_last();
    let first = word(path[0], separator);
    let gap = if path[0] is RootDir || path[0] is Prefix || path[1] is RootDir {
        Seq::<char>::empty()
    } else {
        seq![separator]
    };
    assert(path.last() == rest.last());
    let last = part_text(path.last(), separator);
    if path.len() == 2 {
        assert(full_text(front, separator) == first);
        assert(full_text(rest, separator) == last);
        assert(front.last() == path[0]);
        assert(full_text(path, separator) =~= first + gap + full_text(rest, separator));
    } else {
        lemma_full_text(front, separator);
        assert(front.drop_first() =~= rest.drop_last());
        assert(front.last() == rest.drop_last().last());
        assert(front[0] == path[0] && front[1] == path[1]);
        let inner = full_text(rest.drop_last(), separator);
        assert(full_text(front, separator) == first + gap + inner);
        assert((first + gap + inner) + last =~= first + gap + (inner + last));
        assert((first + gap + inner).push(separator) + last =~= first + gap + (inner.push(
            separator,
        ) + last));
    }
}

/// A path is written with the separator of the platform between its parts.
pub proof fn law_written_paths(path: Seq<Part>, separator: char)
    ensures
        full_text(path, separator) == written(path, separator),
    decreases path.len(),
{
    lemma_dots();
    if path.len() >= 2 {
        lemma_full_text(path, separator);
        law_written_paths(path.drop_first(), separator);
    }
}

} // verus!
