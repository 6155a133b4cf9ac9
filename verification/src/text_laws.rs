//! What holds of every text that is trimmed, parted into lines, replaced in,
//! counted, compared or written out.

use vstd::prelude::*;
use vstd::utf8::*;

use crate::order::text_le;
use crate::pattern::glob_regex;
use crate::text::{
    decimal, has_prefix, hexadecimal, is_white_space, lemma_segment_len,
    lemma_segments_flatten, replaced, segment_len, segments, trimmed, trimmed_end, trimmed_start,
    without_line_ending, without_newlines,
};
use crate::toolbox::{counted_text, first_lines, last_lines, times_before, words_before};

verus! {

// ---------------------------------------------------------------------------
// White space
// ---------------------------------------------------------------------------

/// Whether `c` has the Unicode property White_Space, by its code point.
pub open spec fn unicode_white(c: char) -> bool {
    let code = c as u32;
    ||| 9 <= code <= 13
    ||| code == 32
    ||| code == 133
    ||| code == 160
    ||| code == 5760
    ||| 8192 <= code <= 8202
    ||| code == 8232
    ||| code == 8233
    ||| code == 8239
    ||| code == 8287
    ||| code == 12288
}

/// White space is what Unicode calls so.
pub proof fn law_white_space(c: char)
    ensures
        is_white_space(c) <==> unicode_white(c),
{
}

/// Whether all of `s` is white space.
pub open spec fn all_white(s: Seq<char>) -> bool {
    forall|i: int| 0 <= i < s.len() ==> unicode_white(#[trigger] s[i])
}

/// Whether `part` is what is left of `whole` when white space is dropped at its
/// start and at its end, as much as there is.
pub open spec fn is_core_of(part: Seq<char>, whole: Seq<char>) -> bool {
    &&& exists|a: Seq<char>, b: Seq<char>|
        whole == #[trigger] (a + part + b) && all_white(a) && all_white(b)
    &&& part.len() > 0 ==> !unicode_white(part[0]) && !unicode_white(part[part.len() - 1])
}

proof fn lemma_trimmed_start(s: Seq<char>)
    ensures
        trimmed_start(s).len() <= s.len(),
        s == s.take(s.len() - trimmed_start(s).len()) + trimmed_start(s),
        all_white(s.take(s.len() - trimmed_start(s).len())),
        trimmed_start(s).len() > 0 ==> !unicode_white(trimmed_start(s)[0]),
    decreases s.len(),
{
    if s.len() > 0 && is_white_space(s.first()) {
        let rest = s.drop_first();
        lemma_trimmed_start(rest);
        let n = s.len() - trimmed_start(s).len();
        let a = s.take(n);
        assert forall|i: int| 0 <= i < a.len() implies unicode_white(#[trigger] a[i]) by {
            if i > 0 {
                assert(a[i] == rest.take(n - 1)[i - 1]);
            }
        }
        assert(s =~= a + trimmed_start(s)) by {
            assert(s =~= seq![s.first()] + rest);
            assert(a =~= seq![s.first()] + rest.take(n - 1));
        }
    } else {
        assert(s.take(0) + s =~= s);
        if s.len() > 0 {
            law_white_space(s[0]);
        }
    }
}

proof fn lemma_trimmed_end(s: Seq<char>)
    ensures
        trimmed_end(s).len() <= s.len(),
        s == trimmed_end(s) + s.skip(trimmed_end(s).len() as int),
        trimmed_end(s) == s.take(trimmed_end(s).len() as int),
        all_white(s.skip(trimmed_end(s).len() as int)),
        trimmed_end(s).len() > 0 ==> !unicode_white(trimmed_end(s).last()),
    decreases s.len(),
{
    if s.len() > 0 && is_white_space(s.last()) {
        let front = s.drop_last();
        lemma_trimmed_end(front);
        let n = trimmed_end(s).len() as int;
        let b = s.skip(n);
        assert forall|i: int| 0 <= i < b.len() implies unicode_white(#[trigger] b[i]) by {
            if i < b.len() - 1 {
                assert(b[i] == front.skip(n)[i]);
            } else {
                assert(b[i] == s.last());
            }
        }
        assert(s.take(n) =~= front.take(n));
        assert(s =~= s.take(n) + b);
    } else {
        assert(s + s.skip(s.len() as int) =~= s);
        assert(s.take(s.len() as int) =~= s);
        if s.len() > 0 {
            law_white_space(s.last());
        }
    }
}

/// A text is trimmed of the white space at its ends and of nothing else.
pub proof fn law_trimming(s: Seq<char>)
    ensures
        is_core_of(trimmed(s), s),
{
    lemma_trimmed_start(s);
    let mid = trimmed_start(s);
    lemma_trimmed_end(mid);
    let r = trimmed(s);
    let a = s.take(s.len() - mid.len());
    let b = mid.skip(r.len() as int);
    assert(s =~= a + r + b);
    if r.len() > 0 {
        assert(r[0] == mid[0]);
    }
}

/// A text is trimmed at its start of the white space there and of nothing else.
pub proof fn law_trimming_the_start(s: Seq<char>)
    ensures
        exists|a: Seq<char>| s == #[trigger] (a + trimmed_start(s)) && all_white(a),
        trimmed_start(s).len() > 0 ==> !unicode_white(trimmed_start(s)[0]),
{
    lemma_trimmed_start(s);
}

proof fn lemma_core_start(p: Seq<char>, a: Seq<char>, b: Seq<char>, q: Seq<char>, c: Seq<char>)
    requires
        all_white(a),
        all_white(c),
        p.len() > 0,
        !unicode_white(p[0]),
        a + p + b == c + q,
    ensures
        c.len() <= a.len(),
{
    if c.len() > a.len() {
        assert((a + p + b)[a.len() as int] == p[0]);
        assert((c + q)[a.len() as int] == c[a.len() as int]);
    }
}

/// There is one way to drop the white space around a text.
pub(crate) proof fn lemma_one_core(p: Seq<char>, q: Seq<char>, whole: Seq<char>)
    requires
        is_core_of(p, whole),
        is_core_of(q, whole),
    ensures
        p == q,
{
    let (a, b) = choose|a: Seq<char>, b: Seq<char>|
        whole == #[trigger] (a + p + b) && all_white(a) && all_white(b);
    let (c, d) = choose|a: Seq<char>, b: Seq<char>|
        whole == #[trigger] (a + q + b) && all_white(a) && all_white(b);
    assert(a + p + b =~= a + (p + b));
    assert(c + q + d =~= c + (q + d));
    if p.len() > 0 {
        lemma_core_start(p, a, b, q + d, c);
        let last = (a.len() + p.len() - 1) as int;
        assert(whole[last] == p[p.len() - 1]);
        if c.len() + q.len() <= last {
            assert(whole[last] == d[last - c.len() - q.len()]);
        }
        assert(q.len() > 0);
    }
    if q.len() > 0 {
        lemma_core_start(q, c, d, p + b, a);
        let last = (c.len() + q.len() - 1) as int;
        assert(whole[last] == q[q.len() - 1]);
        if a.len() + p.len() <= last {
            assert(whole[last] == b[last - a.len() - p.len()]);
        }
        assert(p.len() > 0);
        assert forall|i: int| 0 <= i < p.len() implies p[i] == q[i] by {
            assert(p[i] == whole[a.len() + i]);
            assert(q[i] == whole[c.len() + i]);
        }
    }
    assert(p =~= q);
}

// ---------------------------------------------------------------------------
// Lines
// ---------------------------------------------------------------------------

/// Whether `lines` are the lines of `s`: put together they are `s`, each but the
/// last ends in a line feed, none is empty, and no line feed stands before the end
/// of one.
pub open spec fn are_lines(lines: Seq<Seq<char>>, s: Seq<char>) -> bool {
    &&& lines.flatten() == s
    &&& forall|i: int| 0 <= i < lines.len() ==> (#[trigger] lines[i]).len() > 0
    &&& forall|i: int, j: int|
        0 <= i < lines.len() && 0 <= j < lines[i].len() - 1 ==> #[trigger] lines[i][j] != '\n'
    &&& forall|i: int|
        0 <= i < lines.len() - 1 ==> (#[trigger] lines[i])[lines[i].len() - 1] == '\n'
}

proof fn lemma_segment(s: Seq<char>)
    ensures
        forall|j: int| 0 <= j < segment_len(s) - 1 ==> s[j] != '\n',
        segment_len(s) < s.len() ==> s[segment_len(s) - 1] == '\n',
    decreases s.len(),
{
    lemma_segment_len(s);
    if s.len() > 0 && s.first() != '\n' {
        let rest = s.drop_first();
        lemma_segment(rest);
        lemma_segment_len(rest);
        assert forall|j: int| 0 <= j < segment_len(s) - 1 implies s[j] != '\n' by {
            if j > 0 {
                assert(s[j] == rest[j - 1]);
            }
        }
        if segment_len(s) < s.len() {
            assert(s[segment_len(s) - 1] == rest[segment_len(rest) - 1]);
        }
    }
}

/// A text is parted into its lines.
pub proof fn law_lines(s: Seq<char>)
    ensures
        are_lines(segments(s), s),
    decreases s.len(),
{
    lemma_segments_flatten(s);
    if s.len() > 0 {
        lemma_segment_len(s);
        lemma_segment(s);
        let n = segment_len(s) as int;
        let rest = segments(s.skip(n));
        law_lines(s.skip(n));
        let lines = segments(s);
        assert(lines =~= seq![s.take(n)] + rest);
        assert forall|i: int| 0 <= i < lines.len() implies (#[trigger] lines[i]).len() > 0 by {
            if i > 0 {
                assert(lines[i] == rest[i - 1]);
            }
        }
        assert forall|i: int, j: int|
            0 <= i < lines.len() && 0 <= j < lines[i].len() - 1 implies #[trigger] lines[i][j]
            != '\n' by {
            if i > 0 {
                assert(lines[i][j] == rest[i - 1][j]);
            }
        }
        assert forall|i: int| 0 <= i < lines.len() - 1 implies (#[trigger] lines[i])[lines[i].len()
            - 1] == '\n' by {
            if i > 0 {
                assert(lines[i] == rest[i - 1]);
            } else {
                assert(s.skip(n).len() > 0) by {
                    if s.skip(n).len() == 0 {
                        assert(rest.len() == 0);
                    }
                }
            }
        }
    }
}

/// Whether all of `s` is line feeds and carriage returns.
pub open spec fn all_newlines(s: Seq<char>) -> bool {
    forall|i: int| 0 <= i < s.len() ==> #[trigger] s[i] == '\n' || s[i] == '\r'
}

/// A line is stripped of the line feeds and carriage returns at its end and of
/// nothing else.
pub proof fn law_stripping_newlines(line: Seq<char>)
    ensures
        without_newlines(line).len() <= line.len(),
        line == without_newlines(line) + line.skip(without_newlines(line).len() as int),
        all_newlines(line.skip(without_newlines(line).len() as int)),
        without_newlines(line).len() > 0 ==> without_newlines(line).last() != '\n'
            && without_newlines(line).last() != '\r',
    decreases line.len(),
{
    let r = without_newlines(line);
    if line.len() > 0 && (line.last() == '\n' || line.last() == '\r') {
        let front = line.drop_last();
        law_stripping_newlines(front);
        let tail = line.skip(r.len() as int);
        assert forall|i: int| 0 <= i < tail.len() implies #[trigger] tail[i] == '\n' || tail[i]
            == '\r' by {
            if i < tail.len() - 1 {
                assert(tail[i] == front.skip(r.len() as int)[i]);
            }
        }
        assert(line =~= r + tail) by {
            assert(front =~= r + front.skip(r.len() as int));
            assert(line =~= front.push(line.last()));
            assert(tail =~= front.skip(r.len() as int).push(line.last()));
        }
    } else {
        assert(line =~= r + line.skip(r.len() as int));
    }
}

/// A line is reported without the line ending that closes it, which is a line feed
/// or a carriage return with a line feed, and with all else.
pub proof fn law_line_endings(line: Seq<char>)
    ensures
        ({
            let r = without_line_ending(line);
            ||| line == r + seq!['\r', '\n']
            ||| line == r + seq!['\n'] && (r.len() > 0 ==> r[r.len() - 1] != '\r')
            ||| line == r && (r.len() > 0 ==> r[r.len() - 1] != '\n')
        }),
{
    let r = without_line_ending(line);
    if line.len() > 0 && line.last() == '\n' {
        let rest = line.drop_last();
        assert(line =~= rest + seq!['\n']);
        if rest.len() > 0 && rest.last() == '\r' {
            assert(line =~= r + seq!['\r', '\n']);
        }
    }
}

// ---------------------------------------------------------------------------
// Starts and replacements
// ---------------------------------------------------------------------------

/// A text starts with another if and only if it is that with more behind it.
pub proof fn law_prefixes<A>(s: Seq<A>, prefix: Seq<A>)
    ensures
        has_prefix(s, prefix) <==> exists|rest: Seq<A>| s == #[trigger] (prefix + rest),
{
    if has_prefix(s, prefix) {
        assert(s =~= prefix + s.skip(prefix.len() as int));
    }
    if exists|rest: Seq<A>| s == #[trigger] (prefix + rest) {
        let rest = choose|rest: Seq<A>| s == #[trigger] (prefix + rest);
        assert(s.take(prefix.len() as int) =~= prefix);
    }
}

/// Whether `part` stands at index `i` of `s`.
pub open spec fn occurs_at(s: Seq<char>, part: Seq<char>, i: int) -> bool {
    0 <= i && i + part.len() <= s.len() && s.subrange(i, i + part.len()) == part
}

/// Replacing leaves a text without an occurrence as it is, and puts the replacement
/// in the place of the first one, going on behind it.
pub proof fn law_replacing(s: Seq<char>, from: Seq<char>, to: Seq<char>, i: int)
    requires
        from.len() > 0,
        forall|j: int| 0 <= j < i ==> !occurs_at(s, from, j),
    ensures
        i >= s.len() ==> replaced(s, from, to) == s,
        occurs_at(s, from, i) ==> replaced(s, from, to) == s.take(i) + to + replaced(
            s.skip(i + from.len()),
            from,
            to,
        ),
    decreases s.len(),
{
    if s.len() > 0 {
        assert(s.subrange(0, from.len() as int) =~= s.take(from.len() as int));
        if i <= 0 {
            assert(s.take(0) + to =~= to);
        } else {
            assert(!occurs_at(s, from, 0));
            let rest = s.drop_first();
            assert forall|j: int| 0 <= j < i - 1 implies !occurs_at(rest, from, j) by {
                assert(!occurs_at(s, from, j + 1));
                if occurs_at(rest, from, j) {
                    assert(rest.subrange(j, j + from.len()) =~= s.subrange(
                        j + 1,
                        j + 1 + from.len(),
                    ));
                }
            }
            law_replacing(rest, from, to, i - 1);
            if i >= s.len() {
                assert(seq![s.first()] + rest =~= s);
            }
            if occurs_at(s, from, i) {
                assert(rest.subrange(i - 1, i - 1 + from.len()) =~= s.subrange(
                    i,
                    i + from.len(),
                ));
                assert(rest.skip(i - 1 + from.len()) =~= s.skip(i + from.len()));
                let more = replaced(s.skip(i + from.len()), from, to);
                assert(seq![s.first()] + (rest.take(i - 1) + to + more) =~= s.take(i) + to
                    + more);
            }
        }
    }
}

pub(crate) proof fn lemma_replaced_behind(
    w: Seq<char>,
    x: Seq<char>,
    from: Seq<char>,
    to: Seq<char>,
)
    requires
        from.len() > 0,
        forall|i: int| 0 <= i < w.len() ==> w[i] != from[0],
    ensures
        replaced(w + x, from, to) == w + replaced(x, from, to),
    decreases w.len(),
{
    if w.len() == 0 {
        assert(w + x =~= x);
        assert(w + replaced(x, from, to) =~= replaced(x, from, to));
    } else {
        let s = w + x;
        let v = w.drop_first();
        assert forall|i: int| 0 <= i < v.len() implies v[i] != from[0] by {
            assert(v[i] == w[i + 1]);
        }
        lemma_replaced_behind(v, x, from, to);
        assert(s.drop_first() =~= v + x);
        assert(s[0] == w[0]);
        if has_prefix(s, from) {
            assert(s.take(from.len() as int)[0] == from[0]);
        }
        assert(seq![w[0]] + (v + replaced(x, from, to)) =~= w + replaced(x, from, to));
    }
}

pub(crate) proof fn lemma_replaced_first(x: Seq<char>, from: Seq<char>, to: Seq<char>)
    requires
        from.len() > 0,
    ensures
        replaced(from + x, from, to) == to + replaced(x, from, to),
{
    let s = from + x;
    assert(s.take(from.len() as int) =~= from);
    assert(s.skip(from.len() as int) =~= x);
}

/// The regular expression that a glob says, from its start on: two stars are any text, one
/// is any text without a slash, a dot is itself, and so is everything else.
pub open spec fn glob_says(glob: Seq<char>) -> Seq<char>
    decreases glob.len(),
{
    if glob.len() == 0 {
        seq![]
    } else if glob[0] == '*' && glob.len() > 1 && glob[1] == '*' {
        seq!['.', '*'] + glob_says(glob.skip(2))
    } else if glob[0] == '*' {
        seq!['[', '^', '/', ']', '*'] + glob_says(glob.drop_first())
    } else if glob[0] == '.' {
        seq!['\\', '.'] + glob_says(glob.drop_first())
    } else {
        seq![glob[0]] + glob_says(glob.drop_first())
    }
}

/// The word that stands for two stars while a glob is turned into a regular expression.
pub open spec fn star_mark() -> Seq<char> {
    seq!['<', '<', 'G', 'L', 'O', 'B', 'S', 'T', 'A', 'R', '>', '>']
}

/// What a glob says while two stars are marked.
spec fn glob_marked(glob: Seq<char>) -> Seq<char>
    decreases glob.len(),
{
    if glob.len() == 0 {
        seq![]
    } else if glob[0] == '*' && glob.len() > 1 && glob[1] == '*' {
        star_mark() + glob_marked(glob.skip(2))
    } else if glob[0] == '*' {
        seq!['[', '^', '/', ']', '*'] + glob_marked(glob.drop_first())
    } else if glob[0] == '.' {
        seq!['\\', '.'] + glob_marked(glob.drop_first())
    } else {
        seq![glob[0]] + glob_marked(glob.drop_first())
    }
}

proof fn lemma_glob_words()
    ensures
        "."@ == seq!['.'],
        "\\."@ == seq!['\\', '.'],
        "**"@ == seq!['*', '*'],
        "*"@ == seq!['*'],
        "[^/]*"@ == seq!['[', '^', '/', ']', '*'],
        ".*"@ == seq!['.', '*'],
        "<<GLOBSTAR>>"@ == star_mark(),
{
    reveal_strlit(".");
    reveal_strlit("\\.");
    reveal_strlit("**");
    reveal_strlit("<<GLOBSTAR>>");
    reveal_strlit("*");
    reveal_strlit("[^/]*");
    reveal_strlit(".*");
    assert("."@ =~= seq!['.']);
    assert("\\."@ =~= seq!['\\', '.']);
    assert("**"@ =~= seq!['*', '*']);
    assert("*"@ =~= seq!['*']);
    assert("[^/]*"@ =~= seq!['[', '^', '/', ']', '*']);
    assert(".*"@ =~= seq!['.', '*']);
    assert("<<GLOBSTAR>>"@ =~= star_mark());
}

proof fn lemma_glob_marked(glob: Seq<char>)
    ensures
        replaced(
            replaced(replaced(glob, "."@, "\\."@), "**"@, "<<GLOBSTAR>>"@),
            "*"@,
            "[^/]*"@,
        ) == glob_marked(glob),
        replaced(glob, "."@, "\\."@).len() > 0 ==> glob.len() > 0 && (replaced(
            glob,
            "."@,
            "\\."@,
        )[0] == '*' <==> glob[0] == '*'),
    decreases glob.len(),
{
    lemma_glob_words();
    let (dot, slash_dot, two, mark, one, name) = (
        "."@,
        "\\."@,
        "**"@,
        "<<GLOBSTAR>>"@,
        "*"@,
        "[^/]*"@,
    );
    if glob.len() > 0 {
        let both = glob[0] == '*' && glob.len() > 1 && glob[1] == '*';
        let rest = if both {
            glob.skip(2)
        } else {
            glob.drop_first()
        };
        lemma_glob_marked(rest);
        let d = replaced(rest, dot, slash_dot);
        let m = replaced(d, two, mark);
        if both {
            assert(glob =~= two + rest);
            lemma_replaced_behind(two, rest, dot, slash_dot);
            lemma_replaced_first(d, two, mark);
            lemma_replaced_behind(mark, m, one, name);
        } else if glob[0] == '*' {
            assert(glob =~= one + rest);
            lemma_replaced_behind(one, rest, dot, slash_dot);
            let s = one + d;
            assert(replaced(s, two, mark) == one + m) by {
                if has_prefix(s, two) {
                    assert(s.take(2)[1] == s[1]);
                    assert(s[1] == d[0]);
                    assert(rest[0] == glob[1]);
                }
                assert(s.drop_first() =~= d);
                assert(seq![s.first()] =~= one);
            }
            lemma_replaced_first(m, one, name);
        } else if glob[0] == '.' {
            assert(glob =~= dot + rest);
            lemma_replaced_first(rest, dot, slash_dot);
            lemma_replaced_behind(slash_dot, d, two, mark);
            lemma_replaced_behind(slash_dot, m, one, name);
        } else {
            let c = seq![glob[0]];
            assert(glob =~= c + rest);
            lemma_replaced_behind(c, rest, dot, slash_dot);
            lemma_replaced_behind(c, d, two, mark);
            lemma_replaced_behind(c, m, one, name);
        }
    }
}

proof fn lemma_marked_word(glob: Seq<char>, w: Seq<char>)
    requires
        has_prefix(glob_marked(glob), w),
        forall|i: int|
            0 <= i < w.len() ==> #[trigger] w[i] != '<' && w[i] != '[' && w[i] != '\\',
    ensures
        has_prefix(glob, w),
    decreases w.len(),
{
    let t = glob_marked(glob);
    if w.len() == 0 {
        assert(glob.take(0) =~= w);
    } else {
        assert(t.take(w.len() as int)[0] == t[0]);
        assert(t[0] == w[0]);
        assert(star_mark()[0] == '<');
        let rest = glob.drop_first();
        let v = w.drop_first();
        assert(glob_marked(rest) =~= t.drop_first());
        assert(t.drop_first().take(v.len() as int) =~= t.take(w.len() as int).drop_first());
        assert forall|i: int| 0 <= i < v.len() implies #[trigger] v[i] != '<' && v[i] != '['
            && v[i] != '\\' by {
            assert(v[i] == w[i + 1]);
        }
        lemma_marked_word(rest, v);
        assert(glob.take(w.len() as int) =~= seq![glob[0]] + rest.take(v.len() as int));
        assert(w =~= seq![w[0]] + v);
    }
}

proof fn lemma_not_marked(rest: Seq<char>)
    requires
        has_prefix(seq!['<'] + glob_marked(rest), star_mark()),
    ensures
        has_prefix(seq!['<'] + rest, star_mark()),
{
    let mark = star_mark();
    let t = glob_marked(rest);
    let s = seq!['<'] + t;
    let w = mark.skip(2);
    assert(s.take(12)[1] == t[0]);
    assert(s.take(12)[2] == t[1]);
    assert(mark[1] == '<' && mark[2] == 'G');
    assert(rest.len() > 0);
    if rest[0] == '*' && rest.len() > 1 && rest[1] == '*' {
        assert(t[1] == mark[1]);
    }
    assert(rest[0] == '<');
    let more = rest.drop_first();
    assert(glob_marked(more) =~= t.drop_first());
    assert(t.drop_first().take(10) =~= s.take(12).skip(2));
    lemma_marked_word(more, w);
    assert((seq!['<'] + rest).take(12) =~= seq!['<', '<'] + more.take(10));
    assert(mark =~= seq!['<', '<'] + w);
}

proof fn lemma_glob(glob: Seq<char>)
    requires
        forall|i: int| !#[trigger] occurs_at(glob, star_mark(), i),
    ensures
        replaced(glob_marked(glob), star_mark(), seq!['.', '*']) == glob_says(glob),
    decreases glob.len(),
{
    let mark = star_mark();
    let any = seq!['.', '*'];
    if glob.len() > 0 {
        let both = glob[0] == '*' && glob.len() > 1 && glob[1] == '*';
        let rest = if both {
            glob.skip(2)
        } else {
            glob.drop_first()
        };
        let gone = glob.len() - rest.len();
        assert forall|i: int| !#[trigger] occurs_at(rest, mark, i) by {
            if occurs_at(rest, mark, i) {
                assert(glob.subrange(i + gone, i + gone + 12) =~= rest.subrange(i, i + 12));
                assert(occurs_at(glob, mark, i + gone));
            }
        }
        lemma_glob(rest);
        let t = glob_marked(rest);
        if both {
            lemma_replaced_first(t, mark, any);
        } else if glob[0] == '*' {
            lemma_replaced_behind(seq!['[', '^', '/', ']', '*'], t, mark, any);
        } else if glob[0] == '.' {
            lemma_replaced_behind(seq!['\\', '.'], t, mark, any);
        } else if glob[0] == '<' {
            let s = seq!['<'] + t;
            if has_prefix(s, mark) {
                lemma_not_marked(rest);
                assert(seq!['<'] + rest =~= glob);
                assert(glob.subrange(0, 12) =~= glob.take(12));
                assert(occurs_at(glob, mark, 0));
            }
            assert(s.drop_first() =~= t);
        } else {
            lemma_replaced_behind(seq![glob[0]], t, mark, any);
        }
    }
}

/// A glob stands for the regular expression that it says, which matches up to the end of a
/// path. That holds unless the glob holds the word that marks two stars, which is taken
/// for two stars.
pub proof fn law_globs(glob: Seq<char>)
    requires
        forall|i: int| !#[trigger] occurs_at(glob, star_mark(), i),
    ensures
        glob_regex(glob) == glob_says(glob).push('$'),
{
    lemma_glob_words();
    lemma_glob_marked(glob);
    lemma_glob(glob);
}

// ---------------------------------------------------------------------------
// Lines from the start and from the end
// ---------------------------------------------------------------------------

/// How many line feeds `s` holds.
pub open spec fn feeds(s: Seq<char>) -> nat
    decreases s.len(),
{
    if s.len() == 0 {
        0
    } else {
        feeds(s.drop_last()) + if s.last() == '\n' {
            1nat
        } else {
            0nat
        }
    }
}

/// How many lines `s` holds: one for each line feed, and one for what follows the
/// last.
pub open spec fn line_total(s: Seq<char>) -> nat {
    feeds(s) + if s.len() > 0 && s.last() != '\n' {
        1nat
    } else {
        0nat
    }
}

/// The smaller of two numbers.
pub open spec fn smaller(a: int, b: int) -> int {
    if a < b {
        a
    } else {
        b
    }
}

proof fn lemma_feeds_join(a: Seq<char>, b: Seq<char>)
    ensures
        feeds(a + b) == feeds(a) + feeds(b),
    decreases b.len(),
{
    if b.len() == 0 {
        assert(a + b =~= a);
    } else {
        lemma_feeds_join(a, b.drop_last());
        assert((a + b).drop_last() =~= a + b.drop_last());
    }
}

proof fn lemma_no_feeds(s: Seq<char>)
    requires
        forall|i: int| 0 <= i < s.len() ==> s[i] != '\n',
    ensures
        feeds(s) == 0,
    decreases s.len(),
{
    if s.len() > 0 {
        assert forall|i: int| 0 <= i < s.drop_last().len() implies s.drop_last()[i] != '\n' by {
            assert(s.drop_last()[i] == s[i]);
        }
        lemma_no_feeds(s.drop_last());
    }
}

proof fn lemma_line_total(lines: Seq<Seq<char>>)
    requires
        are_lines(lines, lines.flatten()),
    ensures
        line_total(lines.flatten()) == lines.len(),
        lines.len() > 0 ==> lines.flatten().len() > 0 && lines.flatten().last()
            == lines.last().last(),
    decreases lines.len(),
{
    if lines.len() == 0 {
        assert(lines.flatten() =~= Seq::empty());
    } else {
        let front = lines.drop_last();
        let last = lines.last();
        lemma_drop_last_line(lines);
        lemma_line_total(front);
        front.lemma_flatten_push(last);
        assert(lines =~= front.push(last));
        lemma_feeds_join(front.flatten(), last);
        assert(lines[lines.len() - 1] == last);
        assert forall|i: int| 0 <= i < last.drop_last().len() implies last.drop_last()[i]
            != '\n' by {
            assert(lines[lines.len() - 1][i] != '\n');
        }
        lemma_no_feeds(last.drop_last());
        if front.len() > 0 {
            assert(lines[front.len() - 1] == front.last());
        }
    }
}

proof fn lemma_drop_last_line(lines: Seq<Seq<char>>)
    requires
        are_lines(lines, lines.flatten()),
        lines.len() > 0,
    ensures
        are_lines(lines.drop_last(), lines.drop_last().flatten()),
{
    let front = lines.drop_last();
    assert forall|i: int| 0 <= i < front.len() implies (#[trigger] front[i]).len() > 0 by {
        assert(front[i] == lines[i]);
    }
    assert forall|i: int, j: int|
        0 <= i < front.len() && 0 <= j < front[i].len() - 1 implies #[trigger] front[i][j]
        != '\n' by {
        assert(lines[i][j] != '\n');
    }
    assert forall|i: int| 0 <= i < front.len() - 1 implies (#[trigger] front[i])[front[i].len() - 1]
        == '\n' by {
        assert(lines[i][lines[i].len() - 1] == '\n');
    }
}

pub(crate) proof fn lemma_some_lines(lines: Seq<Seq<char>>, k: int)
    requires
        are_lines(lines, lines.flatten()),
        0 <= k <= lines.len(),
    ensures
        are_lines(lines.take(k), lines.take(k).flatten()),
        are_lines(lines.skip(k), lines.skip(k).flatten()),
        k < lines.len() && k > 0 ==> lines.take(k).last().last() == '\n',
{
    let a = lines.take(k);
    let b = lines.skip(k);
    assert forall|i: int, j: int|
        0 <= i < a.len() && 0 <= j < a[i].len() - 1 implies #[trigger] a[i][j] != '\n' by {
        assert(lines[i][j] != '\n');
    }
    assert forall|i: int, j: int|
        0 <= i < b.len() && 0 <= j < b[i].len() - 1 implies #[trigger] b[i][j] != '\n' by {
        assert(lines[i + k][j] != '\n');
    }
    assert forall|i: int| 0 <= i < b.len() implies (#[trigger] b[i]).len() > 0 by {
        assert(lines[i + k].len() > 0);
    }
    assert forall|i: int| 0 <= i < b.len() - 1 implies (#[trigger] b[i])[b[i].len() - 1]
        == '\n' by {
        assert(lines[i + k][lines[i + k].len() - 1] == '\n');
    }
    if 0 < k < lines.len() {
        assert(lines[k - 1][lines[k - 1].len() - 1] == '\n');
    }
}

/// The first lines of a text are what it starts with, up to the end of a line or of
/// the text: as many lines as were asked for, or all.
pub proof fn law_head(s: Seq<char>, n: int)
    requires
        n >= 0,
    ensures
        ({
            let r = first_lines(s, n);
            &&& exists|rest: Seq<char>|
                s == #[trigger] (r + rest) && (rest.len() > 0 && r.len() > 0 ==> r.last() == '\n')
            &&& line_total(r) == smaller(n, line_total(s) as int)
        }),
{
    law_lines(s);
    let all = segments(s);
    let k = smaller(n, all.len() as int);
    let r = first_lines(s, n);
    let rest = all.skip(k).flatten();
    lemma_some_lines(all, k);
    lemma_line_total(all);
    lemma_line_total(all.take(k));
    assert(all =~= all.take(k) + all.skip(k));
    lemma_flatten_join(all.take(k), all.skip(k));
    assert(s == r + rest);
    if k == all.len() {
        assert(all.skip(k).flatten() =~= Seq::empty());
    }
}

/// The last lines of a text are what it ends with, from the start of a line or of
/// the text on: as many lines as were asked for, or all.
pub proof fn law_tail(s: Seq<char>, n: int)
    requires
        n >= 0,
    ensures
        ({
            let r = last_lines(s, n);
            &&& exists|rest: Seq<char>|
                s == #[trigger] (rest + r) && (rest.len() > 0 && r.len() > 0 ==> rest.last()
                    == '\n')
            &&& line_total(r) == smaller(n, line_total(s) as int)
        }),
{
    law_lines(s);
    let all = segments(s);
    let k = all.len() - smaller(n, all.len() as int);
    let r = last_lines(s, n);
    let rest = all.take(k).flatten();
    lemma_some_lines(all, k);
    lemma_line_total(all);
    lemma_line_total(all.skip(k));
    lemma_line_total(all.take(k));
    assert(all =~= all.take(k) + all.skip(k));
    lemma_flatten_join(all.take(k), all.skip(k));
    assert(s == rest + r);
    if k == all.len() {
        assert(all.skip(k).flatten() =~= Seq::empty());
    }
    if k == 0 {
        assert(all.take(k).flatten() =~= Seq::empty());
    }
}

proof fn lemma_flatten_join(a: Seq<Seq<char>>, b: Seq<Seq<char>>)
    ensures
        (a + b).flatten() == a.flatten() + b.flatten(),
    decreases b.len(),
{
    if b.len() == 0 {
        assert(a + b =~= a);
        assert(b.flatten() =~= Seq::empty());
        assert(a.flatten() + b.flatten() =~= a.flatten());
    } else {
        let c = b.drop_last();
        lemma_flatten_join(a, c);
        assert(a + b =~= (a + c).push(b.last()));
        assert(b =~= c.push(b.last()));
        (a + c).lemma_flatten_push(b.last());
        c.lemma_flatten_push(b.last());
        assert(a.flatten() + (c.flatten() + b.last()) =~= (a.flatten() + c.flatten()) + b.last());
    }
}

// ---------------------------------------------------------------------------
// Counting
// ---------------------------------------------------------------------------

proof fn lemma_times(s: Seq<char>, n: nat)
    requires
        n <= s.len(),
    ensures
        times_before(s, '\n', n) == feeds(s.take(n as int)),
        times_before(s, '\n', n) <= n,
    decreases n,
{
    if n > 0 {
        lemma_times(s, (n - 1) as nat);
        assert(s.take(n as int).drop_last() =~= s.take(n - 1));
    }
}

proof fn lemma_words_bound(s: Seq<char>, n: nat)
    ensures
        words_before(s, n) <= n,
    decreases n,
{
    if n > 0 {
        lemma_words_bound(s, (n - 1) as nat);
    }
}

proof fn lemma_words_of_start(a: Seq<char>, b: Seq<char>, n: nat)
    requires
        n <= a.len(),
    ensures
        words_before(a + b, n) == words_before(a, n),
    decreases n,
{
    if n > 0 {
        lemma_words_of_start(a, b, (n - 1) as nat);
        assert((a + b)[n - 1] == a[n - 1]);
        if n > 1 {
            assert((a + b)[n - 2] == a[n - 2]);
        }
    }
}

proof fn lemma_words_of_end(a: Seq<char>, c: char, b: Seq<char>, n: nat)
    requires
        n <= b.len(),
        is_white_space(c),
    ensures
        words_before(a + seq![c] + b, (a.len() + 1 + n) as nat) == words_before(a, a.len())
            + words_before(b, n),
    decreases n,
{
    let s = a + seq![c] + b;
    if n > 0 {
        lemma_words_of_end(a, c, b, (n - 1) as nat);
        assert(s[(a.len() + n) as int] == b[n - 1]);
        if n > 1 {
            assert(s[a.len() + n - 1] == b[n - 2]);
        } else {
            assert(s[a.len() as int] == c);
        }
    } else {
        assert(s =~= a + (seq![c] + b));
        lemma_words_of_start(a, seq![c] + b, a.len());
        assert(s[a.len() as int] == c);
    }
}

proof fn lemma_one_word(s: Seq<char>, n: nat)
    requires
        n <= s.len(),
        forall|i: int| 0 <= i < s.len() ==> !is_white_space(#[trigger] s[i]),
    ensures
        words_before(s, n) == if n > 0 {
            1nat
        } else {
            0nat
        },
    decreases n,
{
    if n > 0 {
        lemma_one_word(s, (n - 1) as nat);
        assert(!is_white_space(s[n - 1]));
        if n > 1 {
            assert(!is_white_space(s[n - 2]));
        }
    }
}

/// Whether a text is short enough to be counted.
pub open spec fn countable(s: Seq<char>) -> bool {
    s.len() <= usize::MAX && encode_utf8(s).len() <= u64::MAX
}

/// A text is counted in bytes of its encoding, in characters, and by the line feeds
/// in it.
pub proof fn law_counts(s: Seq<char>)
    requires
        countable(s),
    ensures
        counted_text(s).bytes == encode_utf8(s).len(),
        counted_text(s).chars == s.len(),
        counted_text(s).lines == feeds(s),
{
    lemma_times(s, s.len());
    assert(s.take(s.len() as int) =~= s);
}

/// Words are counted between white space: a text without any is one word, the empty
/// text is none, and the words on both sides of white space add up.
pub proof fn law_words(a: Seq<char>, c: char, b: Seq<char>)
    requires
        countable(a),
        countable(b),
        countable(a + seq![c] + b),
    ensures
        (forall|i: int| 0 <= i < a.len() ==> !unicode_white(#[trigger] a[i])) ==> counted_text(
            a,
        ).words == if a.len() > 0 {
            1int
        } else {
            0int
        },
        unicode_white(c) ==> counted_text(a + seq![c] + b).words == counted_text(a).words
            + counted_text(b).words,
{
    let s = a + seq![c] + b;
    lemma_words_bound(a, a.len());
    lemma_words_bound(b, b.len());
    lemma_words_bound(s, s.len());
    if forall|i: int| 0 <= i < a.len() ==> !unicode_white(#[trigger] a[i]) {
        assert forall|i: int| 0 <= i < a.len() implies !is_white_space(#[trigger] a[i]) by {
            law_white_space(a[i]);
            assert(!unicode_white(a[i]));
        }
        lemma_one_word(a, a.len());
    }
    if unicode_white(c) {
        law_white_space(c);
        lemma_words_of_end(a, c, b, b.len());
    }
}

// ---------------------------------------------------------------------------
// Order
// ---------------------------------------------------------------------------

/// Whether `a` and `b` agree up to index `k`, where `a` ends or has the character
/// that comes first.
pub open spec fn parts_at(a: Seq<char>, b: Seq<char>, k: int) -> bool {
    &&& 0 <= k <= a.len()
    &&& k <= b.len()
    &&& forall|i: int| 0 <= i < k ==> a[i] == b[i]
    &&& k == a.len() || (k < b.len() && a[k] < b[k])
}

/// One text stands before another, or is it, if and only if they agree up to where
/// the first ends or where it has the character that comes first.
pub proof fn law_text_order(a: Seq<char>, b: Seq<char>)
    ensures
        text_le(a, b) <==> exists|k: int| #[trigger] parts_at(a, b, k),
    decreases a.len(),
{
    if a.len() == 0 {
        assert(parts_at(a, b, 0));
    } else if b.len() == 0 {
    } else if a.first() == b.first() {
        let x = a.drop_first();
        let y = b.drop_first();
        law_text_order(x, y);
        if text_le(a, b) {
            let k = choose|k: int| #[trigger] parts_at(x, y, k);
            assert forall|i: int| 0 <= i < k + 1 implies a[i] == b[i] by {
                if i > 0 {
                    assert(a[i] == x[i - 1]);
                    assert(b[i] == y[i - 1]);
                }
            }
            if k < x.len() {
                assert(a[k + 1] == x[k] && b[k + 1] == y[k]);
            }
            assert(parts_at(a, b, k + 1));
        }
        if exists|k: int| #[trigger] parts_at(a, b, k) {
            let k = choose|k: int| #[trigger] parts_at(a, b, k);
            assert(k > 0);
            assert forall|i: int| 0 <= i < k - 1 implies x[i] == y[i] by {
                assert(a[i + 1] == b[i + 1]);
            }
            assert(parts_at(x, y, k - 1));
        }
    } else {
        if text_le(a, b) {
            assert(parts_at(a, b, 0));
        }
        if exists|k: int| #[trigger] parts_at(a, b, k) {
            let k = choose|k: int| #[trigger] parts_at(a, b, k);
            if k > 0 {
                assert(a[0] == b[0]);
            }
        }
    }
}

// ---------------------------------------------------------------------------
// Numbers
// ---------------------------------------------------------------------------

/// The number that a digit stands for, by its code point.
pub open spec fn digit_value(c: char) -> int {
    let code = c as int;
    if 48 <= code <= 57 {
        code - 48
    } else if 97 <= code <= 102 {
        code - 87
    } else {
        -1
    }
}

/// The number that digits in the given base stand for.
pub open spec fn digits_value(digits: Seq<char>, base: int) -> int
    decreases digits.len(),
{
    if digits.len() == 0 {
        0
    } else {
        digits_value(digits.drop_last(), base) * base + digit_value(digits.last())
    }
}

/// A number is written out in decimal digits that stand for it, without a zero
/// before them.
pub proof fn law_decimal(n: nat)
    ensures
        digits_value(decimal(n), 10) == n,
        decimal(n).len() > 0,
        forall|i: int|
            0 <= i < decimal(n).len() ==> 0 <= digit_value(#[trigger] decimal(n)[i]) < 10,
        decimal(n).len() > 1 ==> decimal(n)[0] != '0',
    decreases n,
{
    if n < 10 {
        assert(decimal(n).drop_last() =~= seq![]);
        assert(digits_value(decimal(n).drop_last(), 10) == 0);
    } else {
        let less = decimal(n / 10);
        law_decimal(n / 10);
        assert(decimal(n).drop_last() =~= less);
        assert forall|i: int| 0 <= i < decimal(n).len() implies 0 <= digit_value(
            #[trigger] decimal(n)[i],
        ) < 10 by {
            if i < less.len() {
                assert(decimal(n)[i] == less[i]);
            }
        }
        assert(decimal(n)[0] == less[0]);
        if less.len() == 1 {
            assert(less.drop_last() =~= seq![]);
            assert(digits_value(less.drop_last(), 10) == 0);
            assert(digit_value(less[0]) == n / 10);
        }
    }
}

/// A number is written out in so many hexadecimal digits, which stand for it where
/// they are enough.
pub proof fn law_hexadecimal(n: nat, width: nat)
    ensures
        hexadecimal(n, width).len() == width,
        forall|i: int|
            0 <= i < width ==> 0 <= digit_value(#[trigger] hexadecimal(n, width)[i]) < 16,
        n < power16(width) ==> digits_value(hexadecimal(n, width), 16) == n,
    decreases width,
{
    if width > 0 {
        let less = hexadecimal(n / 16, (width - 1) as nat);
        law_hexadecimal(n / 16, (width - 1) as nat);
        assert(hexadecimal(n, width).drop_last() =~= less);
        assert forall|i: int| 0 <= i < width implies 0 <= digit_value(
            #[trigger] hexadecimal(n, width)[i],
        ) < 16 by {
            if i < less.len() {
                assert(hexadecimal(n, width)[i] == less[i]);
            }
        }
    }
}

/// Sixteen to the power of `width`.
pub open spec fn power16(width: nat) -> int
    decreases width,
{
    if width == 0 {
        1
    } else {
        16 * power16((width - 1) as nat)
    }
}

} // verus!
