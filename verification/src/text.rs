//! Text as a sequence of characters: the splitting, trimming and formatting
//! rules that the other modules share, each stated over `Seq<char>`.

use vstd::prelude::*;
use vstd::utf8::*;

verus! {

/// `String::push` of std: appends one character.
pub assume_specification[ std::string::String::push ](s: &mut String, c: char)
    ensures
        final(s)@ == old(s)@.push(c),
;

/// The characters with the Unicode property White_Space.
pub open spec fn is_white_space(c: char) -> bool {
    ||| '\u{9}' <= c <= '\u{d}'
    ||| c == ' '
    ||| c == '\u{85}'
    ||| c == '\u{a0}'
    ||| c == '\u{1680}'
    ||| '\u{2000}' <= c <= '\u{200a}'
    ||| c == '\u{2028}'
    ||| c == '\u{2029}'
    ||| c == '\u{202f}'
    ||| c == '\u{205f}'
    ||| c == '\u{3000}'
}

/// Whether `c` is white space.
pub fn white_space(c: char) -> (r: bool)
    ensures
        r == is_white_space(c),
{
    ('\u{9}' <= c && c <= '\u{d}') || c == ' ' || c == '\u{85}' || c == '\u{a0}' || c == '\u{1680}'
        || ('\u{2000}' <= c && c <= '\u{200a}') || c == '\u{2028}' || c == '\u{2029}' || c
        == '\u{202f}' || c == '\u{205f}' || c == '\u{3000}'
}

/// The characters of `s`.
pub fn chars_of(s: &str) -> (r: Vec<char>)
    ensures
        r@ == s@,
{
    let mut r: Vec<char> = Vec::new();
    for c in it: s.chars()
        invariant
            it.seq() == s@,
            r@ == s@.take(it.index() as int),
    {
        r.push(c);
        assert(s@.take(it.index() as int + 1) =~= s@.take(it.index() as int).push(c));
    }
    assert(s@.take(s@.len() as int) =~= s@);
    r
}

/// The text of `chars[from..to]`.
pub fn string_of(chars: &Vec<char>, from: usize, to: usize) -> (r: String)
    requires
        from <= to <= chars@.len(),
    ensures
        r@ == chars@.subrange(from as int, to as int),
{
    let mut r = String::new();
    let mut i: usize = from;
    while i < to
        invariant
            from <= i <= to <= chars@.len(),
            r@ == chars@.subrange(from as int, i as int),
        decreases to - i,
    {
        r.push(chars[i]);
        assert(chars@.subrange(from as int, i as int + 1) =~= chars@.subrange(
            from as int,
            i as int,
        ).push(chars@[i as int]));
        i = i + 1;
    }
    r
}

// ---------------------------------------------------------------------------
// Trimming
// ---------------------------------------------------------------------------

/// `s` without its leading white space.
pub open spec fn trimmed_start(s: Seq<char>) -> Seq<char>
    decreases s.len(),
{
    if s.len() > 0 && is_white_space(s.first()) {
        trimmed_start(s.drop_first())
    } else {
        s
    }
}

/// `s` without its trailing white space.
pub open spec fn trimmed_end(s: Seq<char>) -> Seq<char>
    decreases s.len(),
{
    if s.len() > 0 && is_white_space(s.last()) {
        trimmed_end(s.drop_last())
    } else {
        s
    }
}

/// `s` without its leading and trailing white space.
pub open spec fn trimmed(s: Seq<char>) -> Seq<char> {
    trimmed_end(trimmed_start(s))
}

/// The first index in `from..=to` from which `chars[..to]` does not start with
/// white space.
pub fn skip_white_space(chars: &Vec<char>, from: usize, to: usize) -> (r: usize)
    requires
        from <= to <= chars@.len(),
    ensures
        from <= r <= to,
        chars@.subrange(r as int, to as int) == trimmed_start(
            chars@.subrange(from as int, to as int),
        ),
{
    let mut i: usize = from;
    while i < to && white_space(chars[i])
        invariant
            from <= i <= to <= chars@.len(),
            trimmed_start(chars@.subrange(i as int, to as int)) == trimmed_start(
                chars@.subrange(from as int, to as int),
            ),
        decreases to - i,
    {
        assert(chars@.subrange(i as int, to as int).drop_first() =~= chars@.subrange(
            i as int + 1,
            to as int,
        ));
        i = i + 1;
    }
    i
}

/// The end of `chars[from..to]` once its trailing white space is left out.
pub fn drop_white_space(chars: &Vec<char>, from: usize, to: usize) -> (r: usize)
    requires
        from <= to <= chars@.len(),
    ensures
        from <= r <= to,
        chars@.subrange(from as int, r as int) == trimmed_end(
            chars@.subrange(from as int, to as int),
        ),
{
    let mut j: usize = to;
    while j > from && white_space(chars[j - 1])
        invariant
            from <= j <= to <= chars@.len(),
            trimmed_end(chars@.subrange(from as int, j as int)) == trimmed_end(
                chars@.subrange(from as int, to as int),
            ),
        decreases j,
    {
        assert(chars@.subrange(from as int, j as int).drop_last() =~= chars@.subrange(
            from as int,
            j as int - 1,
        ));
        j = j - 1;
    }
    j
}

/// `chars[from..to]` as text, without leading and trailing white space.
pub fn trimmed_text(chars: &Vec<char>, from: usize, to: usize) -> (r: String)
    requires
        from <= to <= chars@.len(),
    ensures
        r@ == trimmed(chars@.subrange(from as int, to as int)),
{
    let i: usize = skip_white_space(chars, from, to);
    let j: usize = drop_white_space(chars, i, to);
    string_of(chars, i, j)
}

/// `s` without leading and trailing white space.
pub fn trim(s: &str) -> (r: String)
    ensures
        r@ == trimmed(s@),
{
    let chars = chars_of(s);
    let n: usize = chars.len();
    assert(chars@.subrange(0, n as int) =~= s@);
    trimmed_text(&chars, 0, n)
}

// ---------------------------------------------------------------------------
// Lines
// ---------------------------------------------------------------------------

/// Length of the first line of `s`, its `\n` included.
pub open spec fn segment_len(s: Seq<char>) -> nat
    decreases s.len(),
{
    if s.len() == 0 {
        0
    } else if s.first() == '\n' {
        1
    } else {
        1 + segment_len(s.drop_first())
    }
}

/// The first line of a text that is not empty is not empty and lies in it.
pub proof fn lemma_segment_len(s: Seq<char>)
    ensures
        segment_len(s) <= s.len(),
        s.len() > 0 ==> segment_len(s) > 0,
    decreases s.len(),
{
    if s.len() > 0 && s.first() != '\n' {
        lemma_segment_len(s.drop_first());
    }
}

/// The lines of `s`, each with the `\n` that ends it. A text without a final
/// `\n` ends in a line without one; the empty text has no line.
pub open spec fn segments(s: Seq<char>) -> Seq<Seq<char>>
    decreases s.len(),
{
    if s.len() == 0 {
        seq![]
    } else {
        proof {
            lemma_segment_len(s);
        }
        seq![s.take(segment_len(s) as int)] + segments(s.skip(segment_len(s) as int))
    }
}

/// The lines of a text, put together again, are the text.
pub proof fn lemma_segments_flatten(s: Seq<char>)
    ensures
        segments(s).flatten() == s,
    decreases s.len(),
{
    if s.len() == 0 {
        assert(segments(s).flatten() =~= s);
    } else {
        lemma_segment_len(s);
        let n = segment_len(s) as int;
        lemma_segments_flatten(s.skip(n));
        assert(segments(s).drop_first() =~= segments(s.skip(n)));
        assert(s.take(n) + s.skip(n) =~= s);
    }
}

/// The end of the line of `chars` that starts at `from`.
pub fn segment_end(chars: &Vec<char>, from: usize) -> (r: usize)
    requires
        from < chars@.len(),
    ensures
        from < r <= chars@.len(),
        r == from + segment_len(chars@.skip(from as int)),
{
    let mut i: usize = from;
    while i < chars.len() && chars[i] != '\n'
        invariant
            from <= i <= chars@.len(),
            segment_len(chars@.skip(from as int)) == (i - from) + segment_len(
                chars@.skip(i as int),
            ),
        decreases chars@.len() - i,
    {
        assert(chars@.skip(i as int).drop_first() =~= chars@.skip(i as int + 1));
        i = i + 1;
    }
    proof {
        lemma_segment_len(chars@.skip(from as int));
    }
    if i < chars.len() {
        i + 1
    } else {
        i
    }
}

/// The lines of `s` from line `k` on are those of what follows its first `k` lines.
pub open spec fn at_segment(s: Seq<char>, k: int, pos: int) -> bool {
    &&& 0 <= k <= segments(s).len()
    &&& 0 <= pos <= s.len()
    &&& segments(s).take(k).flatten() == s.take(pos)
    &&& segments(s).skip(k) == segments(s.skip(pos))
}

/// A text's first line starts at its start.
pub proof fn lemma_at_segment_start(s: Seq<char>)
    ensures
        at_segment(s, 0, 0),
{
    assert(segments(s).take(0).flatten() =~= s.take(0));
    assert(segments(s).skip(0) =~= segments(s));
    assert(s.skip(0) =~= s);
}

/// Where a line starts, the next one starts after it.
pub proof fn lemma_at_segment_next(s: Seq<char>, k: int, pos: int)
    requires
        at_segment(s, k, pos),
        pos < s.len(),
    ensures
        k < segments(s).len(),
        segments(s)[k] == s.subrange(pos, pos + segment_len(s.skip(pos))),
        at_segment(s, k + 1, pos + segment_len(s.skip(pos))),
{
    let n = segment_len(s.skip(pos)) as int;
    let rest = s.skip(pos);
    lemma_segment_len(rest);
    assert(segments(s).skip(k) == seq![rest.take(n)] + segments(rest.skip(n)));
    assert(segments(s).skip(k)[0] == rest.take(n));
    assert(rest.take(n) =~= s.subrange(pos, pos + n));
    assert(segments(s).take(k + 1) =~= segments(s).take(k).push(segments(s)[k]));
    segments(s).take(k).lemma_flatten_push(segments(s)[k]);
    assert(s.take(pos) + s.subrange(pos, pos + n) =~= s.take(pos + n));
    assert(segments(s).skip(k + 1) =~= segments(s).skip(k).drop_first());
    assert(segments(s).skip(k).drop_first() =~= segments(rest.skip(n)));
    assert(rest.skip(n) =~= s.skip(pos + n));
}

/// The last line ends where the text does.
pub proof fn lemma_at_segment_end(s: Seq<char>, k: int, pos: int)
    requires
        at_segment(s, k, pos),
    ensures
        pos == s.len() <==> k == segments(s).len(),
{
    assert(segments(s).skip(k).len() == segments(s).len() - k);
    if pos < s.len() {
        lemma_at_segment_next(s, k, pos);
    }
}

/// A line without the line ending that may close it: `\n`, or `\r\n`.
pub open spec fn without_line_ending(line: Seq<char>) -> Seq<char> {
    if line.len() > 0 && line.last() == '\n' {
        let rest = line.drop_last();
        if rest.len() > 0 && rest.last() == '\r' {
            rest.drop_last()
        } else {
            rest
        }
    } else {
        line
    }
}

/// The end of the line `chars[from..to]` without its line ending.
pub fn line_text_end(chars: &Vec<char>, from: usize, to: usize) -> (r: usize)
    requires
        from <= to <= chars@.len(),
    ensures
        from <= r <= to,
        chars@.subrange(from as int, r as int) == without_line_ending(
            chars@.subrange(from as int, to as int),
        ),
{
    let ghost line = chars@.subrange(from as int, to as int);
    if to > from && chars[to - 1] == '\n' {
        assert(line.drop_last() =~= chars@.subrange(from as int, to as int - 1));
        if to - 1 > from && chars[to - 2] == '\r' {
            assert(line.drop_last().drop_last() =~= chars@.subrange(from as int, to as int - 2));
            to - 2
        } else {
            to - 1
        }
    } else {
        to
    }
}

/// A line without any `\n` and `\r` at its end.
pub open spec fn without_newlines(line: Seq<char>) -> Seq<char>
    decreases line.len(),
{
    if line.len() > 0 && (line.last() == '\n' || line.last() == '\r') {
        without_newlines(line.drop_last())
    } else {
        line
    }
}

/// The end of `chars[from..to]` once every `\n` and `\r` at its end is left out.
pub fn strip_newlines(chars: &Vec<char>, from: usize, to: usize) -> (r: usize)
    requires
        from <= to <= chars@.len(),
    ensures
        from <= r <= to,
        chars@.subrange(from as int, r as int) == without_newlines(
            chars@.subrange(from as int, to as int),
        ),
{
    let mut j: usize = to;
    while j > from && (chars[j - 1] == '\n' || chars[j - 1] == '\r')
        invariant
            from <= j <= to <= chars@.len(),
            without_newlines(chars@.subrange(from as int, j as int)) == without_newlines(
                chars@.subrange(from as int, to as int),
            ),
        decreases j,
    {
        assert(chars@.subrange(from as int, j as int).drop_last() =~= chars@.subrange(
            from as int,
            j as int - 1,
        ));
        j = j - 1;
    }
    j
}

/// The texts that `strings` hold.
pub open spec fn texts(strings: Seq<String>) -> Seq<Seq<char>> {
    strings.map_values(|s: String| s@)
}

// ---------------------------------------------------------------------------
// Comparing and replacing
// ---------------------------------------------------------------------------

/// Whether `s` starts with `prefix`.
pub open spec fn has_prefix<A>(s: Seq<A>, prefix: Seq<A>) -> bool {
    prefix.len() <= s.len() && s.take(prefix.len() as int) == prefix
}

/// Whether `prefix` stands in `chars[from..to]`, at its start.
pub fn starts_at(chars: &Vec<char>, from: usize, to: usize, prefix: &Vec<char>) -> (r: bool)
    requires
        from <= to <= chars@.len(),
    ensures
        r == has_prefix(chars@.subrange(from as int, to as int), prefix@),
{
    let ghost part = chars@.subrange(from as int, to as int);
    if prefix.len() > to - from {
        return false;
    }
    let mut i: usize = 0;
    while i < prefix.len()
        invariant
            0 <= i <= prefix@.len() <= to - from,
            from <= to <= chars@.len(),
            part == chars@.subrange(from as int, to as int),
            forall|k: int| 0 <= k < i ==> part[k] == prefix@[k],
        decreases prefix@.len() - i,
    {
        if chars[from + i] != prefix[i] {
            assert(part.take(prefix@.len() as int)[i as int] != prefix@[i as int]);
            return false;
        }
        i = i + 1;
    }
    assert(part.take(prefix@.len() as int) =~= prefix@);
    true
}

/// Whether `s` starts with `prefix`.
pub fn starts_with(s: &str, prefix: &str) -> (r: bool)
    ensures
        r == has_prefix(s@, prefix@),
{
    let chars = chars_of(s);
    let n: usize = chars.len();
    assert(chars@.subrange(0, n as int) =~= s@);
    starts_at(&chars, 0, n, &chars_of(prefix))
}

/// Whether two texts are equal.
pub fn same_text(a: &str, b: &str) -> (r: bool)
    ensures
        r == (a@ == b@),
{
    let x = a.as_bytes();
    let y = b.as_bytes();
    proof {
        encode_utf8_decode_utf8(a@);
        encode_utf8_decode_utf8(b@);
    }
    if x.len() != y.len() {
        return false;
    }
    let mut i: usize = 0;
    while i < x.len()
        invariant
            0 <= i <= x@.len(),
            x@.len() == y@.len(),
            x@ == encode_utf8(a@),
            y@ == encode_utf8(b@),
            forall|k: int| 0 <= k < i ==> x@[k] == y@[k],
        decreases x@.len() - i,
    {
        if x[i] != y[i] {
            return false;
        }
        i = i + 1;
    }
    assert(x@ =~= y@);
    true
}

/// Whether `c` occurs in `chars[from..to]`.
pub fn has_char(chars: &Vec<char>, from: usize, to: usize, c: char) -> (r: bool)
    requires
        from <= to <= chars@.len(),
    ensures
        r == chars@.subrange(from as int, to as int).contains(c),
{
    let ghost part = chars@.subrange(from as int, to as int);
    let mut i: usize = from;
    while i < to
        invariant
            from <= i <= to <= chars@.len(),
            part == chars@.subrange(from as int, to as int),
            forall|k: int| 0 <= k < i - from ==> part[k] != c,
        decreases to - i,
    {
        if chars[i] == c {
            assert(part[i - from] == c);
            return true;
        }
        i = i + 1;
    }
    false
}

/// `s` with every occurrence of `from`, taken from the left and without
/// overlap, replaced by `to`.
pub open spec fn replaced(s: Seq<char>, from: Seq<char>, to: Seq<char>) -> Seq<char>
    decreases s.len(),
{
    if s.len() == 0 || from.len() == 0 {
        s
    } else if has_prefix(s, from) {
        to + replaced(s.skip(from.len() as int), from, to)
    } else {
        seq![s.first()] + replaced(s.drop_first(), from, to)
    }
}

/// `s` with every occurrence of `from`, which is not empty, replaced by `to`.
pub fn replace(s: &Vec<char>, from: &str, to: &str) -> (r: Vec<char>)
    requires
        from@.len() > 0,
    ensures
        r@ == replaced(s@, from@, to@),
{
    let pat = chars_of(from);
    let with = chars_of(to);
    let n: usize = s.len();
    let mut r: Vec<char> = Vec::new();
    let mut i: usize = 0;
    assert(s@.skip(0) =~= s@);
    assert(r@ + replaced(s@, from@, to@) =~= replaced(s@, from@, to@));
    while i < n
        invariant
            0 <= i <= n == s@.len(),
            pat@ == from@,
            with@ == to@,
            from@.len() > 0,
            r@ + replaced(s@.skip(i as int), from@, to@) == replaced(s@, from@, to@),
        decreases n - i,
    {
        let ghost rest = s@.skip(i as int);
        let ghost before = r@;
        assert(s@.subrange(i as int, n as int) =~= rest);
        if starts_at(s, i, n, &pat) {
            append_chars(&mut r, &with);
            assert(rest.skip(from@.len() as int) =~= s@.skip(i + from@.len()));
            assert(before + (to@ + replaced(rest.skip(from@.len() as int), from@, to@)) =~= r@
                + replaced(s@.skip(i + from@.len()), from@, to@));
            i = i + pat.len();
        } else {
            r.push(s[i]);
            assert(rest.drop_first() =~= s@.skip(i as int + 1));
            assert(before + (seq![rest.first()] + replaced(rest.drop_first(), from@, to@)) =~= r@
                + replaced(s@.skip(i as int + 1), from@, to@));
            i = i + 1;
        }
    }
    assert(s@.skip(n as int) =~= Seq::empty());
    assert(r@ + Seq::<char>::empty() =~= r@);
    r
}

/// Puts `more` at the end of `chars`.
pub fn append_chars(chars: &mut Vec<char>, more: &Vec<char>)
    ensures
        final(chars)@ == old(chars)@ + more@,
{
    let ghost before = chars@;
    let mut i: usize = 0;
    assert(before + more@.take(0) =~= before);
    while i < more.len()
        invariant
            0 <= i <= more@.len(),
            chars@ == before + more@.take(i as int),
        decreases more@.len() - i,
    {
        chars.push(more[i]);
        assert(before + more@.take(i as int + 1) =~= (before + more@.take(i as int)).push(
            more@[i as int],
        ));
        i = i + 1;
    }
    assert(more@.take(i as int) =~= more@);
}

// ---------------------------------------------------------------------------
// Numbers
// ---------------------------------------------------------------------------

/// The digit `d` in a base of at most sixteen.
pub open spec fn digit(d: nat) -> char {
    if d < 10 {
        ('0' as u8 + d) as u8 as char
    } else {
        ('a' as u8 + d - 10) as u8 as char
    }
}

/// `n` in decimal notation.
pub open spec fn decimal(n: nat) -> Seq<char>
    decreases n,
{
    if n < 10 {
        seq![digit(n)]
    } else {
        decimal(n / 10).push(digit(n % 10))
    }
}

/// The last `width` digits of `n` in hexadecimal notation.
pub open spec fn hexadecimal(n: nat, width: nat) -> Seq<char>
    decreases width,
{
    if width == 0 {
        seq![]
    } else {
        hexadecimal(n / 16, (width - 1) as nat).push(digit(n % 16))
    }
}

fn digit_char(d: u8) -> (r: char)
    requires
        d < 16,
    ensures
        r == digit(d as nat),
{
    if d < 10 {
        (48 + d) as char
    } else {
        (97 + (d - 10)) as char
    }
}

/// `n` in decimal notation.
pub fn decimal_text(n: u64) -> (r: String)
    ensures
        r@ == decimal(n as nat),
    decreases n,
{
    if n < 10 {
        let mut r = String::new();
        r.push(digit_char(n as u8));
        assert(r@ =~= seq![digit(n as nat)]);
        r
    } else {
        let mut r = decimal_text(n / 10);
        r.push(digit_char((n % 10) as u8));
        r
    }
}

/// The last `width` digits of `n` in hexadecimal notation.
pub fn hexadecimal_text(n: u32, width: u8) -> (r: String)
    ensures
        r@ == hexadecimal(n as nat, width as nat),
    decreases width,
{
    if width == 0 {
        String::new()
    } else {
        let mut r = hexadecimal_text(n / 16, width - 1);
        r.push(digit_char((n % 16) as u8));
        r
    }
}

} // verus!
