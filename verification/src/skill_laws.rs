//! What holds of the frontmatter of every skill file.

use vstd::prelude::*;

use crate::skills::{
    after_opening, bare_description_from, description_value, escaped, fence_from,
    is_bare_description, is_fence, parsed_as, quoted_line, requoted, split, value_text,
    without_marks, ParsedFrontmatter, RawFrontmatter, YamlValue,
};
use crate::text::{
    has_prefix, lemma_segments_flatten, replaced, segments, trimmed_start, without_newlines,
};
use crate::text_laws::{
    all_newlines, all_white, are_lines, is_core_of, law_lines, law_stripping_newlines,
    law_trimming, law_trimming_the_start, law_white_space, lemma_replaced_behind,
    lemma_replaced_first, lemma_some_lines, unicode_white,
};

verus! {

proof fn lemma_fence_from(lines: Seq<Seq<char>>, k: int)
    requires
        0 <= k,
    ensures
        match fence_from(lines, k) {
            Some(i) => k <= i < lines.len() && is_fence(lines[i]) && forall|j: int|
                k <= j < i ==> !is_fence(#[trigger] lines[j]),
            None => forall|j: int| k <= j < lines.len() ==> !is_fence(#[trigger] lines[j]),
        },
    decreases lines.len() - k,
{
    if k < lines.len() && !is_fence(lines[k]) {
        lemma_fence_from(lines, k + 1);
    }
}

proof fn lemma_flatten_split(lines: Seq<Seq<char>>, k: int)
    requires
        0 <= k < lines.len(),
    ensures
        lines.flatten() == lines.take(k).flatten() + lines[k] + lines.skip(k + 1).flatten(),
    decreases k,
{
    if k == 0 {
        assert(lines.take(0).flatten() =~= Seq::empty());
        assert(lines.skip(1) =~= lines.drop_first());
        assert(lines.take(0).flatten() + lines[0] =~= lines[0]);
    } else {
        let rest = lines.drop_first();
        lemma_flatten_split(rest, k - 1);
        assert(rest.take(k - 1) =~= lines.take(k).drop_first());
        assert(rest.skip(k) =~= lines.skip(k + 1));
        let a = rest.take(k - 1).flatten();
        let b = lines.skip(k + 1).flatten();
        assert(lines.take(k).flatten() == lines[0] + a);
        assert(lines[0] + ((a + lines[k]) + b) =~= ((lines[0] + a) + lines[k]) + b);
    }
}

/// A skill file that can be split is, byte order marks aside, its opening line,
/// its frontmatter, a closing line and its body, in this order, and no line of
/// the frontmatter is a closing line.
pub proof fn law_a_split_loses_nothing(raw: Seq<char>)
    requires
        split(raw) is Ok,
    ensures
        ({
            let (front, body) = split(raw)->Ok_0;
            let whole = without_marks(raw);
            let rest = after_opening(whole)->0;
            let k = fence_from(segments(rest), 0)->0;
            &&& whole == "---\n"@ + rest || whole == "---\r\n"@ + rest
            &&& 0 <= k < segments(rest).len()
            &&& is_fence(segments(rest)[k])
            &&& rest == front + segments(rest)[k] + body
            &&& front == segments(rest).take(k).flatten()
            &&& forall|j: int| 0 <= j < k ==> !is_fence(#[trigger] segments(rest)[j])
        }),
{
    let whole = without_marks(raw);
    let rest = after_opening(whole)->0;
    let lines = segments(rest);
    reveal_strlit("---\n");
    reveal_strlit("---\r\n");
    if has_prefix(whole, "---\n"@) {
        assert(whole =~= whole.take(4) + whole.skip(4));
    } else {
        assert(whole =~= whole.take(5) + whole.skip(5));
    }
    lemma_fence_from(lines, 0);
    lemma_segments_flatten(rest);
    lemma_flatten_split(lines, fence_from(lines, 0)->0);
}

/// A file is refused for want of an end of its frontmatter if and only if it
/// starts with an opening line and no later line closes it.
pub proof fn law_a_frontmatter_must_end(raw: Seq<char>)
    ensures
        after_opening(without_marks(raw)) is None <==> split(raw) == Err::<
            (Seq<char>, Seq<char>),
            Seq<char>,
        >("file does not start with `---`"@),
        after_opening(without_marks(raw)) matches Some(rest) ==> ((forall|j: int|
            0 <= j < segments(rest).len() ==> !is_fence(#[trigger] segments(rest)[j]))
            <==> split(raw) is Err),
{
    reveal_strlit("file does not start with `---`");
    reveal_strlit("no closing `---` for frontmatter");
    assert("file does not start with `---`"@.len() != "no closing `---` for frontmatter"@.len());
    match after_opening(without_marks(raw)) {
        Some(rest) => {
            lemma_fence_from(segments(rest), 0);
        },
        None => {},
    }
}

proof fn lemma_without_newlines_keeps(line: Seq<char>, i: int)
    requires
        0 <= i < line.len(),
        line[i] != '\n',
        line[i] != '\r',
    ensures
        i < without_newlines(line).len() <= line.len(),
        without_newlines(line) == line.take(without_newlines(line).len() as int),
    decreases line.len(),
{
    if line.last() == '\n' || line.last() == '\r' {
        let front = line.drop_last();
        assert(front[i] == line[i]);
        lemma_without_newlines_keeps(front, i);
        assert(front.take(without_newlines(line).len() as int) =~= line.take(
            without_newlines(line).len() as int,
        ));
    } else {
        assert(line.take(line.len() as int) =~= line);
    }
}

/// A description that was put in quotes needs none.
pub proof fn law_quoted_descriptions_need_no_quotes(line: Seq<char>)
    requires
        is_bare_description(line),
    ensures
        !is_bare_description(quoted_line(line)),
        has_prefix(quoted_line(line), "description: \""@),
{
    reveal_strlit("description: \"");
    reveal_strlit("description:");
    let q = quoted_line(line);
    assert(q.take("description: \""@.len() as int) =~= "description: \""@);
    assert forall|i: int| 0 <= i < 14 implies q[i] == "description: \""@[i] by {
        assert(q.take(14)[i] == q[i]);
    }
    lemma_without_newlines_keeps(q, 13);
    let stripped = without_newlines(q);
    assert(stripped.take(12) =~= "description:"@);
    let value = stripped.skip(12);
    assert(value[0] == ' ');
    assert(value.drop_first()[0] == '"');
    reveal_with_fuel(trimmed_start, 2);
    assert(trimmed_start(value) == value.drop_first());
}

// ---------------------------------------------------------------------------
// What a split is
// ---------------------------------------------------------------------------

/// Whether all of `s` is byte order marks.
pub open spec fn all_marks(s: Seq<char>) -> bool {
    forall|i: int| 0 <= i < s.len() ==> #[trigger] s[i] == '\u{feff}'
}

/// Whether a line is three dashes, and behind them nothing but line feeds and
/// carriage returns.
pub open spec fn is_dashes(line: Seq<char>) -> bool {
    &&& line.len() >= 3
    &&& line[0] == '-' && line[1] == '-' && line[2] == '-'
    &&& forall|i: int| 3 <= i < line.len() ==> #[trigger] line[i] == '\n' || line[i] == '\r'
}

/// Whether `raw` is byte order marks, if any, a line of three dashes, and `rest`.
pub open spec fn opens(raw: Seq<char>, rest: Seq<char>) -> bool {
    exists|marks: Seq<char>, dashes: Seq<char>|
        {
            &&& raw == #[trigger] (marks + dashes) + rest
            &&& all_marks(marks)
            &&& dashes == seq!['-', '-', '-', '\n'] || dashes == seq!['-', '-', '-', '\r', '\n']
        }
}

/// Whether `s` is lines none of which is three dashes.
pub open spec fn no_dashes(s: Seq<char>) -> bool {
    exists|lines: Seq<Seq<char>>|
        are_lines(lines, s) && forall|i: int|
            0 <= i < lines.len() ==> !is_dashes(#[trigger] lines[i])
}

/// Whether no line of three dashes stands at the start of `raw`.
pub open spec fn never_opens(raw: Seq<char>) -> bool {
    forall|rest: Seq<char>| !#[trigger] opens(raw, rest)
}

/// Whether a line of three dashes stands at the start of `raw`, and no other behind it.
pub open spec fn never_closes(raw: Seq<char>) -> bool {
    exists|rest: Seq<char>| #[trigger] opens(raw, rest) && no_dashes(rest)
}

/// Whether `rest` is the lines of `front`, none of which is three dashes, a line
/// that is, and `body`.
pub open spec fn parts_into(rest: Seq<char>, front: Seq<char>, body: Seq<char>) -> bool {
    &&& no_dashes(front)
    &&& front.len() > 0 ==> front.last() == '\n'
    &&& exists|closing: Seq<char>|
        {
            &&& rest == #[trigger] (front + closing) + body
            &&& is_dashes(closing)
            &&& forall|i: int| 0 <= i < closing.len() - 1 ==> #[trigger] closing[i] != '\n'
            &&& body.len() > 0 ==> closing.last() == '\n'
        }
}

proof fn lemma_fence_is_dashes(line: Seq<char>)
    ensures
        is_fence(line) <==> is_dashes(line),
{
    reveal_strlit("---");
    law_stripping_newlines(line);
    let r = without_newlines(line);
    let tail = line.skip(r.len() as int);
    if is_fence(line) {
        assert(line[0] == r[0] && line[1] == r[1] && line[2] == r[2]);
        assert forall|i: int| 3 <= i < line.len() implies #[trigger] line[i] == '\n' || line[i]
            == '\r' by {
            assert(line[i] == tail[i - 3]);
        }
    }
    if is_dashes(line) {
        if r.len() > 3 {
            assert(r.last() == line[r.len() - 1]);
        }
        if r.len() < 3 {
            assert(tail[0] == line[r.len() as int]);
            assert(tail[0] == '\n' || tail[0] == '\r');
        }
        assert(r =~= "---"@) by {
            assert forall|i: int| 0 <= i < 3 implies r[i] == "---"@[i] by {
                assert(r[i] == line[i]);
            }
        }
    }
}

proof fn lemma_marks(raw: Seq<char>)
    ensures
        without_marks(raw).len() <= raw.len(),
        raw == raw.take(raw.len() - without_marks(raw).len()) + without_marks(raw),
        all_marks(raw.take(raw.len() - without_marks(raw).len())),
    decreases raw.len(),
{
    if raw.len() > 0 && raw.first() == '\u{feff}' {
        let rest = raw.drop_first();
        lemma_marks(rest);
        let n = raw.len() - without_marks(raw).len();
        let a = raw.take(n);
        assert(a =~= seq![raw.first()] + rest.take(n - 1));
        assert forall|i: int| 0 <= i < a.len() implies #[trigger] a[i] == '\u{feff}' by {
            if i > 0 {
                assert(a[i] == rest.take(n - 1)[i - 1]);
            }
        }
        let w = without_marks(raw);
        assert(rest == rest.take(n - 1) + w);
        assert(raw =~= seq![raw.first()] + (rest.take(n - 1) + w));
        assert(raw =~= a + w);
    } else {
        assert(raw.take(0) + raw =~= raw);
    }
}

proof fn lemma_behind_marks(marks: Seq<char>, s: Seq<char>)
    requires
        all_marks(marks),
        s.len() > 0,
        s[0] != '\u{feff}',
    ensures
        without_marks(marks + s) == s,
    decreases marks.len(),
{
    if marks.len() == 0 {
        assert(marks + s =~= s);
    } else {
        let raw = marks + s;
        assert(raw[0] == marks[0]);
        assert(raw.drop_first() =~= marks.drop_first() + s);
        assert forall|i: int| 0 <= i < marks.drop_first().len() implies #[trigger]
            marks.drop_first()[i] == '\u{feff}' by {
            assert(marks.drop_first()[i] == marks[i + 1]);
        }
        lemma_behind_marks(marks.drop_first(), s);
    }
}

proof fn lemma_after_dashes(marks: Seq<char>, dashes: Seq<char>, rest: Seq<char>)
    requires
        all_marks(marks),
        dashes == seq!['-', '-', '-', '\n'] || dashes == seq!['-', '-', '-', '\r', '\n'],
    ensures
        after_opening(without_marks((marks + dashes) + rest)) == Some(rest),
{
    let s = dashes + rest;
    assert((marks + dashes) + rest =~= marks + s);
    assert(s[0] == '-');
    lemma_behind_marks(marks, s);
    lemma_dashes();
    assert(s.take(dashes.len() as int) =~= dashes);
    assert(s.skip(dashes.len() as int) =~= rest);
    if dashes.len() == 5 && has_prefix(s, "---\n"@) {
        assert(s[3] == '\r');
        assert(s.take(4)[3] == s[3]);
    }
}

proof fn lemma_dashes()
    ensures
        "---\n"@ == seq!['-', '-', '-', '\n'],
        "---\r\n"@ == seq!['-', '-', '-', '\r', '\n'],
{
    reveal_strlit("---\n");
    reveal_strlit("---\r\n");
    assert("---\n"@ =~= seq!['-', '-', '-', '\n']);
    assert("---\r\n"@ =~= seq!['-', '-', '-', '\r', '\n']);
}

proof fn lemma_opening(raw: Seq<char>)
    ensures
        after_opening(without_marks(raw)) matches Some(rest) ==> opens(raw, rest),
{
    lemma_marks(raw);
    lemma_dashes();
    let s = without_marks(raw);
    let marks = raw.take(raw.len() - s.len());
    match after_opening(s) {
        Some(rest) => {
            let dashes = if has_prefix(s, "---\n"@) {
                "---\n"@
            } else {
                "---\r\n"@
            };
            assert(s =~= dashes + rest);
            assert(raw =~= (marks + dashes) + rest);
        },
        None => {},
    }
}

proof fn lemma_opens(raw: Seq<char>, rest: Seq<char>)
    ensures
        opens(raw, rest) <==> after_opening(without_marks(raw)) == Some(rest),
{
    lemma_opening(raw);
    if opens(raw, rest) {
        let (marks, dashes) = choose|marks: Seq<char>, dashes: Seq<char>|
            {
                &&& raw == #[trigger] (marks + dashes) + rest
                &&& all_marks(marks)
                &&& dashes == seq!['-', '-', '-', '\n'] || dashes
                    == seq!['-', '-', '-', '\r', '\n']
            };
        lemma_after_dashes(marks, dashes, rest);
    }
}

/// A skill file is split into what stands between its first line, which is three
/// dashes, and the next such line, and what stands behind that. It is refused where
/// it does not start with such a line, and where no other such line follows.
pub proof fn law_splitting(raw: Seq<char>)
    ensures
        match split(raw) {
            Ok((front, body)) => exists|rest: Seq<char>| #[trigger]
                opens(raw, rest) && parts_into(rest, front, body),
            Err(message) => {
                ||| message == "file does not start with `---`"@ && never_opens(raw)
                ||| message == "no closing `---` for frontmatter"@ && never_closes(raw)
            },
        },
{
    match after_opening(without_marks(raw)) {
        None => {
            assert forall|rest: Seq<char>| !#[trigger] opens(raw, rest) by {
                lemma_opens(raw, rest);
            }
            assert(never_opens(raw));
        },
        Some(rest) => {
            lemma_opens(raw, rest);
            assert(opens(raw, rest));
            let lines = segments(rest);
            law_lines(rest);
            lemma_fence_from(lines, 0);
            assert forall|j: int| 0 <= j < lines.len() implies is_fence(lines[j]) == is_dashes(
                #[trigger] lines[j],
            ) by {
                lemma_fence_is_dashes(lines[j]);
            }
            match fence_from(lines, 0) {
                None => {
                    assert(no_dashes(rest));
                    assert(never_closes(raw));
                },
                Some(k) => {
                    let front = lines.take(k).flatten();
                    let body = lines.skip(k + 1).flatten();
                    lemma_some_lines(lines, k);
                    lemma_flatten_split(lines, k);
                    assert forall|i: int| 0 <= i < lines.take(k).len() implies !is_dashes(
                        #[trigger] lines.take(k)[i],
                    ) by {
                        assert(lines.take(k)[i] == lines[i]);
                    }
                    assert(no_dashes(front));
                    lemma_line_end(lines, k);
                    if k + 1 == lines.len() {
                        assert(lines.skip(k + 1).flatten() =~= Seq::empty());
                    }
                    let closing = lines[k];
                    assert(rest == (front + closing) + body);
                    assert forall|i: int| 0 <= i < closing.len() - 1 implies #[trigger] closing[i]
                        != '\n' by {
                        assert(lines[k][i] != '\n');
                    }
                    assert(parts_into(rest, front, body));
                },
            }
        },
    }
}

proof fn lemma_line_end(lines: Seq<Seq<char>>, k: int)
    requires
        are_lines(lines, lines.flatten()),
        0 <= k < lines.len(),
    ensures
        lines.take(k).flatten().len() > 0 ==> lines.take(k).flatten().last() == '\n',
{
    if k > 0 {
        let front = lines.take(k);
        front.drop_last().lemma_flatten_push(front.last());
        assert(front =~= front.drop_last().push(front.last()));
        assert(front.last() == lines[k - 1]);
        assert(lines[k - 1][lines[k - 1].len() - 1] == '\n');
        assert(lines[k - 1].len() > 0);
    } else {
        assert(lines.take(0).flatten() =~= Seq::empty());
    }
}

// ---------------------------------------------------------------------------
// What the fields say
// ---------------------------------------------------------------------------

/// Whether `text` is what a value says: a text is what is left of it without the
/// white space at its ends, a number is as it is written, true and false are the
/// words, and nothing else says anything.
pub open spec fn says(value: Option<YamlValue>, text: Option<Seq<char>>) -> bool {
    match value {
        Some(YamlValue::Text(s)) => text matches Some(text) && is_core_of(text, s@),
        Some(YamlValue::Bool(true)) => text == Some(seq!['t', 'r', 'u', 'e']),
        Some(YamlValue::Bool(false)) => text == Some(seq!['f', 'a', 'l', 's', 'e']),
        Some(YamlValue::Number(s)) => text == Some(s@),
        Some(YamlValue::Other) => text is None,
        None => text is None,
    }
}

/// A value says what it is.
pub proof fn law_values(value: YamlValue)
    ensures
        says(Some(value), value_text(value)),
{
    reveal_strlit("true");
    reveal_strlit("false");
    assert("true"@ =~= seq!['t', 'r', 'u', 'e']);
    assert("false"@ =~= seq!['f', 'a', 'l', 's', 'e']);
    match value {
        YamlValue::Text(s) => {
            law_trimming(s@);
        },
        _ => {},
    }
}

/// The name and the description of a skill are what their fields say.
pub proof fn law_fields(raw: RawFrontmatter)
    ensures
        says(raw.name, raw.info().name),
        says(raw.description, raw.info().description),
{
    match raw.name {
        Some(value) => {
            law_values(value);
        },
        None => {},
    }
    match raw.description {
        Some(value) => {
            law_values(value);
        },
        None => {},
    }
}

// ---------------------------------------------------------------------------
// What is put in quotes
// ---------------------------------------------------------------------------

/// `s` with a backslash before each backslash and each double quote.
pub open spec fn quote_safe(s: Seq<char>) -> Seq<char>
    decreases s.len(),
{
    if s.len() == 0 {
        seq![]
    } else if s[0] == '\\' || s[0] == '"' {
        seq!['\\', s[0]] + quote_safe(s.drop_first())
    } else {
        seq![s[0]] + quote_safe(s.drop_first())
    }
}

/// What a description is announced by.
pub open spec fn announcement() -> Seq<char> {
    seq!['d', 'e', 's', 'c', 'r', 'i', 'p', 't', 'i', 'o', 'n', ':']
}

/// Whether a line is `description:`, white space, a value and line feeds and
/// carriage returns, and the value holds a colon but starts with neither a quote
/// nor the sign of a block.
pub open spec fn is_bare(
    line: Seq<char>,
    gap: Seq<char>,
    value: Seq<char>,
    end: Seq<char>,
) -> bool {
    &&& line == announcement() + gap + value + end
    &&& all_white(gap)
    &&& all_newlines(end)
    &&& value.len() > 0
    &&& !unicode_white(value[0])
    &&& value.last() != '\n' && value.last() != '\r'
    &&& value[0] != '"' && value[0] != '\'' && value[0] != '|' && value[0] != '>'
    &&& value.contains(':')
}

/// Whether a line is a description without quotes that needs them.
pub open spec fn needs_them(line: Seq<char>) -> bool {
    exists|gap: Seq<char>, value: Seq<char>, end: Seq<char>| #[trigger]
        is_bare(line, gap, value, end)
}

/// Whether `s` is lines none of which needs quotes.
pub open spec fn none_needs_them(s: Seq<char>) -> bool {
    exists|lines: Seq<Seq<char>>|
        are_lines(lines, s) && forall|i: int|
            0 <= i < lines.len() ==> !needs_them(#[trigger] lines[i])
}

/// Whether `text` is `yaml` with the value of the first line that needs quotes in
/// double quotes, its backslashes and double quotes escaped, and all else as it was.
pub open spec fn is_quoted(yaml: Seq<char>, text: Seq<char>) -> bool {
    exists|a: Seq<char>, gap: Seq<char>, value: Seq<char>, end: Seq<char>, b: Seq<char>|
        {
            let line = announcement() + gap + value + end;
            &&& yaml == #[trigger] (a + (announcement() + gap + value + end) + b)
            &&& is_bare(line, gap, value, end)
            &&& none_needs_them(a)
            &&& a.len() > 0 ==> a.last() == '\n'
            &&& b.len() > 0 ==> line.last() == '\n'
            &&& forall|i: int| 0 <= i < line.len() - 1 ==> #[trigger] line[i] != '\n'
            &&& text == a + (announcement() + seq![' ', '"'] + quote_safe(value) + seq!['"'] + end)
                + b
        }
}

pub(crate) proof fn lemma_quote_safe(s: Seq<char>)
    ensures
        escaped(s) == quote_safe(s),
    decreases s.len(),
{
    reveal_strlit("\\");
    reveal_strlit("\\\\");
    reveal_strlit("\"");
    reveal_strlit("\\\"");
    let (slash, slashes, quote, quoted) = ("\\"@, "\\\\"@, "\""@, "\\\""@);
    if s.len() > 0 {
        let rest = s.drop_first();
        let c = seq![s[0]];
        lemma_quote_safe(rest);
        let x = replaced(rest, slash, slashes);
        assert(s =~= c + rest);
        if s[0] == '\\' {
            assert(c =~= slash);
            lemma_replaced_first(rest, slash, slashes);
            lemma_replaced_behind(slashes, x, quote, quoted);
            assert(slashes =~= seq!['\\', s[0]]);
        } else if s[0] == '"' {
            assert(c =~= quote);
            lemma_replaced_behind(c, rest, slash, slashes);
            lemma_replaced_first(x, quote, quoted);
            assert(quoted =~= seq!['\\', s[0]]);
        } else {
            lemma_replaced_behind(c, rest, slash, slashes);
            lemma_replaced_behind(c, x, quote, quoted);
        }
    }
}

proof fn lemma_bare(line: Seq<char>)
    ensures
        is_bare_description(line) <==> needs_them(line),
        is_bare_description(line) ==> exists|gap: Seq<char>, end: Seq<char>| #[trigger]
            is_bare(line, gap, description_value(line)->0, end) && line.skip(
                without_newlines(line).len() as int,
            ) == end,
{
    let label = announcement();
    reveal_strlit("description:");
    assert("description:"@ =~= label);
    law_stripping_newlines(line);
    let stripped = without_newlines(line);
    let end = line.skip(stripped.len() as int);
    if is_bare_description(line) {
        let after = stripped.skip(12);
        let value = trimmed_start(after);
        law_trimming_the_start(after);
        let gap = choose|a: Seq<char>|
            after == #[trigger] (a + trimmed_start(after)) && all_white(a);
        assert(stripped =~= label + after);
        assert(line =~= label + gap + value + end);
        assert(value.last() == stripped.last());
        assert(is_bare(line, gap, value, end));
    }
    if needs_them(line) {
        let (gap, value, tail) = choose|gap: Seq<char>, value: Seq<char>, end: Seq<char>| #[trigger]
            is_bare(line, gap, value, end);
        let front = label + gap + value;
        assert(front.last() == value.last());
        lemma_strip(front, tail);
        assert(stripped == front);
        assert(front.take(12) =~= label);
        assert(front.skip(12) =~= gap + value);
        lemma_trim_start(gap, value);
    }
}

proof fn lemma_strip(front: Seq<char>, tail: Seq<char>)
    requires
        all_newlines(tail),
        front.len() > 0,
        front.last() != '\n',
        front.last() != '\r',
    ensures
        without_newlines(front + tail) == front,
    decreases tail.len(),
{
    let line = front + tail;
    if tail.len() == 0 {
        assert(line =~= front);
    } else {
        assert(line.last() == tail[tail.len() - 1]);
        assert(line.drop_last() =~= front + tail.drop_last());
        assert forall|i: int| 0 <= i < tail.drop_last().len() implies #[trigger] tail.drop_last()[i]
            == '\n' || tail.drop_last()[i] == '\r' by {
            assert(tail.drop_last()[i] == tail[i]);
        }
        lemma_strip(front, tail.drop_last());
    }
}

proof fn lemma_trim_start(gap: Seq<char>, value: Seq<char>)
    requires
        all_white(gap),
        value.len() > 0,
        !unicode_white(value[0]),
    ensures
        trimmed_start(gap + value) == value,
    decreases gap.len(),
{
    let s = gap + value;
    if gap.len() == 0 {
        assert(s =~= value);
        law_white_space(value[0]);
    } else {
        assert(s[0] == gap[0]);
        law_white_space(gap[0]);
        assert(s.drop_first() =~= gap.drop_first() + value);
        assert forall|i: int| 0 <= i < gap.drop_first().len() implies unicode_white(
            #[trigger] gap.drop_first()[i],
        ) by {
            assert(gap.drop_first()[i] == gap[i + 1]);
        }
        lemma_trim_start(gap.drop_first(), value);
    }
}

proof fn lemma_bare_from(lines: Seq<Seq<char>>, k: int)
    requires
        0 <= k,
    ensures
        match bare_description_from(lines, k) {
            Some(i) => k <= i < lines.len() && is_bare_description(lines[i]) && forall|j: int|
                k <= j < i ==> !is_bare_description(#[trigger] lines[j]),
            None => forall|j: int|
                k <= j < lines.len() ==> !is_bare_description(#[trigger] lines[j]),
        },
    decreases lines.len() - k,
{
    if k < lines.len() && !is_bare_description(lines[k]) {
        lemma_bare_from(lines, k + 1);
    }
}

/// The first description without quotes that needs them is put in quotes, and all
/// else is left as it is. Where there is none, nothing is made.
pub proof fn law_quoting(yaml: Seq<char>)
    ensures
        match requoted(yaml) {
            Some(text) => is_quoted(yaml, text),
            None => none_needs_them(yaml),
        },
{
    let lines = segments(yaml);
    let label = announcement();
    law_lines(yaml);
    lemma_bare_from(lines, 0);
    assert forall|j: int| 0 <= j < lines.len() implies is_bare_description(lines[j])
        == needs_them(#[trigger] lines[j]) by {
        lemma_bare(lines[j]);
    }
    match bare_description_from(lines, 0) {
        None => {},
        Some(k) => {
            let line = lines[k];
            let a = lines.take(k).flatten();
            let b = lines.skip(k + 1).flatten();
            lemma_bare(line);
            let value = description_value(line)->0;
            let (gap, end) = choose|gap: Seq<char>, end: Seq<char>| #[trigger]
                is_bare(line, gap, description_value(line)->0, end) && line.skip(
                    without_newlines(line).len() as int,
                ) == end;
            lemma_some_lines(lines, k);
            lemma_flatten_split(lines, k);
            lemma_line_end(lines, k);
            assert forall|i: int| 0 <= i < lines.take(k).len() implies !needs_them(
                #[trigger] lines.take(k)[i],
            ) by {
                assert(lines.take(k)[i] == lines[i]);
            }
            assert(none_needs_them(a));
            if k + 1 == lines.len() {
                assert(lines.skip(k + 1).flatten() =~= Seq::empty());
            }
            assert forall|i: int| 0 <= i < line.len() - 1 implies #[trigger] line[i] != '\n' by {
                assert(lines[k][i] != '\n');
            }
            lemma_quote_safe(value);
            reveal_strlit("description: \"");
            reveal_strlit("\"");
            assert("description: \""@ =~= label + seq![' ', '"']);
            assert("\""@ =~= seq!['"']);
            assert(quoted_line(line) =~= label + seq![' ', '"'] + quote_safe(value) + seq!['"']
                + end);
            assert(yaml == a + (label + gap + value + end) + b);
            assert(is_quoted(yaml, requoted(yaml)->0));
        },
    }
}

/// A frontmatter that can be read says what its fields say. One that cannot is tried
/// once more with its description in quotes, if it has one that needs them; where
/// that fails too, or there is none, the first error stands.
pub proof fn law_reading_a_frontmatter<P: Fn(&str) -> Result<RawFrontmatter, String>>(
    yaml: &str,
    parse: P,
    first: Result<RawFrontmatter, String>,
    r: Result<ParsedFrontmatter, String>,
)
    requires
        parsed_as(yaml, parse, first, r),
    ensures
        match first {
            Ok(raw) => r matches Ok(parsed) && says(raw.name, parsed@.name) && says(
                raw.description,
                parsed@.description,
            ),
            Err(message) => {
                ||| none_needs_them(yaml@) && (r matches Err(told) && told@ == message@)
                ||| exists|retry: &str, second: Result<RawFrontmatter, String>|
                    is_quoted(yaml@, retry@) && #[trigger] parse.ensures((retry,), second)
                        && match second {
                        Ok(raw) => r matches Ok(parsed) && says(raw.name, parsed@.name) && says(
                            raw.description,
                            parsed@.description,
                        ),
                        Err(_) => r matches Err(told) && told@ == message@,
                    }
            },
        },
{
    match first {
        Ok(raw) => {
            law_fields(raw);
        },
        Err(message) => {
            law_quoting(yaml@);
            match requoted(yaml@) {
                None => {},
                Some(text) => {
                    let (retry, second) = choose|
                        retry: &str,
                        second: Result<RawFrontmatter, String>,
                    |
                        retry@ == text && #[trigger] parse.ensures((retry,), second)
                            && match second {
                            Ok(raw) => r is Ok && r->Ok_0@ == raw.info(),
                            Err(_) => r is Err && r->Err_0@ == message@,
                        };
                    match second {
                        Ok(raw) => {
                            law_fields(raw);
                        },
                        Err(_) => {},
                    }
                    assert(is_quoted(yaml@, retry@));
                },
            }
        },
    }
}

} // verus!
