//! The frontmatter of a skill file: splitting it off, and what it says.

use vstd::prelude::*;
use vstd::string::*;

use crate::text::{
    append_chars, at_segment, chars_of, has_char, has_prefix, lemma_at_segment_end,
    lemma_at_segment_next, lemma_at_segment_start, lemma_segments_flatten, replace, replaced,
    segment_end, segments, skip_white_space, starts_at, string_of, strip_newlines, trim, trimmed,
    trimmed_start, without_newlines,
};

verus! {

/// What a frontmatter says of a skill.
#[derive(Debug, Clone)]
pub struct ParsedFrontmatter {
    pub name: Option<String>,
    pub description: Option<String>,
}

impl Default for ParsedFrontmatter {
    fn default() -> (r: ParsedFrontmatter)
        ensures
            r.name is None,
            r.description is None,
    {
        ParsedFrontmatter { name: None, description: None }
    }
}

// ---------------------------------------------------------------------------
// Splitting
// ---------------------------------------------------------------------------

/// `s` without the byte order marks that it starts with.
pub open spec fn without_marks(s: Seq<char>) -> Seq<char>
    decreases s.len(),
{
    if s.len() > 0 && s.first() == '\u{feff}' {
        without_marks(s.drop_first())
    } else {
        s
    }
}

/// What follows the line `---` that `s` starts with.
pub open spec fn after_opening(s: Seq<char>) -> Option<Seq<char>> {
    if has_prefix(s, "---\n"@) {
        Some(s.skip(4))
    } else if has_prefix(s, "---\r\n"@) {
        Some(s.skip(5))
    } else {
        None
    }
}

/// Whether a line is `---`.
pub open spec fn is_fence(line: Seq<char>) -> bool {
    without_newlines(line) == "---"@
}

/// The first line from line `k` on that is `---`.
pub open spec fn fence_from(lines: Seq<Seq<char>>, k: int) -> Option<int>
    decreases lines.len() - k,
{
    if k < 0 || k >= lines.len() {
        None
    } else if is_fence(lines[k]) {
        Some(k)
    } else {
        fence_from(lines, k + 1)
    }
}

/// A skill file in two: the lines between the first line, which is `---`, and the
/// next line that is, and the lines after that. Or why it has no such parts.
pub open spec fn split(raw: Seq<char>) -> Result<(Seq<char>, Seq<char>), Seq<char>> {
    match after_opening(without_marks(raw)) {
        None => Err("file does not start with `---`"@),
        Some(rest) => {
            let lines = segments(rest);
            match fence_from(lines, 0) {
                None => Err("no closing `---` for frontmatter"@),
                Some(k) => Ok((lines.take(k).flatten(), lines.skip(k + 1).flatten())),
            }
        },
    }
}

fn skip_marks(chars: &Vec<char>) -> (r: usize)
    ensures
        r <= chars@.len(),
        chars@.skip(r as int) == without_marks(chars@),
{
    let mut i: usize = 0;
    assert(chars@.skip(0) =~= chars@);
    while i < chars.len() && chars[i] == '\u{feff}'
        invariant
            0 <= i <= chars@.len(),
            without_marks(chars@.skip(i as int)) == without_marks(chars@),
        decreases chars@.len() - i,
    {
        assert(chars@.skip(i as int).drop_first() =~= chars@.skip(i as int + 1));
        i = i + 1;
    }
    i
}

fn skip_opening(chars: &Vec<char>, from: usize) -> (r: Option<usize>)
    requires
        from <= chars@.len(),
    ensures
        match after_opening(chars@.skip(from as int)) {
            None => r is None,
            Some(rest) => r is Some && r->0 <= chars@.len() && chars@.skip(r->0 as int) == rest,
        },
{
    let n: usize = chars.len();
    proof {
        reveal_strlit("---\n");
        reveal_strlit("---\r\n");
    }
    assert(chars@.subrange(from as int, n as int) =~= chars@.skip(from as int));
    if starts_at(chars, from, n, &chars_of("---\n")) {
        assert(chars@.skip(from as int).skip(4) =~= chars@.skip(from as int + 4));
        Some(from + 4)
    } else if starts_at(chars, from, n, &chars_of("---\r\n")) {
        assert(chars@.skip(from as int).skip(5) =~= chars@.skip(from as int + 5));
        Some(from + 5)
    } else {
        None
    }
}

fn is_fence_at(chars: &Vec<char>, from: usize, to: usize) -> (r: bool)
    requires
        from <= to <= chars@.len(),
    ensures
        r == is_fence(chars@.subrange(from as int, to as int)),
{
    let end: usize = strip_newlines(chars, from, to);
    let fence = chars_of("---");
    let r = end - from == fence.len() && starts_at(chars, from, end, &fence);
    proof {
        let line = chars@.subrange(from as int, end as int);
        if r {
            assert(line.take(fence@.len() as int) =~= line);
        } else if line == "---"@ {
            assert(line.take(fence@.len() as int) =~= line);
        }
    }
    r
}

/// Splits a skill file into its frontmatter and what follows it.
pub fn split_frontmatter(raw: &str) -> (r: Result<(&str, &str), &'static str>)
    ensures
        match split(raw@) {
            Ok((front, body)) => r is Ok && r->Ok_0.0@ == front && r->Ok_0.1@ == body,
            Err(message) => r is Err && r->Err_0@ == message,
        },
{
    let chars = chars_of(raw);
    let n: usize = chars.len();
    let start: usize = match skip_opening(&chars, skip_marks(&chars)) {
        Some(start) => start,
        None => {
            return Err("file does not start with `---`");
        },
    };
    let ghost rest = chars@.skip(start as int);
    let ghost lines = segments(rest);
    let mut pos: usize = start;
    let ghost mut k: int = 0;
    proof {
        lemma_at_segment_start(rest);
    }
    while pos < n
        invariant
            raw@ == chars@,
            n == chars@.len(),
            start <= pos <= n,
            rest == chars@.skip(start as int),
            lines == segments(rest),
            after_opening(without_marks(raw@)) == Some(rest),
            at_segment(rest, k, pos - start),
            fence_from(lines, 0) == fence_from(lines, k),
        decreases n - pos,
    {
        proof {
            lemma_at_segment_next(rest, k, pos - start);
            assert(rest.skip(pos - start) =~= chars@.skip(pos as int));
        }
        let end: usize = segment_end(&chars, pos);
        assert(chars@.subrange(pos as int, end as int) =~= lines[k]);
        if is_fence_at(&chars, pos, end) {
            let front = raw.substring_char(start, pos);
            let body = raw.substring_char(end, n);
            proof {
                assert(front@ =~= rest.take(pos - start));
                assert(body@ =~= rest.skip(end - start));
                lemma_segments_flatten(rest.skip(end - start));
            }
            return Ok((front, body));
        }
        pos = end;
        proof {
            k = k + 1;
        }
    }
    proof {
        lemma_at_segment_end(rest, k, pos - start);
    }
    Err("no closing `---` for frontmatter")
}

// ---------------------------------------------------------------------------
// Quoting
// ---------------------------------------------------------------------------

/// The value on a line that starts with `description:`, from its first character
/// on that is no white space.
pub open spec fn description_value(line: Seq<char>) -> Option<Seq<char>> {
    let stripped = without_newlines(line);
    if has_prefix(stripped, "description:"@) {
        Some(trimmed_start(stripped.skip(12)))
    } else {
        None
    }
}

/// Whether a value needs quotes: it holds a colon, and is neither empty nor
/// quoted nor a block.
pub open spec fn needs_quotes(value: Seq<char>) -> bool {
    &&& value.len() > 0
    &&& value.first() != '"'
    &&& value.first() != '\''
    &&& value.first() != '|'
    &&& value.first() != '>'
    &&& value.contains(':')
}

/// Whether a line is a description that needs quotes.
pub open spec fn is_bare_description(line: Seq<char>) -> bool {
    match description_value(line) {
        Some(value) => needs_quotes(value),
        None => false,
    }
}

/// A text with backslashes and double quotes escaped.
pub open spec fn escaped(value: Seq<char>) -> Seq<char> {
    replaced(replaced(value, "\\"@, "\\\\"@), "\""@, "\\\""@)
}

/// The line with its description in double quotes.
pub open spec fn quoted_line(line: Seq<char>) -> Seq<char> {
    "description: \""@ + escaped(description_value(line)->0) + "\""@ + line.skip(
        without_newlines(line).len() as int,
    )
}

/// The first line from line `k` on that is a description that needs quotes.
pub open spec fn bare_description_from(lines: Seq<Seq<char>>, k: int) -> Option<int>
    decreases lines.len() - k,
{
    if k < 0 || k >= lines.len() {
        None
    } else if is_bare_description(lines[k]) {
        Some(k)
    } else {
        bare_description_from(lines, k + 1)
    }
}

/// The frontmatter with the first description that needs quotes in quotes, where
/// there is one.
pub open spec fn requoted(yaml: Seq<char>) -> Option<Seq<char>> {
    let lines = segments(yaml);
    match bare_description_from(lines, 0) {
        Some(k) => Some(
            lines.take(k).flatten() + quoted_line(lines[k]) + lines.skip(k + 1).flatten(),
        ),
        None => None,
    }
}

proof fn lemma_without_newlines_len(line: Seq<char>)
    ensures
        without_newlines(line).len() <= line.len(),
        has_prefix(line, without_newlines(line)),
    decreases line.len(),
{
    if line.len() > 0 && (line.last() == '\n' || line.last() == '\r') {
        lemma_without_newlines_len(line.drop_last());
        let s = without_newlines(line);
        assert(line.take(s.len() as int) =~= line.drop_last().take(s.len() as int));
    } else {
        assert(line.take(line.len() as int) =~= line);
    }
}

/// The line `chars[from..to]` with its description in double quotes, where it is
/// a description that needs them.
fn quote_line(chars: &Vec<char>, from: usize, to: usize) -> (r: Option<Vec<char>>)
    requires
        from <= to <= chars@.len(),
    ensures
        ({
            let line = chars@.subrange(from as int, to as int);
            if is_bare_description(line) {
                r is Some && r->0@ == quoted_line(line)
            } else {
                r is None
            }
        }),
{
    let ghost line = chars@.subrange(from as int, to as int);
    let end: usize = strip_newlines(chars, from, to);
    proof {
        lemma_without_newlines_len(line);
        reveal_strlit("description:");
        reveal_strlit("\\");
        reveal_strlit("\"");
    }
    let label = chars_of("description:");
    if !starts_at(chars, from, end, &label) {
        return None;
    }
    let ghost stripped = without_newlines(line);
    assert(stripped == chars@.subrange(from as int, end as int));
    let value_from: usize = skip_white_space(chars, from + label.len(), end);
    assert(stripped.skip(12) =~= chars@.subrange(from as int + 12, end as int));
    let ghost value = chars@.subrange(value_from as int, end as int);
    assert(description_value(line) == Some(value));
    if value_from == end {
        return None;
    }
    let first = chars[value_from];
    assert(value.first() == first);
    if first == '"' || first == '\'' || first == '|' || first == '>' || !has_char(
        chars,
        value_from,
        end,
        ':',
    ) {
        return None;
    }
    let plain = chars_of(string_of(chars, value_from, end).as_str());
    let slashes = replace(&plain, "\\", "\\\\");
    let safe = replace(&slashes, "\"", "\\\"");
    let mut r = chars_of("description: \"");
    append_chars(&mut r, &safe);
    append_chars(&mut r, &chars_of("\""));
    append_chars(&mut r, &chars_of(string_of(chars, end, to).as_str()));
    assert(chars@.subrange(end as int, to as int) =~= line.skip(stripped.len() as int));
    Some(r)
}

/// The frontmatter with the first description that needs quotes in quotes, where
/// there is one.
pub fn requote_description(yaml: &str) -> (r: Option<String>)
    ensures
        match requoted(yaml@) {
            Some(text) => r is Some && r->0@ == text,
            None => r is None,
        },
{
    let chars = chars_of(yaml);
    let n: usize = chars.len();
    let ghost s = yaml@;
    let ghost lines = segments(s);
    let mut pos: usize = 0;
    let ghost mut k: int = 0;
    proof {
        lemma_at_segment_start(s);
    }
    while pos < n
        invariant
            s == yaml@,
            s == chars@,
            n == chars@.len(),
            pos <= n,
            lines == segments(s),
            at_segment(s, k, pos as int),
            bare_description_from(lines, 0) == bare_description_from(lines, k),
        decreases n - pos,
    {
        proof {
            lemma_at_segment_next(s, k, pos as int);
        }
        let end: usize = segment_end(&chars, pos);
        match quote_line(&chars, pos, end) {
            Some(line) => {
                let mut r = string_of(&chars, 0, pos);
                r.append(string_of(&line, 0, line.len()).as_str());
                r.append(string_of(&chars, end, n).as_str());
                proof {
                    lemma_segments_flatten(s.skip(end as int));
                    assert(chars@.subrange(0, pos as int) =~= s.take(pos as int));
                    assert(chars@.subrange(end as int, n as int) =~= s.skip(end as int));
                    assert(line@.subrange(0, line@.len() as int) =~= line@);
                }
                return Some(r);
            },
            None => {},
        }
        pos = end;
        proof {
            k = k + 1;
        }
    }
    proof {
        lemma_at_segment_end(s, k, pos as int);
    }
    None
}

// ---------------------------------------------------------------------------
// Reading
// ---------------------------------------------------------------------------

/// A value in a frontmatter. A number is kept as it is written out.
#[derive(Debug, Clone, PartialEq, Eq)]
pub enum YamlValue {
    Text(String),
    Bool(bool),
    Number(String),
    /// No value, a list, a mapping or a tagged value.
    Other,
}

/// The fields of a frontmatter that say something of a skill.
#[derive(Debug, Clone, PartialEq, Eq)]
pub struct RawFrontmatter {
    pub name: Option<YamlValue>,
    pub description: Option<YamlValue>,
}

/// [`ParsedFrontmatter`] with its texts as character sequences.
pub struct SkillInfo {
    pub name: Option<Seq<char>>,
    pub description: Option<Seq<char>>,
}

impl View for ParsedFrontmatter {
    type V = SkillInfo;

    open spec fn view(&self) -> SkillInfo {
        SkillInfo {
            name: match self.name {
                Some(name) => Some(name@),
                None => None,
            },
            description: match self.description {
                Some(description) => Some(description@),
                None => None,
            },
        }
    }
}

/// The text of a value: none where it is no scalar.
pub open spec fn value_text(value: YamlValue) -> Option<Seq<char>> {
    match value {
        YamlValue::Text(s) => Some(trimmed(s@)),
        YamlValue::Bool(b) => Some(
            if b {
                "true"@
            } else {
                "false"@
            },
        ),
        YamlValue::Number(n) => Some(n@),
        YamlValue::Other => None,
    }
}

/// The text of a field.
pub open spec fn field_text(field: Option<YamlValue>) -> Option<Seq<char>> {
    match field {
        Some(value) => value_text(value),
        None => None,
    }
}

/// The text of a value: none where it is no scalar.
pub fn yaml_value_to_trimmed_string(value: YamlValue) -> (r: Option<String>)
    ensures
        match value_text(value) {
            Some(text) => r is Some && r->0@ == text,
            None => r is None,
        },
{
    match value {
        YamlValue::Text(s) => Some(trim(s.as_str())),
        YamlValue::Bool(b) => Some(
            if b {
                "true".to_owned()
            } else {
                "false".to_owned()
            },
        ),
        YamlValue::Number(n) => Some(n),
        YamlValue::Other => None,
    }
}

impl RawFrontmatter {
    /// What the fields say of the skill.
    pub open spec fn info(self) -> SkillInfo {
        SkillInfo { name: field_text(self.name), description: field_text(self.description) }
    }

    /// What the fields say of the skill.
    pub fn into_parsed(self) -> (r: ParsedFrontmatter)
        ensures
            r@ == self.info(),
    {
        let RawFrontmatter { name, description } = self;
        ParsedFrontmatter {
            name: match name {
                Some(value) => yaml_value_to_trimmed_string(value),
                None => None,
            },
            description: match description {
                Some(value) => yaml_value_to_trimmed_string(value),
                None => None,
            },
        }
    }
}

/// What a frontmatter says, given what `parse` gives for it and, where that is
/// an error and there is a description to put in quotes, for the text with it in
/// quotes. Where both fail, the first error stands.
pub open spec fn parsed_as<P: Fn(&str) -> Result<RawFrontmatter, String>>(
    yaml: &str,
    parse: P,
    first: Result<RawFrontmatter, String>,
    r: Result<ParsedFrontmatter, String>,
) -> bool {
    match first {
        Ok(raw) => r is Ok && r->Ok_0@ == raw.info(),
        Err(message) => match requoted(yaml@) {
            None => r is Err && r->Err_0@ == message@,
            Some(text) => exists|retry: &str, second: Result<RawFrontmatter, String>|
                retry@ == text && #[trigger] parse.ensures((retry,), second) && match second {
                    Ok(raw) => r is Ok && r->Ok_0@ == raw.info(),
                    Err(_) => r is Err && r->Err_0@ == message@,
                },
        },
    }
}

/// Reads a frontmatter with `parse`. Where that fails, it is tried once more with
/// a description that holds a bare colon in quotes.
pub fn parse_frontmatter<P: Fn(&str) -> Result<RawFrontmatter, String>>(
    yaml: &str,
    parse: P,
) -> (r: Result<ParsedFrontmatter, String>)
    requires
        forall|text: &str| #[trigger] parse.requires((text,)),
    ensures
        exists|first: Result<RawFrontmatter, String>| #[trigger]
            parse.ensures((yaml,), first) && parsed_as(yaml, parse, first, r),
{
    let first = parse(yaml);
    let ghost told = first;
    match first {
        Ok(raw) => {
            let r = Ok(raw.into_parsed());
            assert(parsed_as(yaml, parse, told, r));
            r
        },
        Err(message) => {
            match requote_description(yaml) {
                Some(text) => {
                    let retry = text.as_str();
                    let second = parse(retry);
                    let ghost retold = second;
                    match second {
                        Ok(raw) => {
                            let r = Ok(raw.into_parsed());
                            assert(parse.ensures((retry,), retold));
                            assert(parsed_as(yaml, parse, told, r));
                            r
                        },
                        Err(_) => {
                            let r = Err(message);
                            assert(parse.ensures((retry,), retold));
                            assert(parsed_as(yaml, parse, told, r));
                            r
                        },
                    }
                },
                None => {
                    let r = Err(message);
                    assert(parsed_as(yaml, parse, told, r));
                    r
                },
            }
        },
    }
}

} // verus!
