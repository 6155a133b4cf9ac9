//! Regular expressions, and the globs that are turned into them.

use regex::Regex;

use vstd::prelude::*;

use crate::text::{chars_of, replace, replaced, string_of};

verus! {

/// A compiled regular expression of the `regex` crate.
#[verifier::external_type_specification]
#[verifier::external_body]
pub struct ExRegex(regex::Regex);

/// What `Regex::new` reports for a pattern, or nothing where it compiles it. How
/// large a pattern grows when it is compiled, and so whether it is refused for
/// its size, depends on the width of a machine word.
pub uninterp spec fn regex_error(pattern: Seq<char>, word_bits: nat) -> Option<Seq<char>>;

/// The pattern that a regular expression was compiled from, which
/// `Regex::as_str` gives back.
pub uninterp spec fn regex_text(re: Regex) -> Seq<char>;

/// Whether `Regex::is_match` finds a match of the pattern in the text.
pub uninterp spec fn regex_matches(pattern: Seq<char>, text: Seq<char>) -> bool;

/// `Regex::new`: compiles `pattern`, or says in words why it cannot. Which
/// patterns are refused, and with which words, is a function of the pattern and
/// of the width of a machine word. The result keeps the pattern.
#[verifier::external_body]
pub(crate) fn compile_regex(pattern: &str) -> (r: Result<Regex, String>)
    ensures
        match regex_error(pattern@, usize::BITS as nat) {
            None => r is Ok && regex_text(r->Ok_0) == pattern@,
            Some(message) => r is Err && r->Err_0@ == message,
        },
{
    Regex::new(pattern).map_err(|e| e.to_string())
}

/// `Regex::is_match`: whether `text` holds a match, which is a function of the
/// pattern that was compiled and of the text.
#[verifier::external_body]
pub(crate) fn is_match(re: &Regex, text: &str) -> (r: bool)
    ensures
        r == regex_matches(regex_text(*re), text@),
{
    re.is_match(text)
}

/// The pattern that a glob stands for: `**` stands for any text, `*` for any
/// text without a slash, a dot for itself, and the match ends where the path does.
pub open spec fn glob_regex(glob: Seq<char>) -> Seq<char> {
    let dots = replaced(glob, "."@, "\\."@);
    let marked = replaced(dots, "**"@, "<<GLOBSTAR>>"@);
    let stars = replaced(marked, "*"@, "[^/]*"@);
    replaced(stars, "<<GLOBSTAR>>"@, ".*"@).push('$')
}

/// The pattern that a glob stands for.
pub fn glob_pattern(glob: &str) -> (r: String)
    ensures
        r@ == glob_regex(glob@),
{
    proof {
        reveal_strlit(".");
        reveal_strlit("**");
        reveal_strlit("*");
        reveal_strlit("<<GLOBSTAR>>");
    }
    let dots = replace(&chars_of(glob), ".", "\\.");
    let marked = replace(&dots, "**", "<<GLOBSTAR>>");
    let stars = replace(&marked, "*", "[^/]*");
    let all = replace(&stars, "<<GLOBSTAR>>", ".*");
    let n: usize = all.len();
    let mut r = string_of(&all, 0, n);
    assert(r@ =~= all@);
    r.push('$');
    r
}

/// The regular expression that a glob stands for, or in words why there is none.
pub fn compile_glob(glob: &str) -> (r: Result<Regex, String>)
    ensures
        match regex_error(glob_regex(glob@), usize::BITS as nat) {
            None => r is Ok && regex_text(r->Ok_0) == glob_regex(glob@),
            Some(message) => r is Err && r->Err_0@ == message,
        },
{
    compile_regex(glob_pattern(glob).as_str())
}

/// The pattern that an optional regular expression was compiled from.
pub open spec fn pattern_text(re: Option<Regex>) -> Option<Seq<char>> {
    match re {
        Some(re) => Some(regex_text(re)),
        None => None,
    }
}

/// Whether a path passes an optional glob, given by its pattern.
pub open spec fn glob_admits(pattern: Option<Seq<char>>, path: Seq<char>) -> bool {
    match pattern {
        Some(pattern) => regex_matches(pattern, path),
        None => true,
    }
}

/// Whether a path passes an optional glob.
pub fn admits(glob: &Option<Regex>, path: &str) -> (r: bool)
    ensures
        r == glob_admits(pattern_text(*glob), path@),
{
    match glob {
        Some(re) => is_match(re, path),
        None => true,
    }
}

} // verus!
