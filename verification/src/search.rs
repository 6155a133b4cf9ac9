//! Searching the files below a directory for lines that match a pattern.

use regex::Regex;

use vstd::pervasive::unreached;
use vstd::prelude::*;

use crate::errors::SearchFailure;
pub use crate::errors::SearchError;
use crate::fs::{Entry, FileKind, FsError, FsReply, FsRequest, NextEntry, ReplyKind, Step};
use crate::listing::{compile_optional_glob, glob_or_error, optional_text};
use crate::paths::{
    copy_path_parts, file_name, full_path_text, full_text, is_under, join_tail, lies_under,
    name_of, parts, Part, PathPart,
};
use crate::pattern::{
    admits, compile_regex, glob_admits, is_match, pattern_text, regex_error, regex_matches,
    regex_text,
};
use crate::text::{
    at_segment, chars_of, has_prefix, lemma_at_segment_end, lemma_at_segment_next,
    lemma_at_segment_start, line_text_end, same_text, segment_end, segments, starts_with, string_of,
    trim, trimmed, without_line_ending,
};

verus! {

/// The size of the largest file that is searched, unless the caller sets it.
pub const SEARCH_DEFAULT_MAX_FILE_BYTES: u64 = 5242880;

/// How many bytes are searched in all, unless the caller sets it.
pub const SEARCH_DEFAULT_MAX_TOTAL_BYTES: u64 = 268435456;

/// How many bytes at the start of a file tell whether it is binary.
pub const BINARY_SNIFF_BYTES: usize = 8192;

/// A line that a pattern matches: the file, the number of the line from 1 on,
/// and the line without white space around it.
#[derive(Debug, Clone, PartialEq, Eq)]
pub struct SearchMatch {
    pub path: String,
    pub line_num: usize,
    pub line: String,
}

/// What a search found. It is truncated where it came to the number of matches
/// that the caller allows.
#[derive(Debug, Clone)]
pub struct SearchOutcome {
    pub matches: Vec<SearchMatch>,
    pub truncated: bool,
}

/// A [`SearchMatch`] with its texts as character sequences.
pub struct FoundLine {
    pub path: Seq<char>,
    pub line_num: int,
    pub line: Seq<char>,
}

/// A [`SearchOutcome`] over sequences.
pub struct FoundLines {
    pub matches: Seq<FoundLine>,
    pub truncated: bool,
}

impl View for SearchMatch {
    type V = FoundLine;

    open spec fn view(&self) -> FoundLine {
        FoundLine { path: self.path@, line_num: self.line_num as int, line: self.line@ }
    }
}

/// The lines that `matches` holds.
pub open spec fn found(matches: Seq<SearchMatch>) -> Seq<FoundLine> {
    matches.map_values(|m: SearchMatch| m@)
}

impl View for SearchOutcome {
    type V = FoundLines;

    open spec fn view(&self) -> FoundLines {
        FoundLines { matches: found(self.matches@), truncated: self.truncated }
    }
}

// ---------------------------------------------------------------------------
// Searching a text
// ---------------------------------------------------------------------------

/// The lines of `s` without their line endings.
pub open spec fn text_lines(s: Seq<char>) -> Seq<Seq<char>> {
    segments(s).map_values(|line: Seq<char>| without_line_ending(line))
}

/// How line `i` of `lines` is reported.
pub open spec fn hit(path: Seq<char>, lines: Seq<Seq<char>>, i: int) -> FoundLine {
    FoundLine { path, line_num: i + 1, line: trimmed(lines[i]) }
}

/// The hits in the first `n` of `lines`: the lines that the pattern matches.
pub open spec fn hits(pattern: Seq<char>, path: Seq<char>, lines: Seq<Seq<char>>, n: nat) -> Seq<
    FoundLine,
>
    decreases n,
{
    if n == 0 {
        seq![]
    } else {
        let before = hits(pattern, path, lines, (n - 1) as nat);
        if regex_matches(pattern, lines[n - 1]) {
            before.push(hit(path, lines, n - 1))
        } else {
            before
        }
    }
}

/// How many more matches there is room for.
pub open spec fn room(already: nat, max_results: nat) -> nat {
    if already < max_results {
        (max_results - already) as nat
    } else {
        0
    }
}

/// `before` with as many of `new` as there is room for. The search is at its end
/// once there is a new one and room for no more.
pub open spec fn with_room(
    before: Seq<FoundLine>,
    new: Seq<FoundLine>,
    max_results: nat,
) -> FoundLines {
    let room = room(before.len(), max_results);
    if new.len() > 0 && new.len() >= room {
        FoundLines { matches: before + new.take(room as int), truncated: true }
    } else {
        FoundLines { matches: before + new, truncated: false }
    }
}

/// What is found once a file with this text is searched too.
pub open spec fn searched(
    pattern: Seq<char>,
    path: Seq<char>,
    text: Seq<char>,
    max_results: nat,
    before: Seq<FoundLine>,
) -> FoundLines {
    let lines = text_lines(text);
    with_room(before, hits(pattern, path, lines, lines.len()), max_results)
}

/// What is found once line `line_num`, which is `line`, is searched too.
pub open spec fn with_line(
    before: Seq<FoundLine>,
    path: Seq<char>,
    line_num: int,
    line: Seq<char>,
    matched: bool,
    max_results: nat,
) -> FoundLines {
    let new = FoundLine { path, line_num, line: trimmed(line) };
    with_room(
        before,
        if matched {
            seq![new]
        } else {
            seq![]
        },
        max_results,
    )
}

/// Adds a line to the matches, given whether the pattern matches it, unless there
/// is no room for it.
pub fn take_line(
    matches: Vec<SearchMatch>,
    path: &str,
    line_num: usize,
    line: &str,
    matched: bool,
    max_results: usize,
) -> (r: SearchOutcome)
    ensures
        r@ == with_line(
            found(matches@),
            path@,
            line_num as int,
            line@,
            matched,
            max_results as nat,
        ),
{
    let ghost before = found(matches@);
    if !matched {
        assert(before + Seq::<FoundLine>::empty() =~= before);
        return SearchOutcome { matches, truncated: false };
    }
    let mut matches = matches;
    let ghost new = FoundLine { path: path@, line_num: line_num as int, line: trimmed(line@) };
    if matches.len() < max_results {
        matches.push(SearchMatch { path: path.to_owned(), line_num, line: trim(line) });
        assert(found(matches@) =~= before + seq![new]);
    } else {
        assert(before + seq![new].take(0) =~= before);
    }
    let truncated = matches.len() >= max_results;
    proof {
        if room(before.len(), max_results as nat) == 1 {
            assert(seq![new].take(1) =~= seq![new]);
        }
    }
    SearchOutcome { matches, truncated }
}

proof fn lemma_hits_grow(
    pattern: Seq<char>,
    path: Seq<char>,
    lines: Seq<Seq<char>>,
    k: nat,
    n: nat,
)
    requires
        k <= n,
    ensures
        has_prefix(hits(pattern, path, lines, n), hits(pattern, path, lines, k)),
    decreases n,
{
    let part = hits(pattern, path, lines, k);
    let whole = hits(pattern, path, lines, n);
    if k == n {
        assert(whole.take(part.len() as int) =~= part);
    } else {
        lemma_hits_grow(pattern, path, lines, k, (n - 1) as nat);
        let before = hits(pattern, path, lines, (n - 1) as nat);
        assert(whole.take(part.len() as int) =~= before.take(part.len() as int));
    }
}

/// What is found once `text`, the text of the file `path`, is searched too.
pub fn search_text(
    re: &Regex,
    path: &str,
    text: &str,
    max_results: usize,
    matches: Vec<SearchMatch>,
) -> (r: SearchOutcome)
    ensures
        r@ == searched(regex_text(*re), path@, text@, max_results as nat, found(matches@)),
{
    let chars = chars_of(text);
    let n: usize = chars.len();
    let ghost s = text@;
    let ghost lines = text_lines(s);
    let ghost pattern = regex_text(*re);
    let ghost before = found(matches@);
    let ghost room = room(before.len(), max_results as nat);
    let mut kept = matches;
    let mut pos: usize = 0;
    let mut k: usize = 0;
    proof {
        lemma_at_segment_start(s);
        assert(before + hits(pattern, path@, lines, 0) =~= before);
    }
    while pos < n
        invariant
            s == text@,
            s == chars@,
            n == chars@.len(),
            lines == text_lines(s),
            pattern == regex_text(*re),
            room == self::room(before.len(), max_results as nat),
            pos <= n,
            k <= pos,
            at_segment(s, k as int, pos as int),
            before == found(matches@),
            found(kept@) == before + hits(pattern, path@, lines, k as nat),
            hits(pattern, path@, lines, k as nat).len() == 0 || hits(
                pattern,
                path@,
                lines,
                k as nat,
            ).len() < room,
        decreases n - pos,
    {
        proof {
            lemma_at_segment_next(s, k as int, pos as int);
        }
        let end: usize = segment_end(&chars, pos);
        let text_end: usize = line_text_end(&chars, pos, end);
        let line = string_of(&chars, pos, text_end);
        assert(line@ == lines[k as int]);
        let ghost some = hits(pattern, path@, lines, k as nat);
        let ghost more = hits(pattern, path@, lines, (k + 1) as nat);
        let matched = is_match(re, line.as_str());
        let outcome = take_line(kept, path, k + 1, line.as_str(), matched, max_results);
        proof {
            lemma_hits_grow(pattern, path@, lines, (k + 1) as nat, lines.len());
            let new = hit(path@, lines, k as int);
            if matched {
                assert(before + some.push(new) =~= (before + some) + seq![new]);
                if some.len() < room {
                    assert(seq![new].take(1) =~= seq![new]);
                } else {
                    assert(some =~= Seq::empty());
                    assert((before + some) + seq![new].take(0) =~= before);
                }
            } else {
                assert((before + some) + Seq::<FoundLine>::empty() =~= before + some);
            }
        }
        kept = outcome.matches;
        if outcome.truncated {
            proof {
                let all = hits(pattern, path@, lines, lines.len());
                assert(matched);
                assert(all.take(more.len() as int) == more);
                if room > 0 {
                    assert(all.take(room as int) =~= more);
                } else {
                    assert(before + all.take(0) =~= before);
                }
            }
            return SearchOutcome { matches: kept, truncated: true };
        }
        pos = end;
        k = k + 1;
    }
    proof {
        lemma_at_segment_end(s, k as int, pos as int);
    }
    SearchOutcome { matches: kept, truncated: false }
}

// ---------------------------------------------------------------------------
// Which files are searched
// ---------------------------------------------------------------------------

/// Whether what is called `name` is passed over, with everything below it.
pub open spec fn passed_over(name: Seq<char>) -> bool {
    ||| has_prefix(name, "."@)
    ||| name == "node_modules"@
    ||| name == "target"@
    ||| name == "__pycache__"@
}

/// Whether what is called `name` is passed over.
pub fn is_passed_over(name: &str) -> (r: bool)
    ensures
        r == passed_over(name@),
{
    starts_with(name, ".") || same_text(name, "node_modules") || same_text(name, "target")
        || same_text(name, "__pycache__")
}

/// Whether a file with these first bytes is binary: one of those that are looked
/// at is zero.
pub open spec fn binary_bytes(bytes: Seq<u8>) -> bool {
    exists|i: int| 0 <= i < bytes.len() && i < BINARY_SNIFF_BYTES && #[trigger] bytes[i] == 0
}

/// Whether a file is taken for binary. One that cannot be read is.
pub open spec fn binary_start(start: Result<Vec<u8>, FsError>) -> bool {
    match start {
        Ok(bytes) => binary_bytes(bytes@),
        Err(_) => true,
    }
}

/// Whether a file that starts with these bytes is taken for binary.
pub fn is_binary_file(start: &Result<Vec<u8>, FsError>) -> (r: bool)
    ensures
        r == binary_start(*start),
{
    match start {
        Ok(bytes) => has_zero(bytes),
        Err(_) => true,
    }
}

fn has_zero(bytes: &Vec<u8>) -> (r: bool)
    ensures
        r == binary_bytes(bytes@),
{
    let mut i: usize = 0;
    while i < bytes.len() && i < BINARY_SNIFF_BYTES
        invariant
            0 <= i <= bytes@.len(),
            i <= BINARY_SNIFF_BYTES,
            forall|k: int| 0 <= k < i ==> bytes@[k] != 0,
        decreases bytes@.len() - i,
    {
        if bytes[i] == 0 {
            return true;
        }
        i = i + 1;
    }
    false
}

/// The name of an entry.
pub open spec fn entry_name(path: Seq<Part>, separator: char) -> Seq<char> {
    match name_of(path) {
        Some(name) => name.text,
        None => full_text(path, separator),
    }
}

fn entry_name_text(path: &Vec<PathPart>, separator: char) -> (r: String)
    ensures
        r@ == entry_name(parts(path@), separator),
{
    match file_name(path) {
        Some(name) => name.text,
        None => full_path_text(path, separator),
    }
}

/// What `path` holds below the directory that is searched, which is `root` and,
/// with every link in it resolved, `canonical`.
pub open spec fn below(canonical: Seq<Part>, root: Seq<Part>, path: Seq<Part>) -> Seq<Part> {
    if is_under(path, canonical) {
        path.skip(canonical.len() as int)
    } else if is_under(path, root) {
        path.skip(root.len() as int)
    } else {
        path
    }
}

fn text_below(
    canonical: &Vec<PathPart>,
    root: &Vec<PathPart>,
    path: &Vec<PathPart>,
    separator: char,
) -> (r: String)
    ensures
        r@ == full_text(below(parts(canonical@), parts(root@), parts(path@)), separator),
{
    let skip: usize = if lies_under(path, canonical) {
        canonical.len()
    } else if lies_under(path, root) {
        root.len()
    } else {
        0
    };
    let none: Vec<PathPart> = Vec::new();
    let rest = join_tail(&none, path, skip);
    assert(parts(rest@) =~= parts(path@).skip(skip as int));
    assert(parts(path@).skip(0) =~= parts(path@));
    full_path_text(&rest, separator)
}

// ---------------------------------------------------------------------------
// The search of a directory
// ---------------------------------------------------------------------------

/// What a search is for and how far it may go.
#[derive(Debug)]
pub struct SearchRules {
    pub root: Vec<PathPart>,
    pub separator: char,
    pub pattern: Regex,
    pub glob: Option<Regex>,
    pub max_results: usize,
    pub max_file_bytes: u64,
    pub max_total_bytes: u64,
}

/// Where a search stands.
#[derive(Debug)]
#[allow(inconsistent_fields)]
pub enum SearchPhase {
    /// Asked where the root is.
    Root,
    /// Asked for an entry below the root.
    Entry { canonical: Vec<PathPart> },
    /// Asked for the size of the file at `path`, shown as `shown`.
    Size { canonical: Vec<PathPart>, path: Vec<PathPart>, shown: String },
    /// Asked for its first bytes.
    Start { canonical: Vec<PathPart>, path: Vec<PathPart>, shown: String },
    /// Asked for its text.
    Content { canonical: Vec<PathPart>, shown: String },
}

/// A search that waits for a reply. It found `matches` so far, in files of
/// `scanned` bytes in all.
#[derive(Debug)]
pub struct SearchRun {
    pub rules: SearchRules,
    pub matches: Vec<SearchMatch>,
    pub scanned: u64,
    pub phase: SearchPhase,
}

/// [`SearchRules`] over sequences.
pub struct SearchTerms {
    pub root: Seq<Part>,
    pub separator: char,
    pub pattern: Seq<char>,
    pub glob: Option<Seq<char>>,
    pub max_results: usize,
    pub max_file_bytes: u64,
    pub max_total_bytes: u64,
}

/// A [`SearchPhase`] over sequences.
#[allow(inconsistent_fields)]
pub enum SearchStage {
    Root,
    Entry { canonical: Seq<Part> },
    Size { canonical: Seq<Part>, path: Seq<Part>, shown: Seq<char> },
    Start { canonical: Seq<Part>, path: Seq<Part>, shown: Seq<char> },
    Content { canonical: Seq<Part>, shown: Seq<char> },
}

/// A [`SearchRun`] over sequences.
pub struct SearchState {
    pub terms: SearchTerms,
    pub matches: Seq<FoundLine>,
    pub scanned: u64,
    pub stage: SearchStage,
}

impl View for SearchRules {
    type V = SearchTerms;

    open spec fn view(&self) -> SearchTerms {
        SearchTerms {
            root: parts(self.root@),
            separator: self.separator,
            pattern: regex_text(self.pattern),
            glob: pattern_text(self.glob),
            max_results: self.max_results,
            max_file_bytes: self.max_file_bytes,
            max_total_bytes: self.max_total_bytes,
        }
    }
}

impl View for SearchPhase {
    type V = SearchStage;

    open spec fn view(&self) -> SearchStage {
        match *self {
            SearchPhase::Root => SearchStage::Root,
            SearchPhase::Entry { canonical } => SearchStage::Entry { canonical: parts(canonical@) },
            SearchPhase::Size { canonical, path, shown } => SearchStage::Size {
                canonical: parts(canonical@),
                path: parts(path@),
                shown: shown@,
            },
            SearchPhase::Start { canonical, path, shown } => SearchStage::Start {
                canonical: parts(canonical@),
                path: parts(path@),
                shown: shown@,
            },
            SearchPhase::Content { canonical, shown } => SearchStage::Content {
                canonical: parts(canonical@),
                shown: shown@,
            },
        }
    }
}

impl View for SearchRun {
    type V = SearchState;

    open spec fn view(&self) -> SearchState {
        SearchState {
            terms: self.rules@,
            matches: found(self.matches@),
            scanned: self.scanned,
            stage: self.phase@,
        }
    }
}

impl SearchState {
    /// The kind of reply that the search waits for.
    pub open spec fn awaits(self) -> ReplyKind {
        match self.stage {
            SearchStage::Root => ReplyKind::Path,
            SearchStage::Entry { .. } => ReplyKind::Entry,
            SearchStage::Size { .. } => ReplyKind::Status,
            SearchStage::Start { .. } => ReplyKind::Bytes,
            SearchStage::Content { .. } => ReplyKind::Text,
        }
    }

    /// The search at another stage.
    pub open spec fn at(self, stage: SearchStage) -> SearchState {
        SearchState { stage, ..self }
    }

    /// Asks for the next entry.
    pub open spec fn ask_next(self, canonical: Seq<Part>) -> Step<
        Seq<Part>,
        SearchState,
        FoundLines,
        SearchFailure,
    > {
        Step::Ask(FsRequest::NextEntry, self.at(SearchStage::Entry { canonical }))
    }

    /// Ends with what was found.
    pub open spec fn end(self, truncated: bool) -> Step<
        Seq<Part>,
        SearchState,
        FoundLines,
        SearchFailure,
    > {
        Step::Done(FoundLines { matches: self.matches, truncated })
    }
}

/// Starts to search the files below `root`.
pub open spec fn search_start(
    root: Seq<Part>,
    separator: char,
    pattern: Seq<char>,
    glob: Option<Seq<char>>,
    max_results: usize,
    max_file_bytes: u64,
    max_total_bytes: u64,
) -> Step<Seq<Part>, SearchState, FoundLines, SearchFailure> {
    match regex_error(pattern, usize::BITS as nat) {
        Some(message) => Step::Failed(SearchFailure::InvalidRegex(message)),
        None => match glob_or_error(glob) {
            Err(message) => Step::Failed(SearchFailure::InvalidGlob(message)),
            Ok(glob) => Step::Ask(
                FsRequest::Canonicalize(root),
                SearchState {
                    terms: SearchTerms {
                        root,
                        separator,
                        pattern,
                        glob,
                        max_results,
                        max_file_bytes,
                        max_total_bytes,
                    },
                    matches: seq![],
                    scanned: 0,
                    stage: SearchStage::Root,
                },
            ),
        },
    }
}

/// The sum of two sizes, or the largest size where the sum is larger.
pub open spec fn size_sum(a: u64, b: u64) -> u64 {
    if a + b <= u64::MAX {
        (a + b) as u64
    } else {
        u64::MAX
    }
}

/// Goes on after an entry: a file that the glob admits is searched, whatever has
/// a name that is passed over is left out with everything below it.
pub open spec fn search_entry(state: SearchState, canonical: Seq<Part>, entry: Entry) -> Step<
    Seq<Part>,
    SearchState,
    FoundLines,
    SearchFailure,
> {
    let path = parts(entry.path@);
    let shown = full_text(below(canonical, state.terms.root, path), state.terms.separator);
    if entry.depth > 0 && passed_over(entry_name(path, state.terms.separator)) {
        if entry.kind == FileKind::Directory {
            Step::Ask(FsRequest::SkipEntry, state.at(SearchStage::Entry { canonical }))
        } else {
            state.ask_next(canonical)
        }
    } else if entry.kind != FileKind::File || !glob_admits(state.terms.glob, shown) {
        state.ask_next(canonical)
    } else {
        Step::Ask(
            FsRequest::StatEntry(path),
            state.at(SearchStage::Size { canonical, path, shown }),
        )
    }
}

/// Goes on with a search. What cannot be read is left out, and so are files that
/// are too large or binary. Once the files add up to more than the search may
/// read, it ends.
pub open spec fn search_next(state: SearchState, reply: FsReply) -> Step<
    Seq<Part>,
    SearchState,
    FoundLines,
    SearchFailure,
> {
    match state.stage {
        SearchStage::Root => Step::Ask(
            FsRequest::Walk(state.terms.root, 0),
            state.at(
                SearchStage::Entry {
                    canonical: match reply->Path_0 {
                        Ok(path) => parts(path@),
                        Err(_) => state.terms.root,
                    },
                },
            ),
        ),
        SearchStage::Entry { canonical } => match reply->Entry_0 {
            NextEntry::Found(entry) => search_entry(state, canonical, entry),
            NextEntry::Failed(_) => state.ask_next(canonical),
            NextEntry::End => state.end(false),
        },
        SearchStage::Size { canonical, path, shown } => match reply->Status_0 {
            Ok(stat) => {
                let scanned = size_sum(state.scanned, stat.len);
                if stat.len > state.terms.max_file_bytes {
                    state.ask_next(canonical)
                } else if scanned > state.terms.max_total_bytes {
                    state.end(false)
                } else {
                    Step::Ask(
                        FsRequest::ReadStart(path, BINARY_SNIFF_BYTES),
                        SearchState {
                            scanned,
                            stage: SearchStage::Start { canonical, path, shown },
                            ..state
                        },
                    )
                }
            },
            Err(_) => state.ask_next(canonical),
        },
        SearchStage::Start { canonical, path, shown } => if binary_start(reply->Bytes_0) {
            state.ask_next(canonical)
        } else {
            Step::Ask(
                FsRequest::ReadText(path),
                state.at(SearchStage::Content { canonical, shown }),
            )
        },
        SearchStage::Content { canonical, shown } => match reply->Text_0 {
            Ok(text) => {
                let now = searched(
                    state.terms.pattern,
                    shown,
                    text@,
                    state.terms.max_results as nat,
                    state.matches,
                );
                let after = SearchState { matches: now.matches, ..state };
                if now.truncated {
                    after.end(true)
                } else {
                    after.ask_next(canonical)
                }
            },
            Err(_) => state.ask_next(canonical),
        },
    }
}

/// Starts to search the files below `root` for lines that match `pattern`, only
/// those whose path below the root matches `glob`, where there is one.
pub fn search(
    root: Vec<PathPart>,
    separator: char,
    pattern: &str,
    glob: &Option<String>,
    max_results: usize,
    max_file_bytes: u64,
    max_total_bytes: u64,
) -> (r: Step<Vec<PathPart>, SearchRun, SearchOutcome, SearchError>)
    ensures
        r@ == search_start(
            parts(root@),
            separator,
            pattern@,
            optional_text(*glob),
            max_results,
            max_file_bytes,
            max_total_bytes,
        ),
{
    let pattern = match compile_regex(pattern) {
        Ok(re) => re,
        Err(message) => {
            return Step::Failed(SearchError::InvalidRegex(message));
        },
    };
    let glob = match compile_optional_glob(glob) {
        Ok(glob) => glob,
        Err(message) => {
            return Step::Failed(SearchError::InvalidGlob(message));
        },
    };
    let asked = copy_path_parts(&root);
    let matches: Vec<SearchMatch> = Vec::new();
    assert(found(matches@) =~= seq![]);
    let rules = SearchRules {
        root,
        separator,
        pattern,
        glob,
        max_results,
        max_file_bytes,
        max_total_bytes,
    };
    Step::Ask(
        FsRequest::Canonicalize(asked),
        SearchRun { rules, matches, scanned: 0, phase: SearchPhase::Root },
    )
}

fn resume_entry(
    rules: SearchRules,
    matches: Vec<SearchMatch>,
    scanned: u64,
    canonical: Vec<PathPart>,
    entry: Entry,
) -> (r: Step<Vec<PathPart>, SearchRun, SearchOutcome, SearchError>)
    ensures
        r@ == search_entry(
            (SearchState {
                terms: rules@,
                matches: found(matches@),
                scanned,
                stage: SearchStage::Entry { canonical: parts(canonical@) },
            }),
            parts(canonical@),
            entry,
        ),
{
    if entry.depth > 0 && is_passed_over(
        entry_name_text(&entry.path, rules.separator).as_str(),
    ) {
        let request = if entry.kind == FileKind::Directory {
            FsRequest::SkipEntry
        } else {
            FsRequest::NextEntry
        };
        return Step::Ask(
            request,
            SearchRun { rules, matches, scanned, phase: SearchPhase::Entry { canonical } },
        );
    }
    let shown = text_below(&canonical, &rules.root, &entry.path, rules.separator);
    if entry.kind != FileKind::File || !admits(&rules.glob, shown.as_str()) {
        return Step::Ask(
            FsRequest::NextEntry,
            SearchRun { rules, matches, scanned, phase: SearchPhase::Entry { canonical } },
        );
    }
    let path = entry.path;
    let asked = copy_path_parts(&path);
    Step::Ask(
        FsRequest::StatEntry(asked),
        SearchRun { rules, matches, scanned, phase: SearchPhase::Size { canonical, path, shown } },
    )
}

impl SearchRun {
    /// The kind of reply that the search waits for.
    pub fn awaits(&self) -> (r: ReplyKind)
        ensures
            r == self@.awaits(),
    {
        match &self.phase {
            SearchPhase::Root => ReplyKind::Path,
            SearchPhase::Entry { .. } => ReplyKind::Entry,
            SearchPhase::Size { .. } => ReplyKind::Status,
            SearchPhase::Start { .. } => ReplyKind::Bytes,
            SearchPhase::Content { .. } => ReplyKind::Text,
        }
    }

    /// Goes on with the search.
    pub fn resume(self, reply: FsReply) -> (r: Step<
        Vec<PathPart>,
        SearchRun,
        SearchOutcome,
        SearchError,
    >)
        requires
            reply.kind_of() == self@.awaits(),
        ensures
            r@ == search_next(self@, reply),
    {
        let SearchRun { rules, matches, scanned, phase } = self;
        match phase {
            SearchPhase::Root => match reply {
                FsReply::Path(told) => {
                    let canonical = match told {
                        Ok(path) => path,
                        Err(_) => copy_path_parts(&rules.root),
                    };
                    let asked = copy_path_parts(&rules.root);
                    Step::Ask(
                        FsRequest::Walk(asked, 0),
                        SearchRun {
                            rules,
                            matches,
                            scanned,
                            phase: SearchPhase::Entry { canonical },
                        },
                    )
                },
                _ => unreached(),
            },
            SearchPhase::Entry { canonical } => match reply {
                FsReply::Entry(NextEntry::Found(entry)) => resume_entry(
                    rules,
                    matches,
                    scanned,
                    canonical,
                    entry,
                ),
                FsReply::Entry(NextEntry::Failed(_)) => Step::Ask(
                    FsRequest::NextEntry,
                    SearchRun { rules, matches, scanned, phase: SearchPhase::Entry { canonical } },
                ),
                FsReply::Entry(NextEntry::End) => Step::Done(
                    SearchOutcome { matches, truncated: false },
                ),
                _ => unreached(),
            },
            SearchPhase::Size { canonical, path, shown } => match reply {
                FsReply::Status(Ok(stat)) => {
                    if stat.len > rules.max_file_bytes {
                        return Step::Ask(
                            FsRequest::NextEntry,
                            SearchRun {
                                rules,
                                matches,
                                scanned,
                                phase: SearchPhase::Entry { canonical },
                            },
                        );
                    }
                    let scanned: u64 = match scanned.checked_add(stat.len) {
                        Some(sum) => sum,
                        None => u64::MAX,
                    };
                    if scanned > rules.max_total_bytes {
                        return Step::Done(SearchOutcome { matches, truncated: false });
                    }
                    let asked = copy_path_parts(&path);
                    Step::Ask(
                        FsRequest::ReadStart(asked, BINARY_SNIFF_BYTES),
                        SearchRun {
                            rules,
                            matches,
                            scanned,
                            phase: SearchPhase::Start { canonical, path, shown },
                        },
                    )
                },
                FsReply::Status(Err(_)) => Step::Ask(
                    FsRequest::NextEntry,
                    SearchRun { rules, matches, scanned, phase: SearchPhase::Entry { canonical } },
                ),
                _ => unreached(),
            },
            SearchPhase::Start { canonical, path, shown } => match reply {
                FsReply::Bytes(start) => if is_binary_file(&start) {
                    Step::Ask(
                        FsRequest::NextEntry,
                        SearchRun {
                            rules,
                            matches,
                            scanned,
                            phase: SearchPhase::Entry { canonical },
                        },
                    )
                } else {
                    Step::Ask(
                        FsRequest::ReadText(path),
                        SearchRun {
                            rules,
                            matches,
                            scanned,
                            phase: SearchPhase::Content { canonical, shown },
                        },
                    )
                },
                _ => unreached(),
            },
            SearchPhase::Content { canonical, shown } => match reply {
                FsReply::Text(Ok(text)) => {
                    let now = search_text(
                        &rules.pattern,
                        shown.as_str(),
                        text.as_str(),
                        rules.max_results,
                        matches,
                    );
                    if now.truncated {
                        Step::Done(now)
                    } else {
                        Step::Ask(
                            FsRequest::NextEntry,
                            SearchRun {
                                rules,
                                matches: now.matches,
                                scanned,
                                phase: SearchPhase::Entry { canonical },
                            },
                        )
                    }
                },
                FsReply::Text(Err(_)) => Step::Ask(
                    FsRequest::NextEntry,
                    SearchRun { rules, matches, scanned, phase: SearchPhase::Entry { canonical } },
                ),
                _ => unreached(),
            },
        }
    }
}

} // verus!
