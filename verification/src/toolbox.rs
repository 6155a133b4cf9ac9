//! The commands that a workspace takes, what they return, and the commands that
//! only compute on the text of a file.

use vstd::prelude::*;
use vstd::utf8::*;

pub use crate::errors::ToolboxError;
use crate::order::Listed;
use crate::search::{found, FoundLine, SearchMatch};
use crate::text::{
    at_segment, chars_of, is_white_space, lemma_at_segment_end, lemma_at_segment_next,
    lemma_at_segment_start, lemma_segments_flatten, segment_end, segments, string_of, texts,
    white_space,
};
pub use crate::workspace::run_workspace_command;

verus! {

/// How much of a file is read where the caller sets no limit.
pub const TOOLBOX_DEFAULT_MAX_READ_BYTES: u64 = 1048576;

/// How many entries are listed where the caller sets no limit.
pub const TOOLBOX_DEFAULT_MAX_LIST_ENTRIES: usize = 1024;

/// How many paths are found where the caller sets no limit.
pub const TOOLBOX_DEFAULT_MAX_FIND_RESULTS: usize = 1024;

/// How many bytes are copied with a directory where the caller sets no limit.
pub const TOOLBOX_DEFAULT_MAX_COPY_BYTES: u64 = 67108864;

/// How many entries are copied or removed with a directory where the caller
/// sets no limit.
pub const TOOLBOX_DEFAULT_MAX_MUTATION_ENTRIES: usize = 2048;

/// A command on a workspace. Every path in it is relative to the workspace root.
#[derive(Debug, Clone, PartialEq, Eq)]
#[allow(inconsistent_fields)]
pub enum WorkspaceCommand {
    Pwd,
    Ls { path: Option<String>, recursive: bool, max_entries: Option<usize> },
    Cat { path: String, max_bytes: Option<u64> },
    Head { path: String, lines: usize, max_bytes: Option<u64> },
    Tail { path: String, lines: usize, max_bytes: Option<u64> },
    Wc { path: String, max_bytes: Option<u64> },
    Find { path: Option<String>, glob: Option<String>, max_results: Option<usize> },
    Grep {
        path: Option<String>,
        pattern: String,
        glob: Option<String>,
        max_results: usize,
        max_file_bytes: u64,
        max_total_bytes: u64,
    },
    Mkdir { path: String, parents: bool },
    Cp {
        source: String,
        destination: String,
        recursive: bool,
        overwrite: bool,
        max_total_bytes: Option<u64>,
        max_entries: Option<usize>,
    },
    Mv { source: String, destination: String, overwrite: bool },
    Rm { path: String, recursive: bool, max_entries: Option<usize> },
}

/// What a listed entry is.
#[derive(Debug, Clone, Copy, PartialEq, Eq, Structural)]
pub enum WorkspaceEntryKind {
    File,
    Directory,
}

/// A listed entry. Only a file has a size.
#[derive(Debug, Clone, PartialEq, Eq)]
pub struct WorkspaceEntry {
    pub path: String,
    pub kind: WorkspaceEntryKind,
    pub size_bytes: Option<u64>,
}

/// What a text amounts to.
#[derive(Debug, Clone, Copy, PartialEq, Eq, Structural)]
pub struct WordCount {
    pub bytes: u64,
    pub chars: usize,
    pub words: usize,
    pub lines: usize,
}

/// What a command returns.
#[derive(Debug, Clone, PartialEq, Eq)]
#[allow(inconsistent_fields)]
pub enum WorkspaceCommandOutput {
    Pwd { path: String },
    Ls { entries: Vec<WorkspaceEntry>, truncated: bool },
    Cat { content: String },
    Head { content: String },
    Tail { content: String },
    Wc { counts: WordCount },
    Find { paths: Vec<String>, truncated: bool },
    Grep { matches: Vec<SearchMatch>, truncated: bool },
    Mutation { action: String, path: String },
}

/// A [`WorkspaceEntry`] with its path as a character sequence.
pub struct ListedEntry {
    pub path: Seq<char>,
    pub kind: WorkspaceEntryKind,
    pub size_bytes: Option<u64>,
}

/// A [`WorkspaceCommandOutput`] over sequences.
#[allow(inconsistent_fields)]
pub enum Report {
    Pwd { path: Seq<char> },
    Ls { entries: Seq<ListedEntry>, truncated: bool },
    Cat { content: Seq<char> },
    Head { content: Seq<char> },
    Tail { content: Seq<char> },
    Wc { counts: WordCount },
    Find { paths: Seq<Seq<char>>, truncated: bool },
    Grep { matches: Seq<FoundLine>, truncated: bool },
    Mutation { action: Seq<char>, path: Seq<char> },
}

impl View for WorkspaceEntry {
    type V = ListedEntry;

    open spec fn view(&self) -> ListedEntry {
        ListedEntry { path: self.path@, kind: self.kind, size_bytes: self.size_bytes }
    }
}

impl Listed for WorkspaceEntry {
    open spec fn key(v: ListedEntry) -> Seq<char> {
        v.path
    }

    fn key_text(&self) -> (r: &str) {
        self.path.as_str()
    }
}

/// The entries that `entries` holds.
pub open spec fn listed(entries: Seq<WorkspaceEntry>) -> Seq<ListedEntry> {
    entries.map_values(|e: WorkspaceEntry| e@)
}

impl View for WorkspaceCommandOutput {
    type V = Report;

    open spec fn view(&self) -> Report {
        match *self {
            WorkspaceCommandOutput::Pwd { path } => Report::Pwd { path: path@ },
            WorkspaceCommandOutput::Ls { entries, truncated } => Report::Ls {
                entries: listed(entries@),
                truncated,
            },
            WorkspaceCommandOutput::Cat { content } => Report::Cat { content: content@ },
            WorkspaceCommandOutput::Head { content } => Report::Head { content: content@ },
            WorkspaceCommandOutput::Tail { content } => Report::Tail { content: content@ },
            WorkspaceCommandOutput::Wc { counts } => Report::Wc { counts },
            WorkspaceCommandOutput::Find { paths, truncated } => Report::Find {
                paths: texts(paths@),
                truncated,
            },
            WorkspaceCommandOutput::Grep { matches, truncated } => Report::Grep {
                matches: found(matches@),
                truncated,
            },
            WorkspaceCommandOutput::Mutation { action, path } => Report::Mutation {
                action: action@,
                path: path@,
            },
        }
    }
}

// ---------------------------------------------------------------------------
// Lines from the start and from the end
// ---------------------------------------------------------------------------

/// The first `n` lines of `s`, or all where there are no more.
pub open spec fn first_lines(s: Seq<char>, n: int) -> Seq<char> {
    let all = segments(s);
    all.take(if n < all.len() { n } else { all.len() as int }).flatten()
}

/// The last `n` lines of `s`, or all where there are no more.
pub open spec fn last_lines(s: Seq<char>, n: int) -> Seq<char> {
    let all = segments(s);
    all.skip(if n < all.len() { all.len() - n } else { 0 }).flatten()
}

/// The first `lines` lines of `content`.
pub fn head_lines(content: &str, lines: usize) -> (r: String)
    ensures
        r@ == first_lines(content@, lines as int),
{
    let chars = chars_of(content);
    let n: usize = chars.len();
    let ghost s = content@;
    let mut pos: usize = 0;
    let mut k: usize = 0;
    proof {
        lemma_at_segment_start(s);
    }
    while k < lines && pos < n
        invariant
            s == chars@,
            n == chars@.len(),
            k <= lines,
            pos <= n,
            k <= pos,
            at_segment(s, k as int, pos as int),
        decreases n - pos,
    {
        proof {
            lemma_at_segment_next(s, k as int, pos as int);
        }
        pos = segment_end(&chars, pos);
        k = k + 1;
    }
    proof {
        lemma_at_segment_end(s, k as int, pos as int);
        assert(s.take(pos as int) =~= chars@.subrange(0, pos as int));
    }
    string_of(&chars, 0, pos)
}

/// The number of lines of a text.
fn line_count(chars: &Vec<char>) -> (r: usize)
    ensures
        r == segments(chars@).len(),
{
    let n: usize = chars.len();
    let ghost s = chars@;
    let mut pos: usize = 0;
    let mut k: usize = 0;
    proof {
        lemma_at_segment_start(s);
    }
    while pos < n
        invariant
            s == chars@,
            n == chars@.len(),
            pos <= n,
            k <= pos,
            at_segment(s, k as int, pos as int),
        decreases n - pos,
    {
        proof {
            lemma_at_segment_next(s, k as int, pos as int);
        }
        pos = segment_end(chars, pos);
        k = k + 1;
    }
    proof {
        lemma_at_segment_end(s, k as int, pos as int);
    }
    k
}

/// The last `lines` lines of `content`.
pub fn tail_lines(content: &str, lines: usize) -> (r: String)
    ensures
        r@ == last_lines(content@, lines as int),
{
    let chars = chars_of(content);
    let n: usize = chars.len();
    let ghost s = content@;
    let count: usize = line_count(&chars);
    let start: usize = if lines < count {
        count - lines
    } else {
        0
    };
    let mut pos: usize = 0;
    let mut k: usize = 0;
    proof {
        lemma_at_segment_start(s);
    }
    while k < start
        invariant
            s == chars@,
            n == chars@.len(),
            count == segments(s).len(),
            k <= start <= count,
            pos <= n,
            at_segment(s, k as int, pos as int),
        decreases start - k,
    {
        proof {
            lemma_at_segment_end(s, k as int, pos as int);
            lemma_at_segment_next(s, k as int, pos as int);
        }
        pos = segment_end(&chars, pos);
        k = k + 1;
    }
    proof {
        lemma_segments_flatten(s.skip(pos as int));
        assert(s.skip(pos as int) =~= chars@.subrange(pos as int, n as int));
    }
    string_of(&chars, pos, n)
}

/// A text parts into its first `k` lines and the lines after them.
pub proof fn law_head_and_tail(s: Seq<char>, k: int)
    requires
        0 <= k <= segments(s).len(),
    ensures
        first_lines(s, k) + last_lines(s, segments(s).len() - k) == s,
{
    let all = segments(s);
    lemma_segments_flatten(s);
    assert(all =~= all.take(k) + all.skip(k));
    lemma_flatten_parts(all.take(k), all.skip(k));
    assert(all.take(all.len() as int) =~= all);
}

proof fn lemma_flatten_parts(a: Seq<Seq<char>>, b: Seq<Seq<char>>)
    ensures
        (a + b).flatten() == a.flatten() + b.flatten(),
    decreases b.len(),
{
    if b.len() == 0 {
        assert(a + b =~= a);
        assert(b.flatten() =~= Seq::empty());
        assert(a.flatten() + b.flatten() =~= a.flatten());
    } else {
        let c = b.drop_last();
        lemma_flatten_parts(a, c);
        assert(a + b =~= (a + c).push(b.last()));
        assert(b =~= c.push(b.last()));
        (a + c).lemma_flatten_push(b.last());
        c.lemma_flatten_push(b.last());
        assert(a.flatten() + (c.flatten() + b.last()) =~= (a.flatten() + c.flatten()) + b.last());
    }
}

/// Asked for as many lines as there are, or more, both ends give the whole text;
/// asked for none, they give nothing.
pub proof fn law_all_lines_and_none(s: Seq<char>, n: int)
    requires
        n >= segments(s).len(),
    ensures
        first_lines(s, n) == s,
        last_lines(s, n) == s,
        first_lines(s, 0) == Seq::<char>::empty(),
        last_lines(s, 0) == Seq::<char>::empty(),
{
    let all = segments(s);
    lemma_segments_flatten(s);
    assert(all.take(all.len() as int) =~= all);
    assert(all.skip(0) =~= all);
    assert(all.take(0).flatten() =~= Seq::empty());
    assert(all.skip(all.len() as int).flatten() =~= Seq::empty());
}

// ---------------------------------------------------------------------------
// Counting
// ---------------------------------------------------------------------------

/// Whether a word starts at index `i` of `s`: what stands there is no white
/// space, and what stands before it, if anything does, is.
pub open spec fn word_starts(s: Seq<char>, i: int) -> bool {
    !is_white_space(s[i]) && (i == 0 || is_white_space(s[i - 1]))
}

/// The number of words that start in the first `n` characters of `s`.
pub open spec fn words_before(s: Seq<char>, n: nat) -> nat
    decreases n,
{
    if n == 0 {
        0
    } else {
        words_before(s, (n - 1) as nat) + if word_starts(s, n - 1) {
            1nat
        } else {
            0nat
        }
    }
}

/// The number of times that `c` stands in the first `n` characters of `s`.
pub open spec fn times_before(s: Seq<char>, c: char, n: nat) -> nat
    decreases n,
{
    if n == 0 {
        0
    } else {
        times_before(s, c, (n - 1) as nat) + if s[n - 1] == c {
            1nat
        } else {
            0nat
        }
    }
}

/// What `s` amounts to: its length in bytes and in characters, its words, and
/// the line feeds in it.
pub open spec fn counted_text(s: Seq<char>) -> WordCount {
    WordCount {
        bytes: encode_utf8(s).len() as u64,
        chars: s.len() as usize,
        words: words_before(s, s.len()) as usize,
        lines: times_before(s, '\n', s.len()) as usize,
    }
}

/// What `content` amounts to.
pub fn count_words(content: &str) -> (r: WordCount)
    ensures
        r == counted_text(content@),
        r.bytes == encode_utf8(content@).len(),
        r.chars == content@.len(),
        r.words == words_before(content@, content@.len()),
        r.lines == times_before(content@, '\n', content@.len()),
{
    let chars = chars_of(content);
    let n: usize = chars.len();
    let ghost s = content@;
    let mut words: usize = 0;
    let mut lines: usize = 0;
    let mut i: usize = 0;
    while i < n
        invariant
            s == chars@,
            n == chars@.len(),
            i <= n,
            words == words_before(s, i as nat),
            lines == times_before(s, '\n', i as nat),
            words <= i,
            lines <= i,
        decreases n - i,
    {
        if !white_space(chars[i]) && (i == 0 || white_space(chars[i - 1])) {
            words = words + 1;
        }
        if chars[i] == '\n' {
            lines = lines + 1;
        }
        i = i + 1;
    }
    WordCount { bytes: content.as_bytes().len() as u64, chars: n, words, lines }
}

} // verus!
