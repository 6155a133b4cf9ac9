//! What holds of every search.

use vstd::prelude::*;

use crate::errors::SearchFailure;
use crate::fs::{Entry, FileKind, FsReply, FsRequest, NextEntry, Step};
use crate::listing::glob_or_error;
use crate::path_laws::{law_below, law_written_paths, leads_from, written};
use crate::paths::{full_text, parts, Part};
use crate::pattern::{glob_regex, regex_error, regex_matches};
use crate::search::{
    below, binary_bytes, binary_start, entry_name, hit, hits, passed_over, search_entry,
    search_next, search_start, searched, size_sum, text_lines, with_line, FoundLine, FoundLines,
    SearchStage, SearchState, SearchTerms,
};
use crate::text::segments;
use crate::text_laws::{
    are_lines, is_core_of, law_line_endings, law_lines, law_trimming, smaller,
};

verus! {

// ---------------------------------------------------------------------------
// One text
// ---------------------------------------------------------------------------

/// The hits in a text are just the lines that the pattern matches: each hit is
/// one of them, and each of them is a hit.
pub proof fn law_hits_are_the_matching_lines(
    pattern: Seq<char>,
    path: Seq<char>,
    lines: Seq<Seq<char>>,
    n: nat,
)
    requires
        n <= lines.len(),
    ensures
        forall|m: FoundLine| #[trigger]
            hits(pattern, path, lines, n).contains(m) ==> exists|i: int|
                0 <= i < n && m == #[trigger] hit(path, lines, i) && regex_matches(
                    pattern,
                    lines[i],
                ),
        forall|i: int|
            0 <= i < n && regex_matches(pattern, lines[i]) ==> hits(
                pattern,
                path,
                lines,
                n,
            ).contains(#[trigger] hit(path, lines, i)),
    decreases n,
{
    if n > 0 {
        let k = (n - 1) as nat;
        let before = hits(pattern, path, lines, k);
        let now = hits(pattern, path, lines, n);
        law_hits_are_the_matching_lines(pattern, path, lines, k);
        assert forall|m: FoundLine| #[trigger] now.contains(m) implies exists|i: int|
            0 <= i < n && m == #[trigger] hit(path, lines, i) && regex_matches(
                pattern,
                lines[i],
            ) by {
            let j = choose|j: int| 0 <= j < now.len() && now[j] == m;
            if j < before.len() {
                assert(before[j] == m);
                assert(before.contains(m));
                let i = choose|i: int|
                    0 <= i < k && m == #[trigger] hit(path, lines, i) && regex_matches(
                        pattern,
                        lines[i],
                    );
                assert(m == hit(path, lines, i));
            } else {
                assert(m == hit(path, lines, n - 1));
            }
        }
        assert forall|i: int| 0 <= i < n && regex_matches(pattern, lines[i]) implies now.contains(
            #[trigger] hit(path, lines, i),
        ) by {
            if i < k {
                assert(before.contains(hit(path, lines, i)));
                let j = choose|j: int| 0 <= j < before.len() && before[j] == hit(path, lines, i);
                assert(now[j] == hit(path, lines, i));
            } else {
                assert(now[now.len() - 1] == hit(path, lines, i));
            }
        }
    }
}

/// The search of a text keeps what was found, adds hits in the order of the
/// lines, never goes over the number of matches that the caller allows, and is
/// truncated only where it comes to that number. Where it is not truncated, every
/// hit is there.
pub proof fn law_text_search(
    pattern: Seq<char>,
    path: Seq<char>,
    text: Seq<char>,
    max_results: nat,
    before: Seq<FoundLine>,
)
    requires
        before.len() <= max_results,
    ensures
        ({
            let now = searched(pattern, path, text, max_results, before);
            let lines = text_lines(text);
            let all = hits(pattern, path, lines, lines.len());
            &&& now.matches.len() <= max_results
            &&& now.truncated ==> now.matches.len() == max_results && all.len() > 0
            &&& !now.truncated ==> now.matches == before + all
            &&& now.matches == (before + all).take(now.matches.len() as int)
        }),
{
    let now = searched(pattern, path, text, max_results, before);
    let lines = text_lines(text);
    let all = hits(pattern, path, lines, lines.len());
    assert(now.matches =~= (before + all).take(now.matches.len() as int));
}

// ---------------------------------------------------------------------------
// Which files are read
// ---------------------------------------------------------------------------

/// What has a name that is passed over is not read and nothing below it is asked
/// for, except where it is the directory that the search is for.
pub proof fn law_passed_over_names(state: SearchState, canonical: Seq<Part>, entry: Entry)
    requires
        passed_over(entry_name(parts(entry.path@), state.terms.separator)),
        entry.depth > 0,
    ensures
        search_entry(state, canonical, entry) matches Step::Ask(request, next) && request == (
        if entry.kind == FileKind::Directory {
            FsRequest::<Seq<Part>>::SkipEntry
        } else {
            FsRequest::NextEntry
        }) && next.matches == state.matches,
{
}

/// The directory that the search is for is searched whatever its name: the walk
/// goes on below it.
pub proof fn law_the_root_is_searched(state: SearchState, canonical: Seq<Part>, entry: Entry)
    requires
        entry.depth == 0,
    ensures
        search_entry(state, canonical, entry) matches Step::Ask(request, _) && request
            != FsRequest::<Seq<Part>>::SkipEntry,
{
}

/// A file with a zero byte among the first that are looked at, and one that
/// cannot be read, gives no match: its text is not asked for.
pub proof fn law_binary_files_are_left_out(state: SearchState, reply: FsReply)
    requires
        state.stage is Start,
        reply is Bytes,
        reply->Bytes_0 matches Ok(bytes) ==> binary_bytes(bytes@),
    ensures
        search_next(state, reply) == Step::<
            Seq<Part>,
            SearchState,
            FoundLines,
            SearchFailure,
        >::Ask(
            FsRequest::NextEntry,
            state.at(SearchStage::Entry { canonical: state.stage->Start_canonical }),
        ),
{
}

/// The bytes of a file are asked for only where it is no larger than the caller
/// allows for one file, and the search with it for all files.
pub proof fn law_only_small_files_are_read(state: SearchState, reply: FsReply)
    requires
        reply.kind_of() == state.awaits(),
    ensures
        search_next(state, reply) matches Step::Ask(request, next) ==> {
            &&& request is ReadStart ==> {
                &&& state.stage is Size
                &&& reply matches FsReply::Status(Ok(stat)) && stat.len
                    <= state.terms.max_file_bytes && next.scanned == size_sum(
                    state.scanned,
                    stat.len,
                )
                &&& next.scanned <= state.terms.max_total_bytes
            }
            &&& request is ReadText ==> {
                &&& state.stage is Start
                &&& !binary_start(reply->Bytes_0)
            }
            &&& next.stage is Content <==> request is ReadText
            &&& next.stage is Start <==> request is ReadStart
        },
{
}

// ---------------------------------------------------------------------------
// Whole searches
// ---------------------------------------------------------------------------

/// Whether `after` follows `before`, which asked for something, on `reply`.
pub open spec fn search_answers(
    before: Step<Seq<Part>, SearchState, FoundLines, SearchFailure>,
    reply: FsReply,
    after: Step<Seq<Part>, SearchState, FoundLines, SearchFailure>,
) -> bool {
    before matches Step::Ask(request, state) && reply.kind_of() == request.answered_by() && after
        == search_next(state, reply)
}

/// Whether `steps` are those of a search that got `replies`, to its end or to
/// some point of it.
pub open spec fn is_search(
    start: Step<Seq<Part>, SearchState, FoundLines, SearchFailure>,
    steps: Seq<Step<Seq<Part>, SearchState, FoundLines, SearchFailure>>,
    replies: Seq<FsReply>,
) -> bool {
    &&& steps.len() == replies.len() + 1
    &&& steps[0] == start
    &&& forall|i: int|
        0 <= i < replies.len() ==> search_answers(steps[i], #[trigger] replies[i], steps[i + 1])
}

/// Whether step `i` is told the text of the file of `m`, and `m` is a hit in it.
pub open spec fn told_hit(
    steps: Seq<Step<Seq<Part>, SearchState, FoundLines, SearchFailure>>,
    replies: Seq<FsReply>,
    pattern: Seq<char>,
    m: FoundLine,
    i: int,
) -> bool {
    &&& steps[i] matches Step::Ask(_, state) && state.stage is Content
        && state.stage->Content_shown == m.path
    &&& replies[i] matches FsReply::Text(Ok(text)) && hits(
        pattern,
        m.path,
        text_lines(text@),
        text_lines(text@).len(),
    ).contains(m)
}

/// Whether `m` is a hit in a file that was read before step `n`.
pub open spec fn told_before(
    steps: Seq<Step<Seq<Part>, SearchState, FoundLines, SearchFailure>>,
    replies: Seq<FsReply>,
    pattern: Seq<char>,
    m: FoundLine,
    n: int,
) -> bool {
    exists|i: int| 0 <= i < n && #[trigger] told_hit(steps, replies, pattern, m, i)
}

/// Whether each of `matches` is a hit in a file that was read before step `n`.
pub open spec fn all_told(
    steps: Seq<Step<Seq<Part>, SearchState, FoundLines, SearchFailure>>,
    replies: Seq<FsReply>,
    pattern: Seq<char>,
    matches: Seq<FoundLine>,
    n: int,
) -> bool {
    forall|j: int|
        0 <= j < matches.len() ==> told_before(steps, replies, pattern, #[trigger] matches[j], n)
}

proof fn lemma_all_told(
    steps: Seq<Step<Seq<Part>, SearchState, FoundLines, SearchFailure>>,
    replies: Seq<FsReply>,
    pattern: Seq<char>,
    before: Seq<FoundLine>,
    matches: Seq<FoundLine>,
    n: int,
)
    requires
        n > 0,
        all_told(steps, replies, pattern, before, n - 1),
        before.len() <= matches.len(),
        forall|j: int| 0 <= j < before.len() ==> matches[j] == #[trigger] before[j],
        forall|j: int|
            before.len() <= j < matches.len() ==> told_hit(
                steps,
                replies,
                pattern,
                #[trigger] matches[j],
                n - 1,
            ),
    ensures
        all_told(steps, replies, pattern, matches, n),
{
    assert forall|j: int| 0 <= j < matches.len() implies told_before(
        steps,
        replies,
        pattern,
        #[trigger] matches[j],
        n,
    ) by {
        if j < before.len() {
            assert(matches[j] == before[j]);
            assert(told_before(steps, replies, pattern, before[j], n - 1));
            let i = choose|i: int|
                0 <= i < n - 1 && #[trigger] told_hit(steps, replies, pattern, before[j], i);
            assert(told_hit(steps, replies, pattern, matches[j], i));
        } else {
            assert(told_hit(steps, replies, pattern, matches[j], n - 1));
        }
    }
}

/// In every search, whatever the replies: there are never more matches than the
/// caller allows; each of them is a line, that the pattern matches, of a file
/// that was read; the files that were read add up to no more bytes than the
/// caller allows; and the result is truncated only where there are as many
/// matches as the caller allows.
pub proof fn law_every_search_is_bounded_and_sound(
    root: Seq<Part>,
    separator: char,
    pattern: Seq<char>,
    glob: Option<Seq<char>>,
    max_results: usize,
    max_file_bytes: u64,
    max_total_bytes: u64,
    steps: Seq<Step<Seq<Part>, SearchState, FoundLines, SearchFailure>>,
    replies: Seq<FsReply>,
    n: int,
)
    requires
        is_search(
            search_start(
                root,
                separator,
                pattern,
                glob,
                max_results,
                max_file_bytes,
                max_total_bytes,
            ),
            steps,
            replies,
        ),
        0 <= n < steps.len(),
    ensures
        match steps[n] {
            Step::Ask(request, state) => {
                &&& request.answered_by() == state.awaits()
                &&& !request.mutates()
                &&& state.terms.pattern == pattern
                &&& state.terms.max_results == max_results
                &&& state.terms.max_total_bytes == max_total_bytes
                &&& state.terms.max_file_bytes == max_file_bytes
                &&& state.matches.len() <= max_results
                &&& state.scanned <= max_total_bytes
                &&& all_told(steps, replies, pattern, state.matches, n)
            },
            Step::Done(lines) => {
                &&& lines.matches.len() <= max_results
                &&& lines.truncated ==> lines.matches.len() == max_results
                &&& all_told(steps, replies, pattern, lines.matches, n)
            },
            Step::Failed(_) => n == 0,
        },
    decreases n,
{
    if n > 0 {
        law_every_search_is_bounded_and_sound(
            root,
            separator,
            pattern,
            glob,
            max_results,
            max_file_bytes,
            max_total_bytes,
            steps,
            replies,
            n - 1,
        );
        let reply = replies[n - 1];
        assert(search_answers(steps[n - 1], reply, steps[n]));
        let state = steps[n - 1]->Ask_1;
        let before = state.matches;
        match state.stage {
            SearchStage::Content { canonical, shown } => {
                match reply->Text_0 {
                    Ok(text) => {
                        let lines = text_lines(text@);
                        let all = hits(pattern, shown, lines, lines.len());
                        let now = searched(pattern, shown, text@, max_results as nat, before);
                        law_text_search(pattern, shown, text@, max_results as nat, before);
                        law_hits_are_the_matching_lines(pattern, shown, lines, lines.len());
                        assert forall|j: int|
                            before.len() <= j < now.matches.len() implies told_hit(
                            steps,
                            replies,
                            pattern,
                            #[trigger] now.matches[j],
                            n - 1,
                        ) by {
                            let m = now.matches[j];
                            assert(m == (before + all)[j]);
                            assert(m == all[j - before.len()]);
                            assert(all.contains(m));
                            let i = choose|i: int|
                                0 <= i < lines.len() && m == #[trigger] hit(shown, lines, i)
                                    && regex_matches(pattern, lines[i]);
                            assert(m.path == shown);
                        }
                        assert forall|j: int| 0 <= j < before.len() implies now.matches[j]
                            == #[trigger] before[j] by {
                            assert(now.matches[j] == (before + all)[j]);
                        }
                        lemma_all_told(steps, replies, pattern, before, now.matches, n);
                    },
                    Err(_) => {
                        lemma_all_told(steps, replies, pattern, before, before, n);
                    },
                }
            },
            _ => {
                lemma_all_told(steps, replies, pattern, before, before, n);
            },
        }
    }
}

/// The hits in the text that step `i` is told, none where it is told no text.
pub open spec fn text_hits(
    steps: Seq<Step<Seq<Part>, SearchState, FoundLines, SearchFailure>>,
    replies: Seq<FsReply>,
    pattern: Seq<char>,
    i: int,
) -> Seq<FoundLine> {
    match (steps[i], replies[i]) {
        (Step::Ask(_, state), FsReply::Text(Ok(text))) => match state.stage {
            SearchStage::Content { shown, .. } => hits(
                pattern,
                shown,
                text_lines(text@),
                text_lines(text@).len(),
            ),
            _ => seq![],
        },
        _ => seq![],
    }
}

/// The hits in all the texts that were told before step `n`, in the order in which
/// they were.
pub open spec fn all_hits(
    steps: Seq<Step<Seq<Part>, SearchState, FoundLines, SearchFailure>>,
    replies: Seq<FsReply>,
    pattern: Seq<char>,
    n: int,
) -> Seq<FoundLine>
    decreases n,
{
    if n <= 0 {
        seq![]
    } else {
        all_hits(steps, replies, pattern, n - 1) + text_hits(steps, replies, pattern, n - 1)
    }
}

/// In every search, whatever the replies: what is found is all the hits in the
/// texts that were told, or, where the search is truncated, the first of them, as
/// many as the caller allows. Where the caller allows any, the search is truncated
/// if and only if it holds that many.
pub proof fn law_every_search_is_complete(
    root: Seq<Part>,
    separator: char,
    pattern: Seq<char>,
    glob: Option<Seq<char>>,
    max_results: usize,
    max_file_bytes: u64,
    max_total_bytes: u64,
    steps: Seq<Step<Seq<Part>, SearchState, FoundLines, SearchFailure>>,
    replies: Seq<FsReply>,
    n: int,
)
    requires
        is_search(
            search_start(
                root,
                separator,
                pattern,
                glob,
                max_results,
                max_file_bytes,
                max_total_bytes,
            ),
            steps,
            replies,
        ),
        0 <= n < steps.len(),
    ensures
        match steps[n] {
            Step::Ask(_, state) => {
                &&& state.matches == all_hits(steps, replies, pattern, n)
                &&& state.matches.len() < max_results || state.matches.len() == 0
            },
            Step::Done(lines) => {
                &&& !lines.truncated ==> lines.matches == all_hits(steps, replies, pattern, n)
                &&& lines.truncated ==> lines.matches == all_hits(
                    steps,
                    replies,
                    pattern,
                    n,
                ).take(max_results as int) && all_hits(steps, replies, pattern, n).len()
                    >= max_results && all_hits(steps, replies, pattern, n).len() > 0
                &&& max_results > 0 ==> (lines.truncated <==> lines.matches.len() == max_results)
            },
            Step::Failed(_) => true,
        },
    decreases n,
{
    if n > 0 {
        law_every_search_is_complete(
            root,
            separator,
            pattern,
            glob,
            max_results,
            max_file_bytes,
            max_total_bytes,
            steps,
            replies,
            n - 1,
        );
        law_every_search_is_bounded_and_sound(
            root,
            separator,
            pattern,
            glob,
            max_results,
            max_file_bytes,
            max_total_bytes,
            steps,
            replies,
            n - 1,
        );
        let reply = replies[n - 1];
        assert(search_answers(steps[n - 1], reply, steps[n]));
        let state = steps[n - 1]->Ask_1;
        let before = state.matches;
        let new = text_hits(steps, replies, pattern, n - 1);
        assert(all_hits(steps, replies, pattern, n) == before + new);
        assert(new.len() == 0 ==> before + new =~= before);
        match state.stage {
            SearchStage::Content { shown, .. } => {
                match reply->Text_0 {
                    Ok(text) => {
                        law_text_search(pattern, shown, text@, max_results as nat, before);
                    },
                    Err(_) => {},
                }
            },
            _ => {},
        }
    }
}

// ---------------------------------------------------------------------------
// What a search asks for
// ---------------------------------------------------------------------------

/// Whether a search asks for just this.
pub open spec fn asks(
    step: Step<Seq<Part>, SearchState, FoundLines, SearchFailure>,
    request: FsRequest<Seq<Part>>,
) -> bool {
    step matches Step::Ask(asked, _) && asked == request
}

/// Whether a search asks for an entry.
pub open spec fn asks_for_an_entry(
    step: Step<Seq<Part>, SearchState, FoundLines, SearchFailure>,
) -> bool {
    step matches Step::Ask(asked, _) && (asked is Walk || asked is NextEntry || asked is SkipEntry)
}

/// Whether something of this name is left out: the name starts with a dot or is one
/// of three.
pub open spec fn is_left_out(name: Seq<char>) -> bool {
    ||| name.len() > 0 && name[0] == '.'
    ||| name == "node_modules"@
    ||| name == "target"@
    ||| name == "__pycache__"@
}

/// What the thing at a path is called: its name, or the whole path where it ends in
/// none.
pub open spec fn called(path: Seq<Part>, separator: char) -> Seq<char> {
    if path.len() > 0 && path.last() is Normal {
        path.last()->Normal_0.text
    } else {
        written(path, separator)
    }
}

/// Where the root was told to be, or the root itself where that was not told.
pub open spec fn told_root(root: Seq<Part>, replies: Seq<FsReply>) -> Seq<Part> {
    match replies[0] {
        FsReply::Path(Ok(path)) => parts(path@),
        _ => root,
    }
}

/// How a path below the root is reported: without the root.
pub open spec fn reported(
    root: Seq<Part>,
    replies: Seq<FsReply>,
    path: Seq<Part>,
    separator: char,
) -> Seq<char> {
    let told = told_root(root, replies);
    if leads_from(path, told) {
        written(path.skip(told.len() as int), separator)
    } else if leads_from(path, root) {
        written(path.skip(root.len() as int), separator)
    } else {
        written(path, separator)
    }
}

/// Whether a glob, if there is one, admits a path.
pub open spec fn is_admitted(glob: Option<Seq<char>>, path: Seq<char>) -> bool {
    glob matches Some(glob) ==> regex_matches(glob_regex(glob), path)
}

/// The bytes of the files that were found small enough before step `n`.
pub open spec fn bytes_told(
    steps: Seq<Step<Seq<Part>, SearchState, FoundLines, SearchFailure>>,
    replies: Seq<FsReply>,
    n: int,
) -> int
    decreases n,
{
    if n <= 0 {
        0
    } else {
        bytes_told(steps, replies, n - 1) + match (steps[n], replies[n - 1]) {
            (Step::Ask(asked, _), FsReply::Status(Ok(stat))) => if asked is ReadStart {
                stat.len as int
            } else {
                0
            },
            _ => 0,
        }
    }
}

proof fn lemma_left_out(name: Seq<char>)
    ensures
        passed_over(name) <==> is_left_out(name),
{
    reveal_strlit(".");
    if name.len() > 0 {
        assert(name.take(1)[0] == name[0]);
        if name[0] == '.' {
            assert(name.take(1) =~= "."@);
        }
    }
}

proof fn lemma_called(path: Seq<Part>, separator: char)
    ensures
        entry_name(path, separator) == called(path, separator),
{
    law_written_paths(path, separator);
}

proof fn lemma_reported(
    root: Seq<Part>,
    replies: Seq<FsReply>,
    path: Seq<Part>,
    separator: char,
)
    ensures
        full_text(below(told_root(root, replies), root, path), separator) == reported(
            root,
            replies,
            path,
            separator,
        ),
{
    let told = told_root(root, replies);
    law_below(path, told);
    law_below(path, root);
    law_written_paths(below(told, root, path), separator);
}

proof fn lemma_search_state(
    root: Seq<Part>,
    separator: char,
    pattern: Seq<char>,
    glob: Option<Seq<char>>,
    max_results: usize,
    max_file_bytes: u64,
    max_total_bytes: u64,
    steps: Seq<Step<Seq<Part>, SearchState, FoundLines, SearchFailure>>,
    replies: Seq<FsReply>,
    n: int,
)
    requires
        is_search(
            search_start(
                root,
                separator,
                pattern,
                glob,
                max_results,
                max_file_bytes,
                max_total_bytes,
            ),
            steps,
            replies,
        ),
        0 <= n < steps.len(),
    ensures
        match steps[n] {
            Step::Ask(request, state) => {
                &&& state.terms == SearchTerms {
                    root,
                    separator,
                    pattern,
                    glob: glob_or_error(glob)->Ok_0,
                    max_results,
                    max_file_bytes,
                    max_total_bytes,
                }
                &&& glob_or_error(glob) is Ok
                &&& bytes_told(steps, replies, n) >= 0
                &&& state.scanned == smaller(bytes_told(steps, replies, n), u64::MAX as int)
                &&& match state.stage {
                    SearchStage::Root => n == 0 && request == FsRequest::Canonicalize(root),
                    SearchStage::Entry { canonical } => n > 0 && canonical == told_root(
                        root,
                        replies,
                    ) && asks_for_an_entry(steps[n]),
                    SearchStage::Size { canonical, path, shown } => n > 0 && canonical
                        == told_root(root, replies) && request == FsRequest::StatEntry(path)
                        && shown == full_text(below(canonical, root, path), separator),
                    SearchStage::Start { canonical, path, shown } => n > 0 && canonical
                        == told_root(root, replies) && request == FsRequest::ReadStart(path, 8192)
                        && shown == full_text(below(canonical, root, path), separator),
                    SearchStage::Content { canonical, shown } => n > 0 && canonical == told_root(
                        root,
                        replies,
                    ) && request is ReadText && shown == full_text(
                        below(canonical, root, request->ReadText_0),
                        separator,
                    ),
                }
            },
            _ => true,
        },
    decreases n,
{
    if n > 0 {
        lemma_search_state(
            root,
            separator,
            pattern,
            glob,
            max_results,
            max_file_bytes,
            max_total_bytes,
            steps,
            replies,
            n - 1,
        );
        assert(search_answers(steps[n - 1], replies[n - 1], steps[n]));
    }
}

/// A search is refused where its pattern or its glob cannot be compiled, for that
/// reason and with the words that come with it. Otherwise it asks where its root is.
pub proof fn law_how_a_search_starts(
    root: Seq<Part>,
    separator: char,
    pattern: Seq<char>,
    glob: Option<Seq<char>>,
    max_results: usize,
    max_file_bytes: u64,
    max_total_bytes: u64,
    steps: Seq<Step<Seq<Part>, SearchState, FoundLines, SearchFailure>>,
    replies: Seq<FsReply>,
)
    requires
        is_search(
            search_start(
                root,
                separator,
                pattern,
                glob,
                max_results,
                max_file_bytes,
                max_total_bytes,
            ),
            steps,
            replies,
        ),
    ensures
        regex_error(pattern, usize::BITS as nat) matches Some(message) ==> steps[0]
            == Step::<Seq<Part>, SearchState, FoundLines, SearchFailure>::Failed(
            SearchFailure::InvalidRegex(message),
        ),
        regex_error(pattern, usize::BITS as nat) is None ==> match glob {
            Some(glob) => match regex_error(glob_regex(glob), usize::BITS as nat) {
                Some(message) => steps[0] == Step::<
                    Seq<Part>,
                    SearchState,
                    FoundLines,
                    SearchFailure,
                >::Failed(SearchFailure::InvalidGlob(message)),
                None => asks(steps[0], FsRequest::Canonicalize(root)),
            },
            None => asks(steps[0], FsRequest::Canonicalize(root)),
        },
        replies.len() > 0 ==> asks(steps[1], FsRequest::Walk(root, 0)),
{
    if replies.len() > 0 {
        assert(search_answers(steps[0], replies[0], steps[1]));
    }
}

/// In every search, of each entry that is found: one below the root whose name starts
/// with a dot or is `node_modules`, `target` or `__pycache__` is left out, a
/// directory with everything in it. Of any other, the size is asked for where it is
/// a file that the glob admits, and the walk goes on where it is not. It is never
/// skipped. What cannot be reached is left out, and the search ends with the
/// entries.
pub proof fn law_which_entries_are_searched(
    root: Seq<Part>,
    separator: char,
    pattern: Seq<char>,
    glob: Option<Seq<char>>,
    max_results: usize,
    max_file_bytes: u64,
    max_total_bytes: u64,
    steps: Seq<Step<Seq<Part>, SearchState, FoundLines, SearchFailure>>,
    replies: Seq<FsReply>,
    n: int,
)
    requires
        is_search(
            search_start(
                root,
                separator,
                pattern,
                glob,
                max_results,
                max_file_bytes,
                max_total_bytes,
            ),
            steps,
            replies,
        ),
        0 <= n < replies.len(),
        asks_for_an_entry(steps[n]),
    ensures
        match replies[n] {
            FsReply::Entry(NextEntry::Found(entry)) => {
                let path = parts(entry.path@);
                let left_out = entry.depth > 0 && is_left_out(called(path, separator));
                let searched = !left_out && entry.kind == FileKind::File && is_admitted(
                    glob,
                    reported(root, replies, path, separator),
                );
                &&& asks(steps[n + 1], FsRequest::SkipEntry) <==> left_out && entry.kind
                    == FileKind::Directory
                &&& asks(steps[n + 1], FsRequest::StatEntry(path)) <==> searched
                &&& asks(steps[n + 1], FsRequest::NextEntry) <==> !searched && !(left_out
                    && entry.kind == FileKind::Directory)
            },
            FsReply::Entry(NextEntry::Failed(_)) => asks(steps[n + 1], FsRequest::NextEntry),
            FsReply::Entry(NextEntry::End) => steps[n + 1] matches Step::Done(lines)
                && !lines.truncated,
            _ => false,
        },
{
    lemma_search_state(
        root,
        separator,
        pattern,
        glob,
        max_results,
        max_file_bytes,
        max_total_bytes,
        steps,
        replies,
        n,
    );
    assert(search_answers(steps[n], replies[n], steps[n + 1]));
    match replies[n] {
        FsReply::Entry(NextEntry::Found(entry)) => {
            let path = parts(entry.path@);
            lemma_left_out(called(path, separator));
            lemma_called(path, separator);
            lemma_reported(root, replies, path, separator);
        },
        _ => {},
    }
}

/// In every search, of each file whose size is told: the search ends where this file
/// is small enough for one file but too much with those before it. It goes on
/// with the next entry where the file is too large or its size is not told. Else the
/// start of the file is asked for.
pub proof fn law_which_files_are_opened(
    root: Seq<Part>,
    separator: char,
    pattern: Seq<char>,
    glob: Option<Seq<char>>,
    max_results: usize,
    max_file_bytes: u64,
    max_total_bytes: u64,
    steps: Seq<Step<Seq<Part>, SearchState, FoundLines, SearchFailure>>,
    replies: Seq<FsReply>,
    n: int,
    path: Seq<Part>,
)
    requires
        is_search(
            search_start(
                root,
                separator,
                pattern,
                glob,
                max_results,
                max_file_bytes,
                max_total_bytes,
            ),
            steps,
            replies,
        ),
        0 <= n < replies.len(),
        asks(steps[n], FsRequest::StatEntry(path)),
    ensures
        match replies[n] {
            FsReply::Status(Ok(stat)) => {
                let sum = bytes_told(steps, replies, n) + stat.len;
                if stat.len > max_file_bytes {
                    asks(steps[n + 1], FsRequest::NextEntry)
                } else if sum > max_total_bytes && max_total_bytes < u64::MAX {
                    steps[n + 1] matches Step::Done(lines) && !lines.truncated
                } else {
                    asks(steps[n + 1], FsRequest::ReadStart(path, 8192))
                }
            },
            FsReply::Status(Err(_)) => asks(steps[n + 1], FsRequest::NextEntry),
            _ => false,
        },
{
    lemma_search_state(
        root,
        separator,
        pattern,
        glob,
        max_results,
        max_file_bytes,
        max_total_bytes,
        steps,
        replies,
        n,
    );
    assert(search_answers(steps[n], replies[n], steps[n + 1]));
}

/// In every search, of each file whose start is told: the text is asked for if and only
/// if none of the first bytes, as many as are asked for, is zero.
pub proof fn law_which_files_are_read(
    root: Seq<Part>,
    separator: char,
    pattern: Seq<char>,
    glob: Option<Seq<char>>,
    max_results: usize,
    max_file_bytes: u64,
    max_total_bytes: u64,
    steps: Seq<Step<Seq<Part>, SearchState, FoundLines, SearchFailure>>,
    replies: Seq<FsReply>,
    n: int,
    path: Seq<Part>,
)
    requires
        is_search(
            search_start(
                root,
                separator,
                pattern,
                glob,
                max_results,
                max_file_bytes,
                max_total_bytes,
            ),
            steps,
            replies,
        ),
        0 <= n < replies.len(),
        asks(steps[n], FsRequest::ReadStart(path, 8192)),
    ensures
        match replies[n] {
            FsReply::Bytes(Ok(bytes)) => if forall|i: int|
                0 <= i < bytes@.len() && i < 8192 ==> #[trigger] bytes@[i] != 0 {
                asks(steps[n + 1], FsRequest::ReadText(path))
            } else {
                asks(steps[n + 1], FsRequest::NextEntry)
            },
            FsReply::Bytes(Err(_)) => asks(steps[n + 1], FsRequest::NextEntry),
            _ => false,
        },
{
    lemma_search_state(
        root,
        separator,
        pattern,
        glob,
        max_results,
        max_file_bytes,
        max_total_bytes,
        steps,
        replies,
        n,
    );
    assert(search_answers(steps[n], replies[n], steps[n + 1]));
}

/// In every search, a text that cannot be read is left out and the search goes on. It goes
/// on after a text too, unless there is room for no more: then it ends and says so.
pub proof fn law_a_search_goes_on(
    root: Seq<Part>,
    separator: char,
    pattern: Seq<char>,
    glob: Option<Seq<char>>,
    max_results: usize,
    max_file_bytes: u64,
    max_total_bytes: u64,
    steps: Seq<Step<Seq<Part>, SearchState, FoundLines, SearchFailure>>,
    replies: Seq<FsReply>,
    n: int,
    path: Seq<Part>,
)
    requires
        is_search(
            search_start(
                root,
                separator,
                pattern,
                glob,
                max_results,
                max_file_bytes,
                max_total_bytes,
            ),
            steps,
            replies,
        ),
        0 <= n < replies.len(),
        asks(steps[n], FsRequest::ReadText(path)),
    ensures
        match replies[n] {
            FsReply::Text(Ok(_)) => asks(steps[n + 1], FsRequest::NextEntry) || (steps[n
                + 1] matches Step::Done(lines) && lines.truncated),
            FsReply::Text(Err(_)) => asks(steps[n + 1], FsRequest::NextEntry),
            _ => false,
        },
{
    lemma_search_state(
        root,
        separator,
        pattern,
        glob,
        max_results,
        max_file_bytes,
        max_total_bytes,
        steps,
        replies,
        n,
    );
    assert(search_answers(steps[n], replies[n], steps[n + 1]));
}

// ---------------------------------------------------------------------------
// What a search finds
// ---------------------------------------------------------------------------

/// Whether `body` is a line without the line feed at its end and the carriage
/// return before that.
pub open spec fn is_body(body: Seq<char>, line: Seq<char>) -> bool {
    ||| line == body + seq!['\r', '\n']
    ||| line == body + seq!['\n'] && (body.len() > 0 ==> body[body.len() - 1] != '\r')
    ||| line == body && (body.len() > 0 ==> body[body.len() - 1] != '\n')
}

/// Whether `m` reports line `i` of a file, and the pattern matches that line.
pub open spec fn reports_line(
    m: FoundLine,
    pattern: Seq<char>,
    path: Seq<char>,
    lines: Seq<Seq<char>>,
    i: int,
) -> bool {
    &&& 0 <= i < lines.len()
    &&& m.path == path
    &&& m.line_num == i + 1
    &&& exists|body: Seq<char>| #[trigger]
        is_body(body, lines[i]) && regex_matches(pattern, body) && is_core_of(m.line, body)
}

/// Whether `found` reports just the lines of a text that a pattern matches, each once
/// and in their order.
pub open spec fn reports(
    found: Seq<FoundLine>,
    pattern: Seq<char>,
    path: Seq<char>,
    text: Seq<char>,
) -> bool {
    exists|lines: Seq<Seq<char>>|
        {
            &&& #[trigger] are_lines(lines, text)
            &&& forall|j: int|
                0 <= j < found.len() ==> reports_line(
                    #[trigger] found[j],
                    pattern,
                    path,
                    lines,
                    found[j].line_num - 1,
                )
            &&& forall|j: int, k: int|
                0 <= j < k < found.len() ==> #[trigger] found[j].line_num
                    < #[trigger] found[k].line_num
            &&& forall|i: int, body: Seq<char>|
                0 <= i < lines.len() && #[trigger] is_body(body, lines[i]) && regex_matches(
                    pattern,
                    body,
                ) ==> exists|j: int| 0 <= j < found.len() && #[trigger] found[j].line_num == i + 1
        }
}

proof fn lemma_one_body(a: Seq<char>, b: Seq<char>, line: Seq<char>)
    requires
        is_body(a, line),
        is_body(b, line),
    ensures
        a == b,
{
    let crlf = seq!['\r', '\n'];
    let lf = seq!['\n'];
    if line == a + crlf {
        assert(line[line.len() - 1] == '\n');
        assert(line[line.len() - 2] == '\r');
        if line == b + lf {
            assert(b.len() == a.len() + 1);
            assert(line[line.len() - 2] == b[b.len() - 1]);
        }
    } else if line == a + lf {
        assert(line[line.len() - 1] == '\n');
        if line == b + crlf {
            assert(a.len() == b.len() + 1);
            assert(line[line.len() - 2] == a[a.len() - 1]);
            assert(line[line.len() - 2] == '\r');
        }
    } else {
        if line == b + lf || line == b + crlf {
            assert(line[line.len() - 1] == '\n');
        }
    }
    if line.len() == a.len() + 1 {
        assert(a =~= line.take(a.len() as int));
    }
    if line.len() == b.len() + 1 {
        assert(b =~= line.take(b.len() as int));
    }
    assert(a.len() == b.len());
    assert forall|i: int| 0 <= i < a.len() implies a[i] == b[i] by {
        assert(line[i] == a[i]);
        assert(line[i] == b[i]);
    }
    assert(a =~= b);
}

proof fn lemma_hit_numbers(
    pattern: Seq<char>,
    path: Seq<char>,
    lines: Seq<Seq<char>>,
    n: nat,
)
    requires
        n <= lines.len(),
    ensures
        ({
            let found = hits(pattern, path, lines, n);
            &&& forall|j: int|
                0 <= j < found.len() ==> 1 <= #[trigger] found[j].line_num <= n && found[j] == hit(
                    path,
                    lines,
                    found[j].line_num - 1,
                ) && regex_matches(pattern, lines[found[j].line_num - 1])
            &&& forall|j: int, k: int|
                0 <= j < k < found.len() ==> #[trigger] found[j].line_num
                    < #[trigger] found[k].line_num
            &&& forall|i: int|
                0 <= i < n && regex_matches(pattern, #[trigger] lines[i]) ==> exists|j: int|
                    0 <= j < found.len() && #[trigger] found[j].line_num == i + 1
        }),
    decreases n,
{
    if n > 0 {
        let k = (n - 1) as nat;
        lemma_hit_numbers(pattern, path, lines, k);
        let before = hits(pattern, path, lines, k);
        let found = hits(pattern, path, lines, n);
        assert forall|j: int| 0 <= j < found.len() implies 1 <= #[trigger] found[j].line_num <= n
            && found[j] == hit(path, lines, found[j].line_num - 1) && regex_matches(
            pattern,
            lines[found[j].line_num - 1],
        ) by {
            if j < before.len() {
                assert(found[j] == before[j]);
            }
        }
        assert forall|j: int, m: int| 0 <= j < m < found.len() implies #[trigger] found[j].line_num
            < #[trigger] found[m].line_num by {
            assert(found[j] == before[j]);
            if m < before.len() {
                assert(found[m] == before[m]);
            }
        }
        assert forall|i: int|
            0 <= i < n && regex_matches(pattern, #[trigger] lines[i]) implies exists|j: int|
            0 <= j < found.len() && #[trigger] found[j].line_num == i + 1 by {
            if i == k {
                assert(found[found.len() - 1].line_num == i + 1);
            } else {
                let j = choose|j: int|
                    0 <= j < before.len() && #[trigger] before[j].line_num == i + 1;
                assert(found[j] == before[j]);
            }
        }
    }
}

/// The search of a text reports just the lines that the pattern matches, each once
/// and in their order, by their numbers from 1 on, and without the white space
/// around them.
pub proof fn law_which_lines_are_found(pattern: Seq<char>, path: Seq<char>, text: Seq<char>)
    ensures
        reports(
            hits(pattern, path, text_lines(text), text_lines(text).len()),
            pattern,
            path,
            text,
        ),
{
    let lines = segments(text);
    let bodies = text_lines(text);
    let found = hits(pattern, path, bodies, bodies.len());
    law_lines(text);
    lemma_hit_numbers(pattern, path, bodies, bodies.len());
    assert forall|j: int| 0 <= j < found.len() implies reports_line(
        #[trigger] found[j],
        pattern,
        path,
        lines,
        found[j].line_num - 1,
    ) by {
        let i = found[j].line_num - 1;
        law_line_endings(lines[i]);
        law_trimming(bodies[i]);
        assert(is_body(bodies[i], lines[i]));
    }
    assert forall|i: int, body: Seq<char>|
        0 <= i < lines.len() && #[trigger] is_body(body, lines[i]) && regex_matches(
            pattern,
            body,
        ) implies exists|j: int| 0 <= j < found.len() && #[trigger] found[j].line_num == i + 1 by {
        law_line_endings(lines[i]);
        lemma_one_body(body, bodies[i], lines[i]);
        assert(regex_matches(pattern, bodies[i]));
    }
    assert(are_lines(lines, text));
}

/// A line that the pattern does not match changes nothing. One that it matches is added, if
/// there is room for it, and the search is at its end once there is room for no more.
pub proof fn law_taking_a_line(
    before: Seq<FoundLine>,
    path: Seq<char>,
    line_num: int,
    line: Seq<char>,
    max_results: nat,
)
    ensures
        ({
            let now = with_line(before, path, line_num, line, false, max_results);
            now.matches == before && !now.truncated
        }),
        ({
            let now = with_line(before, path, line_num, line, true, max_results);
            if before.len() < max_results {
                &&& now.matches.len() == before.len() + 1
                &&& now.matches.drop_last() == before
                &&& now.matches.last().path == path
                &&& now.matches.last().line_num == line_num
                &&& is_core_of(now.matches.last().line, line)
                &&& now.truncated <==> before.len() + 1 == max_results
            } else {
                now.matches == before && now.truncated
            }
        }),
{
    law_trimming(line);
    let none = with_line(before, path, line_num, line, false, max_results);
    let now = with_line(before, path, line_num, line, true, max_results);
    assert(none.matches =~= before);
    if before.len() < max_results {
        assert(now.matches.drop_last() =~= before);
    } else {
        assert(now.matches =~= before);
    }
}

/// The texts that were told before step `n`, each with how its file is reported.
pub open spec fn texts_told(
    root: Seq<Part>,
    separator: char,
    steps: Seq<Step<Seq<Part>, SearchState, FoundLines, SearchFailure>>,
    replies: Seq<FsReply>,
    n: int,
) -> Seq<(Seq<char>, Seq<char>)>
    decreases n,
{
    if n <= 0 {
        seq![]
    } else {
        let before = texts_told(root, separator, steps, replies, n - 1);
        match (steps[n - 1], replies[n - 1]) {
            (Step::Ask(FsRequest::ReadText(path), _), FsReply::Text(Ok(text))) => before.push(
                (reported(root, replies, path, separator), text@),
            ),
            _ => before,
        }
    }
}

/// Whether `found` is what is found in the texts one by one.
pub open spec fn found_in(
    found: Seq<Seq<FoundLine>>,
    pattern: Seq<char>,
    texts: Seq<(Seq<char>, Seq<char>)>,
) -> bool {
    found.len() == texts.len() && forall|k: int|
        0 <= k < texts.len() ==> reports(#[trigger] found[k], pattern, texts[k].0, texts[k].1)
}

proof fn lemma_found_in(
    root: Seq<Part>,
    separator: char,
    pattern: Seq<char>,
    glob: Option<Seq<char>>,
    max_results: usize,
    max_file_bytes: u64,
    max_total_bytes: u64,
    steps: Seq<Step<Seq<Part>, SearchState, FoundLines, SearchFailure>>,
    replies: Seq<FsReply>,
    n: int,
) -> (found: Seq<Seq<FoundLine>>)
    requires
        is_search(
            search_start(
                root,
                separator,
                pattern,
                glob,
                max_results,
                max_file_bytes,
                max_total_bytes,
            ),
            steps,
            replies,
        ),
        0 <= n < steps.len(),
    ensures
        found_in(found, pattern, texts_told(root, separator, steps, replies, n)),
        found.flatten() == all_hits(steps, replies, pattern, n),
    decreases n,
{
    if n == 0 {
        assert(Seq::<Seq<FoundLine>>::empty().flatten() =~= seq![]);
        seq![]
    } else {
        let before = lemma_found_in(
            root,
            separator,
            pattern,
            glob,
            max_results,
            max_file_bytes,
            max_total_bytes,
            steps,
            replies,
            n - 1,
        );
        lemma_search_state(
            root,
            separator,
            pattern,
            glob,
            max_results,
            max_file_bytes,
            max_total_bytes,
            steps,
            replies,
            n - 1,
        );
        assert(search_answers(steps[n - 1], replies[n - 1], steps[n]));
        let new = text_hits(steps, replies, pattern, n - 1);
        match (steps[n - 1], replies[n - 1]) {
            (Step::Ask(FsRequest::ReadText(path), state), FsReply::Text(Ok(text))) => {
                lemma_reported(root, replies, path, separator);
                law_which_lines_are_found(
                    pattern,
                    reported(root, replies, path, separator),
                    text@,
                );
                before.lemma_flatten_push(new);
                before.push(new)
            },
            _ => {
                assert(new =~= seq![]);
                assert(before.flatten() + new =~= before.flatten());
                before
            },
        }
    }
}

/// What a search ends with is what is found in all the texts that it was told, one
/// after the other, or as much of it from the start as the caller allows. The search
/// says that it is truncated if and only if it found something, and at least as much
/// as the caller allows.
pub proof fn law_what_a_search_finds(
    root: Seq<Part>,
    separator: char,
    pattern: Seq<char>,
    glob: Option<Seq<char>>,
    max_results: usize,
    max_file_bytes: u64,
    max_total_bytes: u64,
    steps: Seq<Step<Seq<Part>, SearchState, FoundLines, SearchFailure>>,
    replies: Seq<FsReply>,
    n: int,
) -> (found: Seq<Seq<FoundLine>>)
    requires
        is_search(
            search_start(
                root,
                separator,
                pattern,
                glob,
                max_results,
                max_file_bytes,
                max_total_bytes,
            ),
            steps,
            replies,
        ),
        0 <= n < steps.len(),
        steps[n] is Done,
    ensures
        found_in(found, pattern, texts_told(root, separator, steps, replies, n)),
        ({
            let lines = steps[n]->Done_0;
            &&& lines.matches == if found.flatten().len() <= max_results {
                found.flatten()
            } else {
                found.flatten().take(max_results as int)
            }
            &&& lines.truncated <==> found.flatten().len() > 0 && found.flatten().len()
                >= max_results
        }),
{
    law_every_search_is_complete(
        root,
        separator,
        pattern,
        glob,
        max_results,
        max_file_bytes,
        max_total_bytes,
        steps,
        replies,
        n,
    );
    law_every_search_is_bounded_and_sound(
        root,
        separator,
        pattern,
        glob,
        max_results,
        max_file_bytes,
        max_total_bytes,
        steps,
        replies,
        n,
    );
    let found = lemma_found_in(
        root,
        separator,
        pattern,
        glob,
        max_results,
        max_file_bytes,
        max_total_bytes,
        steps,
        replies,
        n,
    );
    let all = found.flatten();
    let lines = steps[n]->Done_0;
    if all.len() == max_results {
        assert(all.take(max_results as int) =~= all);
    }
    found
}

} // verus!
