use acp_sandbox::bounded::{check_archive, check_file, ReadRefusal};
use acp_sandbox::errors::{SearchError, ToolboxError};
use acp_sandbox::fs::{FileKind, FileStat, FsError, FsRequest, Step};
use acp_sandbox::listing::{find_file, take_found, FindPhase};
use acp_sandbox::order::{in_text_order, sort};
use acp_sandbox::pattern::{admits, compile_glob, glob_pattern};
use acp_sandbox::resolve::io_error;
use acp_sandbox::search::{is_passed_over, search_text, take_line, SearchMatch};
use acp_sandbox::text::{
    chars_of, decimal_text, hexadecimal_text, replace, same_text, starts_with, trim, white_space,
};
use acp_sandbox::toolbox::{
    count_words, head_lines, tail_lines, WorkspaceCommandOutput, WorkspaceEntry,
    WorkspaceEntryKind, TOOLBOX_DEFAULT_MAX_COPY_BYTES, TOOLBOX_DEFAULT_MAX_FIND_RESULTS,
    TOOLBOX_DEFAULT_MAX_LIST_ENTRIES, TOOLBOX_DEFAULT_MAX_MUTATION_ENTRIES,
    TOOLBOX_DEFAULT_MAX_READ_BYTES,
};
use regex::Regex;

#[test]
fn white_space_is_that_of_the_standard_library() {
    for n in 0..=0x10ffffu32 {
        if let Some(c) = char::from_u32(n) {
            assert_eq!(white_space(c), c.is_whitespace(), "{n:x}");
        }
    }
}

#[test]
fn texts_are_trimmed_and_compared() {
    assert_eq!(trim("\u{2028} a b\u{a0}\n"), "a b");
    assert_eq!(trim(" \t"), "");
    assert!(same_text("\u{e9}", "\u{e9}"));
    assert!(!same_text("a", "ab"));
    assert!(!same_text("ab", "ac"));
    assert!(starts_with("\u{e9}x", "\u{e9}"));
    assert!(starts_with("x", ""));
    assert!(!starts_with("x", "xy"));
}

#[test]
fn replacing_goes_from_the_left() {
    let replaced = |s: &str, from: &str, to: &str| {
        replace(&chars_of(s), from, to).into_iter().collect::<String>()
    };
    for (s, from, to) in [
        ("***", "**", "x"),
        ("a.b.", ".", "\\."),
        ("aaa", "aa", "a"),
        ("", "a", "b"),
        ("b", "a", ""),
    ] {
        assert_eq!(replaced(s, from, to), s.replace(from, to));
    }
}

#[test]
fn numbers_are_written_out() {
    for n in [0, 7, 10, 99, 100, 65536, u64::MAX] {
        assert_eq!(decimal_text(n), n.to_string());
    }
    for n in [0, 1, 0x04034b50, u32::MAX] {
        assert_eq!(hexadecimal_text(n, 8), format!("{n:08x}"));
    }
}

#[test]
fn head_and_tail_part_a_text() {
    let content = "one\ntwo\r\n\nfour";
    for k in 0..=4 {
        assert_eq!(
            format!("{}{}", head_lines(content, k), tail_lines(content, 4 - k)),
            content
        );
    }
    assert_eq!(head_lines(content, 1), "one\n");
    assert_eq!(tail_lines(content, 2), "\nfour");
    assert_eq!(head_lines(content, 9), content);
    assert_eq!(tail_lines(content, 9), content);
    assert_eq!(head_lines("", 3), "");
    assert_eq!(tail_lines("\n", 1), "\n");
}

#[test]
fn words_are_counted_as_the_standard_library_splits_them() {
    for s in ["", "  ", "a", " a  b\u{2003}c\n", "\n\n", "a\u{85}b"] {
        let counts = count_words(s);
        assert_eq!(counts.words, s.split_whitespace().count());
        assert_eq!(counts.chars, s.chars().count());
        assert_eq!(counts.bytes, s.len() as u64);
        assert_eq!(counts.lines, s.matches('\n').count());
    }
}

#[test]
fn sorting_is_that_of_the_standard_library() {
    let words = ["b", "a", "ab", "", "B", "\u{e9}", "z", "\u{10000}", "\u{ffff}", "a"];
    let mut expected: Vec<String> = words.iter().map(|w| w.to_string()).collect();
    let sorted = sort(expected.clone());
    expected.sort();
    assert_eq!(sorted, expected);
    for a in words {
        for b in words {
            assert_eq!(in_text_order(a, b), a <= b);
        }
    }
}

#[test]
fn sorting_keeps_equals_in_their_order() {
    let entry = |path: &str, size: u64| WorkspaceEntry {
        path: path.to_string(),
        kind: WorkspaceEntryKind::File,
        size_bytes: Some(size),
    };
    let mut expected: Vec<WorkspaceEntry> = Vec::new();
    for i in 0..50 {
        expected.push(entry(["c", "a", "b"][i % 3], i as u64));
    }
    let sorted = sort(expected.clone());
    expected.sort_by(|x, y| x.path.cmp(&y.path));
    assert_eq!(sorted, expected);
}

#[test]
fn globs_become_patterns() {
    assert_eq!(glob_pattern("**/*.rs"), ".*/[^/]*\\.rs$");
    assert_eq!(glob_pattern("a.b"), "a\\.b$");
    assert_eq!(glob_pattern("***"), ".*[^/]*$");
    assert_eq!(glob_pattern(""), "$");
    let glob = Some(compile_glob("s/*.rs").unwrap());
    assert!(admits(&glob, "s/a.rs"));
    assert!(admits(&glob, "x/s/a.rs"));
    assert!(!admits(&glob, "s/t/a.rs"));
    assert!(!admits(&glob, "s/a.rsx"));
    assert!(admits(&None, "anything"));
    let expected = Regex::new("[$").unwrap_err().to_string();
    assert_eq!(compile_glob("[").unwrap_err(), expected);
}

#[test]
fn names_that_are_passed_over() {
    for name in [".", ".git", "node_modules", "target", "__pycache__"] {
        assert!(is_passed_over(name));
    }
    for name in ["", "a.b", "targets", "Target", "node_modules2"] {
        assert!(!is_passed_over(name));
    }
}

#[test]
fn lines_are_searched() {
    let re = Regex::new("^b").unwrap();
    let outcome = search_text(&re, "p", "a\n b\nb \r\nbb", 10, Vec::new());
    let found: Vec<(usize, String)> =
        outcome.matches.iter().map(|m| (m.line_num, m.line.clone())).collect();
    assert_eq!(found, vec![(3, "b".to_string()), (4, "bb".to_string())]);
    assert!(!outcome.truncated);
    let more = search_text(&re, "q", "b\nb\nb", 4, outcome.matches);
    assert_eq!(more.matches.len(), 4);
    assert_eq!(more.matches[3].path, "q");
    assert!(more.truncated);
}

#[test]
fn carriage_returns_end_a_line_only_before_a_line_feed() {
    let re = Regex::new("x\r").unwrap();
    assert!(search_text(&re, "p", "x\r\n", 9, Vec::new()).matches.is_empty());
    assert_eq!(search_text(&re, "p", "x\ry\nx\r", 9, Vec::new()).matches.len(), 2);
}

#[test]
fn a_line_is_taken_while_there_is_room() {
    let first = SearchMatch { path: "p".to_string(), line_num: 1, line: "l".to_string() };
    let outcome = take_line(vec![first.clone()], "q", 7, "  m ", true, 3);
    assert_eq!(
        outcome.matches,
        vec![
            first.clone(),
            SearchMatch { path: "q".to_string(), line_num: 7, line: "m".to_string() },
        ]
    );
    assert!(!outcome.truncated);
    assert!(take_line(vec![first.clone()], "q", 7, "m", true, 2).truncated);
    let full = take_line(vec![first.clone()], "q", 7, "m", true, 1);
    assert_eq!(full.matches, vec![first.clone()]);
    assert!(full.truncated);
    let none = take_line(vec![first.clone()], "q", 7, "m", false, 1);
    assert_eq!(none.matches, vec![first]);
    assert!(!none.truncated);
}

#[test]
fn paths_are_kept_while_there_is_room() {
    let some = || vec!["b".to_string()];
    match take_found(None, some(), "a".to_string(), true, 2) {
        Step::Done(WorkspaceCommandOutput::Find { paths, truncated }) => {
            assert_eq!(paths, vec!["a".to_string(), "b".to_string()]);
            assert!(truncated);
        }
        other => panic!("unexpected step: {other:?}"),
    }
    match take_found(None, some(), "a".to_string(), true, 3) {
        Step::Ask(FsRequest::NextEntry, FindPhase::Entry { paths, .. }) => {
            assert_eq!(paths, vec!["b".to_string(), "a".to_string()]);
        }
        other => panic!("unexpected step: {other:?}"),
    }
    match take_found(None, some(), "a".to_string(), false, 1) {
        Step::Ask(FsRequest::NextEntry, FindPhase::Entry { paths, .. }) => {
            assert_eq!(paths, some());
        }
        other => panic!("unexpected step: {other:?}"),
    }
    assert_eq!(
        find_file("a".to_string(), false),
        WorkspaceCommandOutput::Find { paths: Vec::new(), truncated: false }
    );
    assert_eq!(
        find_file("a".to_string(), true),
        WorkspaceCommandOutput::Find { paths: vec!["a".to_string()], truncated: false }
    );
}

#[test]
fn failures_are_told_in_words() {
    let s = || "x".to_string();
    let messages = [
        (ToolboxError::InvalidPath(s()), "Invalid path: x"),
        (ToolboxError::PathEscapesWorkspace(s()), "Path escapes workspace: x"),
        (ToolboxError::NotFound(s()), "Path not found: x"),
        (ToolboxError::NotAFile(s()), "Not a regular file: x"),
        (ToolboxError::NotADirectory(s()), "Not a directory: x"),
        (ToolboxError::TooLarge(s()), "Operation exceeds size budget: x"),
        (ToolboxError::AlreadyExists(s()), "Path already exists: x"),
        (ToolboxError::RecursiveRequired(s()), "Recursive flag required: x"),
        (ToolboxError::InvalidArgument(s()), "Invalid argument: x"),
        (ToolboxError::InvalidGlob(s()), "Invalid glob: x"),
        (ToolboxError::Io(s()), "I/O error: x"),
        (ToolboxError::Search(SearchError::Walk(s())), "Cannot walk search root: x"),
        (ToolboxError::from(SearchError::InvalidGlob(s())), "Invalid glob: x"),
        (ToolboxError::from(SearchError::InvalidRegex(s())), "Invalid regex: x"),
        (io_error(FsError { not_found: true, message: s() }), "I/O error: x"),
    ];
    for (error, message) in messages {
        assert_eq!(error.to_string(), message);
    }
    assert!(matches!(
        ToolboxError::from(SearchError::InvalidGlob(s())),
        ToolboxError::InvalidGlob(_)
    ));
}

#[test]
fn only_small_files_are_read_whole() {
    let stat = |kind, len| FileStat { kind, len };
    assert!(check_file("f", stat(FileKind::File, 9), 9).is_ok());
    assert!(check_archive("f", stat(FileKind::File, 0), 0).is_ok());
    match check_file("f", stat(FileKind::File, 10), 9).unwrap_err() {
        ReadRefusal::TooLarge(message) => {
            assert_eq!(message, "f is 10 bytes, exceeds cap of 9");
        }
        other => panic!("unexpected refusal: {other:?}"),
    }
    match check_archive("f", stat(FileKind::File, 10), 9).unwrap_err() {
        ReadRefusal::TooLarge(message) => {
            assert_eq!(message, "f is 10 bytes, archive exceeds cap of 9");
        }
        other => panic!("unexpected refusal: {other:?}"),
    }
    for kind in [FileKind::Directory, FileKind::Other] {
        match check_archive("f", stat(kind, 10), 9).unwrap_err() {
            ReadRefusal::NotAFile(message) => assert_eq!(message, "not a regular file: f"),
            other => panic!("unexpected refusal: {other:?}"),
        }
    }
}

#[test]
fn default_limits() {
    assert_eq!(TOOLBOX_DEFAULT_MAX_READ_BYTES, 1024 * 1024);
    assert_eq!(TOOLBOX_DEFAULT_MAX_LIST_ENTRIES, 1024);
    assert_eq!(TOOLBOX_DEFAULT_MAX_FIND_RESULTS, 1024);
    assert_eq!(TOOLBOX_DEFAULT_MAX_COPY_BYTES, 64 * 1024 * 1024);
    assert_eq!(TOOLBOX_DEFAULT_MAX_MUTATION_ENTRIES, 2048);
}
