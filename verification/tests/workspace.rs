use std::collections::BTreeMap;

use acp_sandbox::errors::{SearchError, ToolboxError};
use acp_sandbox::fs::{Entry, FileKind, FileStat, FsError, FsReply, FsRequest, NextEntry, Step};
use acp_sandbox::paths::{
    full_path_text, join_names, lies_under, normalize_parts, normalize_relative_path, parent,
    path_to_display, Name, PathPart,
};
use acp_sandbox::resolve::{follow_link, settle, Workspace};
use acp_sandbox::search::{is_binary_file, search, SearchOutcome};
use acp_sandbox::toolbox::{
    run_workspace_command, WorkspaceCommand, WorkspaceCommandOutput, WorkspaceEntry,
    WorkspaceEntryKind,
};
use acp_sandbox::transfer::{resume_copy, CopyJob, CopyPhase, CopyRules};

// ---------------------------------------------------------------------------
// A file system in memory
// ---------------------------------------------------------------------------

#[derive(Debug, Clone, PartialEq)]
enum Node {
    File(Vec<u8>),
    Dir,
    Link(String),
    Special,
}

struct MemFs {
    nodes: BTreeMap<String, Node>,
    pending: Vec<Entry>,
    changes: Vec<String>,
    asked: Vec<String>,
}

fn name(text: &str) -> Name {
    Name { raw: text.as_bytes().to_vec(), text: text.to_string() }
}

fn parts(path: &str) -> Vec<PathPart> {
    let mut out = Vec::new();
    if path.starts_with('/') {
        out.push(PathPart::RootDir);
    }
    for piece in path.split('/').filter(|p| !p.is_empty() && *p != ".") {
        out.push(if piece == ".." { PathPart::ParentDir } else { PathPart::Normal(name(piece)) });
    }
    out
}

fn text(path: &Vec<PathPart>) -> String {
    full_path_text(path, '/')
}

fn paths_in(request: &FsRequest<Vec<PathPart>>) -> Vec<String> {
    match request {
        FsRequest::NextEntry | FsRequest::SkipEntry => Vec::new(),
        FsRequest::CopyFile(a, b) | FsRequest::Rename(a, b) => vec![text(a), text(b)],
        FsRequest::Canonicalize(p)
        | FsRequest::Stat(p)
        | FsRequest::StatEntry(p)
        | FsRequest::ReadLink(p)
        | FsRequest::ReadText(p)
        | FsRequest::ReadStart(p, _)
        | FsRequest::ReadDir(p)
        | FsRequest::Walk(p, _)
        | FsRequest::CreateDir(p)
        | FsRequest::CreateDirAll(p)
        | FsRequest::RemoveFile(p)
        | FsRequest::RemoveDir(p)
        | FsRequest::RemoveDirAll(p) => vec![text(p)],
    }
}

fn missing() -> FsError {
    FsError { not_found: true, message: "No such file or directory".to_string() }
}

fn refused(message: &str) -> FsError {
    FsError { not_found: false, message: message.to_string() }
}

impl MemFs {
    fn new(nodes: &[(&str, Node)]) -> MemFs {
        let mut fs = MemFs {
            nodes: BTreeMap::new(),
            pending: Vec::new(),
            changes: Vec::new(),
            asked: Vec::new(),
        };
        fs.nodes.insert("/".to_string(), Node::Dir);
        fs.nodes.insert("/ws".to_string(), Node::Dir);
        for (path, node) in nodes {
            fs.nodes.insert(path.to_string(), node.clone());
        }
        fs
    }

    fn file(&self, path: &str) -> Option<String> {
        match self.nodes.get(path) {
            Some(Node::File(bytes)) => Some(String::from_utf8(bytes.clone()).unwrap()),
            _ => None,
        }
    }

    fn canonical(&self, path: &str) -> Result<String, FsError> {
        self.resolved(path, 40)
    }

    fn resolved(&self, path: &str, links: usize) -> Result<String, FsError> {
        let mut at = String::new();
        for piece in path.split('/').filter(|p| !p.is_empty() && *p != ".") {
            if piece == ".." {
                at.truncate(at.rfind('/').unwrap_or(0));
                continue;
            }
            let above = at.clone();
            at = format!("{at}/{piece}");
            match self.nodes.get(&at) {
                Some(Node::Link(_)) if links == 0 => return Err(refused("Too many links")),
                Some(Node::Link(to)) => at = self.resolved(&MemFs::aim(&above, to), links - 1)?,
                Some(_) => {}
                None => return Err(missing()),
            }
        }
        Ok(if at.is_empty() { "/".to_string() } else { at })
    }

    fn aim(above: &str, to: &str) -> String {
        if to.starts_with('/') { to.to_string() } else { format!("{above}/{to}") }
    }

    /// Where the entry at the end of a path is, whatever it is.
    fn entry(&self, path: &str) -> Result<String, FsError> {
        let (above, last) = path.rsplit_once('/').unwrap();
        let above = self.canonical(above)?;
        Ok(format!("{}/{last}", above.trim_end_matches('/')))
    }

    /// Where a file comes to be that is written to a path.
    fn written(&self, path: &str, links: usize) -> Result<String, FsError> {
        let at = self.entry(path)?;
        match self.nodes.get(&at) {
            Some(Node::Link(_)) if links == 0 => Err(refused("Too many links")),
            Some(Node::Link(to)) => {
                let (above, _) = at.rsplit_once('/').unwrap();
                self.written(&MemFs::aim(above, to), links - 1)
            }
            _ => Ok(at),
        }
    }

    fn kind(node: &Node) -> FileStat {
        match node {
            Node::File(bytes) => FileStat { kind: FileKind::File, len: bytes.len() as u64 },
            Node::Dir => FileStat { kind: FileKind::Directory, len: 4096 },
            Node::Link(_) => FileStat { kind: FileKind::Other, len: 0 },
            Node::Special => FileStat { kind: FileKind::Other, len: 0 },
        }
    }

    fn stat(&self, path: &str) -> Result<FileStat, FsError> {
        let at = self.canonical(path)?;
        Ok(MemFs::kind(&self.nodes[&at]))
    }

    fn stat_entry(&self, path: &str) -> Result<FileStat, FsError> {
        self.nodes.get(&self.entry(path)?).map(MemFs::kind).ok_or_else(missing)
    }

    fn read_link(&self, path: &str) -> Result<Vec<PathPart>, FsError> {
        match self.nodes.get(&self.entry(path)?) {
            Some(Node::Link(to)) => Ok(parts(to)),
            Some(_) => Err(refused("Invalid argument")),
            None => Err(missing()),
        }
    }

    fn below(&self, path: &str) -> Vec<String> {
        let prefix = format!("{path}/");
        self.nodes.keys().filter(|p| p.starts_with(&prefix)).cloned().collect()
    }

    fn walk(&mut self, path: &str, min_depth: usize, max_depth: usize) -> NextEntry {
        let mut found = Vec::new();
        let mut all = vec![path.to_string()];
        all.extend(self.below(path));
        let base = path.split('/').filter(|p| !p.is_empty()).count();
        for p in all {
            let depth = p.split('/').filter(|q| !q.is_empty()).count() - base;
            if depth < min_depth || depth > max_depth {
                continue;
            }
            if let Some(node) = self.nodes.get(&p) {
                found.push(Entry { path: parts(&p), kind: MemFs::kind(node).kind, depth });
            }
        }
        found.reverse();
        self.pending = found;
        self.next()
    }

    fn next(&mut self) -> NextEntry {
        match self.pending.pop() {
            Some(entry) => NextEntry::Found(entry),
            None => NextEntry::End,
        }
    }

    fn skip(&mut self, last: &str) -> NextEntry {
        let prefix = format!("{last}/");
        self.pending.retain(|e| !text(&e.path).starts_with(&prefix));
        self.next()
    }

    fn make_dirs(&mut self, path: &str) -> Result<(), FsError> {
        let mut at = String::new();
        for piece in path.split('/').filter(|p| !p.is_empty()) {
            at = format!("{at}/{piece}");
            match self.nodes.get(&at) {
                Some(Node::File(_)) => return Err(refused("File exists")),
                Some(Node::Link(_)) => match self.canonical(&at) {
                    Ok(there) => at = there,
                    Err(_) => return Err(refused("File exists")),
                },
                Some(_) => {}
                None => {
                    self.nodes.insert(at.clone(), Node::Dir);
                }
            }
        }
        Ok(())
    }

    fn answer(&mut self, request: FsRequest<Vec<PathPart>>, last: &mut String) -> FsReply {
        self.asked.extend(paths_in(&request));
        let reply = match request {
            FsRequest::Canonicalize(p) => {
                FsReply::Path(self.canonical(&text(&p)).map(|p| parts(&p)))
            }
            FsRequest::Stat(p) => FsReply::Status(self.stat(&text(&p))),
            FsRequest::StatEntry(p) => FsReply::Status(self.stat_entry(&text(&p))),
            FsRequest::ReadLink(p) => FsReply::Link(self.read_link(&text(&p))),
            FsRequest::ReadText(p) => FsReply::Text(match self.nodes.get(&text(&p)) {
                Some(Node::File(bytes)) => String::from_utf8(bytes.clone())
                    .map_err(|_| refused("stream did not contain valid UTF-8")),
                _ => Err(missing()),
            }),
            FsRequest::ReadStart(p, len) => FsReply::Bytes(match self.nodes.get(&text(&p)) {
                Some(Node::File(bytes)) => Ok(bytes.iter().take(len).cloned().collect()),
                _ => Err(missing()),
            }),
            FsRequest::ReadDir(p) => FsReply::Entry(self.walk(&text(&p), 1, 1)),
            FsRequest::Walk(p, depth) => FsReply::Entry(self.walk(&text(&p), depth, usize::MAX)),
            FsRequest::NextEntry => FsReply::Entry(self.next()),
            FsRequest::SkipEntry => FsReply::Entry(self.skip(last)),
            FsRequest::CreateDir(p) => {
                self.changes.push(format!("mkdir {}", text(&p)));
                FsReply::Done(match self.entry(&text(&p)) {
                    Ok(at) if self.nodes.contains_key(&at) => Err(refused("File exists")),
                    Ok(at) => {
                        self.nodes.insert(at, Node::Dir);
                        Ok(())
                    }
                    Err(err) => Err(err),
                })
            }
            FsRequest::CreateDirAll(p) => {
                self.changes.push(format!("mkdir -p {}", text(&p)));
                FsReply::Done(self.make_dirs(&text(&p)))
            }
            FsRequest::CopyFile(a, b) => {
                self.changes.push(format!("cp {} {}", text(&a), text(&b)));
                let node = self.nodes[&text(&a)].clone();
                FsReply::Done(self.written(&text(&b), 40).map(|at| {
                    self.nodes.insert(at, node);
                }))
            }
            FsRequest::Rename(a, b) => {
                self.changes.push(format!("mv {} {}", text(&a), text(&b)));
                let (from, to) = (text(&a), self.entry(&text(&b)).unwrap());
                for p in self.below(&from) {
                    let node = self.nodes.remove(&p).unwrap();
                    self.nodes.insert(format!("{to}{}", &p[from.len()..]), node);
                }
                let node = self.nodes.remove(&from).unwrap();
                self.nodes.insert(to, node);
                FsReply::Done(Ok(()))
            }
            FsRequest::RemoveFile(p) => {
                self.changes.push(format!("rm {}", text(&p)));
                self.nodes.remove(&text(&p));
                FsReply::Done(Ok(()))
            }
            FsRequest::RemoveDir(p) => {
                self.changes.push(format!("rmdir {}", text(&p)));
                if self.below(&text(&p)).is_empty() {
                    self.nodes.remove(&text(&p));
                    FsReply::Done(Ok(()))
                } else {
                    FsReply::Done(Err(refused("Directory not empty")))
                }
            }
            FsRequest::RemoveDirAll(p) => {
                self.changes.push(format!("rm -r {}", text(&p)));
                for q in self.below(&text(&p)) {
                    self.nodes.remove(&q);
                }
                self.nodes.remove(&text(&p));
                FsReply::Done(Ok(()))
            }
        };
        if let FsReply::Entry(NextEntry::Found(entry)) = &reply {
            *last = text(&entry.path);
        }
        reply
    }

    fn run(&mut self, command: WorkspaceCommand) -> Result<WorkspaceCommandOutput, ToolboxError> {
        self.run_in("/ws", command)
    }

    fn run_in(
        &mut self,
        root: &str,
        command: WorkspaceCommand,
    ) -> Result<WorkspaceCommandOutput, ToolboxError> {
        let mut last = String::new();
        let mut step = run_workspace_command(parts(root), root.to_string(), '/', command);
        loop {
            match step {
                Step::Ask(request, run) => {
                    let reply = self.answer(request, &mut last);
                    assert_eq!(reply.kind(), run.awaits());
                    step = run.resume(reply);
                }
                Step::Done(output) => return Ok(output),
                Step::Failed(error) => return Err(error),
            }
        }
    }

    fn search(
        &mut self,
        root: &str,
        pattern: &str,
        glob: Option<&str>,
        max_results: usize,
        max_file_bytes: u64,
        max_total_bytes: u64,
    ) -> Result<SearchOutcome, SearchError> {
        let mut last = String::new();
        let glob = glob.map(|g| g.to_string());
        let mut step = search(
            parts(root),
            '/',
            pattern,
            &glob,
            max_results,
            max_file_bytes,
            max_total_bytes,
        );
        loop {
            match step {
                Step::Ask(request, run) => {
                    let reply = self.answer(request, &mut last);
                    assert_eq!(reply.kind(), run.awaits());
                    step = run.resume(reply);
                }
                Step::Done(outcome) => return Ok(outcome),
                Step::Failed(error) => return Err(error),
            }
        }
    }
}

fn file(content: &str) -> Node {
    Node::File(content.as_bytes().to_vec())
}

fn cat(path: &str) -> WorkspaceCommand {
    WorkspaceCommand::Cat { path: path.to_string(), max_bytes: None }
}

fn ls(path: &str, recursive: bool, max_entries: Option<usize>) -> WorkspaceCommand {
    WorkspaceCommand::Ls { path: Some(path.to_string()), recursive, max_entries }
}

fn find(path: Option<&str>, glob: Option<&str>, max_results: Option<usize>) -> WorkspaceCommand {
    WorkspaceCommand::Find {
        path: path.map(|p| p.to_string()),
        glob: glob.map(|g| g.to_string()),
        max_results,
    }
}

fn grep(path: Option<&str>, pattern: &str, max_results: usize) -> WorkspaceCommand {
    WorkspaceCommand::Grep {
        path: path.map(|p| p.to_string()),
        pattern: pattern.to_string(),
        glob: None,
        max_results,
        max_file_bytes: 1024,
        max_total_bytes: 4096,
    }
}

fn mkdir(path: &str, parents: bool) -> WorkspaceCommand {
    WorkspaceCommand::Mkdir { path: path.to_string(), parents }
}

fn cp(source: &str, destination: &str, recursive: bool, overwrite: bool) -> WorkspaceCommand {
    WorkspaceCommand::Cp {
        source: source.to_string(),
        destination: destination.to_string(),
        recursive,
        overwrite,
        max_total_bytes: None,
        max_entries: None,
    }
}

fn mv(source: &str, destination: &str, overwrite: bool) -> WorkspaceCommand {
    WorkspaceCommand::Mv {
        source: source.to_string(),
        destination: destination.to_string(),
        overwrite,
    }
}

fn rm(path: &str, recursive: bool, max_entries: Option<usize>) -> WorkspaceCommand {
    WorkspaceCommand::Rm { path: path.to_string(), recursive, max_entries }
}

fn message(result: Result<WorkspaceCommandOutput, ToolboxError>) -> String {
    result.unwrap_err().to_string()
}

fn mutated(action: &str, path: &str) -> WorkspaceCommandOutput {
    WorkspaceCommandOutput::Mutation { action: action.to_string(), path: path.to_string() }
}

fn sources() -> MemFs {
    MemFs::new(&[
        ("/ws/src", Node::Dir),
        ("/ws/src/main.rs", file("fn main() {}\nprintln!(\"hello\");\nthird line\n")),
    ])
}

// ---------------------------------------------------------------------------
// Reading
// ---------------------------------------------------------------------------

#[test]
fn read_only_commands_return_expected_shapes() {
    let mut fs = sources();

    let head = fs
        .run(WorkspaceCommand::Head {
            path: "src/main.rs".to_string(),
            lines: 2,
            max_bytes: None,
        })
        .unwrap();
    assert_eq!(
        head,
        WorkspaceCommandOutput::Head {
            content: "fn main() {}\nprintln!(\"hello\");\n".to_string(),
        }
    );

    let tail = fs
        .run(WorkspaceCommand::Tail {
            path: "src/main.rs".to_string(),
            lines: 1,
            max_bytes: None,
        })
        .unwrap();
    assert_eq!(
        tail,
        WorkspaceCommandOutput::Tail {
            content: "third line\n".to_string(),
        }
    );

    let wc = fs
        .run(WorkspaceCommand::Wc {
            path: "src/main.rs".to_string(),
            max_bytes: None,
        })
        .unwrap();
    match wc {
        WorkspaceCommandOutput::Wc { counts } => {
            assert_eq!(counts.lines, 3);
            assert!(counts.words >= 4);
        }
        other => panic!("unexpected output: {other:?}"),
    }

    let found = fs
        .run(WorkspaceCommand::Find {
            path: Some("src".to_string()),
            glob: Some("**/*.rs".to_string()),
            max_results: None,
        })
        .unwrap();
    assert_eq!(
        found,
        WorkspaceCommandOutput::Find {
            paths: vec!["src/main.rs".to_string()],
            truncated: false,
        }
    );

    let grepped = fs
        .run(WorkspaceCommand::Grep {
            path: Some("src/main.rs".to_string()),
            pattern: "println".to_string(),
            glob: None,
            max_results: 10,
            max_file_bytes: 1024,
            max_total_bytes: 4096,
        })
        .unwrap();
    match grepped {
        WorkspaceCommandOutput::Grep { matches, truncated } => {
            assert!(!truncated);
            assert_eq!(matches.len(), 1);
            assert_eq!(matches[0].path, "src/main.rs");
            assert_eq!(matches[0].line_num, 2);
        }
        other => panic!("unexpected output: {other:?}"),
    }
    assert!(fs.changes.is_empty());
}

#[test]
fn escaping_paths_are_rejected() {
    let mut fs = MemFs::new(&[("/outside.txt", file("secret"))]);
    let err = fs
        .run(WorkspaceCommand::Cat {
            path: "../outside.txt".to_string(),
            max_bytes: None,
        })
        .unwrap_err();
    assert!(matches!(err, ToolboxError::PathEscapesWorkspace(_)));
    assert_eq!(err.to_string(), "Path escapes workspace: ../outside.txt");
}

#[test]
fn a_path_that_leaves_and_comes_back_is_rejected() {
    let mut fs = sources();
    assert_eq!(
        message(fs.run(cat("../ws/src/main.rs"))),
        "Path escapes workspace: ../ws/src/main.rs"
    );
    assert!(fs.run(cat("src/../src/./main.rs")).is_ok());
    assert!(fs.run(cat("  src//main.rs ")).is_ok());
}

#[test]
fn absolute_paths_are_invalid() {
    let mut fs = sources();
    assert_eq!(message(fs.run(cat("/ws/src/main.rs"))), "Invalid path: /ws/src/main.rs");
    assert_eq!(message(fs.run(mkdir("/tmp/x", false))), "Invalid path: /tmp/x");
}

#[test]
fn links_out_of_the_workspace_are_not_followed() {
    let mut fs = MemFs::new(&[
        ("/secret", file("hidden")),
        ("/ws/link", Node::Link("/secret".to_string())),
        ("/ws/inner", Node::Link("/ws/real.txt".to_string())),
        ("/ws/real.txt", file("seen")),
    ]);
    assert_eq!(message(fs.run(cat("link"))), "Path escapes workspace: link");
    assert_eq!(
        fs.run(cat("inner")).unwrap(),
        WorkspaceCommandOutput::Cat { content: "seen".to_string() }
    );
    assert_eq!(
        message(fs.run(cp("real.txt", "link/new", false, true))),
        "Path escapes workspace: /ws/link/new"
    );
    assert!(fs.changes.is_empty());
}

fn link(to: &str) -> Node {
    Node::Link(to.to_string())
}

#[test]
fn links_that_lead_out_to_nowhere_are_not_written_through() {
    let nodes = [
        ("/out", Node::Dir),
        ("/ws/link", link("/out/new")),
        ("/ws/deep", link("/out/none/new")),
        ("/ws/up", link("../out/new")),
        ("/ws/back", link("none/../../out/new")),
        ("/ws/via", link("link")),
        ("/ws/real.txt", file("seen")),
        ("/ws/d", Node::Dir),
        ("/ws/d/x", file("x")),
        ("/ws/e", Node::Dir),
        ("/ws/e/real.txt", link("/out/real.txt")),
    ];
    let mut fs = MemFs::new(&nodes);
    for (command, place) in [
        (cp("real.txt", "link", false, true), "/ws/link"),
        (cp("real.txt", "link/a", false, true), "/ws/link/a"),
        (cp("real.txt", "link/a/b", false, true), "/ws/link/a/b"),
        (cp("real.txt", "deep", false, true), "/ws/deep"),
        (cp("real.txt", "up", false, true), "/ws/up"),
        (cp("real.txt", "back", false, true), "/ws/back"),
        (cp("real.txt", "via", false, true), "/ws/via"),
        (cp("real.txt", "e", false, true), "/ws/e/real.txt"),
        (cp("d", "link", true, false), "/ws/link"),
        (cp("d", "link/d", true, false), "/ws/link/d"),
        (mv("real.txt", "link", true), "/ws/link"),
        (mv("real.txt", "up/a", true), "/ws/up/a"),
        (mv("d", "link", false), "/ws/link"),
        (mkdir("link", false), "/ws/link"),
        (mkdir("link", true), "/ws/link"),
        (mkdir("via/a", true), "/ws/via/a"),
    ] {
        assert_eq!(message(fs.run(command)), format!("Path escapes workspace: {place}"));
    }
    assert!(fs.changes.is_empty());
    assert_eq!(fs.nodes, MemFs::new(&nodes).nodes);
}

#[test]
fn links_that_lead_inside_to_nowhere_are_written_through() {
    let nodes = [
        ("/alias", link("/ws")),
        ("/ws/inner", link("/ws/none")),
        ("/ws/near", link("d/../near.txt")),
        ("/ws/twice", link("inner")),
        ("/ws/round", link("/alias/around")),
        ("/ws/lost", link("gone/x")),
        ("/ws/loop", link("loop")),
        ("/ws/real.txt", file("seen")),
        ("/ws/d", Node::Dir),
    ];
    for (to, comes_to) in [
        ("inner", "/ws/none"),
        ("near", "/ws/near.txt"),
        ("twice", "/ws/none"),
        ("round", "/ws/around"),
    ] {
        let mut fs = MemFs::new(&nodes);
        assert_eq!(fs.run(cp("real.txt", to, false, false)).unwrap(), mutated("cp", to));
        assert_eq!(fs.file(comes_to).unwrap(), "seen");
        assert_eq!(fs.nodes[&format!("/ws/{to}")], MemFs::new(&nodes).nodes[&format!("/ws/{to}")]);
    }
    // What is moved takes the place of the link.
    let mut fs = MemFs::new(&nodes);
    assert_eq!(fs.run(mv("real.txt", "inner", false)).unwrap(), mutated("mv", "inner"));
    assert_eq!(fs.file("/ws/inner").unwrap(), "seen");
    // What the file system refuses is reported as it says.
    let mut fs = MemFs::new(&nodes);
    for (command, expected) in [
        (cp("real.txt", "lost", false, true), "I/O error: No such file or directory"),
        (cp("real.txt", "loop", false, true), "I/O error: Too many links"),
        (cp("real.txt", "inner/a", false, true), "I/O error: File exists"),
        (mkdir("inner", false), "I/O error: File exists"),
        (mkdir("inner", true), "I/O error: File exists"),
        (mkdir("inner/a", true), "Path not found: /ws/inner"),
    ] {
        assert_eq!(message(fs.run(command)), expected);
    }
    assert_eq!(fs.nodes, MemFs::new(&nodes).nodes);
}

#[test]
fn links_lead_from_the_directory_that_holds_them() {
    let aim = |at: &str, to: &str| text(&follow_link(&parts(at), &parts(to)));
    assert_eq!(aim("/ws/d/l", "x"), "/ws/d/x");
    assert_eq!(aim("/ws/d/l", "../x"), "/ws/d/../x");
    assert_eq!(aim("/ws/d/l", "/x"), "/x");
    let drive = |end: &str| {
        vec![PathPart::Prefix(name("C:")), PathPart::RootDir, PathPart::Normal(name(end))]
    };
    assert_eq!(follow_link(&drive("l"), &parts("/x")), drive("x"));
    assert_eq!(follow_link(&parts("/ws/l"), &drive("x")), drive("x"));

    let end = |base: &str, rest: &str| text(&settle(&parts(base), &parts(rest)));
    assert_eq!(end("/ws", "a/b"), "/ws/a/b");
    assert_eq!(end("/ws", "a/../b"), "/ws/b");
    assert_eq!(end("/ws", "a/../../b"), "/b");
    assert_eq!(end("/ws", "../../../b"), "/b");
}

#[test]
fn a_place_is_taken_where_its_links_lead_inside() {
    let mut fs = MemFs::new(&[
        ("/ws/a", file("a")),
        ("/ws/d", Node::Dir),
        ("/ws/in", Node::Link("/ws/d".to_string())),
    ]);
    assert_eq!(fs.run(cp("a", "in/x/y", false, false)).unwrap(), mutated("cp", "in/x/y"));
    assert_eq!(fs.changes, ["mkdir -p /ws/in/x", "cp /ws/a /ws/in/x/y"]);
    for path in ["/ws/in/x/y", "/ws/in/x", "/ws/in"] {
        assert!(fs.asked.contains(&path.to_string()), "{path}");
    }
    assert!(fs.run(mkdir("in/z", false)).is_ok());
}

#[test]
fn commands_with_paths_that_lead_out_do_nothing() {
    for bad in ["..", "../x", "../ws/a", "d/../../ws/a", " ../x\t", "/", "/ws/a", "//ws/a", " /x"] {
        let mut fs = MemFs::new(&[
            ("/x", file("x")),
            ("/ws/a", file("a")),
            ("/ws/d", Node::Dir),
        ]);
        let head = WorkspaceCommand::Head { path: bad.to_string(), lines: 1, max_bytes: None };
        let tail = WorkspaceCommand::Tail { path: bad.to_string(), lines: 1, max_bytes: None };
        let wc = WorkspaceCommand::Wc { path: bad.to_string(), max_bytes: None };
        let expected = if bad.trim().starts_with('/') {
            format!("Invalid path: {bad}")
        } else {
            format!("Path escapes workspace: {bad}")
        };
        for command in [
            cat(bad),
            head,
            tail,
            wc,
            ls(bad, false, None),
            find(Some(bad), None, None),
            grep(Some(bad), "x", 1),
            mkdir(bad, true),
            cp(bad, "b", true, true),
            cp("a", bad, true, true),
            cp("d", bad, true, true),
            mv(bad, "b", true),
            mv("a", bad, true),
            rm(bad, true, None),
        ] {
            assert_eq!(message(fs.run(command)), expected);
        }
        assert!(fs.changes.is_empty());
    }
}

#[test]
fn requests_keep_to_the_workspace() {
    let mut fs = MemFs::new(&[
        ("/secret", file("needle")),
        ("/out", Node::Dir),
        ("/out/x", file("needle")),
        ("/ws/a", file("needle")),
        ("/ws/d", Node::Dir),
        ("/ws/d/b", file("needle")),
        ("/ws/d/up", Node::Link("/out".to_string())),
        ("/ws/file", Node::Link("/secret".to_string())),
    ]);
    let commands = [
        cat("a"),
        cat("file"),
        cat("d/up/x"),
        cat("../secret"),
        ls("d", true, None),
        find(None, None, None),
        grep(None, "needle", 10),
        grep(Some("a"), "needle", 10),
        mkdir("new", false),
        mkdir("d/up/new", false),
        mkdir("../new", false),
        cp("a", "d/up/a", false, true),
        cp("d", "e", true, false),
        cp("d", "/out", true, false),
        mv("a", "../a", true),
        mv("a", "file/a", true),
        rm("d/up", true, None),
        rm("file", false, None),
        rm("d", true, None),
    ];
    for command in commands {
        let _ = fs.run(command);
    }
    for path in &fs.asked {
        assert!(path == "/ws" || path.starts_with("/ws/"), "{path}");
    }
    assert_eq!(fs.file("/secret").unwrap(), "needle");
    assert_eq!(fs.file("/out/x").unwrap(), "needle");
    assert_eq!(fs.below("/out").len(), 1);
}

#[test]
fn pwd_is_the_root() {
    let mut fs = sources();
    assert_eq!(
        fs.run(WorkspaceCommand::Pwd).unwrap(),
        WorkspaceCommandOutput::Pwd { path: ".".to_string() }
    );
}

#[test]
fn the_root_must_be_a_directory() {
    let mut fs = MemFs::new(&[("/file", file("x"))]);
    let err = fs.run_in("/file", WorkspaceCommand::Pwd).unwrap_err();
    assert_eq!(err.to_string(), "Not a directory: /file");
    let err = fs.run_in("/nowhere", WorkspaceCommand::Pwd).unwrap_err();
    assert_eq!(err.to_string(), "I/O error: No such file or directory");
}

#[test]
fn reading_reports_what_is_wrong() {
    let mut fs = sources();
    fs.nodes.insert("/ws/bin".to_string(), Node::File(vec![0xff, 0xfe]));
    assert_eq!(message(fs.run(cat("missing.txt"))), "Path not found: missing.txt");
    assert_eq!(message(fs.run(cat("src"))), "Not a regular file: src");
    assert_eq!(message(fs.run(cat(""))), "Not a regular file: ");
    assert_eq!(
        message(fs.run(cat("bin"))),
        "I/O error: stream did not contain valid UTF-8"
    );
    assert_eq!(
        message(fs.run(WorkspaceCommand::Cat {
            path: "src/main.rs".to_string(),
            max_bytes: Some(42),
        })),
        "Operation exceeds size budget: src/main.rs is 43 bytes and exceeds the 42-byte limit"
    );
    assert!(fs
        .run(WorkspaceCommand::Cat { path: "src/main.rs".to_string(), max_bytes: Some(43) })
        .is_ok());
}

#[test]
fn word_counts_are_exact() {
    let mut fs = MemFs::new(&[("/ws/t", file("h\u{e9}llo  w\u{3000}x\n\ny"))]);
    match fs.run(WorkspaceCommand::Wc { path: "t".to_string(), max_bytes: None }).unwrap() {
        WorkspaceCommandOutput::Wc { counts } => {
            assert_eq!(counts.bytes, 16);
            assert_eq!(counts.chars, 13);
            assert_eq!(counts.words, 4);
            assert_eq!(counts.lines, 2);
        }
        other => panic!("unexpected output: {other:?}"),
    }
}

#[test]
fn a_listing_is_sorted_and_tells_sizes_of_files() {
    let mut fs = MemFs::new(&[
        ("/ws/b", file("12345")),
        ("/ws/a", Node::Dir),
        ("/ws/a/z", file("")),
        ("/ws/B", file("x")),
    ]);
    let flat = fs.run(ls(".", false, None)).unwrap();
    let entry = |path: &str, size: Option<u64>| WorkspaceEntry {
        path: path.to_string(),
        kind: if size.is_some() {
            WorkspaceEntryKind::File
        } else {
            WorkspaceEntryKind::Directory
        },
        size_bytes: size,
    };
    assert_eq!(
        flat,
        WorkspaceCommandOutput::Ls {
            entries: vec![entry("B", Some(1)), entry("a", None), entry("b", Some(5))],
            truncated: false,
        }
    );
    let deep = fs.run(ls("", true, None)).unwrap();
    assert_eq!(
        deep,
        WorkspaceCommandOutput::Ls {
            entries: vec![
                entry("B", Some(1)),
                entry("a", None),
                entry("a/z", Some(0)),
                entry("b", Some(5)),
            ],
            truncated: false,
        }
    );
    let one = fs.run(ls("b", true, None)).unwrap();
    assert_eq!(
        one,
        WorkspaceCommandOutput::Ls { entries: vec![entry("b", Some(5))], truncated: false }
    );
    for (limit, count) in [(2, 2), (1, 1), (0, 1)] {
        match fs.run(ls(".", true, Some(limit))).unwrap() {
            WorkspaceCommandOutput::Ls { entries, truncated } => {
                assert_eq!(entries.len(), count);
                assert!(truncated);
            }
            other => panic!("unexpected output: {other:?}"),
        }
    }
}

#[test]
fn a_listing_refuses_what_is_neither_file_nor_directory() {
    let mut fs = MemFs::new(&[("/ws/pipe", Node::Special)]);
    assert_eq!(message(fs.run(ls("pipe", false, None))), "Not a directory: /ws/pipe");
    assert_eq!(
        message(fs.run(ls(".", false, None))),
        "Invalid argument: unsupported entry type: /ws/pipe"
    );
}

#[test]
fn find_filters_sorts_and_truncates() {
    let mut fs = MemFs::new(&[
        ("/ws/src", Node::Dir),
        ("/ws/src/lib.rs", file("")),
        ("/ws/src/lib.rsx", file("")),
        ("/ws/src/a.rs", file("")),
        ("/ws/README.md", file("")),
    ]);
    let paths = |out: WorkspaceCommandOutput| match out {
        WorkspaceCommandOutput::Find { paths, truncated } => (paths, truncated),
        other => panic!("unexpected output: {other:?}"),
    };
    assert_eq!(
        paths(fs.run(find(None, Some("*.rs"), None)).unwrap()),
        (vec!["src/a.rs".to_string(), "src/lib.rs".to_string()], false)
    );
    assert_eq!(
        paths(fs.run(find(Some("src/a.rs"), Some("*.md"), None)).unwrap()),
        (Vec::new(), false)
    );
    assert_eq!(
        paths(fs.run(find(Some("src/a.rs"), None, None)).unwrap()),
        (vec!["src/a.rs".to_string()], false)
    );
    let (some, truncated) = paths(fs.run(find(None, None, Some(3))).unwrap());
    assert_eq!(some.len(), 3);
    assert!(truncated);
    assert!(message(fs.run(find(None, Some("["), None))).starts_with("Invalid glob: "));
}

#[test]
fn grep_searches_directories_and_single_files() {
    let mut fs = MemFs::new(&[
        ("/ws/a.txt", file("one\n  two needle \nthree\n")),
        ("/ws/sub", Node::Dir),
        ("/ws/sub/b.txt", file("needle\r\nneedle")),
    ]);
    let lines = |out: WorkspaceCommandOutput| match out {
        WorkspaceCommandOutput::Grep { matches, truncated } => (
            matches
                .into_iter()
                .map(|m| format!("{}:{}:{}", m.path, m.line_num, m.line))
                .collect::<Vec<String>>(),
            truncated,
        ),
        other => panic!("unexpected output: {other:?}"),
    };
    assert_eq!(
        lines(fs.run(grep(None, "needle$|needle ", 10)).unwrap()),
        (
            vec![
                "a.txt:2:two needle".to_string(),
                "sub/b.txt:1:needle".to_string(),
                "sub/b.txt:2:needle".to_string(),
            ],
            false
        )
    );
    assert_eq!(
        lines(fs.run(grep(Some("sub"), "needle", 10)).unwrap()),
        (vec!["b.txt:1:needle".to_string(), "b.txt:2:needle".to_string()], false)
    );
    assert_eq!(
        lines(fs.run(grep(Some("sub/b.txt"), "needle", 1)).unwrap()),
        (vec!["sub/b.txt:1:needle".to_string()], true)
    );
    assert_eq!(lines(fs.run(grep(Some("sub/b.txt"), "needle", 0)).unwrap()), (Vec::new(), true));
    assert!(message(fs.run(grep(Some("a.txt"), "(", 1))).starts_with("Invalid regex: "));
    assert!(message(fs.run(grep(None, "(", 1))).starts_with("Invalid regex: "));
    let bad_glob = WorkspaceCommand::Grep {
        path: None,
        pattern: "x".to_string(),
        glob: Some("[".to_string()),
        max_results: 1,
        max_file_bytes: 1,
        max_total_bytes: 1,
    };
    assert!(matches!(fs.run(bad_glob).unwrap_err(), ToolboxError::InvalidGlob(_)));
}

// ---------------------------------------------------------------------------
// Changing
// ---------------------------------------------------------------------------

#[test]
fn mutation_commands_stay_in_workspace() {
    let mut fs = MemFs::new(&[("/ws/note.txt", file("hello world\n"))]);

    fs.run(WorkspaceCommand::Mkdir { path: "nested".to_string(), parents: false }).unwrap();
    assert_eq!(fs.nodes.get("/ws/nested"), Some(&Node::Dir));

    fs.run(WorkspaceCommand::Cp {
        source: "note.txt".to_string(),
        destination: "nested/copy.txt".to_string(),
        recursive: false,
        overwrite: false,
        max_total_bytes: None,
        max_entries: None,
    })
    .unwrap();
    assert_eq!(fs.file("/ws/nested/copy.txt").unwrap(), "hello world\n");

    fs.run(WorkspaceCommand::Mv {
        source: "nested/copy.txt".to_string(),
        destination: "nested/moved.txt".to_string(),
        overwrite: false,
    })
    .unwrap();
    assert!(fs.file("/ws/nested/moved.txt").is_some());
    assert!(!fs.nodes.contains_key("/ws/nested/copy.txt"));

    fs.run(WorkspaceCommand::Rm {
        path: "nested/moved.txt".to_string(),
        recursive: false,
        max_entries: None,
    })
    .unwrap();
    assert!(!fs.nodes.contains_key("/ws/nested/moved.txt"));
}

#[test]
fn mkdir_needs_a_parent_and_a_free_place() {
    let mut fs = sources();
    assert_eq!(fs.run(mkdir("new", false)).unwrap(), mutated("mkdir", "new"));
    assert_eq!(fs.run(mkdir("other", true)).unwrap(), mutated("mkdir", "other"));
    assert_eq!(fs.changes, vec!["mkdir /ws/new".to_string(), "mkdir -p /ws/other".to_string()]);
    assert_eq!(message(fs.run(mkdir("src", false))), "Path already exists: src");
    assert_eq!(message(fs.run(mkdir("a/b", true))), "Path not found: /ws/a");
    assert_eq!(message(fs.run(mkdir(".", false))), "Invalid path: .");
    assert_eq!(message(fs.run(mkdir(" ", false))), "Invalid path:  ");
}

#[test]
fn a_directory_is_copied_only_with_leave() {
    let mut fs = MemFs::new(&[
        ("/ws/d", Node::Dir),
        ("/ws/d/x", file("1")),
        ("/ws/d/e", Node::Dir),
        ("/ws/d/e/y", file("22")),
        ("/ws/d/p", Node::Special),
    ]);
    assert_eq!(
        message(fs.run(cp("d", "copy", false, false))),
        "Recursive flag required: d is a directory"
    );
    assert!(fs.changes.is_empty());
    assert_eq!(fs.run(cp("d", "copy", true, false)).unwrap(), mutated("cp", "copy"));
    assert_eq!(fs.file("/ws/copy/x").unwrap(), "1");
    assert_eq!(fs.file("/ws/copy/e/y").unwrap(), "22");
    assert!(!fs.nodes.contains_key("/ws/copy/p"));
    // The destination is a directory now, so the copy goes into it.
    assert_eq!(fs.run(cp("d", "copy", true, false)).unwrap(), mutated("cp", "copy/d"));
    assert_eq!(fs.file("/ws/copy/d/x").unwrap(), "1");
    assert_eq!(
        message(fs.run(cp("d", "copy", true, false))),
        "Path already exists: copy/d"
    );
    assert_eq!(
        message(fs.run(cp("d", "d/inner", true, false))),
        "Invalid argument: refusing to copy a directory into itself"
    );
}

#[test]
fn copies_are_complete() {
    let nodes = [
        ("/ws/d", Node::Dir),
        ("/ws/d/empty", Node::Dir),
        ("/ws/d/e", Node::Dir),
        ("/ws/d/e/f", Node::Dir),
        ("/ws/d/e/f/y", file("22")),
        ("/ws/d/x", file("1")),
    ];
    let mut fs = MemFs::new(&nodes);
    assert_eq!(fs.run(cp("d", "far/to", true, false)).unwrap(), mutated("cp", "far/to"));
    for (path, node) in &nodes {
        let there = path.replacen("/ws/d", "/ws/far/to", 1);
        assert_eq!(fs.nodes.get(&there), Some(node), "{there}");
    }
    let mut fs = MemFs::new(&nodes);
    assert_eq!(fs.run(cp("d/x", "z", false, false)).unwrap(), mutated("cp", "z"));
    assert_eq!(fs.changes, ["mkdir -p /ws", "cp /ws/d/x /ws/z"]);
}

#[test]
fn a_byte_limit_of_all_bytes_is_one() {
    let mut fs = MemFs::new(&[("/ws/d", Node::Dir), ("/ws/d/a", file("123"))]);
    let command = WorkspaceCommand::Cp {
        source: "d".to_string(),
        destination: "to".to_string(),
        recursive: true,
        overwrite: false,
        max_total_bytes: Some(u64::MAX),
        max_entries: None,
    };
    assert_eq!(fs.run(command).unwrap(), mutated("cp", "to"));
}

#[test]
fn lists_and_finds_are_truncated_exactly_at_the_limit() {
    let nodes = [("/ws/b", file("")), ("/ws/a", file("")), ("/ws/c", Node::Dir)];
    let all = ["a", "b", "c"];
    for limit in 0..5usize {
        let mut fs = MemFs::new(&nodes);
        let kept = limit.clamp(1, 3);
        match fs.run(ls(".", false, Some(limit))).unwrap() {
            WorkspaceCommandOutput::Ls { entries, truncated } => {
                let paths: Vec<String> = entries.into_iter().map(|e| e.path).collect();
                assert_eq!(paths, all[..kept]);
                assert_eq!(truncated, kept == limit.max(1));
            }
            other => panic!("unexpected output: {other:?}"),
        }
        match fs.run(find(None, None, Some(limit))).unwrap() {
            WorkspaceCommandOutput::Find { paths, truncated } => {
                assert_eq!(paths, all[..kept]);
                assert_eq!(truncated, kept == limit.max(1));
            }
            other => panic!("unexpected output: {other:?}"),
        }
    }
    let mut fs = MemFs::new(&nodes);
    match fs.run(ls("a", false, Some(1))).unwrap() {
        WorkspaceCommandOutput::Ls { entries, truncated } => {
            assert_eq!(entries.len(), 1);
            assert!(!truncated);
        }
        other => panic!("unexpected output: {other:?}"),
    }
}

#[test]
fn searches_hold_every_hit_and_are_truncated_exactly_at_the_limit() {
    let nodes = [
        ("/ws/a", file("hit 1\nmiss\nhit 2\n")),
        ("/ws/b", file("miss\n")),
        ("/ws/c", file("hit 3\n")),
    ];
    let all = ["hit 1", "hit 2", "hit 3"];
    for limit in 0..6usize {
        let mut fs = MemFs::new(&nodes);
        let outcome = fs.search("/ws", "hit", None, limit, 1 << 20, 1 << 20).unwrap();
        let lines: Vec<String> = outcome.matches.into_iter().map(|m| m.line).collect();
        assert_eq!(lines, all[..limit.min(3)]);
        assert_eq!(outcome.truncated, limit <= 3);
    }
}

#[test]
fn copies_are_bounded() {
    let nodes = [
        ("/ws/d", Node::Dir),
        ("/ws/d/a", file("123")),
        ("/ws/d/b", file("456")),
        ("/ws/d/c", file("789")),
    ];
    let bounded = |max_total_bytes: Option<u64>, max_entries: Option<usize>| WorkspaceCommand::Cp {
        source: "d".to_string(),
        destination: "to".to_string(),
        recursive: true,
        overwrite: false,
        max_total_bytes,
        max_entries,
    };
    let copied = |fs: &MemFs| fs.changes.iter().filter(|c| c.starts_with("cp ")).count();

    let mut fs = MemFs::new(&nodes);
    assert_eq!(
        message(fs.run(bounded(None, Some(2)))),
        "Operation exceeds size budget: copy exceeded 2 file entries"
    );
    assert_eq!(copied(&fs), 2);

    let mut fs = MemFs::new(&nodes);
    assert_eq!(
        message(fs.run(bounded(Some(8), None))),
        "Operation exceeds size budget: copy exceeded 8 bytes"
    );
    assert_eq!(copied(&fs), 2);

    let mut fs = MemFs::new(&nodes);
    assert!(fs.run(bounded(Some(9), Some(3))).is_ok());
    assert_eq!(copied(&fs), 3);
}

#[test]
fn files_are_replaced_only_with_leave() {
    let mut fs = MemFs::new(&[
        ("/ws/a", file("new")),
        ("/ws/b", file("old")),
        ("/ws/d", Node::Dir),
    ]);
    assert_eq!(message(fs.run(cp("a", "b", false, false))), "Path already exists: /ws/b");
    assert_eq!(fs.file("/ws/b").unwrap(), "old");
    assert_eq!(fs.run(cp("a", "b", false, true)).unwrap(), mutated("cp", "b"));
    assert_eq!(fs.file("/ws/b").unwrap(), "new");
    assert_eq!(fs.run(cp("a", "d", false, false)).unwrap(), mutated("cp", "d/a"));
    assert_eq!(message(fs.run(mv("a", "b", false))), "Path already exists: b");
    assert_eq!(fs.run(mv("a", "b", true)).unwrap(), mutated("mv", "b"));
    assert!(!fs.nodes.contains_key("/ws/a"));
    assert_eq!(
        message(fs.run(cp("pipe", "x", false, false))),
        "Path not found: pipe"
    );
}

#[test]
fn unsupported_sources_are_refused() {
    let mut fs = MemFs::new(&[("/ws/pipe", Node::Special), ("/ws/q", Node::Special)]);
    assert_eq!(
        message(fs.run(cp("pipe", "x", true, true))),
        "Invalid argument: unsupported source type: /ws/pipe"
    );
    assert_eq!(message(fs.run(mv("pipe", "q", true))), "Path already exists: q");
    assert_eq!(message(fs.run(rm("pipe", true, None))), "Path not found: /ws/pipe");
}

#[test]
fn a_source_without_a_name_has_no_place_in_a_directory() {
    let mut fs = MemFs::new(&[("/d", Node::Dir)]);
    let err = fs.run_in("/", cp(".", "d", true, false)).unwrap_err();
    assert_eq!(
        err.to_string(),
        "Invalid argument: cannot derive destination basename from /"
    );
}

#[test]
fn entries_that_are_not_in_the_source_are_refused() {
    let workspace = Workspace { root: parts("/ws"), separator: '/' };
    let rules =
        CopyRules { recursive: true, overwrite: false, max_total_bytes: 9, max_entries: 9 };
    let job = CopyJob {
        source: parts("/ws/d"),
        destination: parts("/ws/e"),
        bytes: 0,
        entries: 0,
    };
    let stray = Entry { path: parts("/ws/x"), kind: FileKind::File, depth: 1 };
    let reply = FsReply::Entry(NextEntry::Found(stray));
    match resume_copy(&workspace, rules, CopyPhase::Entry { job }, reply) {
        Step::Failed(error) => assert_eq!(
            error.to_string(),
            "Invalid argument: failed to compute relative path"
        ),
        other => panic!("unexpected step: {other:?}"),
    }
}

#[test]
fn refusals_of_the_file_system_are_reported() {
    let workspace = Workspace { root: parts("/ws"), separator: '/' };
    let rules =
        CopyRules { recursive: true, overwrite: false, max_total_bytes: 9, max_entries: 9 };
    let phase = CopyPhase::File { after: None, to: parts("/ws/e") };
    match resume_copy(&workspace, rules, phase, FsReply::Done(Err(refused("disk full")))) {
        Step::Failed(error) => assert_eq!(error.to_string(), "I/O error: disk full"),
        other => panic!("unexpected step: {other:?}"),
    }
}

#[test]
fn moves_make_the_directories_above_them() {
    let mut fs = MemFs::new(&[("/ws/d", Node::Dir), ("/ws/d/x", file("1"))]);
    assert_eq!(fs.run(mv("d", "far/away", false)).unwrap(), mutated("mv", "far/away"));
    assert_eq!(
        fs.changes,
        vec!["mkdir -p /ws/far".to_string(), "mv /ws/d /ws/far/away".to_string()]
    );
    assert_eq!(fs.file("/ws/far/away/x").unwrap(), "1");
}

#[test]
fn removals_are_bounded_and_spare_the_root() {
    let mut fs = MemFs::new(&[
        ("/ws/d", Node::Dir),
        ("/ws/d/a", file("1")),
        ("/ws/d/b", Node::Dir),
        ("/ws/d/p", Node::Special),
    ]);
    assert_eq!(
        message(fs.run(rm(".", true, None))),
        "Invalid argument: refusing to remove workspace root"
    );
    assert_eq!(
        message(fs.run(rm("d/..", true, None))),
        "Invalid argument: refusing to remove workspace root"
    );
    assert_eq!(message(fs.run(rm("d", false, None))), "I/O error: Directory not empty");
    assert_eq!(
        message(fs.run(rm("d", true, Some(1)))),
        "Operation exceeds size budget: remove exceeded 1 entries"
    );
    assert_eq!(fs.changes, vec!["rmdir /ws/d".to_string()]);
    assert_eq!(fs.run(rm("d", true, Some(2))).unwrap(), mutated("rm", "d"));
    assert_eq!(fs.nodes.len(), 2);
}

// ---------------------------------------------------------------------------
// Searching
// ---------------------------------------------------------------------------

#[test]
fn nul_between_4k_and_8k_is_classified_as_binary() {
    let mut body: Vec<u8> = b"a".repeat(5000);
    body.push(0);
    body.extend_from_slice(b"needle\n");

    assert!(
        is_binary_file(&Ok(body.clone())),
        "file with NUL at offset 5000 must be classified as binary"
    );

    let mut fs = MemFs::new(&[("/tmp", Node::Dir), ("/tmp/payload.bin", Node::File(body))]);
    let outcome = fs.search("/tmp", "needle", None, 100, 1 << 20, 1 << 30).unwrap();
    assert!(
        outcome.matches.is_empty(),
        "binary-classified file must not produce matches, got: {:?}",
        outcome.matches
    );
}

#[test]
fn only_the_first_8192_bytes_tell_a_binary_file() {
    let mut body: Vec<u8> = b"a".repeat(8191);
    body.push(0);
    assert!(is_binary_file(&Ok(body.clone())));
    body.insert(0, b'a');
    assert!(!is_binary_file(&Ok(body)));
    assert!(!is_binary_file(&Ok(Vec::new())));
    assert!(is_binary_file(&Err(missing())));
}

fn searched(fs: &mut MemFs, root: &str, glob: Option<&str>) -> Vec<String> {
    fs.search(root, "needle", glob, 100, 1000, 10000)
        .unwrap()
        .matches
        .into_iter()
        .map(|m| m.path)
        .collect()
}

#[test]
fn hidden_and_generated_directories_are_passed_over() {
    let mut fs = MemFs::new(&[
        ("/ws/.git", Node::Dir),
        ("/ws/.git/x", file("needle")),
        ("/ws/node_modules", Node::Dir),
        ("/ws/node_modules/x", file("needle")),
        ("/ws/src", Node::Dir),
        ("/ws/src/target", Node::Dir),
        ("/ws/src/target/x", file("needle")),
        ("/ws/src/__pycache__", file("needle")),
        ("/ws/src/.hidden", file("needle")),
        ("/ws/src/targets", file("needle")),
    ]);
    assert_eq!(searched(&mut fs, "/ws", None), vec!["src/targets".to_string()]);
}

#[test]
fn a_hidden_root_is_searched() {
    let mut fs = MemFs::new(&[("/.tmp1", Node::Dir), ("/.tmp1/f", file("needle"))]);
    assert_eq!(searched(&mut fs, "/.tmp1", None), vec!["f".to_string()]);
    assert!(searched(&mut fs, "/none", None).is_empty());
}

#[test]
fn globs_choose_files() {
    let mut fs = MemFs::new(&[
        ("/ws/a.rs", file("needle")),
        ("/ws/b.txt", file("needle")),
        ("/ws/s", Node::Dir),
        ("/ws/s/c.rs", file("needle")),
    ]);
    assert_eq!(
        searched(&mut fs, "/ws", Some("*.rs")),
        vec!["a.rs".to_string(), "s/c.rs".to_string()]
    );
    assert_eq!(searched(&mut fs, "/ws", Some("s/*.rs")), vec!["s/c.rs".to_string()]);
    assert_eq!(searched(&mut fs, "/ws", Some("**/*.txt")), Vec::<String>::new());
}

#[test]
fn searches_are_bounded() {
    let mut fs = MemFs::new(&[
        ("/ws/a", file("needle\nneedle\n")),
        ("/ws/b", file("needle needle needle needle")),
        ("/ws/c", file("needle")),
    ]);
    let mut run = |max_results, max_file, max_total| {
        let outcome = fs.search("/ws", "needle", None, max_results, max_file, max_total).unwrap();
        (
            outcome.matches.iter().map(|m| m.path.clone()).collect::<Vec<String>>().concat(),
            outcome.truncated,
        )
    };
    assert_eq!(run(10, 100, 100), ("aabc".to_string(), false));
    assert_eq!(run(3, 100, 100), ("aab".to_string(), true));
    assert_eq!(run(1, 100, 100), ("a".to_string(), true));
    assert_eq!(run(0, 100, 100), ("".to_string(), true));
    assert_eq!(run(10, 20, 100), ("aac".to_string(), false));
    assert_eq!(run(10, 100, 40), ("aa".to_string(), false));
    assert_eq!(run(10, 100, 41), ("aab".to_string(), false));
}

#[test]
fn unreadable_files_are_left_out_of_a_search() {
    let mut fs = MemFs::new(&[
        ("/ws/bad", Node::File(vec![b'n', 0xff, b'\n'])),
        ("/ws/good", file("needle")),
        ("/ws/pipe", Node::Special),
    ]);
    assert_eq!(searched(&mut fs, "/ws", None), vec!["good".to_string()]);
}

#[test]
fn bad_patterns_are_reported() {
    let mut fs = sources();
    let err = fs.search("/ws", "(", None, 1, 1, 1).unwrap_err();
    assert!(err.to_string().starts_with("Invalid regex: regex parse error"));
    let err = fs.search("/ws", "x", Some("("), 1, 1, 1).unwrap_err();
    assert!(err.to_string().starts_with("Invalid glob: regex parse error"));
    assert_eq!(SearchError::Walk("gone".to_string()).to_string(), "Cannot walk search root: gone");
}

// ---------------------------------------------------------------------------
// Paths
// ---------------------------------------------------------------------------

#[test]
fn paths_are_normalized_to_names() {
    let names = |input: &str, allow_root: bool| {
        normalize_relative_path(input, allow_root)
            .map(|names| names.into_iter().map(|n| n.text).collect::<Vec<String>>().join("|"))
            .map_err(|e| e.to_string())
    };
    assert_eq!(names("a/b", false), Ok("a|b".to_string()));
    assert_eq!(names("./a/./b/", false), Ok("a|b".to_string()));
    assert_eq!(names("a/../b", false), Ok("b".to_string()));
    assert_eq!(names("\u{3000}x y\n", false), Ok("x y".to_string()));
    assert_eq!(names("ab:cd/e", false), Ok("ab:cd|e".to_string()));
    assert_eq!(names("ab/c:d", false), Ok("ab|c:d".to_string()));
    assert_eq!(names(":", false), Ok(":".to_string()));
    assert_eq!(names("", true), Ok("".to_string()));
    assert_eq!(names("a/..", true), Ok("".to_string()));
    assert_eq!(names("a/..", false), Err("Invalid path: a/..".to_string()));
    assert_eq!(names("", false), Err("Invalid path: ".to_string()));
    assert_eq!(names("..", true), Err("Path escapes workspace: ..".to_string()));
    assert_eq!(names("a/../../b", true), Err("Path escapes workspace: a/../../b".to_string()));
    assert_eq!(names("/", true), Err("Invalid path: /".to_string()));
    let read = normalize_relative_path("\u{e9}", true).unwrap();
    assert_eq!(read[0].raw, vec![0xc3, 0xa9]);
}

#[test]
fn prefixes_are_invalid() {
    let prefixed = vec![PathPart::Prefix(name("C:")), PathPart::Normal(name("x"))];
    assert_eq!(
        normalize_parts("C:x", &prefixed, true).unwrap_err().to_string(),
        "Invalid path: C:x"
    );
}

#[test]
fn paths_are_shown_relative_to_the_root() {
    let root = parts("/ws");
    let inner = join_names(&root, &vec![name("a"), name("b c")]);
    assert_eq!(path_to_display(&root, &inner), "a/b c");
    assert_eq!(path_to_display(&root, &root), ".");
    assert_eq!(path_to_display(&root, &parts("/other/x")), "other/x");
    assert_eq!(full_path_text(&inner, '/'), "/ws/a/b c");
    assert_eq!(full_path_text(&inner, '\\'), "\\ws\\a\\b c");
    let drive = vec![PathPart::Prefix(name("C:")), PathPart::RootDir, PathPart::Normal(name("x"))];
    assert_eq!(full_path_text(&drive, '\\'), "C:\\x");
    assert!(lies_under(&inner, &root));
    assert!(!lies_under(&parts("/wsx"), &root));
    assert_eq!(parent(&parts("/ws")), Some(parts("/")));
    assert_eq!(parent(&parts("/")), None);
}

#[test]
fn shown_paths_lead_back() {
    let root = parts("/ws");
    for names in [
        vec!["a"],
        vec!["a", "b c", "d.e"],
        vec!["...", "x"],
        vec!["ab:cd", "e"],
        vec!["a", "b:c"],
    ] {
        let names: Vec<Name> = names.into_iter().map(name).collect();
        let shown = path_to_display(&root, &join_names(&root, &names));
        assert_eq!(normalize_relative_path(&shown, true).unwrap(), names);
        assert_eq!(normalize_relative_path(&shown, false).unwrap(), names);
    }
    let shown = path_to_display(&root, &root);
    assert_eq!(normalize_relative_path(&shown, true).unwrap(), Vec::new());
}

fn by_pieces(path: &str) -> Result<Vec<String>, String> {
    if path.starts_with('/') {
        return Err(format!("Invalid path: {path}"));
    }
    let mut names = Vec::new();
    for piece in path.split('/') {
        match piece {
            "" | "." => {}
            ".." => {
                if names.pop().is_none() {
                    return Err(format!("Path escapes workspace: {path}"));
                }
            }
            name => names.push(name.to_string()),
        }
    }
    Ok(names)
}

#[test]
fn plain_paths_are_read_piece_by_piece() {
    let mut paths = vec![String::new()];
    for _ in 0..7 {
        let mut longer = Vec::new();
        for path in &paths {
            for c in ['a', '.', '/', ':'] {
                longer.push(format!("{path}{c}"));
            }
        }
        for path in &longer {
            let read = normalize_relative_path(path, true)
                .map(|names| names.into_iter().map(|n| n.text).collect::<Vec<String>>())
                .map_err(|e| e.to_string());
            assert_eq!(read, by_pieces(path), "{path:?}");
        }
        paths = longer;
    }
}
