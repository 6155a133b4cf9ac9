# acp-sandbox

Parsers and workspace tools that can be pointed at untrusted input, written in
Verus: what each function returns is stated in its contract and proved. How a path
with a backslash in it, a colon in second place or two slashes at its start parts is
up to the platform; there the contracts say what holds of every way to read it.

- `skills` splits a skill file into its YAML frontmatter and its body, and makes
  sense of the frontmatter.
- `zip_reader` reads ZIP archives from memory. No field of an archive is trusted.
- `search` looks for lines that match a regular expression in the files below a
  directory.
- `toolbox` and `workspace` run typed, shell-like commands (`pwd`, `ls`, `cat`,
  `head`, `tail`, `wc`, `find`, `grep`, `mkdir`, `cp`, `mv`, `rm`) on a workspace.
  There is no shell text. A path that would lead out of the workspace, by its text
  or through a link, is refused.

## Layout

- `src/` is the library. It touches no file. A search or a command is a run that
  asks for one thing at a time (`fs::FsRequest`) and is resumed with the reply
  (`fs::FsReply`). Each module states its runs over sequences, as functions from a
  stage and a reply to the next step, and proves that the code takes these steps.
  The modules whose names end in `laws` hold what follows of whole runs: that the
  paths of every request keep to the workspace, that nothing is written through a
  link that leads out of it, that a command with a path that leads out changes
  nothing, that commands that read change nothing, that lists, searches and copies
  hold all that was told, that copies, removals and searches stay within their
  limits.
- `app/` is the program around it: newline-delimited JSON-RPC on stdin and stdout,
  the file system of the machine, and YAML.
- `tests/` runs the library, with a file system in memory.

## What is trusted

The library calls `miniz_oxide`, `regex` and a few functions of the standard
library through small wrappers. Each wrapper says in its doc comment what its
contract claims of the function it calls. That a file system tells the truth about
its paths is a premise of the law that requests keep to the workspace
(`workspace_laws::honest`), not of the code nor of the other laws on whole runs.

## Requests

```json
{"id": 7, "method": "runWorkspaceCommand",
 "params": {"guestRoot": "/workspace",
            "command": {"command": "head", "path": "src/main.rs",
                        "lines": 20, "maxBytes": 65536}}}
```

The answer is one line, `{"id": 7, "ok": ...}` or `{"id": 7, "err": "..."}`.
