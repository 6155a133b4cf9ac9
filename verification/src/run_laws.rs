//! What every run of a command asks for, and what it answers, step by step.

use vstd::prelude::*;
use vstd::utf8::encode_utf8;

use crate::errors::ToolFailure;
use crate::fs::{FileKind, FsError, FsReply, FsRequest, Step};
use crate::path_laws::{law_below, law_the_paths_of_callers, leads_from};
use crate::paths::{is_under, joined, parts, reads_plainly, resolved, shown, Part};
use crate::reading::ReadStage;
use crate::resolve::{named_path, Site};
use crate::text::decimal;
use crate::text_laws::{
    countable, feeds, is_core_of, law_counts, law_head, law_tail, line_total, smaller,
};
use crate::toolbox::{counted_text, Report, WorkspaceCommand};
use crate::workspace::{run_next, run_start, text_report, RunState, Stage, TextUse};
use crate::workspace_laws::{goes_on, is_course};

verus! {

// ---------------------------------------------------------------------------
// How a run starts
// ---------------------------------------------------------------------------

/// Whether a step asks for just this.
pub open spec fn asks_for(
    step: Step<Seq<Part>, RunState, Report, ToolFailure>,
    request: FsRequest<Seq<Part>>,
) -> bool {
    step matches Step::Ask(asked, _) && asked == request
}

/// Whether a step fails with just this.
pub open spec fn fails_with(
    step: Step<Seq<Part>, RunState, Report, ToolFailure>,
    failure: ToolFailure,
) -> bool {
    step == Step::<Seq<Part>, RunState, Report, ToolFailure>::Failed(failure)
}

/// Whether a step ends with just this.
pub open spec fn ends_with(
    step: Step<Seq<Part>, RunState, Report, ToolFailure>,
    report: Report,
) -> bool {
    step == Step::<Seq<Part>, RunState, Report, ToolFailure>::Done(report)
}

/// The path that the file system told in reply `i`.
pub open spec fn path_told(replies: Seq<FsReply>, i: int) -> Seq<Part> {
    parts(replies[i]->Path_0->Ok_0@)
}

/// What is reported where the file system refuses something.
pub open spec fn refusal(error: FsError) -> ToolFailure {
    ToolFailure::Io(error.message@)
}

/// The separator of the platform on which a run takes place.
pub open spec fn separator_of(
    steps: Seq<Step<Seq<Part>, RunState, Report, ToolFailure>>,
) -> char {
    steps[0]->Ask_1.site.separator
}

/// Whether `path` is where `input`, the path of a caller, leads below a root, on some
/// platform.
pub open spec fn is_named_by(
    path: Seq<Part>,
    root: Seq<Part>,
    separator: char,
    input: Seq<char>,
    allow_root: bool,
) -> bool {
    exists|reader: spec_fn(Seq<char>) -> Seq<Part>|
        reads_plainly(reader) && #[trigger] named_path(
            Site { root, separator },
            reader,
            input,
            allow_root,
        ) == Ok::<Seq<Part>, ToolFailure>(path)
}

/// Whether `input`, the path of a caller, is refused with this, on some platform.
pub open spec fn is_refused(
    failure: ToolFailure,
    root: Seq<Part>,
    separator: char,
    input: Seq<char>,
    allow_root: bool,
) -> bool {
    exists|reader: spec_fn(Seq<char>) -> Seq<Part>|
        reads_plainly(reader) && #[trigger] named_path(
            Site { root, separator },
            reader,
            input,
            allow_root,
        ) == Err::<Seq<Part>, ToolFailure>(failure)
}

/// Where the path that a command names has to exist: that path.
pub open spec fn input_of(command: WorkspaceCommand) -> Option<Seq<char>> {
    match command {
        WorkspaceCommand::Pwd => None,
        WorkspaceCommand::Ls { path, .. } => match path {
            Some(path) => Some(path@),
            None => Some(seq!['.']),
        },
        WorkspaceCommand::Cat { path, .. } => Some(path@),
        WorkspaceCommand::Head { path, .. } => Some(path@),
        WorkspaceCommand::Tail { path, .. } => Some(path@),
        WorkspaceCommand::Wc { path, .. } => Some(path@),
        WorkspaceCommand::Find { path, .. } => match path {
            Some(path) => Some(path@),
            None => Some(seq!['.']),
        },
        WorkspaceCommand::Grep { path, .. } => match path {
            Some(path) => Some(path@),
            None => Some(seq!['.']),
        },
        WorkspaceCommand::Mkdir { .. } => None,
        WorkspaceCommand::Cp { source, .. } => Some(source@),
        WorkspaceCommand::Mv { source, .. } => Some(source@),
        WorkspaceCommand::Rm { path, .. } => Some(path@),
    }
}

/// The path of a caller leads, without the white space around it, by its names below the
/// root, one after the other. The root itself is refused where it is not allowed.
pub proof fn law_where_a_path_leads(
    site: Site,
    reader: spec_fn(Seq<char>) -> Seq<Part>,
    input: Seq<char>,
    core: Seq<char>,
    allow_root: bool,
)
    requires
        is_core_of(core, input),
    ensures
        match resolved(input, reader(core), seq![]) {
            Err(e) => named_path(site, reader, input, allow_root) == Err::<Seq<Part>, ToolFailure>(
                e,
            ),
            Ok(names) => if names.len() == 0 && !allow_root {
                named_path(site, reader, input, allow_root) == Err::<Seq<Part>, ToolFailure>(
                    ToolFailure::InvalidPath(input),
                )
            } else {
                &&& named_path(site, reader, input, allow_root) matches Ok(path)
                &&& path.len() == site.root.len() + names.len()
                &&& path.take(site.root.len() as int) == site.root
                &&& forall|i: int|
                    0 <= i < names.len() ==> path[site.root.len() + i] == Part::Normal(
                        #[trigger] names[i],
                    )
            },
        },
{
    law_the_paths_of_callers(reader, input, core, allow_root);
    match resolved(input, reader(core), seq![]) {
        Ok(names) => {
            if names.len() == 0 {
                assert(names =~= Seq::empty());
            }
            let path = joined(site.root, names);
            assert(path.take(site.root.len() as int) =~= site.root);
        },
        Err(_) => {},
    }
}

proof fn lemma_dot()
    ensures
        "."@ == seq!['.'],
{
    reveal_strlit(".");
    assert("."@ =~= seq!['.']);
}

pub(crate) proof fn lemma_step(
    command: WorkspaceCommand,
    steps: Seq<Step<Seq<Part>, RunState, Report, ToolFailure>>,
    replies: Seq<FsReply>,
    n: int,
) -> (reader: spec_fn(Seq<char>) -> Seq<Part>)
    requires
        is_course(command, steps, replies),
        0 <= n < replies.len(),
    ensures
        steps[n] is Ask,
        replies[n].kind_of() == steps[n]->Ask_0.answered_by(),
        reads_plainly(reader),
        steps[n + 1] == run_next(reader, steps[n]->Ask_1, replies[n]),
{
    assert(goes_on(steps[n], replies[n], steps[n + 1]));
    let state = steps[n]->Ask_1;
    choose|reader: spec_fn(Seq<char>) -> Seq<Part>|
        reads_plainly(reader) && steps[n + 1] == #[trigger] run_next(reader, state, replies[n])
}

/// Every run asks first where its root is and then what is there. Where that is no
/// directory it fails. Then it asks where the path is that has to exist, if there
/// is one.
pub proof fn law_how_a_run_starts(
    root: Seq<Part>,
    text: Seq<char>,
    separator: char,
    command: WorkspaceCommand,
    steps: Seq<Step<Seq<Part>, RunState, Report, ToolFailure>>,
    replies: Seq<FsReply>,
)
    requires
        is_course(command, steps, replies),
        steps[0] == run_start(root, text, separator, command),
    ensures
        asks_for(steps[0], FsRequest::Canonicalize(root)),
        replies.len() > 0 ==> match replies[0] {
            FsReply::Path(Ok(path)) => asks_for(steps[1], FsRequest::Stat(parts(path@))),
            FsReply::Path(Err(error)) => fails_with(steps[1], refusal(error)),
            _ => false,
        },
        replies.len() > 1 ==> match replies[1] {
            FsReply::Status(Ok(stat)) => stat.kind != FileKind::Directory ==> fails_with(
                steps[2],
                ToolFailure::NotADirectory(text),
            ),
            FsReply::Status(Err(_)) => fails_with(steps[2], ToolFailure::NotADirectory(text)),
            _ => false,
        },
        replies.len() > 1 && steps[2] is Ask && input_of(command) is Some ==> {
            let request = steps[2]->Ask_0;
            request is Canonicalize && is_named_by(
                request->Canonicalize_0,
                path_told(replies, 0),
                separator,
                input_of(command)->0,
                true,
            )
        },
        replies.len() > 1 && (replies[1] matches FsReply::Status(Ok(stat)) && stat.kind
            == FileKind::Directory) && input_of(command) is Some && !(steps[2] is Ask) ==> (
        steps[2] matches Step::Failed(failure) && is_refused(
            failure,
            path_told(replies, 0),
            separator,
            input_of(command)->0,
            true,
        )),
        replies.len() > 1 && (replies[1] matches FsReply::Status(Ok(stat)) && stat.kind
            == FileKind::Directory) && command is Pwd ==> ends_with(
            steps[2],
            Report::Pwd { path: seq!['.'] },
        ),
{
    if replies.len() > 0 {
        let _ = lemma_step(command, steps, replies, 0);
        if replies.len() > 1 {
            let reader = lemma_step(command, steps, replies, 1);
            lemma_dot();
            match input_of(command) {
                Some(input) => {
                    let site = Site { root: path_told(replies, 0), separator };
                    let named = named_path(site, reader, input, true);
                },
                None => {
                    let there = path_told(replies, 0);
                    assert(there.skip(there.len() as int) =~= Seq::empty());
                    lemma_shown_root(there);
                },
            }
        }
    }
}

proof fn lemma_shown_root(root: Seq<Part>)
    ensures
        shown(root, root) == seq!['.'],
{
    lemma_dot();
    law_below(root, root);
    assert(root.skip(root.len() as int) =~= Seq::empty());
}

/// Whether the file system told, in reply 2, that the path which has to exist is in the
/// workspace.
pub open spec fn is_there(replies: Seq<FsReply>) -> bool {
    &&& replies.len() > 2
    &&& replies[2] matches FsReply::Path(Ok(path)) && leads_from(
        parts(path@),
        path_told(replies, 0),
    )
}

pub(crate) proof fn lemma_is_there(replies: Seq<FsReply>)
    ensures
        is_there(replies) <==> {
            &&& replies.len() > 2
            &&& replies[2] matches FsReply::Path(Ok(path)) && is_under(
                parts(path@),
                path_told(replies, 0),
            )
        },
{
    if replies.len() > 2 {
        law_below(path_told(replies, 2), path_told(replies, 0));
    }
}

/// A path that has to exist and does not is not found. One that leads out of the
/// workspace, by whatever link, is refused.
pub proof fn law_what_has_to_exist(
    command: WorkspaceCommand,
    steps: Seq<Step<Seq<Part>, RunState, Report, ToolFailure>>,
    replies: Seq<FsReply>,
)
    requires
        is_course(command, steps, replies),
        replies.len() > 2,
        input_of(command) is Some,
    ensures
        match replies[2] {
            FsReply::Path(Ok(path)) => !leads_from(parts(path@), path_told(replies, 0))
                ==> fails_with(
                steps[3],
                ToolFailure::PathEscapesWorkspace(input_of(command)->0),
            ),
            FsReply::Path(Err(error)) => fails_with(
                steps[3],
                if error.not_found {
                    ToolFailure::NotFound(input_of(command)->0)
                } else {
                    refusal(error)
                },
            ),
            _ => false,
        },
{
    let _ = lemma_step(command, steps, replies, 0);
    let _ = lemma_step(command, steps, replies, 1);
    let _ = lemma_step(command, steps, replies, 2);
    lemma_dot();
    lemma_is_there(replies);
}

proof fn lemma_first_steps(
    command: WorkspaceCommand,
    steps: Seq<Step<Seq<Part>, RunState, Report, ToolFailure>>,
    replies: Seq<FsReply>,
    n: int,
)
    requires
        is_course(command, steps, replies),
        input_of(command) is Some,
        0 <= n < steps.len(),
        n < 3,
    ensures
        !(steps[n] is Done),
{
    if n > 0 {
        let _ = lemma_step(command, steps, replies, 0);
    }
    if n > 1 {
        let _ = lemma_step(command, steps, replies, 1);
    }
}

/// A run that gets beyond its third reply, or ends well, found what has to exist.
pub(crate) proof fn lemma_found_it(
    command: WorkspaceCommand,
    steps: Seq<Step<Seq<Part>, RunState, Report, ToolFailure>>,
    replies: Seq<FsReply>,
    n: int,
)
    requires
        is_course(command, steps, replies),
        input_of(command) is Some,
        0 <= n < steps.len(),
        steps[n] is Done || n > 3 || (n == 3 && steps[3] is Ask),
    ensures
        n >= 3,
        is_there(replies),
{
    if n < 3 {
        lemma_first_steps(command, steps, replies, n);
    } else {
        law_what_has_to_exist(command, steps, replies);
        if n > 3 {
            let _ = lemma_step(command, steps, replies, 3);
        }
    }
}

// ---------------------------------------------------------------------------
// Reading a file
// ---------------------------------------------------------------------------

/// Whether a command reads the text of a file.
pub open spec fn reads_text(command: WorkspaceCommand) -> bool {
    command is Cat || command is Head || command is Tail || command is Wc
}

/// How many bytes such a command may read: as many as the caller says, or 1 MiB.
pub open spec fn read_limit(command: WorkspaceCommand) -> u64 {
    let said = match command {
        WorkspaceCommand::Cat { max_bytes, .. } => max_bytes,
        WorkspaceCommand::Head { max_bytes, .. } => max_bytes,
        WorkspaceCommand::Tail { max_bytes, .. } => max_bytes,
        WorkspaceCommand::Wc { max_bytes, .. } => max_bytes,
        _ => None,
    };
    match said {
        Some(limit) => limit,
        None => 1048576,
    }
}

/// Whether `report` is what a command that reads a text answers: the text itself, its
/// first or its last lines, as many as were asked for, or how much there is of it.
pub open spec fn reads_out(command: WorkspaceCommand, text: Seq<char>, report: Report) -> bool {
    match command {
        WorkspaceCommand::Cat { .. } => report == (Report::Cat { content: text }),
        WorkspaceCommand::Head { lines, .. } => report matches Report::Head { content } && {
            &&& exists|rest: Seq<char>|
                text == #[trigger] (content + rest) && (rest.len() > 0 && content.len() > 0
                    ==> content.last() == '\n')
            &&& line_total(content) == smaller(lines as int, line_total(text) as int)
        },
        WorkspaceCommand::Tail { lines, .. } => report matches Report::Tail { content } && {
            &&& exists|rest: Seq<char>|
                text == #[trigger] (rest + content) && (rest.len() > 0 && content.len() > 0
                    ==> rest.last() == '\n')
            &&& line_total(content) == smaller(lines as int, line_total(text) as int)
        },
        WorkspaceCommand::Wc { .. } => report matches Report::Wc { counts } && {
            &&& counts == counted_text(text)
            &&& countable(text) ==> counts.bytes == encode_utf8(text).len() && counts.chars
                == text.len() && counts.lines == feeds(text)
        },
        _ => false,
    }
}

proof fn lemma_reading_starts(
    command: WorkspaceCommand,
    steps: Seq<Step<Seq<Part>, RunState, Report, ToolFailure>>,
    replies: Seq<FsReply>,
) -> (purpose: TextUse)
    requires
        is_course(command, steps, replies),
        reads_text(command),
        is_there(replies),
    ensures
        steps[3] == Step::<Seq<Part>, RunState, Report, ToolFailure>::Ask(
            FsRequest::Stat(path_told(replies, 2)),
            RunState {
                site: Site { root: path_told(replies, 0), separator: separator_of(steps) },
                stage: Stage::Read {
                    purpose,
                    max_bytes: read_limit(command),
                    stage: ReadStage::Kind {
                        input: input_of(command)->0,
                        target: path_told(replies, 2),
                    },
                },
            },
        ),
        purpose == match command {
            WorkspaceCommand::Cat { .. } => TextUse::Whole,
            WorkspaceCommand::Head { lines, .. } => TextUse::Head(lines),
            WorkspaceCommand::Tail { lines, .. } => TextUse::Tail(lines),
            _ => TextUse::Count,
        },
{
    lemma_is_there(replies);
    let _ = lemma_step(command, steps, replies, 0);
    let _ = lemma_step(command, steps, replies, 1);
    let _ = lemma_step(command, steps, replies, 2);
    match command {
        WorkspaceCommand::Cat { .. } => TextUse::Whole,
        WorkspaceCommand::Head { lines, .. } => TextUse::Head(lines),
        WorkspaceCommand::Tail { lines, .. } => TextUse::Tail(lines),
        _ => TextUse::Count,
    }
}

proof fn lemma_reads_out(command: WorkspaceCommand, purpose: TextUse, text: Seq<char>)
    requires
        reads_text(command),
        purpose == match command {
            WorkspaceCommand::Cat { .. } => TextUse::Whole,
            WorkspaceCommand::Head { lines, .. } => TextUse::Head(lines),
            WorkspaceCommand::Tail { lines, .. } => TextUse::Tail(lines),
            _ => TextUse::Count,
        },
    ensures
        reads_out(command, text, text_report(purpose, text)),
{
    match command {
        WorkspaceCommand::Head { lines, .. } => {
            law_head(text, lines as int);
        },
        WorkspaceCommand::Tail { lines, .. } => {
            law_tail(text, lines as int);
        },
        _ => {
            if countable(text) {
                law_counts(text);
            }
        },
    }
}

/// A command that reads a file asks, once the path is known to be in the workspace, what
/// is there, then for the text of it, and answers with just the text that it is told.
/// What is no file is refused, and so is one that is too large.
pub proof fn law_reading_a_file(
    command: WorkspaceCommand,
    steps: Seq<Step<Seq<Part>, RunState, Report, ToolFailure>>,
    replies: Seq<FsReply>,
)
    requires
        is_course(command, steps, replies),
        reads_text(command),
        is_there(replies),
    ensures
        asks_for(steps[3], FsRequest::Stat(path_told(replies, 2))),
        replies.len() > 3 ==> match replies[3] {
            FsReply::Status(Ok(stat)) => if stat.kind != FileKind::File {
                fails_with(steps[4], ToolFailure::NotAFile(input_of(command)->0))
            } else if stat.len > read_limit(command) {
                fails_with(
                    steps[4],
                    ToolFailure::TooLarge(
                        input_of(command)->0 + " is "@ + decimal(stat.len as nat)
                            + " bytes and exceeds the "@ + decimal(read_limit(command) as nat)
                            + "-byte limit"@,
                    ),
                )
            } else {
                asks_for(steps[4], FsRequest::ReadText(path_told(replies, 2)))
            },
            FsReply::Status(Err(_)) => fails_with(
                steps[4],
                ToolFailure::NotAFile(input_of(command)->0),
            ),
            _ => false,
        },
        replies.len() > 4 ==> match replies[4] {
            FsReply::Text(Ok(text)) => steps[5] matches Step::Done(report) && reads_out(
                command,
                text@,
                report,
            ),
            FsReply::Text(Err(error)) => fails_with(steps[5], refusal(error)),
            _ => false,
        },
        replies.len() <= 5,
{
    let purpose = lemma_reading_starts(command, steps, replies);
    if replies.len() > 3 {
        let _ = lemma_step(command, steps, replies, 3);
    }
    if replies.len() > 4 {
        let _ = lemma_step(command, steps, replies, 4);
        match replies[4] {
            FsReply::Text(Ok(text)) => {
                lemma_reads_out(command, purpose, text@);
            },
            _ => {},
        }
    }
    if replies.len() > 5 {
        let _ = lemma_step(command, steps, replies, 5);
    }
}

/// In every run of a command that reads a file and ends well, the text that is answered
/// with is the one that the file system told in reply to the request for it: as it
/// is for `Cat`.
pub proof fn law_what_is_read_is_what_was_told(
    command: WorkspaceCommand,
    steps: Seq<Step<Seq<Part>, RunState, Report, ToolFailure>>,
    replies: Seq<FsReply>,
    n: int,
)
    requires
        is_course(command, steps, replies),
        reads_text(command),
        0 <= n < steps.len(),
        steps[n] is Done,
    ensures
        n == 5,
        steps[4] is Ask && steps[4]->Ask_0 is ReadText,
        replies[4] matches FsReply::Text(Ok(text)) && reads_out(
            command,
            text@,
            steps[n]->Done_0,
        ),
        command is Cat ==> steps[n]->Done_0 == (Report::Cat {
            content: replies[4]->Text_0->Ok_0@,
        }),
{
    if n > 0 {
        let _ = lemma_step(command, steps, replies, 0);
    }
    if n > 1 {
        let _ = lemma_step(command, steps, replies, 1);
    }
    if n > 2 {
        let _ = lemma_step(command, steps, replies, 2);
        law_what_has_to_exist(command, steps, replies);
        lemma_is_there(replies);
        if n > 3 {
            let _ = lemma_step(command, steps, replies, 3);
        }
        law_reading_a_file(command, steps, replies);
    }
}

} // verus!
