//! The `bash` tool: run a command.

use vstd::prelude::*;

use crate::json::{as_u64, empty_object_value, get, with_entry, Json};
use crate::text::{
    chars_of, i32_text, str_len, str_lines, str_trim_end, string_of, truncate_str,
    truncate_str_end, usize_text,
};
use crate::tools::write::get_text;
use crate::tools::{object_value, property_value, ToolOutput, ToolOutputView};
use crate::types::Tool;

verus! {

/// What a call asks for.
#[derive(Debug, PartialEq)]
pub struct BashRequest {
    pub command: String,
    pub timeout_secs: u64,
}

/// Whether this describes the tool.
pub open spec fn is_tool(t: crate::types::ToolView) -> bool {
    &&& t.name == "bash"@
    &&& t.description
        == "Execute a bash command and return its output. Use for running shell commands, scripts, build tools, git operations, etc."@
    &&& t.parameters.value == crate::tools::object_schema(
        map![
            "command"@ => crate::tools::property("string"@, "The bash command to execute"@),
            "timeout"@ => crate::tools::property(
                "integer"@,
                "Timeout in seconds (default: 120)"@,
            ),
        ],
        seq!["command"@],
    )
}

/// The description of the tool.
pub fn tool() -> (r: Tool)
    ensures
        is_tool(r@),
{
    let p = with_entry(
        empty_object_value(),
        "command".to_owned(),
        property_value("string", "The bash command to execute"),
    );
    let p = with_entry(
        p,
        "timeout".to_owned(),
        property_value("integer", "Timeout in seconds (default: 120)"),
    );
    let required: Vec<String> = vec!["command".to_owned()];
    assert(required.deep_view() =~= seq!["command"@]);
    Tool {
        name: "bash".to_owned(),
        description: "Execute a bash command and return its output. Use for running shell commands, scripts, build tools, git operations, etc.".to_owned(),
        parameters: object_value(p, &required),
    }
}

/// A number argument.
pub open spec fn number_argument(args: Json, key: Seq<char>) -> Option<u64> {
    match crate::json::field(args, key) {
        Some(v) => crate::json::as_number(v),
        None => None,
    }
}

/// A number argument.
pub(crate) fn get_number(args: &serde_json::Value, key: &str) -> (r: Option<u64>)
    ensures
        r == number_argument(crate::json::json_of(*args), key@),
{
    match get(args, key) {
        Some(v) => as_u64(v),
        None => None,
    }
}

/// What a call asks for, or why it cannot be done. A command may take 120 seconds unless told
/// otherwise.
pub fn parse(args: &serde_json::Value) -> (r: core::result::Result<BashRequest, ToolOutput>)
    ensures
        ({
            let json = crate::json::json_of(*args);
            let command = crate::tools::write::text_argument(json, "command"@);
            match r {
                Ok(b) => command == Some(b.command@) && b.timeout_secs == (match number_argument(
                    json,
                    "timeout"@,
                ) {
                    Some(n) => n,
                    None => 120,
                }),
                Err(o) => command is None && o@ == crate::tools::text_output(
                    "missing 'command' argument"@,
                    true,
                ),
            }
        }),
{
    let command = match get_text(args, "command") {
        Some(c) => c,
        None => {
            return Err(ToolOutput::error("missing 'command' argument"));
        },
    };
    let timeout_secs: u64 = match get_number(args, "timeout") {
        Some(n) => n,
        None => 120,
    };
    Ok(BashRequest { command, timeout_secs })
}

// ---------------------------------------------------------------------------
// Working directory
// ---------------------------------------------------------------------------

/// What the file system says of the working directory.
#[derive(Debug, PartialEq)]
pub enum CwdState {
    Directory,
    NotADirectory,
    Missing,
    /// It cannot be looked at; the text says why.
    Inaccessible(String),
}

/// Why a working directory cannot be used.
pub open spec fn cwd_problem(cwd: Seq<char>, state: CwdState) -> Option<Seq<char>> {
    match state {
        CwdState::Directory => None,
        CwdState::NotADirectory => Some(
            "session cwd is not a directory: "@ + cwd
                + " (use /cd <path> to switch to a valid directory)"@,
        ),
        CwdState::Missing => Some(
            "session cwd no longer exists: "@ + cwd
                + " (was the worktree removed? use /cd <path> to switch to a valid directory)"@,
        ),
        CwdState::Inaccessible(e) => Some("cannot access session cwd "@ + cwd + ": "@ + e@),
    }
}

/// Why a working directory cannot be used, if it cannot.
pub fn check_cwd(cwd: &str, state: &CwdState) -> (r: Option<String>)
    ensures
        r.deep_view() == cwd_problem(cwd@, *state),
{
    match state {
        CwdState::Directory => None,
        CwdState::NotADirectory => {
            let mut out: String = "session cwd is not a directory: ".to_owned();
            out.append(cwd);
            out.append(" (use /cd <path> to switch to a valid directory)");
            Some(out)
        },
        CwdState::Missing => {
            let mut out: String = "session cwd no longer exists: ".to_owned();
            out.append(cwd);
            out.append(
                " (was the worktree removed? use /cd <path> to switch to a valid directory)",
            );
            Some(out)
        },
        CwdState::Inaccessible(e) => {
            let mut out: String = "cannot access session cwd ".to_owned();
            out.append(cwd);
            out.append(": ");
            out.append(e.as_str());
            Some(out)
        },
    }
}

/// What stands in the way of running a command: a bad working directory, then a cancelled run.
pub fn precheck(cwd: &str, state: &CwdState, cancelled: bool) -> (r: Option<ToolOutput>)
    ensures
        r.deep_view() == (match cwd_problem(cwd@, *state) {
            Some(e) => Some(crate::tools::text_output(e, true)),
            None => if cancelled {
                Some(crate::tools::text_output("error: cancelled before execution"@, true))
            } else {
                None
            },
        }),
{
    match check_cwd(cwd, state) {
        Some(e) => Some(ToolOutput::error(e.as_str())),
        None => if cancelled {
            Some(ToolOutput::error("error: cancelled before execution"))
        } else {
            None
        },
    }
}

// ---------------------------------------------------------------------------
// Waiting
// ---------------------------------------------------------------------------

/// What to do with a running command.
#[derive(Debug, Clone, Copy, PartialEq, Eq, Structural)]
pub enum WaitAction {
    KillCancelled,
    KillTimedOut,
    /// It has ended, or can no longer be watched.
    Collect,
    Sleep,
}

/// What to do with a running command: cancellation comes before the timeout, both before its end.
pub fn wait_action(cancelled: bool, elapsed_out: bool, running: bool) -> (r: WaitAction)
    ensures
        r == (if cancelled {
            WaitAction::KillCancelled
        } else if elapsed_out {
            WaitAction::KillTimedOut
        } else if running {
            WaitAction::Sleep
        } else {
            WaitAction::Collect
        }),
{
    if cancelled {
        WaitAction::KillCancelled
    } else if elapsed_out {
        WaitAction::KillTimedOut
    } else if running {
        WaitAction::Sleep
    } else {
        WaitAction::Collect
    }
}

// ---------------------------------------------------------------------------
// Output
// ---------------------------------------------------------------------------

/// A text on a line of its own after another one.
pub open spec fn on_new_line(text: Seq<char>, more: Seq<char>) -> Seq<char> {
    if text.len() > 0 {
        text.push('\n') + more
    } else {
        text + more
    }
}

/// Both outputs of a command.
pub open spec fn combined(stdout: Seq<char>, stderr: Seq<char>) -> Seq<char> {
    if stderr.len() > 0 {
        on_new_line(stdout, "STDERR:\n"@ + stderr)
    } else {
        stdout
    }
}

/// Whether characters end at 50 000 bytes from both ends of a text that is cut there.
pub open spec fn cuts_cleanly(text: Seq<char>) -> bool {
    crate::text::byte_len(text) > 100_000 ==> crate::text::byte_len(
        crate::text::longest_prefix(text, 50_000),
    ) == 50_000 && crate::text::byte_len(crate::text::longest_suffix(text, 50_000)) == 50_000
}

/// A text of more than 100 000 bytes without its middle.
pub open spec fn clipped(text: Seq<char>) -> Seq<char> {
    if crate::text::byte_len(text) > 100_000 {
        crate::text::longest_prefix(text, 50_000) + "\n\n... [truncated "@ + crate::text::decimal(
            (crate::text::byte_len(text) - 100_000) as nat,
        ) + " bytes] ...\n\n"@ + crate::text::longest_suffix(text, 50_000)
    } else {
        text
    }
}

/// What is shown of a finished command.
pub open spec fn shown(
    text: Seq<char>,
    exit_code: i32,
    timed_out: bool,
    cancelled: bool,
) -> Seq<char> {
    let code = "(exit code: "@ + crate::text::signed_decimal(exit_code as int) + ")"@;
    crate::text::trim_end(
        if cancelled {
            on_new_line(text, "(cancelled)"@)
        } else if timed_out {
            on_new_line(text, "(timed out)"@)
        } else if text.len() == 0 {
            code
        } else if exit_code != 0 {
            text + "\n"@ + code
        } else {
            text
        },
    )
}

/// The start of a command, at most 60 characters.
pub open spec fn preview(command: Seq<char>) -> Seq<char> {
    if command.len() > 60 {
        command.subrange(0, 57) + "..."@
    } else {
        command
    }
}

/// The summary of an output of more than 20 lines.
pub open spec fn summary_of(text: Seq<char>, command: Seq<char>, exit_code: i32) -> Option<
    Seq<char>,
> {
    let lines = crate::text::lines(text).len();
    if lines > 20 {
        let head = "bash: $ "@ + preview(command) + " → "@ + crate::text::decimal(lines)
            + " lines"@;
        Some(
            if exit_code != 0 {
                head + ", exit "@ + crate::text::signed_decimal(exit_code as int)
            } else {
                head
            },
        )
    } else {
        None
    }
}

/// The answer for a finished command.
pub open spec fn formatted(
    stdout: Seq<char>,
    stderr: Seq<char>,
    exit_code: i32,
    timed_out: bool,
    cancelled: bool,
    command: Seq<char>,
) -> ToolOutputView {
    let text = shown(clipped(combined(stdout, stderr)), exit_code, timed_out, cancelled);
    ToolOutputView {
        summary: summary_of(text, command, exit_code),
        ..crate::tools::text_output(text, cancelled || timed_out || exit_code != 0)
    }
}

/// Append a text on a line of its own.
fn append_line(text: &mut String, more: &str)
    ensures
        final(text)@ == on_new_line(old(text)@, more@),
{
    if !text.as_str().is_empty() {
        text.push('\n');
    }
    text.append(more);
}

/// Both outputs of a command.
pub fn combine_output(stdout: String, stderr: &str) -> (r: String)
    ensures
        r@ == combined(stdout@, stderr@),
{
    let mut text = stdout;
    let ghost before = text@;
    if !stderr.is_empty() {
        append_line(&mut text, "STDERR:\n");
        text.append(stderr);
        assert(text@ =~= on_new_line(before, "STDERR:\n"@ + stderr@));
    }
    text
}

/// A text of more than 100 000 bytes without its middle.
fn clip(text: String) -> (r: String)
    requires
        cuts_cleanly(text@),
    ensures
        r@ == clipped(text@),
{
    let len: usize = str_len(text.as_str());
    if len <= 100_000 {
        return text;
    }
    let mut out: String = truncate_str(text.as_str(), 50_000).to_owned();
    out.append("\n\n... [truncated ");
    out.append(usize_text(len - 100_000).as_str());
    out.append(" bytes] ...\n\n");
    out.append(truncate_str_end(text.as_str(), 50_000));
    out
}

/// The start of a command, at most 60 characters.
fn command_preview(command: &str) -> (r: String)
    ensures
        r@ == preview(command@),
{
    let v = chars_of(command);
    if v.len() > 60 {
        let mut out: String = string_of(&v, 0, 57);
        out.append("...");
        out
    } else {
        command.to_owned()
    }
}

/// The summary of an output of more than 20 lines.
fn make_summary(text: &str, command: &str, exit_code: i32) -> (r: Option<String>)
    ensures
        r.deep_view() == summary_of(text@, command@, exit_code),
{
    let lines = str_lines(text);
    assert(lines.deep_view().len() == lines.len());
    if lines.len() <= 20 {
        return None;
    }
    let mut out: String = "bash: $ ".to_owned();
    out.append(command_preview(command).as_str());
    out.append(" → ");
    out.append(usize_text(lines.len()).as_str());
    out.append(" lines");
    if exit_code != 0 {
        out.append(", exit ");
        out.append(i32_text(exit_code).as_str());
    }
    Some(out)
}

/// The answer for a finished command: its output, what ended it, and, for a long output, a
/// summary.
pub fn format_output(
    stdout: String,
    stderr: &str,
    exit_code: i32,
    timed_out: bool,
    cancelled: bool,
    command: &str,
) -> (r: ToolOutput)
    requires
        cuts_cleanly(combined(stdout@, stderr@)),
    ensures
        r@ == formatted(stdout@, stderr@, exit_code, timed_out, cancelled, command@),
{
    let mut text = clip(combine_output(stdout, stderr));
    let ghost body = text@;
    let success = exit_code == 0;
    if cancelled {
        append_line(&mut text, "(cancelled)");
    } else if timed_out {
        append_line(&mut text, "(timed out)");
    } else if text.as_str().is_empty() {
        text = "(exit code: ".to_owned();
        text.append(i32_text(exit_code).as_str());
        text.append(")");
    } else if !success {
        text.append("\n");
        text.append("(exit code: ");
        text.append(i32_text(exit_code).as_str());
        text.append(")");
        assert(text@ =~= body + "\n"@ + ("(exit code: "@ + crate::text::signed_decimal(
            exit_code as int,
        ) + ")"@));
    }
    let text = str_trim_end(text.as_str());
    let summary = make_summary(text.as_str(), command, exit_code);
    let out = if !cancelled && !timed_out && success {
        ToolOutput::text(text.as_str())
    } else {
        ToolOutput::error(text.as_str())
    };
    ToolOutput { content: out.content, is_error: out.is_error, summary }
}

/// The answer to a command that could not be started.
pub fn spawn_failure(error: &str) -> (r: ToolOutput)
    ensures
        r@ == crate::tools::text_output("failed to execute command: "@ + error@, true),
{
    let mut out: String = "failed to execute command: ".to_owned();
    out.append(error);
    ToolOutput::error(out.as_str())
}

/// The answer to a command whose end could not be seen.
pub fn wait_failure(error: &str) -> (r: ToolOutput)
    ensures
        r@ == crate::tools::text_output("failed to wait for command: "@ + error@, true),
{
    let mut out: String = "failed to wait for command: ".to_owned();
    out.append(error);
    ToolOutput::error(out.as_str())
}

/// A command that ran to its end is an error exactly when it was cancelled, timed out or exited
/// with a code other than 0.
pub proof fn law_error_iff_not_clean(
    stdout: Seq<char>,
    stderr: Seq<char>,
    exit_code: i32,
    timed_out: bool,
    cancelled: bool,
    command: Seq<char>,
)
    ensures
        formatted(stdout, stderr, exit_code, timed_out, cancelled, command).is_error <==> (
        cancelled || timed_out || exit_code != 0),
{
}

/// Whether a piece of output stands in an answer from `at` on. What the answer is too short for is
/// whitespace at the end of the piece.
pub open spec fn shown_at(answer: Seq<char>, piece: Seq<char>, at: int) -> bool {
    forall|i: int|
        0 <= i < piece.len() ==> if at + i < answer.len() {
            answer[at + i] == #[trigger] piece[i]
        } else {
            crate::text::is_ws(piece[i])
        }
}

proof fn lemma_shown(text: Seq<char>, piece: Seq<char>, at: int)
    requires
        0 <= at,
        at + piece.len() <= text.len(),
        text.subrange(at, at + piece.len()) == piece,
    ensures
        shown_at(crate::text::trim_end(text), piece, at),
{
    let r = crate::text::trim_end(text);
    crate::text::law_trim_end(text);
    assert forall|i: int| 0 <= i < piece.len() implies if at + i < r.len() {
        r[at + i] == #[trigger] piece[i]
    } else {
        crate::text::is_ws(piece[i])
    } by {
        assert(text.subrange(at, at + piece.len())[i] == text[at + i]);
    }
}

proof fn lemma_ending(head: Seq<char>, tail: Seq<char>)
    requires
        tail.len() > 0,
        !crate::text::is_ws(tail.last()),
    ensures
        crate::text::trim_end(head + tail) == head + tail,
        crate::text::ends_with(head + tail, tail),
{
    let all = head + tail;
    assert(all[all.len() - 1] == tail.last());
    assert(all.subrange(all.len() - tail.len(), all.len() as int) =~= tail);
}

/// Whatever became of the command, the answer starts with what it wrote to its standard output, and
/// what it wrote to its standard error follows on a line of its own behind `STDERR:`; only
/// whitespace at the end may be missing. A command that was cancelled, timed out or failed is said
/// to have been, on one line behind that, and so is the exit code of one that wrote nothing. Nothing
/// else is in the answer. This is of output that is not too long to be shown whole.
pub proof fn law_answer_shows_the_output(
    stdout: Seq<char>,
    stderr: Seq<char>,
    exit_code: i32,
    timed_out: bool,
    cancelled: bool,
    command: Seq<char>,
)
    requires
        stderr.len() == 0 ==> crate::text::byte_len(stdout) <= 100_000,
        stderr.len() > 0 ==> crate::text::byte_len(stdout) + (if stdout.len() > 0 {
            1nat
        } else {
            0nat
        }) + 8 + crate::text::byte_len(stderr) <= 100_000,
    ensures
        ({
            let answer = formatted(stdout, stderr, exit_code, timed_out, cancelled, command);
            let text = answer.content[0]->Text_0.text;
            let second = if stdout.len() > 0 {
                stdout.len() as int + 1
            } else {
                0
            };
            let written = if stderr.len() > 0 {
                second + 8 + stderr.len()
            } else {
                stdout.len() as int
            };
            let gap = if written > 0 {
                1int
            } else {
                0int
            };
            let code = "(exit code: "@ + crate::text::signed_decimal(exit_code as int) + ")"@;
            &&& answer.content.len() == 1
            &&& answer.content[0] is Text
            &&& shown_at(text, stdout, 0)
            &&& stderr.len() > 0 ==> shown_at(text, "STDERR:\n"@, second) && shown_at(
                text,
                stderr,
                second + 8,
            )
            &&& cancelled ==> crate::text::ends_with(text, "(cancelled)"@) && text.len() == written
                + gap + 11
            &&& !cancelled && timed_out ==> crate::text::ends_with(text, "(timed out)"@)
                && text.len() == written + gap + 11
            &&& !cancelled && !timed_out && (exit_code != 0 || written == 0)
                ==> crate::text::ends_with(text, code) && text.len() == written + gap + code.len()
            &&& !cancelled && !timed_out && exit_code == 0 && written > 0 ==> text.len() <= written
            &&& text.len() > 0 ==> !crate::text::is_ws(text.last())
        }),
{
    reveal_strlit("STDERR:\n");
    reveal_strlit("(cancelled)");
    reveal_strlit("(timed out)");
    reveal_strlit("(exit code: ");
    reveal_strlit(")");
    reveal_strlit("\n");
    let marker = "STDERR:\n"@;
    let code = "(exit code: "@ + crate::text::signed_decimal(exit_code as int) + ")"@;
    let second = if stdout.len() > 0 {
        stdout.len() as int + 1
    } else {
        0
    };
    let head = if stdout.len() > 0 {
        stdout.push('\n')
    } else {
        stdout
    };
    let out = combined(stdout, stderr);
    crate::text::law_byte_len(stdout, seq!['\n']);
    crate::text::law_byte_len(head, marker);
    crate::text::law_byte_len(head + marker, stderr);
    assert(stdout.push('\n') =~= stdout + seq!['\n']);
    assert(crate::text::byte_len(seq!['\n']) == 1) by {
        assert(seq!['\n'].subrange(1, 1) =~= Seq::empty());
        assert(crate::text::byte_len(seq!['\n'].subrange(1, 1)) == 0);
    }
    assert(crate::text::byte_len(marker) == 8) by {
        lemma_ascii(marker);
    }
    if stderr.len() > 0 {
        assert(out =~= head + marker + stderr);
    }
    assert(crate::text::byte_len(out) <= 100_000);
    assert(clipped(out) == out);
    let raw = if cancelled {
        on_new_line(out, "(cancelled)"@)
    } else if timed_out {
        on_new_line(out, "(timed out)"@)
    } else if out.len() == 0 {
        code
    } else if exit_code != 0 {
        out + "\n"@ + code
    } else {
        out
    };
    assert(raw.subrange(0, stdout.len() as int) =~= stdout);
    lemma_shown(raw, stdout, 0);
    if stderr.len() > 0 {
        assert(raw.subrange(second, second + 8) =~= marker);
        assert(raw.subrange(second + 8, second + 8 + stderr.len()) =~= stderr);
        lemma_shown(raw, marker, second);
        lemma_shown(raw, stderr, second + 8);
    }
    crate::text::law_trim_end(raw);
    let before = if out.len() > 0 {
        out.push('\n')
    } else {
        out
    };
    assert(code.last() == ')');
    if cancelled {
        lemma_ending(before, "(cancelled)"@);
    } else if timed_out {
        lemma_ending(before, "(timed out)"@);
    } else if exit_code != 0 || out.len() == 0 {
        lemma_ending(before, code);
        assert(raw =~= before + code);
    }
}

/// A text of ASCII characters takes a byte for each.
proof fn lemma_ascii(s: Seq<char>)
    requires
        forall|i: int| 0 <= i < s.len() ==> (#[trigger] s[i] as u32) < 0x80,
    ensures
        crate::text::byte_len(s) == s.len(),
    decreases s.len(),
{
    if s.len() > 0 {
        let rest = s.subrange(1, s.len() as int);
        assert forall|i: int| 0 <= i < rest.len() implies (#[trigger] rest[i] as u32) < 0x80 by {
            assert(rest[i] == s[i + 1]);
        }
        lemma_ascii(rest);
    }
}

/// Of output that is too long the first and the last 50 000 bytes are shown, whole characters
/// only, and in between how many bytes are not.
pub proof fn law_long_output_keeps_both_ends(
    stdout: Seq<char>,
    exit_code: i32,
    timed_out: bool,
    cancelled: bool,
    command: Seq<char>,
)
    requires
        crate::text::byte_len(stdout) > 100_000,
    ensures
        ({
            let answer = formatted(stdout, seq![], exit_code, timed_out, cancelled, command);
            let text = answer.content[0]->Text_0.text;
            let first = crate::text::longest_prefix(stdout, 50_000);
            let last = crate::text::longest_suffix(stdout, 50_000);
            let note = "\n\n... [truncated "@ + crate::text::decimal(
                (crate::text::byte_len(stdout) - 100_000) as nat,
            ) + " bytes] ...\n\n"@;
            &&& shown_at(text, first, 0)
            &&& shown_at(text, note, first.len() as int)
            &&& shown_at(text, last, (first.len() + note.len()) as int)
        }),
{
    let out = combined(stdout, seq![]);
    let first = crate::text::longest_prefix(stdout, 50_000);
    let last = crate::text::longest_suffix(stdout, 50_000);
    let note = "\n\n... [truncated "@ + crate::text::decimal(
        (crate::text::byte_len(stdout) - 100_000) as nat,
    ) + " bytes] ...\n\n"@;
    let cut = clipped(out);
    assert(cut =~= first + note + last);
    reveal_strlit("\n\n... [truncated ");
    let code = "(exit code: "@ + crate::text::signed_decimal(exit_code as int) + ")"@;
    let raw = if cancelled {
        on_new_line(cut, "(cancelled)"@)
    } else if timed_out {
        on_new_line(cut, "(timed out)"@)
    } else if exit_code != 0 {
        cut + "\n"@ + code
    } else {
        cut
    };
    assert(raw.subrange(0, first.len() as int) =~= first);
    assert(raw.subrange(first.len() as int, (first.len() + note.len()) as int) =~= note);
    assert(raw.subrange(
        (first.len() + note.len()) as int,
        (first.len() + note.len() + last.len()) as int,
    ) =~= last);
    lemma_shown(raw, first, 0);
    lemma_shown(raw, note, first.len() as int);
    lemma_shown(raw, last, (first.len() + note.len()) as int);
}

/// A command can be run exactly where its directory is one; else it is said which directory is meant.
pub proof fn law_directory_is_checked(cwd: Seq<char>, state: CwdState)
    ensures
        cwd_problem(cwd, state) is None <==> state is Directory,
        cwd_problem(cwd, state) matches Some(p) ==> crate::text::contains(p, cwd),
        state matches CwdState::Inaccessible(e) ==> cwd_problem(cwd, state) matches Some(p)
            && crate::text::ends_with(p, e@),
{
    if let Some(p) = cwd_problem(cwd, state) {
        let i = match state {
            CwdState::NotADirectory => "session cwd is not a directory: "@.len() as int,
            CwdState::Missing => "session cwd no longer exists: "@.len() as int,
            _ => "cannot access session cwd "@.len() as int,
        };
        assert(p.subrange(i, i + cwd.len()) =~= cwd);
        assert(crate::text::occurs_at(p, cwd, i));
        if let CwdState::Inaccessible(e) = state {
            assert(p.subrange(p.len() - e@.len(), p.len() as int) =~= e@);
        }
    }
}

/// A command is previewed by its start, never in more than sixty characters; a short one is shown whole.
pub proof fn law_preview(command: Seq<char>)
    ensures
        preview(command).len() <= 60,
        command.len() <= 60 ==> preview(command) == command,
        command.len() > 60 ==> preview(command) == command.subrange(0, 57) + "..."@,
{
    reveal_strlit("...");
}

/// A long output has a summary that shows the command, and the exit code where that is not zero; a short
/// output has none.
pub proof fn law_summary_of_an_output(text: Seq<char>, command: Seq<char>, exit_code: i32)
    ensures
        summary_of(text, command, exit_code) is Some <==> crate::text::lines(text).len() > 20,
        summary_of(text, command, exit_code) matches Some(s) ==> crate::text::starts_with(
            s,
            "bash: $ "@ + preview(command) + " → "@ + crate::text::decimal(
                crate::text::lines(text).len(),
            ) + " lines"@,
        ),
        summary_of(text, command, exit_code) matches Some(s) ==> exit_code != 0
            ==> crate::text::ends_with(
            s,
            ", exit "@ + crate::text::signed_decimal(exit_code as int),
        ),
{
    if let Some(s) = summary_of(text, command, exit_code) {
        let head = "bash: $ "@ + preview(command) + " → "@ + crate::text::decimal(
            crate::text::lines(text).len(),
        ) + " lines"@;
        assert(s.subrange(0, head.len() as int) =~= head);
        if exit_code != 0 {
            let tail = ", exit "@ + crate::text::signed_decimal(exit_code as int);
            assert(s.subrange(s.len() - tail.len(), s.len() as int) =~= tail);
        }
    }
}

} // verus!
