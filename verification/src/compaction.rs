//! Compaction: when a conversation outgrows its context window, the older part is replaced by a
//! summary.

use vstd::prelude::*;

use crate::error::{Error, ErrorView, Result};
use crate::json::value_text;
use crate::text::{str_len, str_trim, truncate_str, truncate_str_end};
use crate::types::{
    AssistantContent, AssistantContentView, Context, Message, MessageView, StopReason, StreamEvent,
    StreamEventView, ToolResultContent, ToolResultContentView, UserContent, UserContentView,
    UserMessage,
};

verus! {

/// When to compact and how much to keep.
#[derive(Debug, Clone, Copy, PartialEq, Eq, Structural)]
pub struct CompactionSettings {
    pub enabled: bool,
    pub reserve_tokens: u64,
    pub keep_recent_tokens: u64,
}

impl Default for CompactionSettings {
    fn default() -> (r: Self)
        ensures
            r == (CompactionSettings {
                enabled: true,
                reserve_tokens: 16_384,
                keep_recent_tokens: 20_000,
            }),
    {
        CompactionSettings { enabled: true, reserve_tokens: 16_384, keep_recent_tokens: 20_000 }
    }
}

// ---------------------------------------------------------------------------
// Token estimation
// ---------------------------------------------------------------------------

/// Estimates stop at the largest 64-bit number.
pub open spec fn cap(n: nat) -> u64 {
    if n <= u64::MAX {
        n as u64
    } else {
        u64::MAX
    }
}

/// The size of a block of user content; an image counts as 4800 bytes.
pub open spec fn user_size(c: UserContentView) -> nat {
    match c {
        UserContentView::Text(t) => crate::text::byte_len(t.text),
        UserContentView::Image(_) => 4800,
    }
}

/// The size of a block of an assistant message.
pub open spec fn assistant_size(c: AssistantContentView) -> nat {
    match c {
        AssistantContentView::Text(t) => crate::text::byte_len(t.text),
        AssistantContentView::Thinking(t) => crate::text::byte_len(t.thinking),
        AssistantContentView::ToolCall(tc) => crate::text::byte_len(tc.name)
            + crate::text::byte_len(tc.arguments.text),
    }
}

/// The size of a block of a tool result; an image counts as 4800 bytes.
pub open spec fn result_size(c: ToolResultContentView) -> nat {
    match c {
        ToolResultContentView::Text(t) => crate::text::byte_len(t.text),
        ToolResultContentView::Image(_) => 4800,
    }
}

/// A sum.
pub open spec fn total(sizes: Seq<nat>) -> nat
    decreases sizes.len(),
{
    if sizes.len() == 0 {
        0
    } else {
        total(sizes.subrange(0, sizes.len() - 1)) + sizes[sizes.len() - 1]
    }
}

/// The size of a message in bytes.
pub open spec fn message_size(m: MessageView) -> nat {
    match m {
        MessageView::User(u) => total(
            Seq::new(u.content.len(), |i: int| user_size(u.content[i])),
        ),
        MessageView::Assistant(a) => total(
            Seq::new(a.content.len(), |i: int| assistant_size(a.content[i])),
        ),
        MessageView::ToolResult(tr) => total(
            Seq::new(tr.content.len(), |i: int| result_size(tr.content[i])),
        ),
        MessageView::CompactionSummary(cs) => crate::text::byte_len(cs.summary),
        MessageView::Info(i) => crate::text::byte_len(i.text),
    }
}

/// The estimated tokens of a message: a token for each four bytes, rounded up.
pub open spec fn message_tokens(m: MessageView) -> nat {
    ((cap(message_size(m)) + 3) / 4) as nat
}

/// The estimated tokens of the messages from `from` on.
pub open spec fn tokens_from(messages: Seq<MessageView>, from: int) -> nat
    decreases messages.len() - from,
{
    if from < 0 || from >= messages.len() {
        0
    } else {
        message_tokens(messages[from]) + tokens_from(messages, from + 1)
    }
}

/// The tokens that a response reports for its input.
pub open spec fn reported_input(a: crate::types::Usage) -> nat {
    a.input as nat + a.cache_read as nat + a.cache_write as nat
}

/// Whether the message is a completed response that reports its input.
pub open spec fn reports_usage(m: MessageView) -> bool {
    m is Assistant && m->Assistant_0.stop_reason != StopReason::Error && m->Assistant_0.stop_reason
        != StopReason::Aborted && reported_input(m->Assistant_0.usage) > 0
}

/// The last of the first `n` messages that reports its usage.
pub open spec fn last_usage(messages: Seq<MessageView>, n: int) -> Option<int>
    decreases n,
{
    if n <= 0 {
        None
    } else if reports_usage(messages[n - 1]) {
        Some(n - 1)
    } else {
        last_usage(messages, n - 1)
    }
}

/// The estimated tokens of a context: what the last response reports, plus an estimate of what
/// follows it.
pub open spec fn context_tokens(messages: Seq<MessageView>) -> nat {
    match last_usage(messages, messages.len() as int) {
        Some(i) => {
            let u = messages[i]->Assistant_0.usage;
            reported_input(u) + u.output as nat + tokens_from(messages, i + 1)
        },
        None => tokens_from(messages, 0),
    }
}

proof fn lemma_total_grows(sizes: Seq<nat>, n: int)
    requires
        0 <= n < sizes.len(),
    ensures
        total(sizes.subrange(0, n + 1)) == total(sizes.subrange(0, n)) + sizes[n],
{
    let p = sizes.subrange(0, n + 1);
    assert(p.subrange(0, p.len() - 1) =~= sizes.subrange(0, n));
}

/// The size of a user message, capped.
fn user_content_size(content: &Vec<UserContent>) -> (r: u64)
    ensures
        r == cap(
            total(
                Seq::new(content.deep_view().len(), |i: int| user_size(content.deep_view()[i])),
            ),
        ),
{
    let ghost sizes = Seq::new(content.deep_view().len(), |i: int| user_size(content.deep_view()[i]));
    let mut sum: u64 = 0;
    let mut i: usize = 0;
    assert(sizes.subrange(0, 0) =~= seq![]);
    while i < content.len()
        invariant
            i <= content.len(),
            sizes == Seq::new(content.deep_view().len(), |i: int| user_size(content.deep_view()[i])),
            sum == cap(total(sizes.subrange(0, i as int))),
        decreases content.len() - i,
    {
        proof {
            lemma_total_grows(sizes, i as int);
        }
        assert(content.deep_view()[i as int] == content[i as int]@);
        let size: u64 = match &content[i] {
            UserContent::Text(t) => str_len(t.text.as_str()) as u64,
            UserContent::Image(_) => 4800,
        };
        sum = sum.saturating_add(size);
        i = i + 1;
    }
    assert(sizes.subrange(0, i as int) =~= sizes);
    sum
}

/// The size of an assistant message, capped.
fn assistant_content_size(content: &Vec<AssistantContent>) -> (r: u64)
    ensures
        r == cap(
            total(
                Seq::new(
                    content.deep_view().len(),
                    |i: int| assistant_size(content.deep_view()[i]),
                ),
            ),
        ),
{
    let ghost sizes = Seq::new(
        content.deep_view().len(),
        |i: int| assistant_size(content.deep_view()[i]),
    );
    let mut sum: u64 = 0;
    let mut i: usize = 0;
    assert(sizes.subrange(0, 0) =~= seq![]);
    while i < content.len()
        invariant
            i <= content.len(),
            sizes == Seq::new(
                content.deep_view().len(),
                |i: int| assistant_size(content.deep_view()[i]),
            ),
            sum == cap(total(sizes.subrange(0, i as int))),
        decreases content.len() - i,
    {
        proof {
            lemma_total_grows(sizes, i as int);
        }
        assert(content.deep_view()[i as int] == content[i as int]@);
        match &content[i] {
            AssistantContent::Text(t) => {
                sum = sum.saturating_add(str_len(t.text.as_str()) as u64);
            },
            AssistantContent::Thinking(t) => {
                sum = sum.saturating_add(str_len(t.thinking.as_str()) as u64);
            },
            AssistantContent::ToolCall(tc) => {
                sum = sum.saturating_add(str_len(tc.name.as_str()) as u64);
                let arguments = value_text(&tc.arguments);
                sum = sum.saturating_add(str_len(arguments.as_str()) as u64);
            },
        }
        i = i + 1;
    }
    assert(sizes.subrange(0, i as int) =~= sizes);
    sum
}

/// The size of a tool result, capped.
fn result_content_size(content: &Vec<ToolResultContent>) -> (r: u64)
    ensures
        r == cap(
            total(
                Seq::new(content.deep_view().len(), |i: int| result_size(content.deep_view()[i])),
            ),
        ),
{
    let ghost sizes = Seq::new(
        content.deep_view().len(),
        |i: int| result_size(content.deep_view()[i]),
    );
    let mut sum: u64 = 0;
    let mut i: usize = 0;
    assert(sizes.subrange(0, 0) =~= seq![]);
    while i < content.len()
        invariant
            i <= content.len(),
            sizes == Seq::new(
                content.deep_view().len(),
                |i: int| result_size(content.deep_view()[i]),
            ),
            sum == cap(total(sizes.subrange(0, i as int))),
        decreases content.len() - i,
    {
        proof {
            lemma_total_grows(sizes, i as int);
        }
        assert(content.deep_view()[i as int] == content[i as int]@);
        let size: u64 = match &content[i] {
            ToolResultContent::Text(t) => str_len(t.text.as_str()) as u64,
            ToolResultContent::Image(_) => 4800,
        };
        sum = sum.saturating_add(size);
        i = i + 1;
    }
    assert(sizes.subrange(0, i as int) =~= sizes);
    sum
}

/// The estimated tokens of a message.
pub fn estimate_tokens(message: &Message) -> (r: u64)
    ensures
        r == message_tokens(message@),
{
    let size: u64 = match message {
        Message::User(u) => user_content_size(&u.content),
        Message::Assistant(a) => assistant_content_size(&a.content),
        Message::ToolResult(tr) => result_content_size(&tr.content),
        Message::CompactionSummary(cs) => str_len(cs.summary.as_str()) as u64,
        Message::Info(i) => str_len(i.text.as_str()) as u64,
    };
    if size % 4 == 0 {
        size / 4
    } else {
        size / 4 + 1
    }
}

/// The estimated tokens of the messages from `from` on, capped.
fn estimate_from(messages: &[Message], from: usize) -> (r: u64)
    requires
        from <= messages.len(),
    ensures
        r == cap(tokens_from(messages.deep_view(), from as int)),
{
    let ghost all = messages.deep_view();
    let mut sum: u64 = 0;
    let mut i: usize = messages.len();
    while i > from
        invariant
            from <= i <= messages.len(),
            all == messages.deep_view(),
            sum == cap(tokens_from(all, i as int)),
        decreases i,
    {
        i = i - 1;
        assert(all[i as int] == messages@[i as int]@);
        sum = sum.saturating_add(estimate_tokens(&messages[i]));
    }
    sum
}

/// The estimated tokens of a context: what the last completed response reports, plus an estimate
/// of the messages after it. Capped at the largest 64-bit number.
pub fn estimate_context_tokens(messages: &[Message]) -> (r: u64)
    ensures
        r == cap(context_tokens(messages.deep_view())),
{
    let ghost all = messages.deep_view();
    let mut i: usize = messages.len();
    while i > 0
        invariant
            i <= messages.len(),
            all == messages.deep_view(),
            last_usage(all, all.len() as int) == last_usage(all, i as int),
        decreases i,
    {
        i = i - 1;
        assert(all[i as int] == messages@[i as int]@);
        if let Message::Assistant(a) = &messages[i] {
            if a.stop_reason != StopReason::Error && a.stop_reason != StopReason::Aborted {
                let input = a.usage.input.saturating_add(a.usage.cache_read).saturating_add(
                    a.usage.cache_write,
                );
                if input > 0 {
                    return input.saturating_add(a.usage.output).saturating_add(
                        estimate_from(messages, i + 1),
                    );
                }
            }
        }
    }
    estimate_from(messages, 0)
}

// ---------------------------------------------------------------------------
// Compaction decision
// ---------------------------------------------------------------------------

/// Whether a context has outgrown its window, less what is held in reserve.
pub fn should_compact(
    context_tokens: u64,
    context_window: u64,
    settings: &CompactionSettings,
) -> (r: bool)
    ensures
        r == (settings.enabled && context_window > 0 && context_tokens
            > context_window - settings.reserve_tokens && context_tokens > 0),
{
    if !settings.enabled || context_window == 0 {
        return false;
    }
    context_tokens > context_window.saturating_sub(settings.reserve_tokens)
}

// ---------------------------------------------------------------------------
// Cut point
// ---------------------------------------------------------------------------

/// Whether a conversation may be cut before the message.
pub open spec fn is_boundary(m: MessageView) -> bool {
    m is User || m is CompactionSummary || m is Info
}

/// The first boundary at or after `from`, or the number of messages.
pub open spec fn boundary_from(messages: Seq<MessageView>, from: int) -> int
    decreases messages.len() - from,
{
    if from >= messages.len() {
        messages.len() as int
    } else if is_boundary(messages[from]) {
        from
    } else {
        boundary_from(messages, from + 1)
    }
}

/// The last of the first `n` messages from which on there are `keep` tokens.
pub open spec fn recent_start(messages: Seq<MessageView>, keep: u64, n: int) -> Option<int>
    decreases n,
{
    if n <= 0 {
        None
    } else if tokens_from(messages, n - 1) >= keep {
        Some(n - 1)
    } else {
        recent_start(messages, keep, n - 1)
    }
}

/// Where a conversation is cut so that about `keep` tokens are kept; 0 where it is not cut.
pub open spec fn cut_point(messages: Seq<MessageView>, keep: u64) -> int {
    match recent_start(messages, keep, messages.len() as int) {
        Some(i) => if boundary_from(messages, i) < messages.len() {
            boundary_from(messages, i)
        } else {
            0
        },
        None => 0,
    }
}

/// The first message that compaction keeps: the first boundary after which about
/// `keep_recent_tokens` are left, or 0.
pub fn find_cut_point(messages: &[Message], keep_recent_tokens: u64) -> (r: usize)
    ensures
        r == cut_point(messages.deep_view(), keep_recent_tokens),
{
    let ghost all = messages.deep_view();
    let mut accumulated: u64 = 0;
    let mut i: usize = messages.len();
    while i > 0
        invariant
            i <= messages.len(),
            all == messages.deep_view(),
            accumulated == cap(tokens_from(all, i as int)),
            recent_start(all, keep_recent_tokens, all.len() as int) == recent_start(
                all,
                keep_recent_tokens,
                i as int,
            ),
        decreases i,
    {
        i = i - 1;
        assert(all[i as int] == messages@[i as int]@);
        accumulated = accumulated.saturating_add(estimate_tokens(&messages[i]));
        if accumulated >= keep_recent_tokens {
            let mut j: usize = i;
            while j < messages.len()
                invariant
                    i <= j <= messages.len(),
                    all == messages.deep_view(),
                    boundary_from(all, i as int) == boundary_from(all, j as int),
                    recent_start(all, keep_recent_tokens, all.len() as int) == Some(i as int),
                decreases messages.len() - j,
            {
                assert(all[j as int] == messages@[j as int]@);
                match &messages[j] {
                    Message::User(_) => {
                        return j;
                    },
                    Message::CompactionSummary(_) => {
                        return j;
                    },
                    Message::Info(_) => {
                        return j;
                    },
                    _ => {},
                }
                j = j + 1;
            }
            return 0;
        }
    }
    0
}

proof fn lemma_boundary_from(messages: Seq<MessageView>, from: int)
    requires
        0 <= from,
    ensures
        boundary_from(messages, from) < messages.len() ==> from <= boundary_from(messages, from)
            && is_boundary(messages[boundary_from(messages, from)]),
    decreases messages.len() - from,
{
    if from < messages.len() && !is_boundary(messages[from]) {
        lemma_boundary_from(messages, from + 1);
    }
}

proof fn lemma_tokens_shrink(messages: Seq<MessageView>, i: int, j: int)
    requires
        0 <= i <= j,
    ensures
        tokens_from(messages, j) <= tokens_from(messages, i),
    decreases j - i,
{
    if i < j {
        lemma_tokens_shrink(messages, i + 1, j);
    }
}

proof fn lemma_recent_start(messages: Seq<MessageView>, keep: u64, n: int)
    requires
        0 <= n <= messages.len(),
        n < messages.len() ==> tokens_from(messages, n) < keep,
    ensures
        match recent_start(messages, keep, n) {
            Some(i) => 0 <= i < n && tokens_from(messages, i) >= keep && (i + 1 < messages.len()
                ==> tokens_from(messages, i + 1) < keep),
            None => n == 0 || tokens_from(messages, 0) < keep,
        },
    decreases n,
{
    if n > 0 && tokens_from(messages, n - 1) < keep {
        lemma_recent_start(messages, keep, n - 1);
    }
}

/// A conversation is cut at a user message, a summary or an info message, never inside a turn
/// (so never between a tool call and its result).
pub proof fn law_cut_at_turn_boundary(messages: Seq<MessageView>, keep: u64)
    ensures
        0 <= cut_point(messages, keep),
        cut_point(messages, keep) > 0 ==> cut_point(messages, keep) < messages.len() && is_boundary(
            messages[cut_point(messages, keep)],
        ),
{
    lemma_recent_start(messages, keep, messages.len() as int);
    if let Some(i) = recent_start(messages, keep, messages.len() as int) {
        lemma_boundary_from(messages, i);
    }
}

/// Beyond its first message, what a cut keeps stays under the budget.
pub proof fn law_cut_respects_budget(messages: Seq<MessageView>, keep: u64)
    requires
        cut_point(messages, keep) > 0,
    ensures
        cut_point(messages, keep) + 1 < messages.len() ==> tokens_from(
            messages,
            cut_point(messages, keep) + 1,
        ) < keep,
{
    lemma_recent_start(messages, keep, messages.len() as int);
    let i = recent_start(messages, keep, messages.len() as int)->0;
    lemma_boundary_from(messages, i);
    let c = cut_point(messages, keep);
    lemma_tokens_shrink(messages, i + 1, c + 1);
}

/// A conversation that is shorter than the budget is not cut.
pub proof fn law_short_conversation_is_kept(messages: Seq<MessageView>, keep: u64)
    requires
        tokens_from(messages, 0) < keep,
    ensures
        cut_point(messages, keep) == 0,
{
    lemma_recent_start(messages, keep, messages.len() as int);
    if let Some(i) = recent_start(messages, keep, messages.len() as int) {
        lemma_tokens_shrink(messages, 0, i);
    }
}

// ---------------------------------------------------------------------------
// Summary generation
// ---------------------------------------------------------------------------

pub const SUMMARIZATION_SYSTEM_PROMPT: &'static str =
    "You are a precise summarizer. Create structured summaries of coding conversations.";

pub const SUMMARIZATION_PROMPT: &'static str =
    r#"The messages above are a conversation to summarize. Create a structured context checkpoint summary that another LLM will use to continue the work.

Use this EXACT format:

## Goal
[What is the user trying to accomplish?]

## Progress
### Done
- [x] [Completed tasks/changes]

### In Progress
- [ ] [Current work]

## Key Decisions
- **[Decision]**: [Brief rationale]

## Next Steps
1. [Ordered list of what should happen next]

## Critical Context
- [Any data, file paths, or references needed to continue]

Keep each section concise. Preserve exact file paths, function names, and error messages."#;

pub const FOCUS_HEADER: &'static str =
    "\n\n## User-specified focus\nThe user explicitly asked you to preserve the following in the summary, in addition to (not instead of) the standard sections above. Treat it as advisory guidance, not a hard filter:\n\n<keep_hint>\n";

/// A block of user content in a transcript.
pub open spec fn user_block(c: UserContentView) -> Seq<char> {
    match c {
        UserContentView::Text(t) => t.text + seq!['\n'],
        UserContentView::Image(_) => seq![],
    }
}

/// A block of an assistant message in a transcript.
pub open spec fn assistant_block(c: AssistantContentView) -> Seq<char> {
    match c {
        AssistantContentView::Text(t) => t.text + seq!['\n'],
        AssistantContentView::Thinking(t) => "<thinking>\n"@ + t.thinking + "\n</thinking>\n"@,
        AssistantContentView::ToolCall(tc) => "[tool_call: "@ + tc.name + "("@ + tc.arguments.text
            + ")]\n"@,
    }
}

/// A text of a tool result in a transcript: of more than 2000 bytes only the two ends.
pub open spec fn clipped(text: Seq<char>) -> Seq<char> {
    if crate::text::byte_len(text) > 2000 {
        crate::text::longest_prefix(text, 1000) + "\n... [truncated] ...\n"@
            + crate::text::longest_suffix(text, 1000)
    } else {
        text
    }
}

/// A block of a tool result in a transcript.
pub open spec fn result_block(c: ToolResultContentView) -> Seq<char> {
    match c {
        ToolResultContentView::Text(t) => clipped(t.text) + seq!['\n'],
        ToolResultContentView::Image(_) => seq![],
    }
}

/// A message in a transcript.
pub open spec fn transcript_entry(m: MessageView) -> Seq<char> {
    match m {
        MessageView::User(u) => "## User\n"@ + crate::text::concat(
            Seq::new(u.content.len(), |i: int| user_block(u.content[i])),
        ),
        MessageView::Assistant(a) => "## Assistant\n"@ + crate::text::concat(
            Seq::new(a.content.len(), |i: int| assistant_block(a.content[i])),
        ),
        MessageView::ToolResult(tr) => "## Tool Result ("@ + tr.tool_name + ")\n"@
            + crate::text::concat(Seq::new(tr.content.len(), |i: int| result_block(tr.content[i]))),
        MessageView::CompactionSummary(cs) => "## Previous Summary\n"@ + cs.summary + seq!['\n'],
        MessageView::Info(_) => seq![],
    }
}

/// A conversation as text: each message, followed by a line break.
pub open spec fn transcript(messages: Seq<MessageView>) -> Seq<char> {
    crate::text::concat(
        Seq::new(messages.len(), |i: int| transcript_entry(messages[i]) + seq!['\n']),
    )
}

proof fn lemma_concat_grows(parts: Seq<Seq<char>>, n: int)
    requires
        0 <= n < parts.len(),
    ensures
        crate::text::concat(parts.subrange(0, n + 1)) == crate::text::concat(parts.subrange(0, n))
            + parts[n],
{
    let p = parts.subrange(0, n + 1);
    assert(p.subrange(0, p.len() - 1) =~= parts.subrange(0, n));
}

/// Append the blocks of a user message.
fn write_user(out: &mut String, content: &Vec<UserContent>)
    ensures
        final(out)@ == old(out)@ + crate::text::concat(
            Seq::new(content.deep_view().len(), |i: int| user_block(content.deep_view()[i])),
        ),
{
    let ghost parts = Seq::new(
        content.deep_view().len(),
        |i: int| user_block(content.deep_view()[i]),
    );
    let mut i: usize = 0;
    assert(parts.subrange(0, 0) =~= seq![]);
    assert(old(out)@ + Seq::<char>::empty() =~= old(out)@);
    while i < content.len()
        invariant
            i <= content.len(),
            parts == Seq::new(
                content.deep_view().len(),
                |i: int| user_block(content.deep_view()[i]),
            ),
            out@ == old(out)@ + crate::text::concat(parts.subrange(0, i as int)),
        decreases content.len() - i,
    {
        proof {
            lemma_concat_grows(parts, i as int);
        }
        assert(content.deep_view()[i as int] == content[i as int]@);
        if let UserContent::Text(t) = &content[i] {
            out.append(t.text.as_str());
            out.push('\n');
        }
        assert(out@ =~= old(out)@ + crate::text::concat(parts.subrange(0, i + 1)));
        i = i + 1;
    }
    assert(parts.subrange(0, i as int) =~= parts);
}

/// Append the blocks of an assistant message.
fn write_assistant(out: &mut String, content: &Vec<AssistantContent>)
    ensures
        final(out)@ == old(out)@ + crate::text::concat(
            Seq::new(content.deep_view().len(), |i: int| assistant_block(content.deep_view()[i])),
        ),
{
    let ghost parts = Seq::new(
        content.deep_view().len(),
        |i: int| assistant_block(content.deep_view()[i]),
    );
    let mut i: usize = 0;
    assert(parts.subrange(0, 0) =~= seq![]);
    assert(old(out)@ + Seq::<char>::empty() =~= old(out)@);
    while i < content.len()
        invariant
            i <= content.len(),
            parts == Seq::new(
                content.deep_view().len(),
                |i: int| assistant_block(content.deep_view()[i]),
            ),
            out@ == old(out)@ + crate::text::concat(parts.subrange(0, i as int)),
        decreases content.len() - i,
    {
        proof {
            lemma_concat_grows(parts, i as int);
        }
        assert(content.deep_view()[i as int] == content[i as int]@);
        match &content[i] {
            AssistantContent::Text(t) => {
                out.append(t.text.as_str());
                out.push('\n');
            },
            AssistantContent::Thinking(t) => {
                out.append("<thinking>\n");
                out.append(t.thinking.as_str());
                out.append("\n</thinking>\n");
            },
            AssistantContent::ToolCall(tc) => {
                out.append("[tool_call: ");
                out.append(tc.name.as_str());
                out.append("(");
                out.append(value_text(&tc.arguments).as_str());
                out.append(")]\n");
            },
        }
        assert(out@ =~= old(out)@ + crate::text::concat(parts.subrange(0, i + 1)));
        i = i + 1;
    }
    assert(parts.subrange(0, i as int) =~= parts);
}

/// Append the blocks of a tool result.
fn write_result(out: &mut String, content: &Vec<ToolResultContent>)
    ensures
        final(out)@ == old(out)@ + crate::text::concat(
            Seq::new(content.deep_view().len(), |i: int| result_block(content.deep_view()[i])),
        ),
{
    let ghost parts = Seq::new(
        content.deep_view().len(),
        |i: int| result_block(content.deep_view()[i]),
    );
    let mut i: usize = 0;
    assert(parts.subrange(0, 0) =~= seq![]);
    assert(old(out)@ + Seq::<char>::empty() =~= old(out)@);
    while i < content.len()
        invariant
            i <= content.len(),
            parts == Seq::new(
                content.deep_view().len(),
                |i: int| result_block(content.deep_view()[i]),
            ),
            out@ == old(out)@ + crate::text::concat(parts.subrange(0, i as int)),
        decreases content.len() - i,
    {
        proof {
            lemma_concat_grows(parts, i as int);
        }
        assert(content.deep_view()[i as int] == content[i as int]@);
        if let ToolResultContent::Text(t) = &content[i] {
            if str_len(t.text.as_str()) > 2000 {
                out.append(truncate_str(t.text.as_str(), 1000));
                out.append("\n... [truncated] ...\n");
                out.append(truncate_str_end(t.text.as_str(), 1000));
            } else {
                out.append(t.text.as_str());
            }
            out.push('\n');
        }
        assert(out@ =~= old(out)@ + crate::text::concat(parts.subrange(0, i + 1)));
        i = i + 1;
    }
    assert(parts.subrange(0, i as int) =~= parts);
}

/// Append a message.
fn write_entry(out: &mut String, m: &Message)
    ensures
        final(out)@ == old(out)@ + transcript_entry(m@),
{
    match m {
        Message::User(u) => {
            out.append("## User\n");
            write_user(out, &u.content);
        },
        Message::Assistant(a) => {
            out.append("## Assistant\n");
            write_assistant(out, &a.content);
        },
        Message::ToolResult(tr) => {
            out.append("## Tool Result (");
            out.append(tr.tool_name.as_str());
            out.append(")\n");
            write_result(out, &tr.content);
        },
        Message::CompactionSummary(cs) => {
            out.append("## Previous Summary\n");
            out.append(cs.summary.as_str());
            out.push('\n');
        },
        Message::Info(_) => {},
    }
    assert(out@ =~= old(out)@ + transcript_entry(m@));
}

/// A conversation as text.
pub fn serialize_messages(messages: &[Message]) -> (r: String)
    ensures
        r@ == transcript(messages.deep_view()),
{
    let ghost all = messages.deep_view();
    let ghost parts = Seq::new(all.len(), |i: int| transcript_entry(all[i]) + seq!['\n']);
    let mut out: String = String::new();
    let mut i: usize = 0;
    assert(parts.subrange(0, 0) =~= seq![]);
    while i < messages.len()
        invariant
            i <= messages.len(),
            all == messages.deep_view(),
            parts == Seq::new(all.len(), |i: int| transcript_entry(all[i]) + seq!['\n']),
            out@ == crate::text::concat(parts.subrange(0, i as int)),
        decreases messages.len() - i,
    {
        proof {
            lemma_concat_grows(parts, i as int);
        }
        assert(all[i as int] == messages@[i as int]@);
        write_entry(&mut out, &messages[i]);
        out.push('\n');
        assert(out@ =~= crate::text::concat(parts.subrange(0, i + 1)));
        i = i + 1;
    }
    assert(parts.subrange(0, i as int) =~= parts);
    out
}

/// The request for a summary. A hint that is not blank is passed on as a focus.
pub open spec fn summary_prompt(messages: Seq<MessageView>, hint: Option<Seq<char>>) -> Seq<char> {
    let base = "<conversation>\n"@ + transcript(messages) + "</conversation>\n\n"@
        + SUMMARIZATION_PROMPT@;
    match hint {
        Some(h) => if crate::text::trim(h).len() > 0 {
            base + FOCUS_HEADER@ + crate::text::trim(h) + "\n</keep_hint>"@
        } else {
            base
        },
        None => base,
    }
}

/// The context in which a conversation is summarized: the request as the only message, no tools.
pub fn build_summarization_context(
    messages_to_summarize: &[Message],
    keep_hint: Option<&str>,
) -> (r: Context)
    ensures
        r@.system_prompt == Some(SUMMARIZATION_SYSTEM_PROMPT@),
        r@.tools.len() == 0,
        r@.messages.len() == 1,
        r@.messages[0] is User,
        r@.messages[0]->User_0.content == seq![
            UserContentView::Text(
                crate::types::plain_text(
                    summary_prompt(
                        messages_to_summarize.deep_view(),
                        match keep_hint {
                            Some(h) => Some(h@),
                            None => None,
                        },
                    ),
                ),
            ),
        ],
{
    let conversation = serialize_messages(messages_to_summarize);
    let mut prompt: String = "<conversation>\n".to_owned();
    prompt.append(conversation.as_str());
    prompt.append("</conversation>\n\n");
    prompt.append(SUMMARIZATION_PROMPT);
    if let Some(hint) = keep_hint {
        let trimmed = str_trim(hint);
        if !trimmed.as_str().is_empty() {
            prompt.append(FOCUS_HEADER);
            prompt.append(trimmed.as_str());
            prompt.append("\n</keep_hint>");
        }
    }
    let messages: Vec<Message> = vec![Message::User(UserMessage::text(prompt.as_str()))];
    Context {
        system_prompt: Some(SUMMARIZATION_SYSTEM_PROMPT.to_owned()),
        messages,
        tools: Vec::new(),
    }
}

/// What an event says about the summary: nothing yet, its text, or that it failed.
pub open spec fn summary_of(e: StreamEventView) -> Option<core::result::Result<Seq<char>, ErrorView>> {
    match e {
        StreamEventView::Done { message, .. } => Some(Ok(message.text())),
        StreamEventView::Error { error, .. } => Some(
            Err(
                ErrorView::Http {
                    status: 0,
                    message: match error.error_message {
                        Some(m) => m,
                        None => "summarization failed"@,
                    },
                },
            ),
        ),
        _ => None,
    }
}

/// The outcome of a stream of events: that of the first event that has one.
pub open spec fn summary_of_stream(events: Seq<StreamEventView>) -> core::result::Result<
    Seq<char>,
    ErrorView,
>
    decreases events.len(),
{
    if events.len() == 0 {
        Err(ErrorView::ChannelClosed)
    } else {
        match summary_of(events[0]) {
            Some(r) => r,
            None => summary_of_stream(events.subrange(1, events.len() as int)),
        }
    }
}

/// Whether a result holds what the specification says.
pub open spec fn text_result(
    r: core::result::Result<String, Error>,
    s: core::result::Result<Seq<char>, ErrorView>,
) -> bool {
    match r {
        Ok(t) => s == core::result::Result::<Seq<char>, ErrorView>::Ok(t@),
        Err(e) => s == core::result::Result::<Seq<char>, ErrorView>::Err(e@),
    }
}

/// What an event says about the summary, if anything.
pub fn summary_step(event: &StreamEvent) -> (r: Option<Result<String>>)
    ensures
        match r {
            Some(x) => summary_of(event@) is Some && text_result(x, summary_of(event@)->0),
            None => summary_of(event@) is None,
        },
{
    match event {
        StreamEvent::Done { message, .. } => Some(Ok(message.text())),
        StreamEvent::Error { error, .. } => {
            let message: String = match &error.error_message {
                Some(m) => m.clone(),
                None => "summarization failed".to_owned(),
            };
            Some(Err(Error::Http { status: 0, message }))
        },
        _ => None,
    }
}

/// The summary that a closed stream of events brought.
pub fn extract_summary(events: &[StreamEvent]) -> (r: Result<String>)
    ensures
        text_result(r, summary_of_stream(events.deep_view())),
{
    let ghost all = events.deep_view();
    let mut i: usize = 0;
    assert(all.subrange(0, all.len() as int) =~= all);
    while i < events.len()
        invariant
            i <= events.len(),
            all == events.deep_view(),
            summary_of_stream(all) == summary_of_stream(all.subrange(i as int, all.len() as int)),
        decreases events.len() - i,
    {
        let ghost p = all.subrange(i as int, all.len() as int);
        assert(p[0] == events@[i as int]@);
        assert(p.subrange(1, p.len() as int) =~= all.subrange(i + 1, all.len() as int));
        if let Some(r) = summary_step(&events[i]) {
            return r;
        }
        i = i + 1;
    }
    Err(Error::ChannelClosed)
}

// ---------------------------------------------------------------------------
// What a summary is made of
// ---------------------------------------------------------------------------

/// Whether pieces stand in a text one behind the other, each whole.
pub open spec fn in_order(text: Seq<char>, pieces: Seq<Seq<char>>) -> bool
    decreases pieces.len(),
{
    pieces.len() == 0 || exists|at: int| #[trigger]
        crate::text::occurs_at(text, pieces.last(), at) && in_order(
            text.subrange(0, at),
            pieces.drop_last(),
        )
}

proof fn lemma_in_order_step(head: Seq<char>, piece: Seq<char>, tail: Seq<char>, pieces: Seq<Seq<char>>)
    requires
        in_order(head, pieces),
    ensures
        in_order(head + piece + tail, pieces.push(piece)),
{
    let all = head + piece + tail;
    let at = head.len() as int;
    assert(all.subrange(at, at + piece.len()) =~= piece);
    assert(all.subrange(0, at) =~= head);
    assert(pieces.push(piece).drop_last() =~= pieces);
    assert(crate::text::occurs_at(all, pieces.push(piece).last(), at));
}

proof fn lemma_in_order_more(text: Seq<char>, tail: Seq<char>, pieces: Seq<Seq<char>>)
    requires
        in_order(text, pieces),
    ensures
        in_order(text + tail, pieces),
{
    if pieces.len() > 0 {
        let last = pieces.last();
        let at = choose|at: int| #[trigger]
            crate::text::occurs_at(text, last, at) && in_order(
                text.subrange(0, at),
                pieces.drop_last(),
            );
        assert((text + tail).subrange(at, at + last.len()) =~= text.subrange(at, at + last.len()));
        assert((text + tail).subrange(0, at) =~= text.subrange(0, at));
        assert(crate::text::occurs_at(text + tail, last, at));
    }
}

proof fn lemma_in_order_add(a: Seq<char>, b: Seq<char>, first: Seq<Seq<char>>, second: Seq<Seq<char>>)
    requires
        in_order(a, first),
        in_order(b, second),
    ensures
        in_order(a + b, first + second),
    decreases second.len(),
{
    let all = first + second;
    if second.len() == 0 {
        assert(all =~= first);
        lemma_in_order_more(a, b, first);
    } else {
        let last = second.last();
        let at = choose|at: int| #[trigger]
            crate::text::occurs_at(b, last, at) && in_order(b.subrange(0, at), second.drop_last());
        lemma_in_order_add(a, b.subrange(0, at), first, second.drop_last());
        let text = a + b;
        let place = a.len() + at;
        assert(text.subrange(place, place + last.len()) =~= last);
        assert(text.subrange(0, place) =~= a + b.subrange(0, at));
        assert(all.drop_last() =~= first + second.drop_last());
        assert(all.last() == last);
        assert(crate::text::occurs_at(text, all.last(), place));
    }
}

/// What is kept of the texts of a tool result: all of a text of at most 2000 bytes, and of a longer
/// one as much of its start and of its end as 1000 bytes hold.
pub open spec fn kept_texts(content: Seq<ToolResultContentView>) -> Seq<Seq<char>>
    decreases content.len(),
{
    if content.len() == 0 {
        seq![]
    } else {
        let earlier = kept_texts(content.drop_last());
        match content.last() {
            ToolResultContentView::Text(t) => if crate::text::byte_len(t.text) <= 2000 {
                earlier.push(t.text)
            } else {
                earlier.push(crate::text::longest_prefix(t.text, 1000)).push(
                    crate::text::longest_suffix(t.text, 1000),
                )
            },
            ToolResultContentView::Image(_) => earlier,
        }
    }
}

/// What a message brings into the transcript, in order: who speaks, and what was said.
pub open spec fn spoken(m: MessageView) -> Seq<Seq<char>> {
    match m {
        MessageView::User(u) => seq!["## User\n"@] + u.content.filter(
            |c: UserContentView| c is Text,
        ).map_values(|c: UserContentView| c->Text_0.text),
        MessageView::Assistant(a) => seq!["## Assistant\n"@] + a.content.map_values(
            |c: AssistantContentView|
                match c {
                    AssistantContentView::Text(t) => t.text,
                    AssistantContentView::Thinking(t) => t.thinking,
                    AssistantContentView::ToolCall(tc) => tc.name + "("@ + tc.arguments.text
                        + ")"@,
                },
        ),
        MessageView::ToolResult(tr) => seq!["## Tool Result ("@ + tr.tool_name + ")\n"@]
            + kept_texts(tr.content),
        MessageView::CompactionSummary(cs) => seq!["## Previous Summary\n"@, cs.summary],
        MessageView::Info(_) => seq![],
    }
}

/// What the messages bring into the transcript, in order.
pub open spec fn all_spoken(messages: Seq<MessageView>) -> Seq<Seq<char>>
    decreases messages.len(),
{
    if messages.len() == 0 {
        seq![]
    } else {
        all_spoken(messages.drop_last()) + spoken(messages.last())
    }
}

proof fn lemma_user_spoken(content: Seq<UserContentView>)
    ensures
        in_order(
            crate::text::concat(Seq::new(content.len(), |i: int| user_block(content[i]))),
            content.filter(|c: UserContentView| c is Text).map_values(
                |c: UserContentView| c->Text_0.text,
            ),
        ),
    decreases content.len(),
{
    reveal(Seq::filter);
    let is = |c: UserContentView| c is Text;
    let get = |c: UserContentView| c->Text_0.text;
    let kept = content.filter(is).map_values(get);
    let parts = Seq::new(content.len(), |i: int| user_block(content[i]));
    if content.len() > 0 {
        let init = content.drop_last();
        let last = content.last();
        lemma_user_spoken(init);
        let before = Seq::new(init.len(), |i: int| user_block(init[i]));
        assert(parts.subrange(0, parts.len() - 1) =~= before);
        let earlier = init.filter(is).map_values(get);
        if last is Text {
            assert(kept =~= earlier.push(last->Text_0.text));
            lemma_in_order_step(
                crate::text::concat(before),
                last->Text_0.text,
                seq!['\n'],
                earlier,
            );
            assert(crate::text::concat(parts) =~= crate::text::concat(before) + last->Text_0.text
                + seq!['\n']);
        } else {
            assert(kept =~= earlier);
            assert(crate::text::concat(parts) =~= crate::text::concat(before));
        }
    }
}

proof fn lemma_assistant_spoken(content: Seq<AssistantContentView>)
    ensures
        in_order(
            crate::text::concat(Seq::new(content.len(), |i: int| assistant_block(content[i]))),
            content.map_values(
                |c: AssistantContentView|
                    match c {
                        AssistantContentView::Text(t) => t.text,
                        AssistantContentView::Thinking(t) => t.thinking,
                        AssistantContentView::ToolCall(tc) => tc.name + "("@ + tc.arguments.text
                            + ")"@,
                    },
            ),
        ),
    decreases content.len(),
{
    let get = |c: AssistantContentView|
        match c {
            AssistantContentView::Text(t) => t.text,
            AssistantContentView::Thinking(t) => t.thinking,
            AssistantContentView::ToolCall(tc) => tc.name + "("@ + tc.arguments.text + ")"@,
        };
    let kept = content.map_values(get);
    let parts = Seq::new(content.len(), |i: int| assistant_block(content[i]));
    if content.len() > 0 {
        let init = content.drop_last();
        let last = content.last();
        lemma_assistant_spoken(init);
        let before = Seq::new(init.len(), |i: int| assistant_block(init[i]));
        assert(parts.subrange(0, parts.len() - 1) =~= before);
        let earlier = init.map_values(get);
        assert(kept =~= earlier.push(get(last)));
        let text = crate::text::concat(before);
        match last {
            AssistantContentView::Text(t) => {
                lemma_in_order_step(text, t.text, seq!['\n'], earlier);
                assert(crate::text::concat(parts) =~= text + t.text + seq!['\n']);
            },
            AssistantContentView::Thinking(t) => {
                lemma_in_order_more(text, "<thinking>\n"@, earlier);
                lemma_in_order_step(
                    text + "<thinking>\n"@,
                    t.thinking,
                    "\n</thinking>\n"@,
                    earlier,
                );
                assert(crate::text::concat(parts) =~= text + "<thinking>\n"@ + t.thinking
                    + "\n</thinking>\n"@);
            },
            AssistantContentView::ToolCall(tc) => {
                let call = tc.name + "("@ + tc.arguments.text + ")"@;
                lemma_in_order_more(text, "[tool_call: "@, earlier);
                lemma_in_order_step(text + "[tool_call: "@, call, "]\n"@, earlier);
                reveal_strlit(")]\n");
                reveal_strlit(")");
                reveal_strlit("]\n");
                assert(")]\n"@ =~= ")"@ + "]\n"@);
                assert(crate::text::concat(parts) =~= text + "[tool_call: "@ + call + "]\n"@);
            },
        }
    }
}

proof fn lemma_result_spoken(content: Seq<ToolResultContentView>)
    ensures
        in_order(
            crate::text::concat(Seq::new(content.len(), |i: int| result_block(content[i]))),
            kept_texts(content),
        ),
    decreases content.len(),
{
    let parts = Seq::new(content.len(), |i: int| result_block(content[i]));
    if content.len() > 0 {
        let init = content.drop_last();
        lemma_result_spoken(init);
        let before = Seq::new(init.len(), |i: int| result_block(init[i]));
        assert(parts.subrange(0, parts.len() - 1) =~= before);
        let earlier = kept_texts(init);
        let text = crate::text::concat(before);
        match content.last() {
            ToolResultContentView::Text(t) => if crate::text::byte_len(t.text) <= 2000 {
                lemma_in_order_step(text, t.text, seq!['\n'], earlier);
                assert(crate::text::concat(parts) =~= text + t.text + seq!['\n']);
            } else {
                let a = crate::text::longest_prefix(t.text, 1000);
                let b = crate::text::longest_suffix(t.text, 1000);
                let gap = "\n... [truncated] ...\n"@;
                lemma_in_order_step(text, a, gap, earlier);
                lemma_in_order_step(text + a + gap, b, seq!['\n'], earlier.push(a));
                assert(crate::text::concat(parts) =~= text + a + gap + b + seq!['\n']);
            },
            ToolResultContentView::Image(_) => {
                assert(crate::text::concat(parts) =~= text);
            },
        }
    }
}

proof fn lemma_spoken(m: MessageView)
    ensures
        in_order(transcript_entry(m), spoken(m)),
{
    let none = Seq::<Seq<char>>::empty();
    match m {
        MessageView::User(u) => {
            let head = "## User\n"@;
            lemma_user_spoken(u.content);
            lemma_in_order_step(seq![], head, seq![], none);
            assert(none.push(head) =~= seq![head]);
            assert(Seq::<char>::empty() + head + Seq::<char>::empty() =~= head);
            lemma_in_order_add(
                head,
                crate::text::concat(Seq::new(u.content.len(), |i: int| user_block(u.content[i]))),
                seq![head],
                u.content.filter(|c: UserContentView| c is Text).map_values(
                    |c: UserContentView| c->Text_0.text,
                ),
            );
        },
        MessageView::Assistant(a) => {
            let head = "## Assistant\n"@;
            lemma_assistant_spoken(a.content);
            lemma_in_order_step(seq![], head, seq![], none);
            assert(none.push(head) =~= seq![head]);
            assert(Seq::<char>::empty() + head + Seq::<char>::empty() =~= head);
            lemma_in_order_add(
                head,
                crate::text::concat(
                    Seq::new(a.content.len(), |i: int| assistant_block(a.content[i])),
                ),
                seq![head],
                a.content.map_values(
                    |c: AssistantContentView|
                        match c {
                            AssistantContentView::Text(t) => t.text,
                            AssistantContentView::Thinking(t) => t.thinking,
                            AssistantContentView::ToolCall(tc) => tc.name + "("@
                                + tc.arguments.text + ")"@,
                        },
                ),
            );
        },
        MessageView::ToolResult(tr) => {
            let head = "## Tool Result ("@ + tr.tool_name + ")\n"@;
            lemma_result_spoken(tr.content);
            lemma_in_order_step(seq![], head, seq![], none);
            assert(none.push(head) =~= seq![head]);
            assert(Seq::<char>::empty() + head + Seq::<char>::empty() =~= head);
            lemma_in_order_add(
                head,
                crate::text::concat(
                    Seq::new(tr.content.len(), |i: int| result_block(tr.content[i])),
                ),
                seq![head],
                kept_texts(tr.content),
            );
        },
        MessageView::CompactionSummary(cs) => {
            let head = "## Previous Summary\n"@;
            lemma_in_order_step(seq![], head, seq![], none);
            assert(none.push(head) =~= seq![head]);
            assert(Seq::<char>::empty() + head + Seq::<char>::empty() =~= head);
            lemma_in_order_step(head, cs.summary, seq!['\n'], seq![head]);
            assert(seq![head].push(cs.summary) =~= seq![head, cs.summary]);
        },
        MessageView::Info(_) => {},
    }
}

/// The transcript of a conversation holds, in the order of the messages and each as one piece, who
/// speaks and everything that was said: every text of the user and of the assistant, every tool
/// call with its arguments, every earlier summary, and every tool result, of which only one of more
/// than 2000 bytes is cut, in its middle.
pub proof fn law_transcript_holds_what_was_said(messages: Seq<MessageView>)
    ensures
        in_order(transcript(messages), all_spoken(messages)),
    decreases messages.len(),
{
    let parts = Seq::new(messages.len(), |i: int| transcript_entry(messages[i]) + seq!['\n']);
    if messages.len() > 0 {
        let init = messages.drop_last();
        let last = messages.last();
        let before = Seq::new(init.len(), |i: int| transcript_entry(init[i]) + seq!['\n']);
        assert(parts.subrange(0, parts.len() - 1) =~= before);
        law_transcript_holds_what_was_said(init);
        lemma_spoken(last);
        lemma_in_order_more(transcript_entry(last), seq!['\n'], spoken(last));
        lemma_in_order_add(
            transcript(init),
            transcript_entry(last) + seq!['\n'],
            all_spoken(init),
            spoken(last),
        );
    }
}

/// The transcript of two conversations, one behind the other, is that of the first and then that of
/// the second.
pub proof fn law_transcript_is_message_by_message(a: Seq<MessageView>, b: Seq<MessageView>)
    ensures
        transcript(a + b) == transcript(a) + transcript(b),
{
    let all = a + b;
    let x = Seq::new(a.len(), |i: int| transcript_entry(a[i]) + seq!['\n']);
    let y = Seq::new(b.len(), |i: int| transcript_entry(b[i]) + seq!['\n']);
    assert(Seq::new(all.len(), |i: int| transcript_entry(all[i]) + seq!['\n']) =~= x + y);
    crate::text::law_concat(x, y);
}

/// The transcript of a message with one block of text adds nothing to that text but a heading, the
/// marks of a thought, and line breaks. Of a long tool result both ends are left, at most 1000
/// bytes each and no character more could be. An image or an info message adds nothing.
pub proof fn law_transcript_of_one_block(m: MessageView)
    ensures
        m matches MessageView::User(u) ==> {
            &&& u.content.len() == 0 ==> transcript(seq![m]) == "## User\n"@ + "\n"@
            &&& u.content.len() == 1 && u.content[0] is Text ==> transcript(seq![m])
                == "## User\n"@ + u.content[0]->Text_0.text + "\n\n"@
            &&& u.content.len() == 1 && u.content[0] is Image ==> transcript(seq![m])
                == "## User\n"@ + "\n"@
        },
        m matches MessageView::Assistant(a) ==> a.content.len() == 1 ==> transcript(seq![m])
            == "## Assistant\n"@ + match a.content[0] {
            AssistantContentView::Text(t) => t.text + "\n\n"@,
            AssistantContentView::Thinking(t) => "<thinking>\n"@ + t.thinking
                + "\n</thinking>\n\n"@,
            AssistantContentView::ToolCall(tc) => "[tool_call: "@ + tc.name + "("@
                + tc.arguments.text + ")]\n\n"@,
        },
        m matches MessageView::ToolResult(tr) ==> tr.content.len() == 1 && tr.content[0] is Text
            ==> {
            let text = tr.content[0]->Text_0.text;
            let head = "## Tool Result ("@ + tr.tool_name + ")\n"@;
            &&& crate::text::byte_len(text) <= 2000 ==> transcript(seq![m]) == head + text
                + "\n\n"@
            &&& crate::text::byte_len(text) > 2000 ==> exists|first: int, second: int|
                {
                    &&& 0 <= first < text.len()
                    &&& 0 < second <= text.len()
                    &&& transcript(seq![m]) == head + #[trigger] text.subrange(0, first)
                        + "\n... [truncated] ...\n"@ + #[trigger] text.subrange(
                        second,
                        text.len() as int,
                    ) + "\n\n"@
                    &&& crate::text::byte_len(text.subrange(0, first)) <= 1000
                        < crate::text::byte_len(text.subrange(0, first + 1))
                    &&& crate::text::byte_len(text.subrange(second, text.len() as int)) <= 1000
                        < crate::text::byte_len(text.subrange(second - 1, text.len() as int))
                }
        },
        m matches MessageView::CompactionSummary(cs) ==> transcript(seq![m])
            == "## Previous Summary\n"@ + cs.summary + "\n\n"@,
        m is Info ==> transcript(seq![m]) == "\n"@,
{
    reveal_strlit("\n");
    reveal_strlit("\n\n");
    reveal_strlit(")]\n");
    reveal_strlit(")]\n\n");
    reveal_strlit("\n</thinking>\n");
    reveal_strlit("\n</thinking>\n\n");
    let one = seq![m];
    let parts = Seq::new(one.len(), |i: int| transcript_entry(one[i]) + seq!['\n']);
    assert(parts =~= seq![transcript_entry(m) + seq!['\n']]);
    crate::text::law_concat(seq![], seq![]);
    assert(transcript(one) == transcript_entry(m) + seq!['\n']);
    match m {
        MessageView::User(u) => {
            let blocks = Seq::new(u.content.len(), |i: int| user_block(u.content[i]));
            if u.content.len() == 0 {
                assert(blocks =~= Seq::empty());
                assert(transcript(one) =~= "## User\n"@ + "\n"@);
            }
            if u.content.len() == 1 {
                assert(blocks =~= seq![user_block(u.content[0])]);
                if u.content[0] is Text {
                    assert(transcript(one) =~= "## User\n"@ + u.content[0]->Text_0.text
                        + "\n\n"@);
                } else {
                    assert(transcript(one) =~= "## User\n"@ + "\n"@);
                }
            }
        },
        MessageView::Assistant(a) => {
            let blocks = Seq::new(a.content.len(), |i: int| assistant_block(a.content[i]));
            if a.content.len() == 1 {
                assert(blocks =~= seq![assistant_block(a.content[0])]);
                match a.content[0] {
                    AssistantContentView::Text(t) => {
                        assert(transcript(one) =~= "## Assistant\n"@ + (t.text + "\n\n"@));
                    },
                    AssistantContentView::Thinking(t) => {
                        assert(transcript(one) =~= "## Assistant\n"@ + ("<thinking>\n"@
                            + t.thinking + "\n</thinking>\n\n"@));
                    },
                    AssistantContentView::ToolCall(tc) => {
                        assert(transcript(one) =~= "## Assistant\n"@ + ("[tool_call: "@ + tc.name
                            + "("@ + tc.arguments.text + ")]\n\n"@));
                    },
                }
            }
        },
        MessageView::ToolResult(tr) => {
            let blocks = Seq::new(tr.content.len(), |i: int| result_block(tr.content[i]));
            if tr.content.len() == 1 && tr.content[0] is Text {
                let text = tr.content[0]->Text_0.text;
                let head = "## Tool Result ("@ + tr.tool_name + ")\n"@;
                assert(blocks =~= seq![result_block(tr.content[0])]);
                if crate::text::byte_len(text) <= 2000 {
                    assert(transcript(one) =~= head + text + "\n\n"@);
                } else {
                    let a = crate::text::longest_prefix(text, 1000);
                    let b = crate::text::longest_suffix(text, 1000);
                    crate::text::law_truncate_keeps_the_start(text, 1000);
                    crate::text::law_truncate_keeps_the_end(text, 1000);
                    assert(text.subrange(0, text.len() as int) =~= text);
                    let first = a.len() as int;
                    let second = text.len() - b.len();
                    assert(crate::text::byte_len(text.subrange(0, first + 1)) > 1000);
                    assert(crate::text::byte_len(
                        text.subrange(second - 1, text.len() as int),
                    ) > 1000);
                    assert(transcript(one) =~= head + text.subrange(0, first)
                        + "\n... [truncated] ...\n"@ + text.subrange(second, text.len() as int)
                        + "\n\n"@);
                }
            }
        },
        MessageView::CompactionSummary(cs) => {
            assert(transcript(one) =~= "## Previous Summary\n"@ + cs.summary + "\n\n"@);
        },
        MessageView::Info(_) => {
            assert(transcript(one) =~= "\n"@);
        },
    }
}

/// The request for a summary starts with the whole transcript between its marks, and a focus that
/// was asked for is in it.
pub proof fn law_request_holds_the_conversation(messages: Seq<MessageView>, hint: Option<Seq<char>>)
    ensures
        crate::text::starts_with(
            summary_prompt(messages, hint),
            "<conversation>\n"@ + transcript(messages) + "</conversation>\n\n"@,
        ),
        crate::text::contains(summary_prompt(messages, hint), SUMMARIZATION_PROMPT@),
        hint matches Some(h) ==> crate::text::contains(
            summary_prompt(messages, hint),
            crate::text::trim(h),
        ),
{
    let prompt = summary_prompt(messages, hint);
    let start = "<conversation>\n"@ + transcript(messages) + "</conversation>\n\n"@;
    assert(prompt.subrange(0, start.len() as int) =~= start);
    let asked = SUMMARIZATION_PROMPT@;
    assert(prompt.subrange(start.len() as int, (start.len() + asked.len()) as int) =~= asked);
    assert(crate::text::occurs_at(prompt, asked, start.len() as int));
    if let Some(h) = hint {
        let focus = crate::text::trim(h);
        let at = if focus.len() > 0 {
            (start.len() + asked.len() + FOCUS_HEADER@.len()) as int
        } else {
            0
        };
        assert(prompt.subrange(at, at + focus.len()) =~= focus);
        assert(crate::text::occurs_at(prompt, focus, at));
    }
}

proof fn lemma_first_boundary(messages: Seq<MessageView>, from: int, b: int)
    requires
        0 <= from <= b < messages.len(),
        is_boundary(messages[b]),
    ensures
        from <= boundary_from(messages, from) <= b,
    decreases b - from,
{
    if !is_boundary(messages[from]) {
        lemma_first_boundary(messages, from + 1, b);
    }
}

proof fn lemma_recent_start_last(messages: Seq<MessageView>, keep: u64, n: int)
    requires
        0 < n <= messages.len(),
        tokens_from(messages, 0) >= keep,
    ensures
        recent_start(messages, keep, n) is Some,
        0 <= recent_start(messages, keep, n)->0 < n,
        tokens_from(messages, recent_start(messages, keep, n)->0) >= keep,
        forall|k: int|
            recent_start(messages, keep, n)->0 < k < n ==> #[trigger] tokens_from(messages, k)
                < keep,
    decreases n,
{
    if tokens_from(messages, n - 1) < keep {
        lemma_recent_start_last(messages, keep, n - 1);
    }
}

/// A conversation that is as long as the budget is cut at the earliest user message, summary or info
/// message behind which less than the budget is left, if there is one.
pub proof fn law_cut_keeps_as_much_as_it_may(messages: Seq<MessageView>, keep: u64, b: int)
    requires
        tokens_from(messages, 0) >= keep,
        0 <= b < messages.len(),
        messages[b] is User || messages[b] is CompactionSummary || messages[b] is Info,
        b + 1 == messages.len() || tokens_from(messages, b + 1) < keep,
    ensures
        ({
            let cut = cut_point(messages, keep);
            &&& 0 <= cut <= b
            &&& messages[cut] is User || messages[cut] is CompactionSummary || messages[cut] is Info
            &&& cut + 1 == messages.len() || tokens_from(messages, cut + 1) < keep
        }),
{
    let n = messages.len() as int;
    lemma_recent_start_last(messages, keep, n);
    let i = recent_start(messages, keep, n)->0;
    if b < i {
        lemma_tokens_shrink(messages, b + 1, i);
        assert(false);
    }
    lemma_first_boundary(messages, i, b);
    lemma_boundary_from(messages, i);
    let cut = cut_point(messages, keep);
    if cut + 1 < n {
        lemma_tokens_shrink(messages, i + 1, cut + 1);
        assert(tokens_from(messages, i + 1) < keep);
    }
}

/// A conversation without a place behind which less than the budget is left is not cut.
pub proof fn law_no_place_no_cut(messages: Seq<MessageView>, keep: u64)
    requires
        forall|b: int|
            0 <= b < messages.len() && (b + 1 == messages.len() || tokens_from(messages, b + 1)
                < keep) ==> !is_boundary(#[trigger] messages[b]),
    ensures
        cut_point(messages, keep) == 0,
{
    let n = messages.len() as int;
    lemma_recent_start(messages, keep, n);
    if let Some(i) = recent_start(messages, keep, n) {
        lemma_boundary_from(messages, i);
        let c = boundary_from(messages, i);
        if c < n {
            lemma_tokens_shrink(messages, i + 1, c + 1);
            assert(!is_boundary(messages[c]));
        }
    }
}

/// A message counts a token for each four bytes of its blocks, rounded up. A text counts by its
/// bytes, a tool call by those of its name and arguments, an image as 4800.
pub proof fn law_tokens_of_a_message(m: MessageView)
    requires
        message_size(m) <= u64::MAX,
    ensures
        message_size(m) <= 4 * message_tokens(m) < message_size(m) + 4,
        m matches MessageView::User(u) ==> message_size(m) == if u.content.len() == 0 {
            0
        } else {
            message_size(
                MessageView::User(
                    crate::types::UserMessageView { content: u.content.drop_last(), ..u },
                ),
            ) + match u.content.last() {
                UserContentView::Text(t) => crate::text::byte_len(t.text),
                UserContentView::Image(_) => 4800,
            }
        },
        m matches MessageView::Assistant(a) ==> message_size(m) == if a.content.len() == 0 {
            0
        } else {
            message_size(
                MessageView::Assistant(
                    crate::types::AssistantMessageView { content: a.content.drop_last(), ..a },
                ),
            ) + match a.content.last() {
                AssistantContentView::Text(t) => crate::text::byte_len(t.text),
                AssistantContentView::Thinking(t) => crate::text::byte_len(t.thinking),
                AssistantContentView::ToolCall(tc) => crate::text::byte_len(
                    tc.name + tc.arguments.text,
                ),
            }
        },
        m matches MessageView::ToolResult(tr) ==> message_size(m) == if tr.content.len() == 0 {
            0
        } else {
            message_size(
                MessageView::ToolResult(
                    crate::types::ToolResultMessageView { content: tr.content.drop_last(), ..tr },
                ),
            ) + match tr.content.last() {
                ToolResultContentView::Text(t) => crate::text::byte_len(t.text),
                ToolResultContentView::Image(_) => 4800,
            }
        },
        m matches MessageView::CompactionSummary(cs) ==> message_size(m) == crate::text::byte_len(
            cs.summary,
        ),
        m matches MessageView::Info(i) ==> message_size(m) == crate::text::byte_len(i.text),
{
    match m {
        MessageView::User(u) => {
            let sizes = Seq::new(u.content.len(), |i: int| user_size(u.content[i]));
            if sizes.len() > 0 {
                let init = u.content.drop_last();
                assert(sizes.subrange(0, sizes.len() - 1) =~= Seq::new(
                    init.len(),
                    |i: int| user_size(init[i]),
                ));
            }
        },
        MessageView::Assistant(a) => {
            let sizes = Seq::new(a.content.len(), |i: int| assistant_size(a.content[i]));
            if sizes.len() > 0 {
                let init = a.content.drop_last();
                assert(sizes.subrange(0, sizes.len() - 1) =~= Seq::new(
                    init.len(),
                    |i: int| assistant_size(init[i]),
                ));
                if let AssistantContentView::ToolCall(tc) = a.content.last() {
                    crate::text::law_byte_len(tc.name, tc.arguments.text);
                }
            }
        },
        MessageView::ToolResult(tr) => {
            let sizes = Seq::new(tr.content.len(), |i: int| result_size(tr.content[i]));
            if sizes.len() > 0 {
                let init = tr.content.drop_last();
                assert(sizes.subrange(0, sizes.len() - 1) =~= Seq::new(
                    init.len(),
                    |i: int| result_size(init[i]),
                ));
            }
        },
        _ => {},
    }
}

proof fn lemma_tokens_push(messages: Seq<MessageView>, m: MessageView, from: int)
    requires
        0 <= from <= messages.len(),
    ensures
        tokens_from(messages.push(m), from) == tokens_from(messages, from) + message_tokens(m),
    decreases messages.len() - from,
{
    let all = messages.push(m);
    if from == messages.len() {
        assert(tokens_from(all, from + 1) == 0);
    } else {
        lemma_tokens_push(messages, m, from + 1);
        assert(all[from] == messages[from]);
    }
}

proof fn lemma_last_usage_push(messages: Seq<MessageView>, m: MessageView, n: int)
    requires
        0 <= n <= messages.len(),
    ensures
        last_usage(messages.push(m), n) == last_usage(messages, n),
        last_usage(messages, n) matches Some(i) ==> 0 <= i < n && reports_usage(messages[i]),
    decreases n,
{
    if n > 0 {
        lemma_last_usage_push(messages, m, n - 1);
        assert(messages.push(m)[n - 1] == messages[n - 1]);
    }
}

/// A response that completed and reports its input tells how full the context is, whatever came
/// before it. Any other message adds what it is estimated at.
pub proof fn law_context_estimate(messages: Seq<MessageView>, m: MessageView)
    ensures
        context_tokens(messages.push(m)) == if m is Assistant && m->Assistant_0.stop_reason
            != StopReason::Error && m->Assistant_0.stop_reason != StopReason::Aborted
            && m->Assistant_0.usage.input + m->Assistant_0.usage.cache_read
            + m->Assistant_0.usage.cache_write > 0 {
            let u = m->Assistant_0.usage;
            (u.input + u.cache_read + u.cache_write + u.output) as nat
        } else {
            context_tokens(messages) + message_tokens(m)
        },
        context_tokens(Seq::empty()) == 0,
{
    let all = messages.push(m);
    let n = messages.len() as int;
    assert(all[n] == m);
    lemma_last_usage_push(messages, m, n);
    if reports_usage(m) {
        assert(tokens_from(all, n + 1) == 0);
    } else {
        match last_usage(messages, n) {
            Some(i) => {
                lemma_tokens_push(messages, m, i + 1);
                assert(all[i] == messages[i]);
            },
            None => {
                lemma_tokens_push(messages, m, 0);
            },
        }
    }
    assert(last_usage(Seq::<MessageView>::empty(), 0) is None);
}

/// The summary is the text of the first completed response of the stream; a failure that comes first
/// is passed on with its message, and without either there is none.
pub proof fn law_summary_is_the_response(
    before: Seq<StreamEventView>,
    last: StreamEventView,
    after: Seq<StreamEventView>,
)
    requires
        forall|i: int|
            0 <= i < before.len() ==> !(#[trigger] before[i] is Done) && !(before[i] is Error),
    ensures
        summary_of_stream(before) == Err::<Seq<char>, ErrorView>(ErrorView::ChannelClosed),
        last matches StreamEventView::Done { message, .. } ==> summary_of_stream(
            before.push(last) + after,
        ) == Ok::<Seq<char>, ErrorView>(
            crate::text::concat(
                message.content.filter(|c: AssistantContentView| c is Text).map_values(
                    |c: AssistantContentView| c->Text_0.text,
                ),
            ),
        ),
        last matches StreamEventView::Error { error, .. } ==> (summary_of_stream(
            before.push(last) + after,
        ) matches Err(e) && (error.error_message matches Some(text) ==> e == (ErrorView::Http {
            status: 0,
            message: text,
        }))),
    decreases before.len(),
{
    let all = before.push(last) + after;
    if before.len() == 0 {
        assert(all[0] == last);
        if let StreamEventView::Done { message, .. } = last {
            crate::types::law_assistant_text(message.content);
        }
    } else {
        let rest = before.subrange(1, before.len() as int);
        assert forall|i: int| 0 <= i < rest.len() implies !(#[trigger] rest[i] is Done) && !(
        rest[i] is Error) by {
            assert(rest[i] == before[i + 1]);
        }
        law_summary_is_the_response(rest, last, after);
        assert(all[0] == before[0]);
        assert(all.subrange(1, all.len() as int) =~= rest.push(last) + after);
    }
}

} // verus!
