//! Chat Completions API: the streaming state machine and request building.
//!
//! Also serves compatible APIs through another `base_url` and other model
//! settings.

use vstd::prelude::*;

use crate::provider::Provider;
use crate::json::{empty_object_value, parse_value};
use crate::providers::openai_types::{
    ChatChoiceView, ChatCompletionChunk, ChatCompletionChunkView, ChatDeltaView, ToolCallDelta,
    ToolCallDeltaView,
};
use crate::text::{is_blank, str_eq, str_strip_prefix, str_trim_start_char};
use crate::types::{
    AssistantContent, AssistantContentView, AssistantMessage, AssistantMessageView, StopReason,
    StreamEvent, StreamEventView, TextContent, TextContentView, ThinkingContent,
    ThinkingContentView, ToolCall, ToolCallView,
};

verus! {

/// An OpenAI-compatible chat completions API.
#[derive(Debug, Clone, Copy)]
pub struct OpenAi;

impl Provider for OpenAi {
    open spec fn id(&self) -> Seq<char> {
        "openai-completions"@
    }

    open spec fn keyed(&self) -> bool {
        true
    }

    fn api_id(&self) -> (r: &str) {
        "openai-completions"
    }

    fn needs_api_key(&self) -> (r: bool) {
        true
    }
}

// ---------------------------------------------------------------------------
// Lines
// ---------------------------------------------------------------------------

/// What a line of the stream asks for.
#[derive(Debug, PartialEq)]
pub enum ChatLine {
    /// Nothing.
    Skip,
    /// The stream is over.
    Done,
    /// The data of a chunk.
    Data(String),
}

/// What a line of the stream asks for.
pub enum ChatLineView {
    Skip,
    Done,
    Data(Seq<char>),
}

impl View for ChatLine {
    type V = ChatLineView;

    open spec fn view(&self) -> ChatLineView {
        match *self {
            ChatLine::Skip => ChatLineView::Skip,
            ChatLine::Done => ChatLineView::Done,
            ChatLine::Data(s) => ChatLineView::Data(s@),
        }
    }
}

/// A line `data:` carries data after any spaces, `[DONE]` being the end; blank
/// and other lines say nothing.
pub open spec fn chat_line(line: Seq<char>) -> ChatLineView {
    if crate::text::trim(line).len() == 0 {
        ChatLineView::Skip
    } else {
        match crate::text::strip_prefix(line, "data:"@) {
            Some(rest) => {
                let data = crate::text::trim_start_char(rest, ' ');
                if data == "[DONE]"@ {
                    ChatLineView::Done
                } else {
                    ChatLineView::Data(data)
                }
            },
            None => ChatLineView::Skip,
        }
    }
}

/// What a line of the stream asks for.
pub fn read_line(line: &str) -> (r: ChatLine)
    ensures
        r@ == chat_line(line@),
{
    if is_blank(line) {
        return ChatLine::Skip;
    }
    match str_strip_prefix(line, "data:") {
        Some(rest) => {
            let data = str_trim_start_char(rest.as_str(), ' ');
            if str_eq(data.as_str(), "[DONE]") {
                ChatLine::Done
            } else {
                ChatLine::Data(data)
            }
        },
        None => ChatLine::Skip,
    }
}

// ---------------------------------------------------------------------------
// State machine: specification
// ---------------------------------------------------------------------------

/// A tool call being assembled.
#[verifier::ext_equal]
pub struct ToolAccumView {
    pub id: Seq<char>,
    pub name: Seq<char>,
    pub arguments: Seq<char>,
    pub content_index: usize,
}

/// The message being assembled.
#[verifier::ext_equal]
pub struct ChatStreamState {
    pub output: AssistantMessageView,
    pub accums: Seq<ToolAccumView>,
    pub text_started: bool,
    pub thinking_started: bool,
}

/// A state, and the events reported on the way to it.
#[verifier::ext_equal]
pub struct Run {
    pub s: ChatStreamState,
    pub events: Seq<StreamEventView>,
}

/// One more event.
pub open spec fn emit(r: Run, e: StreamEventView) -> Run {
    Run { events: r.events.push(e), ..r }
}

/// The index of the last block.
pub open spec fn last_index(s: ChatStreamState) -> usize {
    (s.output.content.len() - 1) as usize
}

/// The state with one more block.
pub open spec fn with_block(s: ChatStreamState, c: AssistantContentView) -> ChatStreamState {
    ChatStreamState {
        output: AssistantMessageView { content: s.output.content.push(c), ..s.output },
        ..s
    }
}

/// The state with the block at `i` replaced.
pub open spec fn set_block(s: ChatStreamState, i: int, c: AssistantContentView) -> ChatStreamState {
    ChatStreamState {
        output: AssistantMessageView { content: s.output.content.update(i, c), ..s.output },
        ..s
    }
}

/// A thinking block grows, another block stays.
pub open spec fn more_thinking(c: AssistantContentView, t: Seq<char>) -> AssistantContentView {
    match c {
        AssistantContentView::Thinking(x) => AssistantContentView::Thinking(
            ThinkingContentView { thinking: x.thinking + t, ..x },
        ),
        _ => c,
    }
}

/// A text block grows, another block stays.
pub open spec fn more_text(c: AssistantContentView, t: Seq<char>) -> AssistantContentView {
    match c {
        AssistantContentView::Text(x) => AssistantContentView::Text(
            TextContentView { text: x.text + t, ..x },
        ),
        _ => c,
    }
}

/// A thinking block without content.
pub open spec fn empty_thinking() -> AssistantContentView {
    AssistantContentView::Thinking(
        ThinkingContentView { thinking: seq![], thinking_signature: None, redacted: false },
    )
}

/// A tool call of which nothing is known.
pub open spec fn empty_call() -> AssistantContentView {
    AssistantContentView::ToolCall(
        ToolCallView { id: seq![], name: seq![], arguments: crate::json::empty_object() },
    )
}

/// Reasoning arrives: a thinking block is opened if none is open, and grows.
pub open spec fn reasoning(r: Run, t: Seq<char>) -> Run {
    let r1 = if r.s.thinking_started {
        r
    } else {
        let s = ChatStreamState { thinking_started: true, ..with_block(r.s, empty_thinking()) };
        emit(
            Run { s, ..r },
            StreamEventView::ThinkingStart { content_index: last_index(s), partial: s.output },
        )
    };
    let ci = last_index(r1.s);
    let s = set_block(r1.s, ci as int, more_thinking(r1.s.output.content[ci as int], t));
    emit(
        Run { s, ..r1 },
        StreamEventView::ThinkingDelta { content_index: ci, delta: t, partial: s.output },
    )
}

/// The end of the last block is reported if it is a thinking block.
pub open spec fn end_thinking(r: Run) -> Run {
    let ci = last_index(r.s);
    match r.s.output.content[ci as int] {
        AssistantContentView::Thinking(t) => emit(
            r,
            StreamEventView::ThinkingEnd {
                content_index: ci,
                content: t.thinking,
                partial: r.s.output,
            },
        ),
        _ => r,
    }
}

/// The end of the last block is reported if it is a text block.
pub open spec fn end_text(r: Run) -> Run {
    let ci = last_index(r.s);
    match r.s.output.content[ci as int] {
        AssistantContentView::Text(t) => emit(
            r,
            StreamEventView::TextEnd { content_index: ci, content: t.text, partial: r.s.output },
        ),
        _ => r,
    }
}

/// No thinking block is open any more.
pub open spec fn close_thinking(r: Run) -> Run {
    if r.s.thinking_started {
        let q = end_thinking(r);
        Run { s: ChatStreamState { thinking_started: false, ..q.s }, ..q }
    } else {
        r
    }
}

/// No text block is open any more.
pub open spec fn close_text(r: Run) -> Run {
    if r.s.text_started {
        let q = end_text(r);
        Run { s: ChatStreamState { text_started: false, ..q.s }, ..q }
    } else {
        r
    }
}

/// Text arrives: thinking ends, a text block is opened if none is open, and grows.
pub open spec fn text(r: Run, t: Seq<char>) -> Run {
    let r1 = close_thinking(r);
    let r2 = if r1.s.text_started {
        r1
    } else {
        let s = ChatStreamState {
            text_started: true,
            ..with_block(r1.s, AssistantContentView::Text(crate::types::plain_text(seq![])))
        };
        emit(
            Run { s, ..r1 },
            StreamEventView::TextStart { content_index: last_index(s), partial: s.output },
        )
    };
    let ci = last_index(r2.s);
    let s = set_block(r2.s, ci as int, more_text(r2.s.output.content[ci as int], t));
    emit(
        Run { s, ..r2 },
        StreamEventView::TextDelta { content_index: ci, delta: t, partial: s.output },
    )
}

/// One more tool call is opened.
pub open spec fn open_slot(r: Run) -> Run {
    let t = with_block(r.s, empty_call());
    let ci = last_index(t);
    let s = ChatStreamState {
        accums: t.accums.push(
            ToolAccumView { id: seq![], name: seq![], arguments: seq![], content_index: ci },
        ),
        ..t
    };
    emit(
        Run { s, ..r },
        StreamEventView::ToolcallStart { content_index: ci, partial: s.output },
    )
}

/// Tool calls are opened until there is one with the given index.
pub open spec fn open_slots(r: Run, index: usize) -> Run
    decreases index + 1 - r.s.accums.len(),
{
    if r.s.accums.len() <= index {
        open_slots(open_slot(r), index)
    } else {
        r
    }
}

/// The text of an optional fragment.
pub open spec fn or_empty(t: Option<Seq<char>>) -> Seq<char> {
    match t {
        Some(s) => s,
        None => seq![],
    }
}

/// The name fragment of a tool call fragment.
pub open spec fn name_part(tc: ToolCallDeltaView) -> Seq<char> {
    match tc.function {
        Some(f) => or_empty(f.name),
        None => seq![],
    }
}

/// The argument fragment of a tool call fragment.
pub open spec fn args_part(tc: ToolCallDeltaView) -> Seq<char> {
    match tc.function {
        Some(f) => or_empty(f.arguments),
        None => seq![],
    }
}

/// A fragment of a tool call arrives.
pub open spec fn tool_delta(r: Run, tc: ToolCallDeltaView) -> Run {
    let r1 = open_slots(r, tc.index);
    let a = r1.s.accums[tc.index as int];
    let b = ToolAccumView {
        id: match tc.id {
            Some(id) => id,
            None => a.id,
        },
        name: a.name + name_part(tc),
        arguments: a.arguments + args_part(tc),
        content_index: a.content_index,
    };
    let s = ChatStreamState { accums: r1.s.accums.update(tc.index as int, b), ..r1.s };
    let r2 = Run { s, ..r1 };
    if args_part(tc).len() > 0 {
        emit(
            r2,
            StreamEventView::ToolcallDelta {
                content_index: a.content_index,
                delta: args_part(tc),
                partial: s.output,
            },
        )
    } else {
        r2
    }
}

/// Fragments of tool calls arrive one after the other.
pub open spec fn tool_deltas(r: Run, tcs: Seq<ToolCallDeltaView>) -> Run
    decreases tcs.len(),
{
    if tcs.len() == 0 {
        r
    } else {
        tool_delta(tool_deltas(r, tcs.subrange(0, tcs.len() - 1)), tcs[tcs.len() - 1])
    }
}

/// The stop reason that the API's name stands for.
pub open spec fn finish_reason_of(reason: Seq<char>) -> StopReason {
    if reason == "length"@ {
        StopReason::Length
    } else if reason == "tool_calls"@ {
        StopReason::ToolUse
    } else if reason == "content_filter"@ {
        StopReason::Error
    } else {
        StopReason::Stop
    }
}

/// What a chunk says of the message as a whole is taken over.
pub open spec fn chunk_header(s: ChatStreamState, chunk: ChatCompletionChunkView) -> ChatStreamState {
    ChatStreamState {
        output: AssistantMessageView {
            response_id: match s.output.response_id {
                Some(id) => Some(id),
                None => chunk.id,
            },
            usage: match chunk.usage {
                Some(u) => u.applied(s.output.usage),
                None => s.output.usage,
            },
            stop_reason: if chunk.choices.len() > 0 {
                match chunk.choices[0].finish_reason {
                    Some(reason) => finish_reason_of(reason),
                    None => s.output.stop_reason,
                }
            } else {
                s.output.stop_reason
            },
            ..s.output
        },
        ..s
    }
}

/// The first alternative of a chunk is taken over: reasoning, then text, then tool calls.
pub open spec fn choice_step(r: Run, c: ChatChoiceView) -> Run {
    let r1 = match c.delta.reasoning_content {
        Some(t) => reasoning(r, t),
        None => r,
    };
    let r2 = match c.delta.content {
        Some(t) => text(r1, t),
        None => r1,
    };
    match c.delta.tool_calls {
        Some(tcs) => tool_deltas(close_text(r2), tcs),
        None => r2,
    }
}

/// What a chunk does.
pub open spec fn chunk_step(r: Run, chunk: ChatCompletionChunkView) -> Run {
    let r1 = Run { s: chunk_header(r.s, chunk), ..r };
    if chunk.choices.len() > 0 {
        choice_step(r1, chunk.choices[0])
    } else {
        r1
    }
}

/// The counts of the chunk, if any, can be taken over.
pub open spec fn chunk_fits(s: ChatStreamState, chunk: ChatCompletionChunkView) -> bool {
    chunk.usage matches Some(u) ==> u.fits_spec(s.output.usage)
}

/// The arguments that collected fragments stand for: an empty object if they are no JSON.
pub open spec fn args_of(fragments: Seq<char>) -> crate::json::JsonView {
    match crate::json::json_parse(fragments) {
        Some(v) => v,
        None => crate::json::empty_object(),
    }
}

/// The tool call that collected fragments stand for.
pub open spec fn call_of(a: ToolAccumView) -> ToolCallView {
    ToolCallView { id: a.id, name: a.name, arguments: args_of(a.arguments) }
}

/// A tool call is complete.
pub open spec fn end_call(r: Run, a: ToolAccumView) -> Run {
    let ci = a.content_index as int;
    let s = if r.s.output.content[ci] is ToolCall {
        set_block(r.s, ci, AssistantContentView::ToolCall(call_of(a)))
    } else {
        r.s
    };
    emit(
        Run { s, ..r },
        StreamEventView::ToolcallEnd {
            content_index: a.content_index,
            tool_call: call_of(a),
            partial: s.output,
        },
    )
}

/// The first `n` tool calls are complete.
pub open spec fn end_calls(r: Run, n: int) -> Run
    decreases n,
{
    if n <= 0 {
        r
    } else {
        let q = end_calls(r, n - 1);
        end_call(q, r.s.accums[n - 1])
    }
}

/// The stream is over: open blocks and tool calls end, and the message is done.
pub open spec fn finish_step(r: Run) -> Run {
    let r1 = if r.s.thinking_started {
        end_thinking(r)
    } else {
        r
    };
    let r2 = if r.s.text_started {
        end_text(r1)
    } else {
        r1
    };
    let r3 = end_calls(r2, r2.s.accums.len() as int);
    emit(
        r3,
        StreamEventView::Done { reason: r3.s.output.stop_reason, message: r3.s.output },
    )
}

/// An open block exists, and every tool call stands for a block of the message.
pub open spec fn chat_wf(s: ChatStreamState) -> bool {
    &&& (s.text_started || s.thinking_started) ==> s.output.content.len() > 0
    &&& forall|i: int|
        0 <= i < s.accums.len() ==> (#[trigger] s.accums[i]).content_index < s.output.content.len()
}

/// `q` reports what `r` reported, then events that do not end the stream.
pub open spec fn continues(r: Run, q: Run) -> bool {
    &&& r.events.len() <= q.events.len()
    &&& q.events.subrange(0, r.events.len() as int) == r.events
    &&& forall|i: int|
        r.events.len() <= i < q.events.len() ==> !crate::types::is_terminal(#[trigger] q.events[i])
}

proof fn lemma_continues_trans(a: Run, b: Run, c: Run)
    requires
        continues(a, b),
        continues(b, c),
    ensures
        continues(a, c),
{
    assert(c.events.subrange(0, a.events.len() as int) =~= a.events) by {
        assert forall|i: int| 0 <= i < a.events.len() implies c.events[i] == a.events[i] by {
            assert(c.events.subrange(0, b.events.len() as int)[i] == b.events[i]);
            assert(b.events.subrange(0, a.events.len() as int)[i] == a.events[i]);
        }
    }
    assert forall|i: int| a.events.len() <= i < c.events.len() implies !crate::types::is_terminal(
        #[trigger] c.events[i],
    ) by {
        if i < b.events.len() {
            assert(c.events.subrange(0, b.events.len() as int)[i] == b.events[i]);
        }
    }
}

proof fn lemma_continues_emit(r: Run, q: Run, e: StreamEventView)
    requires
        continues(r, q),
        !crate::types::is_terminal(e),
    ensures
        continues(r, emit(q, e)),
{
    assert(emit(q, e).events.subrange(0, r.events.len() as int) =~= r.events) by {
        assert forall|i: int| 0 <= i < r.events.len() implies emit(q, e).events[i]
            == r.events[i] by {
            assert(q.events.subrange(0, r.events.len() as int)[i] == r.events[i]);
        }
    }
}

proof fn lemma_continues_self(r: Run, q: Run)
    requires
        r.events == q.events,
    ensures
        continues(r, q),
{
    assert(q.events.subrange(0, r.events.len() as int) =~= r.events);
}

proof fn lemma_open_slots_continue(r: Run, index: usize)
    ensures
        continues(r, open_slots(r, index)),
    decreases index + 1 - r.s.accums.len(),
{
    lemma_continues_self(r, r);
    if r.s.accums.len() <= index {
        let q = open_slot(r);
        lemma_continues_emit(r, r, q.events[q.events.len() - 1]);
        lemma_open_slots_continue(q, index);
        lemma_continues_trans(r, q, open_slots(q, index));
    }
}

proof fn lemma_tool_deltas_continue(r: Run, tcs: Seq<ToolCallDeltaView>)
    ensures
        continues(r, tool_deltas(r, tcs)),
    decreases tcs.len(),
{
    lemma_continues_self(r, r);
    if tcs.len() > 0 {
        let q = tool_deltas(r, tcs.subrange(0, tcs.len() - 1));
        lemma_tool_deltas_continue(r, tcs.subrange(0, tcs.len() - 1));
        let tc = tcs[tcs.len() - 1];
        let o = open_slots(q, tc.index);
        lemma_open_slots_continue(q, tc.index);
        lemma_continues_trans(r, q, o);
        let t = tool_delta(q, tc);
        if args_part(tc).len() > 0 {
            lemma_continues_emit(r, o, t.events[t.events.len() - 1]);
        } else {
            lemma_continues_self(o, t);
            lemma_continues_trans(r, o, t);
        }
    }
}

proof fn lemma_choice_continues(r: Run, c: ChatChoiceView)
    ensures
        continues(r, choice_step(r, c)),
{
    lemma_continues_self(r, r);
    let r1 = match c.delta.reasoning_content {
        Some(t) => reasoning(r, t),
        None => r,
    };
    assert(continues(r, r1)) by {
        if c.delta.reasoning_content is Some {
            let t = c.delta.reasoning_content->0;
            if !r.s.thinking_started {
                let s = ChatStreamState {
                    thinking_started: true,
                    ..with_block(r.s, empty_thinking())
                };
                let e = StreamEventView::ThinkingStart {
                    content_index: last_index(s),
                    partial: s.output,
                };
                lemma_continues_emit(r, r, e);
                lemma_continues_emit(r, emit(r, e), r1.events[r1.events.len() - 1]);
            } else {
                lemma_continues_emit(r, r, r1.events[r1.events.len() - 1]);
            }
        }
    }
    let r2 = match c.delta.content {
        Some(t) => text(r1, t),
        None => r1,
    };
    assert(continues(r, r2)) by {
        if c.delta.content is Some {
            let q = close_thinking(r1);
            assert(continues(r, q)) by {
                if r1.s.thinking_started && end_thinking(r1).events != r1.events {
                    lemma_continues_emit(r, r1, q.events[q.events.len() - 1]);
                }
            }
            if !q.s.text_started {
                let s = ChatStreamState {
                    text_started: true,
                    ..with_block(q.s, AssistantContentView::Text(crate::types::plain_text(seq![])))
                };
                let e = StreamEventView::TextStart {
                    content_index: last_index(s),
                    partial: s.output,
                };
                lemma_continues_emit(r, q, e);
                lemma_continues_emit(r, emit(q, e), r2.events[r2.events.len() - 1]);
            } else {
                lemma_continues_emit(r, q, r2.events[r2.events.len() - 1]);
            }
        }
    }
    if c.delta.tool_calls is Some {
        let q = close_text(r2);
        assert(continues(r, q)) by {
            if r2.s.text_started && end_text(r2).events != r2.events {
                lemma_continues_emit(r, r2, q.events[q.events.len() - 1]);
            }
        }
        lemma_tool_deltas_continue(q, c.delta.tool_calls->0);
        lemma_continues_trans(r, q, choice_step(r, c));
    }
}

/// A chunk adds events to what was reported and never ends the stream.
pub proof fn law_chunk_continues(r: Run, chunk: ChatCompletionChunkView)
    ensures
        continues(r, chunk_step(r, chunk)),
{
    let r1 = Run { s: chunk_header(r.s, chunk), ..r };
    lemma_continues_self(r, r1);
    if chunk.choices.len() > 0 {
        lemma_choice_continues(r1, chunk.choices[0]);
        lemma_continues_trans(r, r1, chunk_step(r, chunk));
    }
}

proof fn lemma_end_calls_continue(r: Run, n: int)
    ensures
        continues(r, end_calls(r, n)),
        end_calls(r, n).events.len() == r.events.len() + if n > 0 {
            n
        } else {
            0
        },
        end_calls(r, n).s.accums == r.s.accums,
    decreases n,
{
    lemma_continues_self(r, r);
    if n > 0 {
        lemma_end_calls_continue(r, n - 1);
        let q = end_calls(r, n - 1);
        let t = end_calls(r, n);
        lemma_continues_emit(r, q, t.events[t.events.len() - 1]);
    }
}

/// When the stream is over, the last event reported, and it alone, is
/// terminal: it carries the finished message and its stop reason. Every tool
/// call is reported as complete exactly once.
pub proof fn law_finish_is_done(r: Run)
    ensures
        ({
            let q = finish_step(r);
            let n = q.events.len();
            &&& n >= r.events.len() + r.s.accums.len() + 1
            &&& n <= r.events.len() + r.s.accums.len() + 3
            &&& q.events[n - 1] == (StreamEventView::Done {
                reason: q.s.output.stop_reason,
                message: q.s.output,
            })
            &&& q.events.subrange(0, r.events.len() as int) == r.events
            &&& forall|i: int|
                r.events.len() <= i < n - 1 ==> !crate::types::is_terminal(#[trigger] q.events[i])
        }),
{
    lemma_continues_self(r, r);
    let r1 = if r.s.thinking_started {
        end_thinking(r)
    } else {
        r
    };
    assert(continues(r, r1)) by {
        if r1.events != r.events {
            lemma_continues_emit(r, r, r1.events[r1.events.len() - 1]);
        }
    }
    let r2 = if r.s.text_started {
        end_text(r1)
    } else {
        r1
    };
    assert(continues(r, r2)) by {
        if r2.events != r1.events {
            lemma_continues_emit(r, r1, r2.events[r2.events.len() - 1]);
        }
    }
    let n = r2.s.accums.len() as int;
    lemma_end_calls_continue(r2, n);
    lemma_continues_trans(r, r2, end_calls(r2, n));
    let r3 = end_calls(r2, n);
    let q = finish_step(r);
    assert(q.events.subrange(0, r.events.len() as int) =~= r3.events.subrange(
        0,
        r.events.len() as int,
    ));
    assert forall|i: int| r.events.len() <= i < q.events.len() - 1 implies !crate::types::is_terminal(
        #[trigger] q.events[i],
    ) by {
        assert(q.events[i] == r3.events[i]);
    }
}

// ---------------------------------------------------------------------------
// State machine: code
// ---------------------------------------------------------------------------

/// The stop reason that the API's name stands for.
pub fn map_finish_reason(reason: &str) -> (r: StopReason)
    ensures
        r == finish_reason_of(reason@),
{
    if str_eq(reason, "length") {
        StopReason::Length
    } else if str_eq(reason, "tool_calls") {
        StopReason::ToolUse
    } else if str_eq(reason, "content_filter") {
        StopReason::Error
    } else {
        StopReason::Stop
    }
}

/// A tool call being assembled.
struct ToolAccum {
    id: String,
    name: String,
    arguments: String,
    content_index: usize,
}

impl DeepView for ToolAccum {
    type V = ToolAccumView;

    closed spec fn deep_view(&self) -> ToolAccumView {
        ToolAccumView {
            id: self.id@,
            name: self.name@,
            arguments: self.arguments@,
            content_index: self.content_index,
        }
    }
}

/// The state of one response being streamed.
pub struct OpenAiStream {
    output: AssistantMessage,
    tool_accums: Vec<ToolAccum>,
    text_started: bool,
    thinking_started: bool,
}

impl View for OpenAiStream {
    type V = ChatStreamState;

    closed spec fn view(&self) -> ChatStreamState {
        ChatStreamState {
            output: self.output@,
            accums: self.tool_accums.deep_view(),
            text_started: self.text_started,
            thinking_started: self.thinking_started,
        }
    }
}

/// The state of a stream together with reported events.
pub open spec fn run_of(s: ChatStreamState, events: Seq<StreamEventView>) -> Run {
    Run { s, events }
}

/// Report an event.
fn report(events: &mut Vec<StreamEvent>, e: StreamEvent)
    ensures
        final(events).deep_view() == old(events).deep_view().push(e@),
{
    let ghost pre = events.deep_view();
    events.push(e);
    assert(events.deep_view() =~= pre.push(e@));
}

impl OpenAiStream {
    /// A stream in which nothing has arrived, and the event that announces it.
    pub fn start(api_id: &str, provider: &str, model: &str) -> (r: (Self, StreamEvent))
        ensures
            r.0@.output.is_empty_of(api_id@, provider@, model@),
            r.0@.accums == Seq::<ToolAccumView>::empty(),
            !r.0@.text_started,
            !r.0@.thinking_started,
            chat_wf(r.0@),
            r.1@ == (StreamEventView::Start { partial: r.0@.output }),
    {
        let output = AssistantMessage::empty(api_id, provider, model);
        let event = StreamEvent::Start { partial: output.clone() };
        let s = OpenAiStream {
            output,
            tool_accums: Vec::new(),
            text_started: false,
            thinking_started: false,
        };
        assert(s@.accums =~= Seq::<ToolAccumView>::empty());
        (s, event)
    }

    /// The usage counted so far.
    pub fn usage(&self) -> (r: crate::types::Usage)
        ensures
            r == self@.output.usage,
    {
        self.output.usage
    }

    /// Reasoning arrives.
    fn on_reasoning(&mut self, t: &str, events: &mut Vec<StreamEvent>)
        requires
            chat_wf(old(self)@),
        ensures
            chat_wf(final(self)@),
            run_of(final(self)@, final(events).deep_view()) == reasoning(
                run_of(old(self)@, old(events).deep_view()),
                t@,
            ),
    {
        let ghost pre = self@;
        if !self.thinking_started {
            self.output.content.push(
                AssistantContent::Thinking(
                    ThinkingContent {
                        thinking: String::new(),
                        thinking_signature: None,
                        redacted: false,
                    },
                ),
            );
            self.thinking_started = true;
            assert(self@.output.content =~= pre.output.content.push(empty_thinking()));
            let ci = self.output.content.len() - 1;
            report(
                events,
                StreamEvent::ThinkingStart { content_index: ci, partial: self.output.clone() },
            );
        }
        let ghost mid = self@;
        let ci = self.output.content.len() - 1;
        if let AssistantContent::Thinking(x) = &mut self.output.content[ci] {
            x.thinking.append(t);
        }
        assert(self@.output.content =~= mid.output.content.update(
            ci as int,
            more_thinking(mid.output.content[ci as int], t@),
        ));
        report(
            events,
            StreamEvent::ThinkingDelta {
                content_index: ci,
                delta: t.to_owned(),
                partial: self.output.clone(),
            },
        );
    }

    /// Report the end of the last block if it is a thinking block.
    fn on_end_thinking(&self, events: &mut Vec<StreamEvent>)
        requires
            self@.output.content.len() > 0,
        ensures
            run_of(self@, final(events).deep_view()) == end_thinking(
                run_of(self@, old(events).deep_view()),
            ),
    {
        let ci = self.output.content.len() - 1;
        if let AssistantContent::Thinking(t) = &self.output.content[ci] {
            report(
                events,
                StreamEvent::ThinkingEnd {
                    content_index: ci,
                    content: t.thinking.clone(),
                    partial: self.output.clone(),
                },
            );
        }
    }

    /// Report the end of the last block if it is a text block.
    fn on_end_text(&self, events: &mut Vec<StreamEvent>)
        requires
            self@.output.content.len() > 0,
        ensures
            run_of(self@, final(events).deep_view()) == end_text(
                run_of(self@, old(events).deep_view()),
            ),
    {
        let ci = self.output.content.len() - 1;
        if let AssistantContent::Text(t) = &self.output.content[ci] {
            report(
                events,
                StreamEvent::TextEnd {
                    content_index: ci,
                    content: t.text.clone(),
                    partial: self.output.clone(),
                },
            );
        }
    }

    /// Text arrives.
    fn on_text(&mut self, t: &str, events: &mut Vec<StreamEvent>)
        requires
            chat_wf(old(self)@),
        ensures
            chat_wf(final(self)@),
            run_of(final(self)@, final(events).deep_view()) == text(
                run_of(old(self)@, old(events).deep_view()),
                t@,
            ),
    {
        if self.thinking_started {
            self.on_end_thinking(events);
            self.thinking_started = false;
        }
        let ghost pre = self@;
        if !self.text_started {
            self.output.content.push(AssistantContent::Text(TextContent::plain(String::new())));
            self.text_started = true;
            assert(self@.output.content =~= pre.output.content.push(
                AssistantContentView::Text(crate::types::plain_text(seq![])),
            ));
            let ci = self.output.content.len() - 1;
            report(
                events,
                StreamEvent::TextStart { content_index: ci, partial: self.output.clone() },
            );
        }
        let ghost mid = self@;
        let ci = self.output.content.len() - 1;
        if let AssistantContent::Text(x) = &mut self.output.content[ci] {
            x.text.append(t);
        }
        assert(self@.output.content =~= mid.output.content.update(
            ci as int,
            more_text(mid.output.content[ci as int], t@),
        ));
        report(
            events,
            StreamEvent::TextDelta {
                content_index: ci,
                delta: t.to_owned(),
                partial: self.output.clone(),
            },
        );
    }

    /// Open tool calls until there is one with the given index.
    fn on_slots(&mut self, index: usize, events: &mut Vec<StreamEvent>)
        requires
            chat_wf(old(self)@),
        ensures
            chat_wf(final(self)@),
            final(self)@.accums.len() > index,
            run_of(final(self)@, final(events).deep_view()) == open_slots(
                run_of(old(self)@, old(events).deep_view()),
                index,
            ),
    {
        while self.tool_accums.len() <= index
            invariant
                chat_wf(self@),
                open_slots(run_of(self@, events.deep_view()), index) == open_slots(
                    run_of(old(self)@, old(events).deep_view()),
                    index,
                ),
            decreases index + 1 - self.tool_accums.len(),
        {
            let ghost pre = self@;
            self.output.content.push(
                AssistantContent::ToolCall(
                    ToolCall {
                        id: String::new(),
                        name: String::new(),
                        arguments: empty_object_value(),
                    },
                ),
            );
            assert(self@.output.content =~= pre.output.content.push(empty_call()));
            let ci = self.output.content.len() - 1;
            let a = ToolAccum {
                id: String::new(),
                name: String::new(),
                arguments: String::new(),
                content_index: ci,
            };
            self.tool_accums.push(a);
            assert(self@.accums =~= pre.accums.push(a.deep_view()));
            report(
                events,
                StreamEvent::ToolcallStart { content_index: ci, partial: self.output.clone() },
            );
        }
    }

    /// A fragment of a tool call arrives.
    fn on_tool_delta(&mut self, tc: &ToolCallDelta, events: &mut Vec<StreamEvent>)
        requires
            chat_wf(old(self)@),
        ensures
            chat_wf(final(self)@),
            run_of(final(self)@, final(events).deep_view()) == tool_delta(
                run_of(old(self)@, old(events).deep_view()),
                tc@,
            ),
    {
        self.on_slots(tc.index, events);
        let ghost mid = self@;
        let ghost a = mid.accums[tc.index as int];
        let accum = &mut self.tool_accums[tc.index];
        let ci = accum.content_index;
        if let Some(id) = &tc.id {
            accum.id = id.clone();
        }
        let mut delta: Option<String> = None;
        if let Some(func) = &tc.function {
            if let Some(name) = &func.name {
                accum.name.append(name.as_str());
            }
            if let Some(args) = &func.arguments {
                accum.arguments.append(args.as_str());
                if !args.as_str().is_empty() {
                    delta = Some(args.clone());
                }
            }
        }
        proof {
            assert(a.name + Seq::<char>::empty() =~= a.name);
            assert(a.arguments + Seq::<char>::empty() =~= a.arguments);
            assert(self@.accums =~= mid.accums.update(
                tc.index as int,
                ToolAccumView {
                    id: match tc@.id {
                        Some(id) => id,
                        None => a.id,
                    },
                    name: a.name + name_part(tc@),
                    arguments: a.arguments + args_part(tc@),
                    content_index: a.content_index,
                },
            ));
        }
        if let Some(args) = delta {
            report(
                events,
                StreamEvent::ToolcallDelta {
                    content_index: ci,
                    delta: args,
                    partial: self.output.clone(),
                },
            );
        }
    }

    /// Take over what a chunk says of the message as a whole.
    fn on_header(&mut self, chunk: &ChatCompletionChunk)
        requires
            chunk_fits(old(self)@, chunk@),
        ensures
            final(self)@ == chunk_header(old(self)@, chunk@),
    {
        if self.output.response_id.is_none() {
            if let Some(id) = &chunk.id {
                self.output.response_id = Some(id.clone());
            }
        }
        if let Some(usage) = chunk.usage {
            usage.apply_to(&mut self.output.usage);
        }
        if chunk.choices.len() > 0 {
            if let Some(reason) = &chunk.choices[0].finish_reason {
                self.output.stop_reason = map_finish_reason(reason.as_str());
            }
        }
    }

    /// Fragments of tool calls arrive one after the other.
    fn on_tools(&mut self, tcs: &Vec<ToolCallDelta>, events: &mut Vec<StreamEvent>)
        requires
            chat_wf(old(self)@),
        ensures
            chat_wf(final(self)@),
            run_of(final(self)@, final(events).deep_view()) == tool_deltas(
                close_text(run_of(old(self)@, old(events).deep_view())),
                tcs.deep_view(),
            ),
    {
        if self.text_started {
            self.on_end_text(events);
            self.text_started = false;
        }
        let ghost base = run_of(self@, events.deep_view());
        let ghost all = tcs.deep_view();
        let mut i: usize = 0;
        assert(all.subrange(0, 0) =~= seq![]);
        while i < tcs.len()
            invariant
                i <= tcs.len(),
                all == tcs.deep_view(),
                chat_wf(self@),
                run_of(self@, events.deep_view()) == tool_deltas(base, all.subrange(0, i as int)),
            decreases tcs.len() - i,
        {
            let ghost p = all.subrange(0, i + 1);
            assert(p.subrange(0, p.len() - 1) =~= all.subrange(0, i as int));
            assert(p[i as int] == tcs[i as int]@);
            self.on_tool_delta(&tcs[i], events);
            i = i + 1;
        }
        assert(all.subrange(0, i as int) =~= all);
    }

    /// Take in a decoded chunk; the result is what to report, in order.
    pub fn apply(&mut self, chunk: ChatCompletionChunk) -> (r: Vec<StreamEvent>)
        requires
            chat_wf(old(self)@),
            chunk_fits(old(self)@, chunk@),
        ensures
            chat_wf(final(self)@),
            run_of(final(self)@, r.deep_view()) == chunk_step(run_of(old(self)@, seq![]), chunk@),
    {
        let mut events: Vec<StreamEvent> = Vec::new();
        assert(events.deep_view() =~= seq![]);
        self.on_header(&chunk);
        if chunk.choices.len() == 0 {
            return events;
        }
        let choice = &chunk.choices[0];
        assert(choice@ == chunk@.choices[0]);
        if let Some(t) = &choice.delta.reasoning_content {
            self.on_reasoning(t.as_str(), &mut events);
        }
        if let Some(t) = &choice.delta.content {
            self.on_text(t.as_str(), &mut events);
        }
        if let Some(tcs) = &choice.delta.tool_calls {
            self.on_tools(tcs, &mut events);
        }
        events
    }

    /// The stream is over; the result is what to report, in order.
    pub fn finish(&mut self) -> (r: Vec<StreamEvent>)
        requires
            chat_wf(old(self)@),
        ensures
            run_of(final(self)@, r.deep_view()) == finish_step(run_of(old(self)@, seq![])),
    {
        let mut events: Vec<StreamEvent> = Vec::new();
        assert(events.deep_view() =~= seq![]);
        if self.thinking_started {
            self.on_end_thinking(&mut events);
        }
        if self.text_started {
            self.on_end_text(&mut events);
        }
        let ghost base = run_of(self@, events.deep_view());
        let mut i: usize = 0;
        while i < self.tool_accums.len()
            invariant
                i <= self.tool_accums.len(),
                chat_wf(self@),
                self@.accums == base.s.accums,
                run_of(self@, events.deep_view()) == end_calls(base, i as int),
            decreases self.tool_accums.len() - i,
        {
            let ghost pre = self@;
            let ghost a = pre.accums[i as int];
            assert(a == self.tool_accums[i as int].deep_view());
            let ci = self.tool_accums[i].content_index;
            let args = match parse_value(self.tool_accums[i].arguments.as_str()) {
                Some(v) => v,
                None => empty_object_value(),
            };
            let tool_call = ToolCall {
                id: self.tool_accums[i].id.clone(),
                name: self.tool_accums[i].name.clone(),
                arguments: args,
            };
            assert(tool_call@ == call_of(a));
            if let AssistantContent::ToolCall(tc) = &mut self.output.content[ci] {
                *tc = tool_call.clone();
            }
            proof {
                if pre.output.content[ci as int] is ToolCall {
                    assert(self@.output.content =~= pre.output.content.update(
                        ci as int,
                        AssistantContentView::ToolCall(call_of(a)),
                    ));
                } else {
                    assert(self@.output.content =~= pre.output.content);
                }
                assert(self@ == end_call(run_of(pre, events.deep_view()), a).s);
            }
            report(
                &mut events,
                StreamEvent::ToolcallEnd {
                    content_index: ci,
                    tool_call,
                    partial: self.output.clone(),
                },
            );
            i = i + 1;
        }
        report(
            &mut events,
            StreamEvent::Done {
                reason: self.output.stop_reason,
                message: self.output.clone(),
            },
        );
        events
    }
}

// ---------------------------------------------------------------------------
// Whole streams
// ---------------------------------------------------------------------------

/// A chunk that brings a fragment of the message and nothing else.
pub open spec fn bringing(
    thought: Option<Seq<char>>,
    words: Option<Seq<char>>,
    calls: Option<Seq<ToolCallDeltaView>>,
) -> ChatCompletionChunkView {
    ChatCompletionChunkView {
        id: None,
        usage: None,
        choices: seq![
            ChatChoiceView {
                finish_reason: None,
                delta: ChatDeltaView {
                    reasoning_content: thought,
                    content: words,
                    tool_calls: calls,
                },
            },
        ],
    }
}

/// The run after thoughts have arrived one by one.
pub open spec fn after_thoughts(r: Run, thoughts: Seq<Seq<char>>) -> Run
    decreases thoughts.len(),
{
    if thoughts.len() == 0 {
        r
    } else {
        chunk_step(
            after_thoughts(r, thoughts.drop_last()),
            bringing(Some(thoughts.last()), None, None),
        )
    }
}

/// The run after pieces of text have arrived one by one.
pub open spec fn after_words(r: Run, words: Seq<Seq<char>>) -> Run
    decreases words.len(),
{
    if words.len() == 0 {
        r
    } else {
        chunk_step(
            after_words(r, words.drop_last()),
            bringing(None, Some(words.last()), None),
        )
    }
}

/// The run after fragments of tool calls have arrived one by one.
pub open spec fn after_fragments(r: Run, fragments: Seq<ToolCallDeltaView>) -> Run
    decreases fragments.len(),
{
    if fragments.len() == 0 {
        r
    } else {
        chunk_step(
            after_fragments(r, fragments.drop_last()),
            bringing(None, None, Some(seq![fragments.last()])),
        )
    }
}

/// The id that was given last for the tool call `k`.
pub open spec fn id_for(fragments: Seq<ToolCallDeltaView>, k: int) -> Seq<char>
    decreases fragments.len(),
{
    if fragments.len() == 0 {
        seq![]
    } else {
        match fragments.last().id {
            Some(id) => if fragments.last().index == k {
                id
            } else {
                id_for(fragments.drop_last(), k)
            },
            None => id_for(fragments.drop_last(), k),
        }
    }
}

/// The pieces of the name of the tool call `k`.
pub open spec fn name_for(fragments: Seq<ToolCallDeltaView>, k: int) -> Seq<char>
    decreases fragments.len(),
{
    if fragments.len() == 0 {
        seq![]
    } else {
        name_for(fragments.drop_last(), k) + match fragments.last().function {
            Some(f) => match f.name {
                Some(s) => if fragments.last().index == k {
                    s
                } else {
                    seq![]
                },
                None => seq![],
            },
            None => seq![],
        }
    }
}

/// The pieces of the arguments of the tool call `k`.
pub open spec fn arguments_for(fragments: Seq<ToolCallDeltaView>, k: int) -> Seq<char>
    decreases fragments.len(),
{
    if fragments.len() == 0 {
        seq![]
    } else {
        arguments_for(fragments.drop_last(), k) + match fragments.last().function {
            Some(f) => match f.arguments {
                Some(s) => if fragments.last().index == k {
                    s
                } else {
                    seq![]
                },
                None => seq![],
            },
            None => seq![],
        }
    }
}

proof fn lemma_header(s: ChatStreamState, chunk: ChatCompletionChunkView)
    requires
        chunk.id is None,
        chunk.usage is None,
        chunk.choices.len() == 1,
        chunk.choices[0].finish_reason is None,
    ensures
        chunk_header(s, chunk) == s,
{
}

proof fn lemma_thoughts(r: Run, thoughts: Seq<Seq<char>>)
    requires
        r.s.output.content.len() == 0,
        !r.s.text_started,
        !r.s.thinking_started,
        thoughts.len() > 0,
    ensures
        ({
            let q = after_thoughts(r, thoughts);
            &&& q.s == (ChatStreamState {
                output: AssistantMessageView {
                    content: seq![
                        AssistantContentView::Thinking(
                            ThinkingContentView {
                                thinking: crate::text::concat(thoughts),
                                thinking_signature: None,
                                redacted: false,
                            },
                        ),
                    ],
                    ..r.s.output
                },
                thinking_started: true,
                ..r.s
            })
        }),
    decreases thoughts.len(),
{
    let init = thoughts.drop_last();
    let t = thoughts.last();
    assert(thoughts.subrange(0, thoughts.len() - 1) =~= init);
    let p = after_thoughts(r, init);
    let chunk = bringing(Some(t), None, None);
    lemma_header(p.s, chunk);
    let q = after_thoughts(r, thoughts);
    let all = AssistantContentView::Thinking(
        ThinkingContentView {
            thinking: crate::text::concat(thoughts),
            thinking_signature: None,
            redacted: false,
        },
    );
    if init.len() == 0 {
        assert(crate::text::concat(init).len() == 0);
        assert(Seq::<char>::empty() + t =~= crate::text::concat(thoughts));
        assert(q.s.output.content =~= seq![all]);
    } else {
        lemma_thoughts(r, init);
        assert(q.s.output.content =~= seq![all]);
    }
}

proof fn lemma_words(r: Run, words: Seq<Seq<char>>)
    requires
        r.s.output.content.len() <= 1,
        !r.s.text_started,
        r.s.thinking_started ==> r.s.output.content.len() == 1,
        words.len() > 0,
    ensures
        after_words(r, words).s == (ChatStreamState {
            output: AssistantMessageView {
                content: r.s.output.content.push(
                    AssistantContentView::Text(
                        crate::types::plain_text(crate::text::concat(words)),
                    ),
                ),
                ..r.s.output
            },
            text_started: true,
            thinking_started: false,
            ..r.s
        }),
    decreases words.len(),
{
    let init = words.drop_last();
    let t = words.last();
    assert(words.subrange(0, words.len() - 1) =~= init);
    let p = after_words(r, init);
    let chunk = bringing(None, Some(t), None);
    lemma_header(p.s, chunk);
    let q = after_words(r, words);
    let all = AssistantContentView::Text(crate::types::plain_text(crate::text::concat(words)));
    if init.len() == 0 {
        assert(crate::text::concat(init).len() == 0);
        assert(Seq::<char>::empty() + t =~= crate::text::concat(words));
        assert(q.s.output.content =~= r.s.output.content.push(all));
    } else {
        lemma_words(r, init);
        assert(q.s.output.content =~= r.s.output.content.push(all));
    }
}

/// Whether tool calls stand one behind the other from `base` on, with nothing behind them.
pub open spec fn calls_from(s: ChatStreamState, base: int) -> bool {
    &&& 0 <= base
    &&& s.output.content.len() == base + s.accums.len()
    &&& forall|k: int|
        0 <= k < s.accums.len() ==> (#[trigger] s.accums[k]).content_index == base + k
            && s.output.content[base + k] is ToolCall
}

proof fn lemma_slots(r: Run, index: usize, base: int)
    requires
        calls_from(r.s, base),
        base + index < usize::MAX,
        base + r.s.accums.len() <= usize::MAX,
    ensures
        ({
            let q = open_slots(r, index);
            let n = r.s.accums.len();
            &&& calls_from(q.s, base)
            &&& q.s.accums.len() == if n <= index {
                index + 1
            } else {
                n as int
            }
            &&& q.s.accums.subrange(0, n as int) == r.s.accums
            &&& forall|k: int|
                n <= k < q.s.accums.len() ==> {
                    let a = #[trigger] q.s.accums[k];
                    a.id.len() == 0 && a.name.len() == 0 && a.arguments.len() == 0
                }
            &&& q.s.output.content.subrange(0, base) == r.s.output.content.subrange(0, base)
            &&& q.s == (ChatStreamState {
                accums: q.s.accums,
                output: AssistantMessageView { content: q.s.output.content, ..r.s.output },
                ..r.s
            })
        }),
    decreases index + 1 - r.s.accums.len(),
{
    let n = r.s.accums.len();
    if n <= index {
        let m = open_slot(r);
        assert(m.s.accums[n as int].content_index == base + n);
        assert forall|k: int| 0 <= k < m.s.accums.len() implies (
        #[trigger] m.s.accums[k]).content_index == base + k && m.s.output.content[base
            + k] is ToolCall by {
            if k < n {
                assert(m.s.accums[k] == r.s.accums[k]);
                assert(m.s.output.content[base + k] == r.s.output.content[base + k]);
            }
        }
        lemma_slots(m, index, base);
        let q = open_slots(r, index);
        assert(q.s.accums.subrange(0, n as int) =~= r.s.accums) by {
            assert(m.s.accums.subrange(0, n as int) =~= r.s.accums);
            assert(q.s.accums.subrange(0, n as int) =~= q.s.accums.subrange(
                0,
                (n + 1) as int,
            ).subrange(0, n as int));
        }
        assert forall|k: int| n <= k < q.s.accums.len() implies {
            let a = #[trigger] q.s.accums[k];
            a.id.len() == 0 && a.name.len() == 0 && a.arguments.len() == 0
        } by {
            if k == n {
                assert(q.s.accums.subrange(0, (n + 1) as int)[k] == m.s.accums[k]);
            }
        }
        assert(m.s.output.content.subrange(0, base) =~= r.s.output.content.subrange(0, base));
    } else {
        assert(r.s.accums.subrange(0, n as int) =~= r.s.accums);
    }
}

/// What is collected for each tool call.
pub open spec fn collected(s: ChatStreamState, fragments: Seq<ToolCallDeltaView>) -> bool {
    &&& forall|i: int| 0 <= i < fragments.len() ==> (#[trigger] fragments[i]).index < s.accums.len()
    &&& forall|k: int|
        0 <= k < s.accums.len() ==> {
            let a = #[trigger] s.accums[k];
            &&& a.id == id_for(fragments, k)
            &&& a.name == name_for(fragments, k)
            &&& a.arguments == arguments_for(fragments, k)
        }
}

proof fn lemma_never_mentioned(fragments: Seq<ToolCallDeltaView>, k: int)
    requires
        forall|i: int| 0 <= i < fragments.len() ==> (#[trigger] fragments[i]).index != k,
    ensures
        id_for(fragments, k).len() == 0,
        name_for(fragments, k).len() == 0,
        arguments_for(fragments, k).len() == 0,
    decreases fragments.len(),
{
    if fragments.len() > 0 {
        let init = fragments.drop_last();
        assert forall|i: int| 0 <= i < init.len() implies (#[trigger] init[i]).index != k by {
            assert(init[i] == fragments[i]);
        }
        lemma_never_mentioned(init, k);
        assert(fragments[fragments.len() - 1].index != k);
    }
}

proof fn lemma_fragments(r: Run, fragments: Seq<ToolCallDeltaView>, base: int)
    requires
        r.s.output.content.len() == base,
        r.s.accums.len() == 0,
        fragments.len() > 0,
        forall|i: int|
            0 <= i < fragments.len() ==> base + (#[trigger] fragments[i]).index < usize::MAX,
    ensures
        ({
            let q = after_fragments(r, fragments);
            &&& calls_from(q.s, base)
            &&& base + q.s.accums.len() <= usize::MAX
            &&& collected(q.s, fragments)
            &&& q.s.output.content.subrange(0, base) == r.s.output.content
            &&& q.s.thinking_started == r.s.thinking_started
            &&& !q.s.text_started
            &&& q.s.output == (AssistantMessageView {
                content: q.s.output.content,
                ..r.s.output
            })
        }),
    decreases fragments.len(),
{
    let init = fragments.drop_last();
    let f = fragments.last();
    assert(f == fragments[fragments.len() - 1]);
    let p = after_fragments(r, init);
    if init.len() > 0 {
        assert forall|i: int| 0 <= i < init.len() implies base + (#[trigger] init[i]).index
            < usize::MAX by {
            assert(init[i] == fragments[i]);
        }
        lemma_fragments(r, init, base);
    } else {
        assert(r.s.output.content.subrange(0, base) =~= r.s.output.content);
    }
    let chunk = bringing(None, None, Some(seq![f]));
    lemma_header(p.s, chunk);
    let closed = close_text(p);
    assert(calls_from(closed.s, base));
    assert(seq![f].subrange(0, 0) =~= Seq::empty());
    assert(tool_deltas(closed, Seq::empty()) == closed);
    let q = after_fragments(r, fragments);
    assert(q == tool_delta(closed, f));
    lemma_slots(closed, f.index, base);
    let o = open_slots(closed, f.index);
    let n = closed.s.accums.len();
    assert(q.s.output == o.s.output);
    assert forall|k: int| 0 <= k < q.s.accums.len() implies (
    #[trigger] q.s.accums[k]).content_index == base + k && q.s.output.content[base
        + k] is ToolCall by {
        assert(o.s.accums[k].content_index == base + k);
    }
    assert forall|i: int| 0 <= i < fragments.len() implies (#[trigger] fragments[i]).index
        < q.s.accums.len() by {
        if i < init.len() {
            assert(init[i] == fragments[i]);
        }
    }
    assert forall|k: int| 0 <= k < q.s.accums.len() implies {
        let a = #[trigger] q.s.accums[k];
        &&& a.id == id_for(fragments, k)
        &&& a.name == name_for(fragments, k)
        &&& a.arguments == arguments_for(fragments, k)
    } by {
        let b = o.s.accums[k];
        if k < n {
            assert(o.s.accums.subrange(0, n as int)[k] == closed.s.accums[k]);
            assert(b == closed.s.accums[k]);
        } else {
            assert forall|i: int| 0 <= i < init.len() implies (#[trigger] init[i]).index != k by {
                assert(init[i].index < n);
            }
            lemma_never_mentioned(init, k);
            assert(b.id =~= id_for(init, k));
            assert(b.name =~= name_for(init, k));
            assert(b.arguments =~= arguments_for(init, k));
        }
        let a = q.s.accums[k];
        assert(a.name =~= name_for(fragments, k));
        assert(a.arguments =~= arguments_for(fragments, k));
    }
    assert(q.s.output.content.subrange(0, base) =~= r.s.output.content);
}

proof fn lemma_calls_end(r: Run, base: int, n: int)
    requires
        calls_from(r.s, base),
        0 <= n <= r.s.accums.len(),
    ensures
        ({
            let q = end_calls(r, n);
            &&& q.s.output.content.len() == r.s.output.content.len()
            &&& forall|k: int|
                0 <= k < r.s.accums.len() ==> #[trigger] q.s.output.content[base + k] == (if k < n {
                    AssistantContentView::ToolCall(call_of(r.s.accums[k]))
                } else {
                    r.s.output.content[base + k]
                })
            &&& q.s.output.content.subrange(0, base) == r.s.output.content.subrange(0, base)
            &&& q.s.output == (AssistantMessageView {
                content: q.s.output.content,
                ..r.s.output
            })
        }),
    decreases n,
{
    if n > 0 {
        lemma_calls_end(r, base, n - 1);
        let p = end_calls(r, n - 1);
        let q = end_calls(r, n);
        let a = r.s.accums[n - 1];
        assert(a.content_index == base + (n - 1));
        assert(p.s.output.content[base + (n - 1)] == r.s.output.content[base + (n - 1)]);
        assert(q.s.output.content.subrange(0, base) =~= p.s.output.content.subrange(0, base));
        assert forall|k: int| 0 <= k < r.s.accums.len() implies #[trigger] q.s.output.content[base
            + k] == (if k < n {
            AssistantContentView::ToolCall(call_of(r.s.accums[k]))
        } else {
            r.s.output.content[base + k]
        }) by {
            assert(p.s.output.content[base + k] == if k < n - 1 {
                AssistantContentView::ToolCall(call_of(r.s.accums[k]))
            } else {
                r.s.output.content[base + k]
            });
        }
    }
}

/// The message that a stream brings: the thoughts in one block, the text in the next, and then the
/// tool calls in the order of their numbers, each with the id, the name and the arguments that its
/// fragments make up; arguments that are no JSON are left out. It is done with that message.
pub proof fn law_message_of_a_stream(
    r: Run,
    thoughts: Seq<Seq<char>>,
    words: Seq<Seq<char>>,
    fragments: Seq<ToolCallDeltaView>,
)
    requires
        r.s.output.content.len() == 0,
        r.s.accums.len() == 0,
        !r.s.text_started,
        !r.s.thinking_started,
        forall|i: int|
            0 <= i < fragments.len() ==> (#[trigger] fragments[i]).index < usize::MAX - 2,
    ensures
        ({
            let done = finish_step(
                after_fragments(after_words(after_thoughts(r, thoughts), words), fragments),
            );
            let content = done.s.output.content;
            let first = if thoughts.len() > 0 {
                1int
            } else {
                0int
            };
            let base = first + if words.len() > 0 {
                1int
            } else {
                0int
            };
            &&& content.len() >= base
            &&& thoughts.len() > 0 ==> (content[0] matches AssistantContentView::Thinking(t)
                && t.thinking == crate::text::concat(thoughts))
            &&& words.len() > 0 ==> (content[first] matches AssistantContentView::Text(t) && t.text
                == crate::text::concat(words))
            &&& fragments.len() == 0 ==> content.len() == base
            &&& forall|i: int|
                0 <= i < fragments.len() ==> base + (#[trigger] fragments[i]).index < content.len()
            &&& forall|k: int|
                base <= k < content.len() ==> {
                    &&& #[trigger] content[k] matches AssistantContentView::ToolCall(call)
                    &&& call.id == id_for(fragments, k - base)
                    &&& call.name == name_for(fragments, k - base)
                    &&& crate::json::json_parse(
                        arguments_for(fragments, k - base),
                    ) matches Some(v) ==> call.arguments == v
                    &&& crate::json::json_parse(arguments_for(fragments, k - base)) is None
                        ==> call.arguments == crate::json::empty_object()
                }
            &&& done.events.len() > 0
            &&& done.events.last() matches StreamEventView::Done { reason, message }
            &&& message == done.s.output
            &&& reason == r.s.output.stop_reason
        }),
{
    let a = after_thoughts(r, thoughts);
    if thoughts.len() > 0 {
        lemma_thoughts(r, thoughts);
    }
    let b = after_words(a, words);
    if words.len() > 0 {
        lemma_words(a, words);
    }
    let base = b.s.output.content.len() as int;
    let c = after_fragments(b, fragments);
    if fragments.len() > 0 {
        lemma_fragments(b, fragments, base);
        if thoughts.len() > 0 {
            assert(c.s.output.content.subrange(0, base)[0] == b.s.output.content[0]);
        }
        if base > 0 {
            assert(c.s.output.content.subrange(0, base)[base - 1] == b.s.output.content[base - 1]);
        }
    }
    assert(calls_from(c.s, base));
    assert(collected(c.s, fragments));
    let d = if c.s.thinking_started {
        end_thinking(c)
    } else {
        c
    };
    let e = if c.s.text_started {
        end_text(d)
    } else {
        d
    };
    assert(e.s == c.s);
    let n = e.s.accums.len() as int;
    lemma_calls_end(e, base, n);
    let f = end_calls(e, n);
    let done = finish_step(c);
    assert(done.s == f.s);
    let content = done.s.output.content;
    assert forall|k: int| base <= k < content.len() implies {
        &&& #[trigger] content[k] matches AssistantContentView::ToolCall(call)
        &&& call.id == id_for(fragments, k - base)
        &&& call.name == name_for(fragments, k - base)
        &&& crate::json::json_parse(arguments_for(fragments, k - base)) matches Some(v)
            ==> call.arguments == v
        &&& crate::json::json_parse(arguments_for(fragments, k - base)) is None ==> call.arguments
            == crate::json::empty_object()
    } by {
        let x = c.s.accums[k - base];
        assert(f.s.output.content[base + (k - base)] == AssistantContentView::ToolCall(
            call_of(e.s.accums[k - base]),
        ));
    }
    if base > 0 {
        assert(f.s.output.content.subrange(0, base)[0] == c.s.output.content.subrange(0, base)[0]);
        assert(f.s.output.content.subrange(0, base)[base - 1] == c.s.output.content.subrange(
            0,
            base,
        )[base - 1]);
    }
}

/// A chunk with several fragments of tool calls does to the message what several chunks with one each
/// do.
pub proof fn law_fragments_may_share_a_chunk(
    r: Run,
    a: Seq<ToolCallDeltaView>,
    b: Seq<ToolCallDeltaView>,
)
    ensures
        chunk_step(r, bringing(None, None, Some(a + b))) == chunk_step(
            chunk_step(r, bringing(None, None, Some(a))),
            bringing(None, None, Some(b)),
        ),
{
    lemma_header(r.s, bringing(None, None, Some(a + b)));
    lemma_header(r.s, bringing(None, None, Some(a)));
    let p = tool_deltas(close_text(r), a);
    lemma_header(p.s, bringing(None, None, Some(b)));
    lemma_deltas_add(close_text(r), a, b);
    lemma_text_stays_closed(close_text(r), a);
}

proof fn lemma_deltas_add(r: Run, a: Seq<ToolCallDeltaView>, b: Seq<ToolCallDeltaView>)
    ensures
        tool_deltas(r, a + b) == tool_deltas(tool_deltas(r, a), b),
    decreases b.len(),
{
    let all = a + b;
    if b.len() == 0 {
        assert(all =~= a);
    } else {
        let init = b.subrange(0, b.len() - 1);
        assert(all.subrange(0, all.len() - 1) =~= a + init);
        lemma_deltas_add(r, a, init);
    }
}

proof fn lemma_slots_flag(r: Run, index: usize)
    ensures
        open_slots(r, index).s.text_started == r.s.text_started,
    decreases index + 1 - r.s.accums.len(),
{
    if r.s.accums.len() <= index {
        lemma_slots_flag(open_slot(r), index);
    }
}

proof fn lemma_text_stays_closed(r: Run, tcs: Seq<ToolCallDeltaView>)
    ensures
        tool_deltas(r, tcs).s.text_started == r.s.text_started,
    decreases tcs.len(),
{
    if tcs.len() > 0 {
        let init = tcs.subrange(0, tcs.len() - 1);
        lemma_text_stays_closed(r, init);
        lemma_slots_flag(tool_deltas(r, init), tcs[tcs.len() - 1].index);
    }
}

/// Each piece of text or thought, and each piece of arguments, is reported as it came.
pub proof fn law_pieces_are_reported(r: Run, piece: Seq<char>, fragment: ToolCallDeltaView)
    ensures
        chunk_step(
            r,
            bringing(Some(piece), None, None),
        ).events.last() matches StreamEventView::ThinkingDelta { delta, .. } && delta == piece,
        chunk_step(
            r,
            bringing(None, Some(piece), None),
        ).events.last() matches StreamEventView::TextDelta { delta, .. } && delta == piece,
        (fragment.function matches Some(f) && f.arguments == Some(piece) && piece.len() > 0) ==> (
        chunk_step(
            r,
            bringing(None, None, Some(seq![fragment])),
        ).events.last() matches StreamEventView::ToolcallDelta { delta, .. } && delta == piece),
{
    lemma_header(r.s, bringing(None, None, Some(seq![fragment])));
    assert(seq![fragment].subrange(0, 0) =~= Seq::empty());
    assert(tool_deltas(close_text(r), Seq::empty()) == close_text(r));
}

/// The reason that a chunk gives for the end is that of the message: the limit of the answer, tools to
/// be run, a filter, which is an error, or a normal end. The first id stays. Counts are taken over:
/// what came from the cache is no fresh input, and reasoning is output.
pub proof fn law_header(s: ChatStreamState, chunk: ChatCompletionChunkView)
    ensures
        ({
            let t = chunk_header(s, chunk).output;
            &&& t.content == s.output.content
            &&& s.output.response_id is Some ==> t.response_id == s.output.response_id
            &&& s.output.response_id is None ==> t.response_id == chunk.id
            &&& chunk.choices.len() > 0 ==> match chunk.choices[0].finish_reason {
                Some(reason) => t.stop_reason == (if reason == "length"@ {
                    StopReason::Length
                } else if reason == "tool_calls"@ {
                    StopReason::ToolUse
                } else if reason == "content_filter"@ {
                    StopReason::Error
                } else {
                    StopReason::Stop
                }),
                None => t.stop_reason == s.output.stop_reason,
            }
            &&& chunk.usage is None ==> t.usage == s.output.usage
            &&& chunk.usage matches Some(u) ==> chunk_fits(s, chunk) ==> {
                &&& u.prompt_tokens >= u.cached_tokens ==> t.usage.input + t.usage.cache_read
                    == u.prompt_tokens
                &&& u.prompt_tokens < u.cached_tokens ==> t.usage.input == 0
                &&& t.usage.cache_read == u.cached_tokens
                &&& t.usage.output == u.completion_tokens + u.reasoning_tokens
                &&& t.usage.total_tokens == t.usage.input + t.usage.output + t.usage.cache_read
                    + t.usage.cache_write
            }
        }),
{
}

/// Each piece of the arguments of a call is reported at the place of that call, and each call that is
/// complete with its id, its name and its arguments, at its place.
pub proof fn law_calls_are_reported(r: Run, fragment: ToolCallDeltaView, a: ToolAccumView)
    ensures
        args_part(fragment).len() > 0 ==> (tool_delta(r, fragment).events.last()
            matches StreamEventView::ToolcallDelta { content_index, delta, .. } && content_index
            == open_slots(r, fragment.index).s.accums[fragment.index as int].content_index && delta
            == args_part(fragment)),
        open_slot(r).events.last() matches StreamEventView::ToolcallStart { content_index, partial }
            && partial == open_slot(r).s.output && (r.s.output.content.len() < usize::MAX
            ==> content_index == r.s.output.content.len() && open_slot(
            r,
        ).s.accums.last().content_index == content_index),
        end_call(r, a).events.last() matches StreamEventView::ToolcallEnd {
            content_index,
            tool_call,
            partial,
        } && content_index == a.content_index && tool_call.id == a.id && tool_call.name == a.name
            && partial == end_call(r, a).s.output && (crate::json::json_parse(a.arguments)
            matches Some(v) ==> tool_call.arguments == v),
{
}

/// The start and the end of a text and of a thought are reported with the place of their block, and the
/// end with all of it.
pub proof fn law_blocks_are_reported(r: Run, piece: Seq<char>)
    requires
        0 < r.s.output.content.len() < usize::MAX,
    ensures
        ({
            let n = r.s.output.content.len();
            let last = r.s.output.content.last();
            &&& !r.s.thinking_started ==> {
                let after = reasoning(r, piece).events;
                &&& after.len() == r.events.len() + 2
                &&& after[r.events.len() as int] matches StreamEventView::ThinkingStart {
                    content_index,
                    ..
                } && content_index == n
                &&& after.last() matches StreamEventView::ThinkingDelta { content_index, delta, .. }
                    && content_index == n && delta == piece
            }
            &&& last matches AssistantContentView::Thinking(t) ==> (end_thinking(r).events.last()
                matches StreamEventView::ThinkingEnd { content_index, content, .. }
                && content_index == n - 1 && content == t.thinking)
            &&& last matches AssistantContentView::Text(t) ==> (end_text(r).events.last()
                matches StreamEventView::TextEnd { content_index, content, .. } && content_index
                == n - 1 && content == t.text)
            &&& !r.s.thinking_started && !r.s.text_started ==> {
                let after = text(r, piece).events;
                &&& after.len() == r.events.len() + 2
                &&& after[r.events.len() as int] matches StreamEventView::TextStart {
                    content_index,
                    ..
                } && content_index == n
                &&& after.last() matches StreamEventView::TextDelta { content_index, delta, .. }
                    && content_index == n && delta == piece
            }
        }),
{
}

} // verus!
