//! Anthropic Messages API: the streaming state machine and request building.

use std::collections::HashMap;

use vstd::prelude::*;

use crate::provider::Provider;
use crate::json::{as_str, empty_object_value, get, parse_value};
use crate::providers::anthropic_types::{
    ApiUsage, ContentBlock, ContentBlockDeltaEvent, ContentBlockDeltaEventView, ContentBlockStartEvent, ContentBlockStopEvent,
    ContentBlockView, Delta, DeltaView, WireEvent, WireEventView,
};
use crate::text::{str_eq, str_strip_prefix};
use crate::types::{
    AssistantContent, AssistantContentView, AssistantMessage, AssistantMessageView, StopReason,
    StreamEvent, StreamEventView, TextContent, TextContentView, ThinkingContent,
    ThinkingContentView, ToolCall, ToolCallView, Usage,
};

verus! {

/// The Anthropic Messages API.
#[derive(Debug, Clone, Copy)]
pub struct Anthropic;

impl Provider for Anthropic {
    open spec fn id(&self) -> Seq<char> {
        "anthropic-messages"@
    }

    open spec fn keyed(&self) -> bool {
        true
    }

    fn api_id(&self) -> (r: &str) {
        "anthropic-messages"
    }

    fn needs_api_key(&self) -> (r: bool) {
        true
    }
}

// ---------------------------------------------------------------------------
// Lines
// ---------------------------------------------------------------------------

/// The kinds of events that carry something for the message.
#[derive(Debug, Clone, Copy, PartialEq, Eq, Structural)]
pub enum EventKind {
    MessageStart,
    ContentBlockStart,
    ContentBlockDelta,
    ContentBlockStop,
    MessageDelta,
    MessageStop,
    Error,
    Other,
}

/// The kind that an event name stands for.
pub open spec fn kind_of(name: Seq<char>) -> EventKind {
    if name == "message_start"@ {
        EventKind::MessageStart
    } else if name == "content_block_start"@ {
        EventKind::ContentBlockStart
    } else if name == "content_block_delta"@ {
        EventKind::ContentBlockDelta
    } else if name == "content_block_stop"@ {
        EventKind::ContentBlockStop
    } else if name == "message_delta"@ {
        EventKind::MessageDelta
    } else if name == "message_stop"@ {
        EventKind::MessageStop
    } else if name == "error"@ {
        EventKind::Error
    } else {
        EventKind::Other
    }
}

/// The kind that an event name stands for.
pub fn event_kind(name: &str) -> (r: EventKind)
    ensures
        r == kind_of(name@),
{
    if str_eq(name, "message_start") {
        EventKind::MessageStart
    } else if str_eq(name, "content_block_start") {
        EventKind::ContentBlockStart
    } else if str_eq(name, "content_block_delta") {
        EventKind::ContentBlockDelta
    } else if str_eq(name, "content_block_stop") {
        EventKind::ContentBlockStop
    } else if str_eq(name, "message_delta") {
        EventKind::MessageDelta
    } else if str_eq(name, "message_stop") {
        EventKind::MessageStop
    } else if str_eq(name, "error") {
        EventKind::Error
    } else {
        EventKind::Other
    }
}

/// What a line of the stream asks for.
#[derive(Debug, PartialEq)]
pub enum LineAction {
    /// The following data belongs to events of this name.
    SetEvent(String),
    /// The data of an event.
    Data(String),
    /// Nothing.
    Skip,
}

/// What a line of the stream asks for.
pub enum LineActionView {
    SetEvent(Seq<char>),
    Data(Seq<char>),
    Skip,
}

impl View for LineAction {
    type V = LineActionView;

    open spec fn view(&self) -> LineActionView {
        match *self {
            LineAction::SetEvent(s) => LineActionView::SetEvent(s@),
            LineAction::Data(s) => LineActionView::Data(s@),
            LineAction::Skip => LineActionView::Skip,
        }
    }
}

/// A line `event: name` sets the event name, a line `data: ...` carries data,
/// every other line says nothing.
pub open spec fn line_action(line: Seq<char>) -> LineActionView {
    match crate::text::strip_prefix(line, "event: "@) {
        Some(name) => LineActionView::SetEvent(name),
        None => match crate::text::strip_prefix(line, "data: "@) {
            Some(data) => LineActionView::Data(data),
            None => LineActionView::Skip,
        },
    }
}

/// What a line of the stream asks for.
pub fn read_line(line: &str) -> (r: LineAction)
    ensures
        r@ == line_action(line@),
{
    match str_strip_prefix(line, "event: ") {
        Some(name) => LineAction::SetEvent(name),
        None => match str_strip_prefix(line, "data: ") {
            Some(data) => LineAction::Data(data),
            None => LineAction::Skip,
        },
    }
}

// ---------------------------------------------------------------------------
// State machine: specification
// ---------------------------------------------------------------------------

/// The message being assembled, and what is known of its blocks.
#[verifier::ext_equal]
pub struct StreamState {
    pub output: AssistantMessageView,
    /// Wire index and content index of each block, in order of arrival.
    pub blocks: Seq<(u64, usize)>,
    /// JSON fragments of tool arguments by wire index.
    pub accum: Map<u64, Seq<char>>,
    pub finished: bool,
}

/// The content index of the first block with the wire index `index`.
pub open spec fn block_of(blocks: Seq<(u64, usize)>, index: u64) -> Option<usize>
    decreases blocks.len(),
{
    if blocks.len() == 0 {
        None
    } else if blocks[0].0 == index {
        Some(blocks[0].1)
    } else {
        block_of(blocks.subrange(1, blocks.len() as int), index)
    }
}

/// The texts of accumulated fragments.
pub open spec fn fragments(m: Map<u64, String>) -> Map<u64, Seq<char>> {
    m.map_values(|s: String| s@)
}

/// The block that `cb` opens.
pub open spec fn opened(cb: ContentBlockView) -> AssistantContentView {
    match cb {
        ContentBlockView::Text { .. } => AssistantContentView::Text(crate::types::plain_text(seq![])),
        ContentBlockView::Thinking { .. } => AssistantContentView::Thinking(
            ThinkingContentView { thinking: seq![], thinking_signature: None, redacted: false },
        ),
        ContentBlockView::RedactedThinking { data } => AssistantContentView::Thinking(
            ThinkingContentView {
                thinking: "[Reasoning redacted]"@,
                thinking_signature: Some(data),
                redacted: true,
            },
        ),
        ContentBlockView::ToolUse { id, name, .. } => AssistantContentView::ToolCall(
            ToolCallView { id, name, arguments: crate::json::empty_object() },
        ),
    }
}

/// The event that announces a new block.
pub open spec fn start_event(cb: ContentBlockView, ci: usize, partial: AssistantMessageView) -> StreamEventView {
    match cb {
        ContentBlockView::Text { .. } => StreamEventView::TextStart { content_index: ci, partial },
        ContentBlockView::ToolUse { .. } => StreamEventView::ToolcallStart {
            content_index: ci,
            partial,
        },
        _ => StreamEventView::ThinkingStart { content_index: ci, partial },
    }
}

/// The block `c` after the fragment `d`. A fragment of another kind of block changes nothing.
pub open spec fn grown(c: AssistantContentView, d: DeltaView) -> AssistantContentView {
    match (c, d) {
        (AssistantContentView::Text(t), DeltaView::TextDelta { text }) => AssistantContentView::Text(
            TextContentView { text: t.text + text, ..t },
        ),
        (
            AssistantContentView::Thinking(t),
            DeltaView::ThinkingDelta { thinking },
        ) => AssistantContentView::Thinking(
            ThinkingContentView { thinking: t.thinking + thinking, ..t },
        ),
        (
            AssistantContentView::Thinking(t),
            DeltaView::SignatureDelta { signature },
        ) => AssistantContentView::Thinking(
            ThinkingContentView {
                thinking_signature: Some(
                    match t.thinking_signature {
                        Some(s) => s + signature,
                        None => signature,
                    },
                ),
                ..t
            },
        ),
        _ => c,
    }
}

/// The event that reports the fragment `d`; signatures are not reported.
pub open spec fn delta_event(d: DeltaView, ci: usize, partial: AssistantMessageView) -> Option<StreamEventView> {
    match d {
        DeltaView::TextDelta { text } => Some(
            StreamEventView::TextDelta { content_index: ci, delta: text, partial },
        ),
        DeltaView::ThinkingDelta { thinking } => Some(
            StreamEventView::ThinkingDelta { content_index: ci, delta: thinking, partial },
        ),
        DeltaView::InputJsonDelta { partial_json } => Some(
            StreamEventView::ToolcallDelta { content_index: ci, delta: partial_json, partial },
        ),
        DeltaView::SignatureDelta { .. } => None,
    }
}

/// The fragments under `index`, nothing if there are none.
pub open spec fn fragments_at(accum: Map<u64, Seq<char>>, index: u64) -> Seq<char> {
    if accum.contains_key(index) {
        accum[index]
    } else {
        seq![]
    }
}

/// The block `c` when its wire index `index` ends: the fragments collected for
/// a tool call become its arguments, if they are JSON.
pub open spec fn closed_block(c: AssistantContentView, accum: Map<u64, Seq<char>>, index: u64) -> AssistantContentView {
    match c {
        AssistantContentView::ToolCall(tc) => if accum.contains_key(index) {
            match crate::json::json_parse(accum[index]) {
                Some(args) => AssistantContentView::ToolCall(
                    ToolCallView { arguments: args, ..tc },
                ),
                None => c,
            }
        } else {
            c
        },
        _ => c,
    }
}

/// The event that reports the end of the block `c`.
pub open spec fn end_event(c: AssistantContentView, ci: usize, partial: AssistantMessageView) -> StreamEventView {
    match c {
        AssistantContentView::Text(t) => StreamEventView::TextEnd {
            content_index: ci,
            content: t.text,
            partial,
        },
        AssistantContentView::Thinking(t) => StreamEventView::ThinkingEnd {
            content_index: ci,
            content: t.thinking,
            partial,
        },
        AssistantContentView::ToolCall(tc) => StreamEventView::ToolcallEnd {
            content_index: ci,
            tool_call: tc,
            partial,
        },
    }
}

/// The block at `ci` is a tool call whose arguments are still incomplete.
pub open spec fn in_flight(blocks: Seq<(u64, usize)>, accum: Map<u64, Seq<char>>, ci: int) -> bool {
    exists|index: u64| #[trigger]
        accum.contains_key(index) && block_of(blocks, index) is Some && block_of(blocks, index)->0 == ci
}

/// `c`, with its arguments emptied if it is a tool call and `hit` holds.
pub open spec fn emptied_if(c: AssistantContentView, hit: bool) -> AssistantContentView {
    match c {
        AssistantContentView::ToolCall(tc) => if hit {
            AssistantContentView::ToolCall(
                ToolCallView { arguments: crate::json::empty_object(), ..tc },
            )
        } else {
            c
        },
        _ => c,
    }
}

/// The content with the arguments of every incomplete tool call emptied.
pub open spec fn stripped(
    content: Seq<AssistantContentView>,
    blocks: Seq<(u64, usize)>,
    accum: Map<u64, Seq<char>>,
) -> Seq<AssistantContentView> {
    Seq::new(content.len(), |i: int| emptied_if(content[i], in_flight(blocks, accum, i)))
}

/// The message that an error event carries: its `error.message`, else the raw data.
pub open spec fn error_text(data: Seq<char>) -> Seq<char> {
    match error_field(data) {
        Some(s) => s,
        None => "SSE error: "@ + data,
    }
}

/// The string under `error.message` in JSON data.
pub open spec fn error_field(data: Seq<char>) -> Option<Seq<char>> {
    match crate::json::json_parse(data) {
        Some(v) => match crate::json::field(v.value, "error"@) {
            Some(e) => match crate::json::field(e, "message"@) {
                Some(m) => crate::json::as_string(m),
                None => None,
            },
            None => None,
        },
        None => None,
    }
}

/// The state after the stream has failed with `message`.
pub open spec fn failed(s: StreamState, message: Seq<char>) -> StreamState {
    StreamState {
        output: AssistantMessageView {
            content: stripped(s.output.content, s.blocks, s.accum),
            stop_reason: StopReason::Error,
            error_message: Some(message),
            ..s.output
        },
        accum: Map::empty(),
        finished: true,
        ..s
    }
}

/// The usage after optional counts have been taken over.
pub open spec fn usage_after(u: Option<ApiUsage>, usage: Usage) -> Usage {
    match u {
        Some(a) => a.applied(usage),
        None => usage,
    }
}

/// The counts of the event, if any, can be taken over.
pub open spec fn event_fits(s: StreamState, e: WireEventView) -> bool {
    match e {
        WireEventView::MessageStart(ev) => ev.message.usage matches Some(u) ==> u.fits_spec(
            s.output.usage,
        ),
        WireEventView::MessageDelta(ev) => ev.usage matches Some(u) ==> u.fits_spec(s.output.usage),
        _ => true,
    }
}

/// What a wire event does: the next state, and the event that is reported.
pub open spec fn step(s: StreamState, e: WireEventView) -> (StreamState, Option<StreamEventView>) {
    match e {
        WireEventView::MessageStart(ev) => (
            StreamState {
                output: AssistantMessageView {
                    response_id: Some(ev.message.id),
                    usage: usage_after(ev.message.usage, s.output.usage),
                    ..s.output
                },
                ..s
            },
            None,
        ),
        WireEventView::ContentBlockStart(ev) => {
            let ci = s.output.content.len() as usize;
            let output = AssistantMessageView {
                content: s.output.content.push(opened(ev.content_block)),
                ..s.output
            };
            (
                StreamState { output, blocks: s.blocks.push((ev.index, ci)), ..s },
                Some(start_event(ev.content_block, ci, output)),
            )
        },
        WireEventView::ContentBlockDelta(ev) => match block_of(s.blocks, ev.index) {
            Some(ci) => {
                let output = AssistantMessageView {
                    content: s.output.content.update(
                        ci as int,
                        grown(s.output.content[ci as int], ev.delta),
                    ),
                    ..s.output
                };
                let accum = match ev.delta {
                    DeltaView::InputJsonDelta { partial_json } => s.accum.insert(
                        ev.index,
                        fragments_at(s.accum, ev.index) + partial_json,
                    ),
                    _ => s.accum,
                };
                (StreamState { output, accum, ..s }, delta_event(ev.delta, ci, output))
            },
            None => (s, None),
        },
        WireEventView::ContentBlockStop(ev) => match block_of(s.blocks, ev.index) {
            Some(ci) => {
                let c = closed_block(s.output.content[ci as int], s.accum, ev.index);
                let output = AssistantMessageView {
                    content: s.output.content.update(ci as int, c),
                    ..s.output
                };
                let accum = if c is ToolCall {
                    s.accum.remove(ev.index)
                } else {
                    s.accum
                };
                (StreamState { output, accum, ..s }, Some(end_event(c, ci, output)))
            },
            None => (s, None),
        },
        WireEventView::MessageDelta(ev) => (
            StreamState {
                output: AssistantMessageView {
                    stop_reason: match ev.delta {
                        Some(d) => match d.stop_reason {
                            Some(reason) => stop_reason_of(reason),
                            None => s.output.stop_reason,
                        },
                        None => s.output.stop_reason,
                    },
                    usage: usage_after(ev.usage, s.output.usage),
                    ..s.output
                },
                ..s
            },
            None,
        ),
        WireEventView::MessageStop => (
            StreamState { finished: true, ..s },
            Some(StreamEventView::Done { reason: s.output.stop_reason, message: s.output }),
        ),
        WireEventView::Error { data } => {
            let t = failed(s, error_text(data));
            (t, Some(StreamEventView::Error { reason: StopReason::Error, error: t.output }))
        },
        WireEventView::Other => (s, None),
    }
}

/// The stop reason that the API's name stands for.
pub open spec fn stop_reason_of(reason: Seq<char>) -> StopReason {
    if reason == "end_turn"@ || reason == "pause_turn"@ || reason == "stop_sequence"@ {
        StopReason::Stop
    } else if reason == "max_tokens"@ {
        StopReason::Length
    } else if reason == "tool_use"@ {
        StopReason::ToolUse
    } else {
        StopReason::Error
    }
}

/// Every block stands for a block of the message.
pub open spec fn state_wf(s: StreamState) -> bool {
    forall|i: int| 0 <= i < s.blocks.len() ==> (#[trigger] s.blocks[i]).1 < s.output.content.len()
}

/// Where a block index stands for a block, it is that of some entry of the list.
proof fn lemma_block_of_some(blocks: Seq<(u64, usize)>, index: u64)
    requires
        block_of(blocks, index) is Some,
    ensures
        exists|k: int|
            0 <= k < blocks.len() && (#[trigger] blocks[k]).0 == index && block_of(blocks, index)
                == Some(blocks[k].1),
    decreases blocks.len(),
{
    if blocks[0].0 != index {
        let t = blocks.subrange(1, blocks.len() as int);
        lemma_block_of_some(t, index);
        let k = choose|k: int|
            0 <= k < t.len() && (#[trigger] t[k]).0 == index && block_of(t, index) == Some(t[k].1);
        assert(blocks[k + 1].0 == index);
    } else {
        assert(blocks[0].0 == index);
    }
}

/// A block index stands for a block of the message.
proof fn lemma_block_in_range(s: StreamState, index: u64)
    requires
        state_wf(s),
    ensures
        block_of(s.blocks, index) matches Some(ci) ==> ci < s.output.content.len(),
{
    if block_of(s.blocks, index) is Some {
        lemma_block_of_some(s.blocks, index);
    }
}

/// The content index that the event speaks of lies in the message.
proof fn lemma_event_in_range(s: StreamState, e: WireEventView)
    requires
        state_wf(s),
    ensures
        e matches WireEventView::ContentBlockDelta(ev) ==> (block_of(s.blocks, ev.index) matches Some(
            ci,
        ) ==> ci < s.output.content.len()),
        e matches WireEventView::ContentBlockStop(ev) ==> (block_of(s.blocks, ev.index) matches Some(
            ci,
        ) ==> ci < s.output.content.len()),
{
    match e {
        WireEventView::ContentBlockDelta(ev) => lemma_block_in_range(s, ev.index),
        WireEventView::ContentBlockStop(ev) => lemma_block_in_range(s, ev.index),
        _ => {},
    }
}

/// Every event keeps the invariant that each block stands for a block of the message.
pub proof fn law_step_wf(s: StreamState, e: WireEventView)
    requires
        state_wf(s),
        s.output.content.len() <= usize::MAX,
    ensures
        state_wf(step(s, e).0),
{
    let t = step(s, e).0;
    lemma_event_in_range(s, e);
    assert forall|i: int| 0 <= i < t.blocks.len() implies (#[trigger] t.blocks[i]).1
        < t.output.content.len() by {
        if i < s.blocks.len() {
            assert(t.blocks[i] == s.blocks[i]);
        }
    }
}

/// Every event that is reported carries the message as it stands after the step.
pub proof fn law_snapshot_is_state(s: StreamState, e: WireEventView)
    ensures
        step(s, e).1 matches Some(ev) ==> crate::types::snapshot(ev) == Some(step(s, e).0.output),
{
}

/// A terminal event is reported exactly when the step finishes the stream.
pub proof fn law_terminal_iff_finished(s: StreamState, e: WireEventView)
    requires
        !s.finished,
    ensures
        step(s, e).0.finished <==> (step(s, e).1 is Some && crate::types::is_terminal(step(s, e).1->0)),
{
}

/// A fragment changes the block that it belongs to and no other; no event
/// shortens the content.
pub proof fn law_step_touches_one_block(s: StreamState, e: WireEventView, i: usize)
    requires
        state_wf(s),
        i < s.output.content.len(),
    ensures
        step(s, e).0.output.content.len() >= s.output.content.len(),
        (match e {
            WireEventView::ContentBlockDelta(ev) => block_of(s.blocks, ev.index) != Some(i),
            WireEventView::ContentBlockStop(ev) => block_of(s.blocks, ev.index) != Some(i),
            WireEventView::Error { .. } => false,
            _ => true,
        }) ==> step(s, e).0.output.content[i as int] == s.output.content[i as int],
{
    lemma_event_in_range(s, e);
}

/// Text arrives in the order in which it was sent: after any number of text
/// fragments for a text block, the block holds what it held before followed by
/// the fragments.
pub proof fn law_text_accumulates(s: StreamState, index: u64, ci: usize, parts: Seq<Seq<char>>)
    requires
        block_of(s.blocks, index) == Some(ci),
        ci < s.output.content.len(),
        s.output.content[ci as int] is Text,
    ensures
        ({
            let t = after_text(s, index, parts);
            t.blocks == s.blocks && t.output.content.len() == s.output.content.len()
                && t.output.content[ci as int] == AssistantContentView::Text(
                TextContentView {
                    text: s.output.content[ci as int]->Text_0.text + crate::text::concat(parts),
                    ..s.output.content[ci as int]->Text_0
                },
            )
        }),
    decreases parts.len(),
{
    let text = s.output.content[ci as int]->Text_0.text;
    if parts.len() == 0 {
        assert(text + crate::text::concat(parts) =~= text);
    } else {
        let init = parts.subrange(0, parts.len() - 1);
        law_text_accumulates(s, index, ci, init);
        let last = parts[parts.len() - 1];
        assert(text + crate::text::concat(init) + last =~= text + crate::text::concat(parts));
    }
}

/// The state after text fragments for the block `index` have arrived one by one.
pub open spec fn after_text(s: StreamState, index: u64, parts: Seq<Seq<char>>) -> StreamState
    decreases parts.len(),
{
    if parts.len() == 0 {
        s
    } else {
        step(
            after_text(s, index, parts.subrange(0, parts.len() - 1)),
            WireEventView::ContentBlockDelta(
                ContentBlockDeltaEventView {
                    index,
                    delta: DeltaView::TextDelta { text: parts[parts.len() - 1] },
                },
            ),
        ).0
    }
}

/// A failed stream keeps every finished tool call and every other block, and
/// leaves no fragment behind.
pub proof fn law_failed_keeps_finished(s: StreamState, message: Seq<char>, i: int)
    requires
        0 <= i < s.output.content.len(),
        !in_flight(s.blocks, s.accum, i),
    ensures
        failed(s, message).output.content.len() == s.output.content.len(),
        failed(s, message).output.content[i] == s.output.content[i],
        failed(s, message).accum == Map::<u64, Seq<char>>::empty(),
{
}

// ---------------------------------------------------------------------------
// State machine: code
// ---------------------------------------------------------------------------

/// The stop reason that the API's name stands for.
pub fn map_stop_reason(reason: &str) -> (r: StopReason)
    ensures
        r == stop_reason_of(reason@),
{
    if str_eq(reason, "end_turn") || str_eq(reason, "pause_turn") || str_eq(
        reason,
        "stop_sequence",
    ) {
        StopReason::Stop
    } else if str_eq(reason, "max_tokens") {
        StopReason::Length
    } else if str_eq(reason, "tool_use") {
        StopReason::ToolUse
    } else {
        StopReason::Error
    }
}

/// The content index of the first block with the wire index `index`.
fn find_block(blocks: &Vec<(u64, usize)>, index: u64) -> (r: Option<usize>)
    ensures
        r == block_of(blocks@, index),
        r matches Some(ci) ==> exists|i: int|
            0 <= i < blocks@.len() && (#[trigger] blocks@[i]).1 == ci,
{
    let mut i: usize = 0;
    assert(blocks@.subrange(0, blocks.len() as int) =~= blocks@);
    while i < blocks.len()
        invariant
            i <= blocks.len(),
            block_of(blocks@, index) == block_of(
                blocks@.subrange(i as int, blocks.len() as int),
                index,
            ),
        decreases blocks.len() - i,
    {
        let ghost t = blocks@.subrange(i as int, blocks.len() as int);
        assert(t[0] == blocks@[i as int]);
        if blocks[i].0 == index {
            return Some(blocks[i].1);
        }
        assert(t.subrange(1, t.len() as int) =~= blocks@.subrange(i + 1, blocks.len() as int));
        i = i + 1;
    }
    None
}

/// The message that an error event carries.
pub fn sse_error_message(data: &str) -> (r: String)
    ensures
        r@ == error_text(data@),
{
    if let Some(v) = parse_value(data) {
        if let Some(e) = get(&v, "error") {
            if let Some(m) = get(e, "message") {
                if let Some(s) = as_str(m) {
                    return s.to_owned();
                }
            }
        }
    }
    let mut s: String = "SSE error: ".to_owned();
    s.append(data);
    s
}

/// One of the first `k` entries of the list makes the block at `i` incomplete.
spec fn reached(blocks: Seq<(u64, usize)>, accum: Map<u64, Seq<char>>, k: int, i: int) -> bool {
    exists|m: int|
        0 <= m < k && (#[trigger] blocks[m]).1 == i && accum.contains_key(blocks[m].0) && block_of(
            blocks,
            blocks[m].0,
        ) == Some(blocks[m].1)
}

/// Drop the fragments of unfinished tool calls and empty the arguments of
/// those calls.
pub fn strip_partial_tool_state(
    output: &mut AssistantMessage,
    tool_json_accum: &mut HashMap<u64, String>,
    block_index_map: &Vec<(u64, usize)>,
)
    ensures
        final(output)@ == (AssistantMessageView {
            content: stripped(
                old(output)@.content,
                block_index_map@,
                fragments(old(tool_json_accum)@),
            ),
            ..old(output)@
        }),
        final(tool_json_accum)@ == Map::<u64, String>::empty(),
{
    broadcast use vstd::std_specs::hash::group_hash_axioms;

    let ghost content = output@.content;
    let ghost accum = fragments(tool_json_accum@);
    let mut k: usize = 0;
    while k < block_index_map.len()
        invariant
            k <= block_index_map.len(),
            accum == fragments(tool_json_accum@),
            output@ == (AssistantMessageView { content: output@.content, ..old(output)@ }),
            content == old(output)@.content,
            output@.content.len() == content.len(),
            forall|i: int|
                0 <= i < content.len() ==> #[trigger] output@.content[i] == emptied_if(
                    content[i],
                    reached(block_index_map@, accum, k as int, i),
                ),
        decreases block_index_map.len() - k,
    {
        let index: u64 = block_index_map[k].0;
        let ci: usize = block_index_map[k].1;
        let ghost before = output@.content;
        let first: bool = match find_block(block_index_map, index) {
            Some(b) => b == ci,
            None => false,
        };
        let hit: bool = first && tool_json_accum.contains_key(&index);
        if hit && ci < output.content.len() {
            if let AssistantContent::ToolCall(tc) = &mut output.content[ci] {
                tc.arguments = empty_object_value();
            }
            assert(output@.content =~= before.update(ci as int, emptied_if(before[ci as int], true)));
        }
        proof {
            assert forall|i: int| 0 <= i < content.len() implies reached(
                block_index_map@,
                accum,
                k + 1,
                i,
            ) == (reached(block_index_map@, accum, k as int, i) || (hit && ci == i)) by {
                if hit && ci == i {
                    assert(block_index_map@[k as int].1 == i);
                }
            }
        }
        k = k + 1;
    }
    proof {
        assert forall|i: int| 0 <= i < content.len() implies in_flight(block_index_map@, accum, i)
            == reached(block_index_map@, accum, k as int, i) by {
            if in_flight(block_index_map@, accum, i) {
                let index = choose|index: u64| #[trigger]
                    accum.contains_key(index) && block_of(block_index_map@, index) is Some
                        && block_of(block_index_map@, index)->0 == i;
                lemma_block_of_some(block_index_map@, index);
            }
        }
        assert(output@.content =~= stripped(content, block_index_map@, accum));
    }
    tool_json_accum.clear();
}

/// The state of one response being streamed.
pub struct AnthropicStream {
    output: AssistantMessage,
    block_index_map: Vec<(u64, usize)>,
    tool_json_accum: HashMap<u64, String>,
    finished: bool,
}

impl View for AnthropicStream {
    type V = StreamState;

    closed spec fn view(&self) -> StreamState {
        StreamState {
            output: self.output@,
            blocks: self.block_index_map@,
            accum: fragments(self.tool_json_accum@),
            finished: self.finished,
        }
    }
}

impl AnthropicStream {
    /// A stream in which nothing has arrived, and the event that announces it.
    pub fn start(api_id: &str, provider: &str, model: &str) -> (r: (Self, StreamEvent))
        ensures
            r.0@.output.is_empty_of(api_id@, provider@, model@),
            r.0@.blocks == Seq::<(u64, usize)>::empty(),
            r.0@.accum == Map::<u64, Seq<char>>::empty(),
            !r.0@.finished,
            state_wf(r.0@),
            r.1@ == (StreamEventView::Start { partial: r.0@.output }),
    {
        broadcast use vstd::std_specs::hash::group_hash_axioms;

        let output = AssistantMessage::empty(api_id, provider, model);
        let event = StreamEvent::Start { partial: output.clone() };
        let s = AnthropicStream {
            output,
            block_index_map: Vec::new(),
            tool_json_accum: HashMap::new(),
            finished: false,
        };
        assert(s@.accum =~= Map::<u64, Seq<char>>::empty());
        (s, event)
    }

    /// Whether a terminal event has been reported.
    pub fn is_finished(&self) -> (r: bool)
        ensures
            r == self@.finished,
    {
        self.finished
    }

    /// The usage counted so far.
    pub fn usage(&self) -> (r: Usage)
        ensures
            r == self@.output.usage,
    {
        self.output.usage
    }

    /// Open a block.
    fn block_start(&mut self, ev: ContentBlockStartEvent) -> (r: StreamEvent)
        requires
            state_wf(old(self)@),
        ensures
            state_wf(final(self)@),
            (final(self)@, Some(r@)) == step(
                old(self)@,
                WireEventView::ContentBlockStart(ev@),
            ),
    {
        let ghost pre = self@;
        let ci = self.output.content.len();
        let index = ev.index;
        let r = match ev.content_block {
            ContentBlock::Text { text: _ } => {
                let c = AssistantContent::Text(TextContent::plain(String::new()));
                self.output.content.push(c);
                self.block_index_map.push((index, ci));
                assert(self@.output.content =~= pre.output.content.push(opened(ev@.content_block)));
                StreamEvent::TextStart { content_index: ci, partial: self.output.clone() }
            },
            ContentBlock::Thinking { thinking: _ } => {
                let c = AssistantContent::Thinking(
                    ThinkingContent {
                        thinking: String::new(),
                        thinking_signature: None,
                        redacted: false,
                    },
                );
                self.output.content.push(c);
                self.block_index_map.push((index, ci));
                assert(self@.output.content =~= pre.output.content.push(opened(ev@.content_block)));
                StreamEvent::ThinkingStart { content_index: ci, partial: self.output.clone() }
            },
            ContentBlock::RedactedThinking { data } => {
                let c = AssistantContent::Thinking(
                    ThinkingContent {
                        thinking: "[Reasoning redacted]".to_owned(),
                        thinking_signature: Some(data),
                        redacted: true,
                    },
                );
                self.output.content.push(c);
                self.block_index_map.push((index, ci));
                assert(self@.output.content =~= pre.output.content.push(opened(ev@.content_block)));
                StreamEvent::ThinkingStart { content_index: ci, partial: self.output.clone() }
            },
            ContentBlock::ToolUse { id, name, input: _ } => {
                let c = AssistantContent::ToolCall(
                    ToolCall { id, name, arguments: empty_object_value() },
                );
                self.output.content.push(c);
                self.block_index_map.push((index, ci));
                assert(self@.output.content =~= pre.output.content.push(opened(ev@.content_block)));
                StreamEvent::ToolcallStart { content_index: ci, partial: self.output.clone() }
            },
        };
        proof {
            law_step_wf(pre, WireEventView::ContentBlockStart(ev@));
        }
        r
    }

    /// Grow a block.
    fn block_delta(&mut self, ev: ContentBlockDeltaEvent) -> (r: Option<StreamEvent>)
        requires
            state_wf(old(self)@),
        ensures
            state_wf(final(self)@),
            (final(self)@, r.deep_view()) == step(
                old(self)@,
                WireEventView::ContentBlockDelta(ev@),
            ),
    {
        broadcast use vstd::std_specs::hash::group_hash_axioms;

        let ghost pre = self@;
        let index = ev.index;
        let ci: usize = match find_block(&self.block_index_map, index) {
            Some(ci) => ci,
            None => {
                return None;
            },
        };
        assert(ci < self.output.content.len());
        match ev.delta {
            Delta::TextDelta { text } => {
                if let AssistantContent::Text(t) = &mut self.output.content[ci] {
                    t.text.append(text.as_str());
                }
                assert(self@.output.content =~= pre.output.content.update(
                    ci as int,
                    grown(pre.output.content[ci as int], ev@.delta),
                ));
                let partial = self.output.clone();
                Some(StreamEvent::TextDelta { content_index: ci, delta: text, partial })
            },
            Delta::ThinkingDelta { thinking } => {
                if let AssistantContent::Thinking(t) = &mut self.output.content[ci] {
                    t.thinking.append(thinking.as_str());
                }
                assert(self@.output.content =~= pre.output.content.update(
                    ci as int,
                    grown(pre.output.content[ci as int], ev@.delta),
                ));
                let partial = self.output.clone();
                Some(StreamEvent::ThinkingDelta { content_index: ci, delta: thinking, partial })
            },
            Delta::InputJsonDelta { partial_json } => {
                let mut so_far: String = match self.tool_json_accum.remove(&index) {
                    Some(s) => s,
                    None => String::new(),
                };
                so_far.append(partial_json.as_str());
                self.tool_json_accum.insert(index, so_far);
                assert(self@.accum =~= pre.accum.insert(
                    index,
                    fragments_at(pre.accum, index) + partial_json@,
                ));
                assert(self@.output.content =~= pre.output.content.update(
                    ci as int,
                    grown(pre.output.content[ci as int], ev@.delta),
                ));
                let partial = self.output.clone();
                Some(StreamEvent::ToolcallDelta { content_index: ci, delta: partial_json, partial })
            },
            Delta::SignatureDelta { signature } => {
                if let AssistantContent::Thinking(t) = &mut self.output.content[ci] {
                    let mut s: String = match t.thinking_signature.take() {
                        Some(s) => s,
                        None => String::new(),
                    };
                    s.append(signature.as_str());
                    assert(Seq::<char>::empty() + signature@ =~= signature@);
                    t.thinking_signature = Some(s);
                }
                assert(self@.output.content =~= pre.output.content.update(
                    ci as int,
                    grown(pre.output.content[ci as int], ev@.delta),
                ));
                None
            },
        }
    }

    /// Close a block.
    fn block_stop(&mut self, ev: ContentBlockStopEvent) -> (r: Option<StreamEvent>)
        requires
            state_wf(old(self)@),
        ensures
            state_wf(final(self)@),
            (final(self)@, r.deep_view()) == step(old(self)@, WireEventView::ContentBlockStop(ev)),
    {
        broadcast use vstd::std_specs::hash::group_hash_axioms;

        let ghost pre = self@;
        let index = ev.index;
        let ci: usize = match find_block(&self.block_index_map, index) {
            Some(ci) => ci,
            None => {
                return None;
            },
        };
        assert(ci < self.output.content.len());
        let ghost c = closed_block(pre.output.content[ci as int], pre.accum, index);
        match &mut self.output.content[ci] {
            AssistantContent::Text(t) => {
                let content = t.text.clone();
                assert(self@.output.content =~= pre.output.content.update(ci as int, c));
                let partial = self.output.clone();
                Some(StreamEvent::TextEnd { content_index: ci, content, partial })
            },
            AssistantContent::Thinking(t) => {
                let content = t.thinking.clone();
                assert(self@.output.content =~= pre.output.content.update(ci as int, c));
                let partial = self.output.clone();
                Some(StreamEvent::ThinkingEnd { content_index: ci, content, partial })
            },
            AssistantContent::ToolCall(tc) => {
                if let Some(json) = self.tool_json_accum.remove(&index) {
                    if let Some(args) = parse_value(json.as_str()) {
                        tc.arguments = args;
                    }
                }
                let tool_call = tc.clone();
                assert(self@.accum =~= pre.accum.remove(index));
                assert(self@.output.content =~= pre.output.content.update(ci as int, c));
                let partial = self.output.clone();
                Some(StreamEvent::ToolcallEnd { content_index: ci, tool_call, partial })
            },
        }
    }

    /// Fail the stream with `message`.
    fn fail(&mut self, message: String) -> (r: StreamEvent)
        requires
            state_wf(old(self)@),
        ensures
            state_wf(final(self)@),
            final(self)@ == failed(old(self)@, message@),
            r@ == (StreamEventView::Error {
                reason: StopReason::Error,
                error: final(self)@.output,
            }),
    {
        strip_partial_tool_state(
            &mut self.output,
            &mut self.tool_json_accum,
            &self.block_index_map,
        );
        self.output.stop_reason = StopReason::Error;
        self.output.error_message = Some(message);
        self.finished = true;
        assert(self@.accum =~= Map::<u64, Seq<char>>::empty());
        StreamEvent::Error { reason: StopReason::Error, error: self.output.clone() }
    }

    /// Take in a decoded event; the result is the event to report, if any.
    pub fn apply(&mut self, ev: WireEvent) -> (r: Option<StreamEvent>)
        requires
            state_wf(old(self)@),
            event_fits(old(self)@, ev@),
        ensures
            state_wf(final(self)@),
            (final(self)@, r.deep_view()) == step(old(self)@, ev@),
    {
        match ev {
            WireEvent::MessageStart(ev) => {
                self.output.response_id = Some(ev.message.id);
                if let Some(usage) = ev.message.usage {
                    usage.apply_to(&mut self.output.usage);
                }
                None
            },
            WireEvent::ContentBlockStart(ev) => Some(self.block_start(ev)),
            WireEvent::ContentBlockDelta(ev) => self.block_delta(ev),
            WireEvent::ContentBlockStop(ev) => self.block_stop(ev),
            WireEvent::MessageDelta(ev) => {
                if let Some(delta) = &ev.delta {
                    if let Some(reason) = &delta.stop_reason {
                        self.output.stop_reason = map_stop_reason(reason.as_str());
                    }
                }
                if let Some(usage) = ev.usage {
                    usage.apply_to(&mut self.output.usage);
                }
                None
            },
            WireEvent::MessageStop => {
                self.finished = true;
                Some(
                    StreamEvent::Done {
                        reason: self.output.stop_reason,
                        message: self.output.clone(),
                    },
                )
            },
            WireEvent::Error { data } => {
                let message = sse_error_message(data.as_str());
                Some(self.fail(message))
            },
            WireEvent::Other => None,
        }
    }

    /// The stream ended before the message did; the result is the event to report.
    pub fn end_unexpectedly(&mut self) -> (r: StreamEvent)
        requires
            state_wf(old(self)@),
        ensures
            state_wf(final(self)@),
            final(self)@ == failed(old(self)@, "Stream ended unexpectedly"@),
            r@ == (StreamEventView::Error {
                reason: StopReason::Error,
                error: final(self)@.output,
            }),
    {
        self.fail("Stream ended unexpectedly".to_owned())
    }
}

// ---------------------------------------------------------------------------
// Whole streams
// ---------------------------------------------------------------------------

/// The state after events have arrived one by one.
pub open spec fn after_events(s: StreamState, events: Seq<WireEventView>) -> StreamState
    decreases events.len(),
{
    if events.len() == 0 {
        s
    } else {
        step(after_events(s, events.drop_last()), events.last()).0
    }
}

/// The text that events bring for the block with a wire index.
pub open spec fn text_for(events: Seq<WireEventView>, index: u64) -> Seq<char>
    decreases events.len(),
{
    if events.len() == 0 {
        seq![]
    } else {
        text_for(events.drop_last(), index) + match events.last() {
            WireEventView::ContentBlockDelta(ev) => match ev.delta {
                DeltaView::TextDelta { text } => if ev.index == index {
                    text
                } else {
                    seq![]
                },
                _ => seq![],
            },
            _ => seq![],
        }
    }
}

/// The thoughts that events bring for the block with a wire index.
pub open spec fn thinking_for(events: Seq<WireEventView>, index: u64) -> Seq<char>
    decreases events.len(),
{
    if events.len() == 0 {
        seq![]
    } else {
        thinking_for(events.drop_last(), index) + match events.last() {
            WireEventView::ContentBlockDelta(ev) => match ev.delta {
                DeltaView::ThinkingDelta { thinking } => if ev.index == index {
                    thinking
                } else {
                    seq![]
                },
                _ => seq![],
            },
            _ => seq![],
        }
    }
}

/// The pieces of a signature that events bring for the block with a wire index.
pub open spec fn signature_for(events: Seq<WireEventView>, index: u64) -> Seq<char>
    decreases events.len(),
{
    if events.len() == 0 {
        seq![]
    } else {
        signature_for(events.drop_last(), index) + match events.last() {
            WireEventView::ContentBlockDelta(ev) => match ev.delta {
                DeltaView::SignatureDelta { signature } => if ev.index == index {
                    signature
                } else {
                    seq![]
                },
                _ => seq![],
            },
            _ => seq![],
        }
    }
}

/// The pieces of arguments that events bring for the block with a wire index.
pub open spec fn arguments_for(events: Seq<WireEventView>, index: u64) -> Seq<char>
    decreases events.len(),
{
    if events.len() == 0 {
        seq![]
    } else {
        arguments_for(events.drop_last(), index) + match events.last() {
            WireEventView::ContentBlockDelta(ev) => match ev.delta {
                DeltaView::InputJsonDelta { partial_json } => if ev.index == index {
                    partial_json
                } else {
                    seq![]
                },
                _ => seq![],
            },
            _ => seq![],
        }
    }
}

/// Whether an event ends the block with a wire index, or all of them.
pub open spec fn ends_block(e: WireEventView, index: u64) -> bool {
    match e {
        WireEventView::ContentBlockStop(ev) => ev.index == index,
        WireEventView::Error { .. } => true,
        _ => false,
    }
}

/// Whether an event is about the block with a wire index.
pub open spec fn is_about(e: WireEventView, index: u64) -> bool {
    match e {
        WireEventView::ContentBlockStart(ev) => ev.index == index,
        WireEventView::ContentBlockDelta(ev) => ev.index == index,
        WireEventView::ContentBlockStop(ev) => ev.index == index,
        _ => false,
    }
}

/// The event that opens a block.
pub open spec fn opens(index: u64, block: ContentBlockView) -> WireEventView {
    WireEventView::ContentBlockStart(
        crate::providers::anthropic_types::ContentBlockStartEventView {
            index,
            content_block: block,
        },
    )
}

/// Whether a wire index stands for the block at `ci`, and no other does.
pub open spec fn alone_at(s: StreamState, index: u64, ci: usize) -> bool {
    &&& state_wf(s)
    &&& block_of(s.blocks, index) == Some(ci)
    &&& ci < s.output.content.len()
    &&& forall|other: u64|
        other != index ==> #[trigger] block_of(s.blocks, other) != Some(ci)
}

proof fn lemma_block_of_push(blocks: Seq<(u64, usize)>, b: (u64, usize), index: u64)
    ensures
        block_of(blocks.push(b), index) == match block_of(blocks, index) {
            Some(ci) => Some(ci),
            None => if b.0 == index {
                Some(b.1)
            } else {
                None
            },
        },
    decreases blocks.len(),
{
    let all = blocks.push(b);
    if blocks.len() == 0 {
        assert(all.subrange(1, 1) =~= Seq::empty());
        assert(block_of(all.subrange(1, all.len() as int), index) is None);
    } else if blocks[0].0 != index {
        lemma_block_of_push(blocks.subrange(1, blocks.len() as int), b, index);
        assert(all.subrange(1, all.len() as int) =~= blocks.subrange(
            1,
            blocks.len() as int,
        ).push(b));
    }
}

/// An event leaves it that a wire index stands alone for its block.
proof fn lemma_alone(s: StreamState, e: WireEventView, index: u64, ci: usize)
    requires
        alone_at(s, index, ci),
        s.output.content.len() <= usize::MAX,
    ensures
        alone_at(step(s, e).0, index, ci),
        step(s, e).0.output.content.len() <= s.output.content.len() + 1,
{
    let t = step(s, e).0;
    law_step_wf(s, e);
    lemma_event_in_range(s, e);
    if let WireEventView::ContentBlockStart(ev) = e {
        let b = (ev.index, s.output.content.len() as usize);
        lemma_block_of_push(s.blocks, b, index);
        assert forall|other: u64| other != index implies #[trigger] block_of(t.blocks, other)
            != Some(ci) by {
            lemma_block_of_push(s.blocks, b, other);
        }
    } else {
        assert(t.blocks == s.blocks);
    }
}

/// What a text block or a thought holds after events.
proof fn lemma_grows(s: StreamState, events: Seq<WireEventView>, index: u64, ci: usize)
    requires
        alone_at(s, index, ci),
        s.output.content.len() + events.len() <= usize::MAX,
        !(s.output.content[ci as int] is ToolCall),
    ensures
        ({
            let t = after_events(s, events);
            let c = s.output.content[ci as int];
            let d = t.output.content[ci as int];
            &&& alone_at(t, index, ci)
            &&& t.output.content.len() <= s.output.content.len() + events.len()
            &&& c matches AssistantContentView::Text(x) ==> d == AssistantContentView::Text(
                TextContentView { text: x.text + text_for(events, index), ..x },
            )
            &&& c matches AssistantContentView::Thinking(x) ==> (
            d matches AssistantContentView::Thinking(y) && y.thinking == x.thinking + thinking_for(
                events,
                index,
            ) && y.redacted == x.redacted && crate::providers::openai::or_empty(
                y.thinking_signature,
            ) == crate::providers::openai::or_empty(x.thinking_signature) + signature_for(
                events,
                index,
            ))
        }),
    decreases events.len(),
{
    let c = s.output.content[ci as int];
    let t = after_events(s, events);
    if events.len() == 0 {
        match c {
            AssistantContentView::Text(x) => {
                assert(x.text + text_for(events, index) =~= x.text);
            },
            AssistantContentView::Thinking(x) => {
                assert(x.thinking + thinking_for(events, index) =~= x.thinking);
                assert(crate::providers::openai::or_empty(x.thinking_signature) + signature_for(
                    events,
                    index,
                ) =~= crate::providers::openai::or_empty(x.thinking_signature));
            },
            _ => {},
        }
    } else {
        let init = events.drop_last();
        let e = events.last();
        let p = after_events(s, init);
        lemma_grows(s, init, index, ci);
        lemma_event_in_range(p, e);
        lemma_alone(p, e, index, ci);
        match e {
            WireEventView::ContentBlockDelta(ev) => {
                if ev.index != index {
                    assert(block_of(p.blocks, ev.index) != Some(ci));
                }
            },
            WireEventView::ContentBlockStop(ev) => {
                if ev.index != index {
                    assert(block_of(p.blocks, ev.index) != Some(ci));
                }
            },
            _ => {},
        }
        match c {
            AssistantContentView::Text(x) => {
                let d = t.output.content[ci as int];
                assert(d is Text);
                assert(d->Text_0.text =~= x.text + text_for(events, index));
            },
            AssistantContentView::Thinking(x) => {
                let d = t.output.content[ci as int];
                assert(d is Thinking);
                assert(d->Thinking_0.thinking =~= x.thinking + thinking_for(events, index));
                assert(crate::providers::openai::or_empty(d->Thinking_0.thinking_signature)
                    =~= crate::providers::openai::or_empty(x.thinking_signature) + signature_for(
                    events,
                    index,
                ));
            },
            _ => {},
        }
    }
}

/// The fragments of a tool call while it is open.
proof fn lemma_collects(s: StreamState, events: Seq<WireEventView>, index: u64, ci: usize)
    requires
        alone_at(s, index, ci),
        s.output.content.len() + events.len() <= usize::MAX,
        s.output.content[ci as int] is ToolCall,
        forall|i: int| 0 <= i < events.len() ==> !ends_block(#[trigger] events[i], index),
    ensures
        ({
            let t = after_events(s, events);
            &&& alone_at(t, index, ci)
            &&& t.output.content.len() <= s.output.content.len() + events.len()
            &&& t.output.content[ci as int] == s.output.content[ci as int]
            &&& fragments_at(t.accum, index) == fragments_at(s.accum, index) + arguments_for(
                events,
                index,
            )
        }),
    decreases events.len(),
{
    if events.len() == 0 {
        assert(fragments_at(s.accum, index) + arguments_for(events, index) =~= fragments_at(
            s.accum,
            index,
        ));
    } else {
        let init = events.drop_last();
        let e = events.last();
        let p = after_events(s, init);
        assert forall|i: int| 0 <= i < init.len() implies !ends_block(#[trigger] init[i], index) by {
            assert(init[i] == events[i]);
        }
        lemma_collects(s, init, index, ci);
        lemma_event_in_range(p, e);
        lemma_alone(p, e, index, ci);
        assert(!ends_block(events[events.len() - 1], index));
        match e {
            WireEventView::ContentBlockDelta(ev) => {
                if ev.index != index {
                    assert(block_of(p.blocks, ev.index) != Some(ci));
                }
            },
            WireEventView::ContentBlockStop(ev) => {
                assert(block_of(p.blocks, ev.index) != Some(ci));
            },
            _ => {},
        }
        assert(fragments_at(after_events(s, events).accum, index) =~= fragments_at(s.accum, index)
            + arguments_for(events, index));
    }
}

/// A tool call that is complete stays as it is.
proof fn lemma_settled(s: StreamState, events: Seq<WireEventView>, index: u64, ci: usize)
    requires
        alone_at(s, index, ci),
        s.output.content.len() + events.len() <= usize::MAX,
        s.output.content[ci as int] is ToolCall,
        !s.accum.contains_key(index),
        forall|i: int| 0 <= i < events.len() ==> !is_about(#[trigger] events[i], index),
    ensures
        ({
            let t = after_events(s, events);
            &&& alone_at(t, index, ci)
            &&& t.output.content.len() <= s.output.content.len() + events.len()
            &&& t.output.content[ci as int] == s.output.content[ci as int]
            &&& !t.accum.contains_key(index)
        }),
    decreases events.len(),
{
    if events.len() > 0 {
        let init = events.drop_last();
        let e = events.last();
        let p = after_events(s, init);
        assert forall|i: int| 0 <= i < init.len() implies !is_about(#[trigger] init[i], index) by {
            assert(init[i] == events[i]);
        }
        lemma_settled(s, init, index, ci);
        lemma_event_in_range(p, e);
        lemma_alone(p, e, index, ci);
        assert(!is_about(events[events.len() - 1], index));
        match e {
            WireEventView::ContentBlockDelta(ev) => {
                assert(block_of(p.blocks, ev.index) != Some(ci));
            },
            WireEventView::ContentBlockStop(ev) => {
                assert(block_of(p.blocks, ev.index) != Some(ci));
            },
            WireEventView::Error { .. } => {
                assert(!in_flight(p.blocks, p.accum, ci as int)) by {
                    if in_flight(p.blocks, p.accum, ci as int) {
                        let other = choose|other: u64| #[trigger]
                            p.accum.contains_key(other) && block_of(p.blocks, other) is Some
                                && block_of(p.blocks, other)->0 == ci as int;
                        assert(other != index);
                        assert(block_of(p.blocks, other) != Some(ci));
                    }
                }
            },
            _ => {},
        }
    }
}

/// A block that is opened under a wire index that is not in use stands alone behind the others.
proof fn lemma_opened(s: StreamState, index: u64, block: ContentBlockView)
    requires
        state_wf(s),
        block_of(s.blocks, index) is None,
        s.output.content.len() < usize::MAX,
    ensures
        ({
            let t = step(s, opens(index, block)).0;
            let ci = s.output.content.len() as usize;
            &&& alone_at(t, index, ci)
            &&& t.output.content.len() == s.output.content.len() + 1
            &&& t.output.content[ci as int] == opened(block)
            &&& t.accum == s.accum
        }),
{
    let t = step(s, opens(index, block)).0;
    let ci = s.output.content.len() as usize;
    law_step_wf(s, opens(index, block));
    lemma_block_of_push(s.blocks, (index, ci), index);
    assert forall|other: u64| other != index implies #[trigger] block_of(t.blocks, other) != Some(
        ci,
    ) by {
        lemma_block_of_push(s.blocks, (index, ci), other);
        lemma_block_in_range(s, other);
    }
}

/// A text block holds the text that was sent for it, all of it and in order, whatever else was sent in
/// between.
pub proof fn law_text_block(
    s: StreamState,
    index: u64,
    block: ContentBlockView,
    events: Seq<WireEventView>,
)
    requires
        state_wf(s),
        block_of(s.blocks, index) is None,
        s.output.content.len() + events.len() < usize::MAX,
        block is Text,
    ensures
        ({
            let t = after_events(step(s, opens(index, block)).0, events);
            let n = s.output.content.len() as int;
            &&& n < t.output.content.len()
            &&& t.output.content[n] matches AssistantContentView::Text(x) && x.text == text_for(
                events,
                index,
            )
        }),
{
    lemma_opened(s, index, block);
    let ci = s.output.content.len() as usize;
    lemma_grows(step(s, opens(index, block)).0, events, index, ci);
    assert(Seq::<char>::empty() + text_for(events, index) =~= text_for(events, index));
}

/// A thought holds what was sent for it, and the signature that was sent with it. Of a redacted one
/// there is the data that was sent, as its signature.
pub proof fn law_thinking_block(
    s: StreamState,
    index: u64,
    block: ContentBlockView,
    events: Seq<WireEventView>,
)
    requires
        state_wf(s),
        block_of(s.blocks, index) is None,
        s.output.content.len() + events.len() < usize::MAX,
        block is Thinking || block is RedactedThinking,
    ensures
        ({
            let t = after_events(step(s, opens(index, block)).0, events);
            let n = s.output.content.len() as int;
            let thought = t.output.content[n]->Thinking_0;
            let signature = match thought.thinking_signature {
                Some(x) => x,
                None => seq![],
            };
            &&& n < t.output.content.len()
            &&& t.output.content[n] is Thinking
            &&& block is Thinking ==> !thought.redacted && thought.thinking == thinking_for(
                events,
                index,
            ) && signature == signature_for(events, index)
            &&& block matches ContentBlockView::RedactedThinking { data } ==> thought.redacted
                && signature == data + signature_for(events, index)
        }),
{
    lemma_opened(s, index, block);
    let ci = s.output.content.len() as usize;
    lemma_grows(step(s, opens(index, block)).0, events, index, ci);
    assert(Seq::<char>::empty() + thinking_for(events, index) =~= thinking_for(events, index));
    assert(Seq::<char>::empty() + signature_for(events, index) =~= signature_for(events, index));
}

/// A tool call has the id and the name that it was opened with, and when it is complete its arguments
/// are those that all the pieces sent for it make up; where these are no JSON it has none.
pub proof fn law_tool_call_block(
    s: StreamState,
    index: u64,
    id: Seq<char>,
    name: Seq<char>,
    input: crate::json::JsonView,
    pieces: Seq<WireEventView>,
    stop: WireEventView,
    rest: Seq<WireEventView>,
)
    requires
        state_wf(s),
        block_of(s.blocks, index) is None,
        !s.accum.contains_key(index),
        s.output.content.len() + pieces.len() + rest.len() + 1 < usize::MAX,
        forall|i: int| 0 <= i < pieces.len() ==> !ends_block(#[trigger] pieces[i], index),
        stop matches WireEventView::ContentBlockStop(ev) && ev.index == index,
        forall|i: int| 0 <= i < rest.len() ==> !is_about(#[trigger] rest[i], index),
    ensures
        ({
            let block = ContentBlockView::ToolUse { id, name, input };
            let t = after_events(
                step(after_events(step(s, opens(index, block)).0, pieces), stop).0,
                rest,
            );
            let n = s.output.content.len() as int;
            let sent = arguments_for(pieces, index);
            &&& n < t.output.content.len()
            &&& t.output.content[n] matches AssistantContentView::ToolCall(call) && call.id == id
                && call.name == name && (sent.len() > 0 ==> (
            crate::json::json_parse(sent) matches Some(v) ==> call.arguments == v)) && (
            crate::json::json_parse(sent) is None ==> call.arguments
                == crate::json::empty_object())
        }),
{
    let block = ContentBlockView::ToolUse { id, name, input };
    let ci = s.output.content.len() as usize;
    lemma_opened(s, index, block);
    let a = step(s, opens(index, block)).0;
    lemma_collects(a, pieces, index, ci);
    let b = after_events(a, pieces);
    let c = step(b, stop).0;
    lemma_alone(b, stop, index, ci);
    let sent = arguments_for(pieces, index);
    assert(fragments_at(b.accum, index) =~= sent);
    lemma_settled(c, rest, index, ci);
}

/// What each kind of fragment and each end of a block is reported as: the fragment or the whole of the
/// block, with the place of the block.
pub proof fn law_reports(s: StreamState, index: u64, ci: usize)
    requires
        block_of(s.blocks, index) == Some(ci),
        ci < s.output.content.len(),
    ensures
        forall|d: DeltaView|
            #![trigger step(s, WireEventView::ContentBlockDelta(ContentBlockDeltaEventView { index, delta: d }))]
            {
                let report = step(
                    s,
                    WireEventView::ContentBlockDelta(
                        ContentBlockDeltaEventView { index, delta: d },
                    ),
                ).1;
                match d {
                    DeltaView::TextDelta { text } => report matches Some(
                        StreamEventView::TextDelta { content_index, delta, .. },
                    ) && content_index == ci && delta == text,
                    DeltaView::ThinkingDelta { thinking } => report matches Some(
                        StreamEventView::ThinkingDelta { content_index, delta, .. },
                    ) && content_index == ci && delta == thinking,
                    DeltaView::InputJsonDelta { partial_json } => report matches Some(
                        StreamEventView::ToolcallDelta { content_index, delta, .. },
                    ) && content_index == ci && delta == partial_json,
                    DeltaView::SignatureDelta { .. } => report is None,
                }
            },
        forall|e: WireEventView|
            #![trigger step(s, e)]
            (e matches WireEventView::ContentBlockStop(ev) && ev.index == index) ==> {
                let t = step(s, e).0.output.content[ci as int];
                match s.output.content[ci as int] {
                    AssistantContentView::Text(x) => step(s, e).1 matches Some(
                        StreamEventView::TextEnd { content_index, content, .. },
                    ) && content_index == ci && content == x.text,
                    AssistantContentView::Thinking(x) => step(s, e).1 matches Some(
                        StreamEventView::ThinkingEnd { content_index, content, .. },
                    ) && content_index == ci && content == x.thinking,
                    AssistantContentView::ToolCall(_) => step(s, e).1 matches Some(
                        StreamEventView::ToolcallEnd { content_index, tool_call, .. },
                    ) && content_index == ci && t == AssistantContentView::ToolCall(tool_call),
                }
            },
{
}

/// The message is done when it stops, with all of its content, and for the reason that was given last:
/// a normal end, the limit of the answer, a tool to be run; any other reason is an error. Counts that
/// are given replace those that were known, and the total is their sum.
pub proof fn law_end_of_message(s: StreamState, reason: Seq<char>, e: WireEventView)
    ensures
        step(s, WireEventView::MessageStop).1 == Some(
            StreamEventView::Done { reason: s.output.stop_reason, message: s.output },
        ),
        e matches WireEventView::MessageDelta(ev) ==> {
            let t = step(s, e).0.output;
            &&& t.content == s.output.content
            &&& ev.delta matches Some(d) ==> d.stop_reason == Some(reason) ==> t.stop_reason == (if reason
                == "end_turn"@ || reason == "pause_turn"@ || reason == "stop_sequence"@ {
                StopReason::Stop
            } else if reason == "max_tokens"@ {
                StopReason::Length
            } else if reason == "tool_use"@ {
                StopReason::ToolUse
            } else {
                StopReason::Error
            })
            &&& ev.delta is None ==> t.stop_reason == s.output.stop_reason
            &&& ev.usage is None ==> t.usage == s.output.usage
            &&& ev.usage matches Some(u) ==> {
                &&& t.usage.input == (match u.input_tokens {
                    Some(n) => n,
                    None => s.output.usage.input,
                })
                &&& t.usage.output == (match u.output_tokens {
                    Some(n) => n,
                    None => s.output.usage.output,
                })
                &&& t.usage.cache_read == (match u.cache_read_input_tokens {
                    Some(n) => n,
                    None => s.output.usage.cache_read,
                })
                &&& t.usage.cache_write == (match u.cache_creation_input_tokens {
                    Some(n) => n,
                    None => s.output.usage.cache_write,
                })
                &&& event_fits(s, e) ==> t.usage.total_tokens == t.usage.input + t.usage.output
                    + t.usage.cache_read + t.usage.cache_write
            }
        },
{
}

/// A failure is reported with the message that it carries, as an error of which nothing that was
/// received is lost but the arguments of tool calls that were not complete.
pub proof fn law_failure(s: StreamState, data: Seq<char>)
    ensures
        step(s, WireEventView::Error { data }).1 matches Some(
            StreamEventView::Error { reason, error },
        ) && reason == StopReason::Error && error.stop_reason == StopReason::Error
            && error.content.len() == s.output.content.len() && error.error_message is Some && (
        forall|i: int|
            0 <= i < error.content.len() && !(#[trigger] error.content[i] is ToolCall)
                ==> error.content[i] == s.output.content[i]) && (
        crate::json::json_parse(data) is None ==> error.error_message == Some("SSE error: "@ + data))
            && (crate::json::json_parse(data) matches Some(v) ==> (
        crate::json::field(v.value, "error"@) matches Some(f) ==> (
        crate::json::field(f, "message"@) matches Some(crate::json::Json::Str(text))
            ==> error.error_message == Some(text)))),
{
}

/// A new block is reported as what it is, at the end of the message, with the message as it is by then.
pub proof fn law_starts_are_reported(s: StreamState, e: WireEventView)
    ensures
        e matches WireEventView::ContentBlockStart(ev) ==> s.output.content.len() < usize::MAX ==> {
            let (t, report) = step(s, e);
            let ci = s.output.content.len();
            match ev.content_block {
                ContentBlockView::Text { .. } => report matches Some(
                    StreamEventView::TextStart { content_index, partial },
                ) && content_index == ci && partial == t.output && t.output.content[ci as int]
                    is Text,
                ContentBlockView::ToolUse { id, name, .. } => report matches Some(
                    StreamEventView::ToolcallStart { content_index, partial },
                ) && content_index == ci && partial == t.output && (t.output.content[ci as int]
                    matches AssistantContentView::ToolCall(tc) && tc.id == id && tc.name == name),
                _ => report matches Some(StreamEventView::ThinkingStart { content_index, partial })
                    && content_index == ci && partial == t.output && t.output.content[ci as int]
                    is Thinking,
            }
        },
{
}

} // verus!
