//! Mock LLM provider for deterministic testing.
//!
//! Returns pre-configured responses from a queue. Each request takes the next response and
//! delivers it as proper stream events.

use vstd::prelude::*;

use crate::json::{array_value, empty_object_value, with_entry, with_str, Json};
use crate::provider::Provider;
use crate::text::str_len;
use crate::types::{
    AssistantContent, AssistantContentView, AssistantMessage, AssistantMessageView, Context, Model,
    ModelCost, ModelView, StopReason, StreamEvent, StreamEventView, TextContent, ThinkingStyle,
    Tool, ToolCall, ToolCallView, Usage,
};

verus! {

/// A pre-configured response for the mock provider.
#[derive(Debug, PartialEq)]
pub enum MockResponse {
    /// Return assistant text, then `StopReason::Stop`.
    Text(String),
    /// Return tool calls, then `StopReason::ToolUse`.
    ToolCalls(Vec<ToolCall>),
    /// Return an `Error` stream event with the given message.
    Error(String),
    /// Return partial text, then an error: a mid-stream failure.
    PartialText { text: String, error: String },
    /// Wait `delay_ms`, then deliver the inner response. A `Start` event is sent before the wait;
    /// the inner response sends its own (callers should tolerate the duplicate).
    Delayed { delay_ms: u64, response: Box<MockResponse> },
    /// Send one event, then hang forever (for idle timeout testing).
    Hang,
}

/// A step in delivering a response.
#[derive(Debug, PartialEq)]
pub enum MockStep {
    /// Send an event.
    Send(StreamEvent),
    /// Wait for some milliseconds.
    Sleep(u64),
    /// Go on with another response.
    Deliver(Box<MockResponse>),
    /// Never come back.
    Park,
}

/// What a [`MockStep`] holds.
#[verifier::ext_equal]
pub enum MockStepView {
    Send(StreamEventView),
    Sleep(u64),
    Deliver(MockResponse),
    Park,
}

impl View for MockStep {
    type V = MockStepView;

    open spec fn view(&self) -> MockStepView {
        match *self {
            MockStep::Send(e) => MockStepView::Send(e@),
            MockStep::Sleep(ms) => MockStepView::Sleep(ms),
            MockStep::Deliver(r) => MockStepView::Deliver(*r),
            MockStep::Park => MockStepView::Park,
        }
    }
}

impl DeepView for MockStep {
    type V = MockStepView;

    open spec fn deep_view(&self) -> MockStepView {
        self@
    }
}

/// A message with one more text block.
pub open spec fn with_text(m: AssistantMessageView, text: Seq<char>) -> AssistantMessageView {
    AssistantMessageView {
        content: m.content.push(AssistantContentView::Text(crate::types::plain_text(text))),
        ..m
    }
}

/// A message that failed.
pub open spec fn with_error(m: AssistantMessageView, error: Seq<char>) -> AssistantMessageView {
    AssistantMessageView { stop_reason: StopReason::Error, error_message: Some(error), ..m }
}

/// The end of a failed message.
pub open spec fn error_step(m: AssistantMessageView) -> MockStepView {
    MockStepView::Send(StreamEventView::Error { reason: StopReason::Error, error: m })
}

/// The message after the first `n` calls.
pub open spec fn with_calls(
    m: AssistantMessageView,
    calls: Seq<ToolCallView>,
    n: int,
) -> AssistantMessageView {
    AssistantMessageView {
        content: m.content + Seq::new(
            n as nat,
            |i: int| AssistantContentView::ToolCall(calls[i]),
        ),
        ..m
    }
}

/// The steps that deliver the first `n` calls.
pub open spec fn call_steps(m: AssistantMessageView, calls: Seq<ToolCallView>, n: int) -> Seq<
    MockStepView,
>
    decreases n,
{
    if n <= 0 {
        seq![]
    } else {
        let partial = with_calls(m, calls, n);
        call_steps(m, calls, n - 1).push(
            MockStepView::Send(
                StreamEventView::ToolcallStart { content_index: (n - 1) as usize, partial },
            ),
        ).push(
            MockStepView::Send(
                StreamEventView::ToolcallEnd {
                    content_index: (n - 1) as usize,
                    tool_call: calls[n - 1],
                    partial,
                },
            ),
        )
    }
}

/// The steps that deliver a text.
pub open spec fn text_steps(m: AssistantMessageView, text: Seq<char>) -> Seq<MockStepView> {
    let done = AssistantMessageView {
        usage: Usage {
            input: 100,
            output: (crate::text::byte_len(text) / 4) as u64,
            ..m.usage
        },
        stop_reason: StopReason::Stop,
        ..with_text(m, text)
    };
    seq![
        MockStepView::Send(StreamEventView::TextStart { content_index: 0, partial: done }),
        MockStepView::Send(
            StreamEventView::TextDelta { content_index: 0, delta: text, partial: done },
        ),
        MockStepView::Send(
            StreamEventView::TextEnd { content_index: 0, content: text, partial: done },
        ),
        MockStepView::Send(StreamEventView::Done { reason: StopReason::Stop, message: done }),
    ]
}

/// The steps that deliver a response after the start of the message `m`.
pub open spec fn response_steps(r: MockResponse, m: AssistantMessageView) -> Seq<MockStepView> {
    match r {
        MockResponse::Text(text) => text_steps(m, text@),
        MockResponse::ToolCalls(calls) => {
            let n = calls.deep_view().len() as int;
            call_steps(m, calls.deep_view(), n).push(
                MockStepView::Send(
                    StreamEventView::Done {
                        reason: StopReason::ToolUse,
                        message: AssistantMessageView {
                            usage: Usage { input: 100, output: 50, ..m.usage },
                            stop_reason: StopReason::ToolUse,
                            ..with_calls(m, calls.deep_view(), n)
                        },
                    },
                ),
            )
        },
        MockResponse::Error(msg) => seq![error_step(with_error(m, msg@))],
        MockResponse::PartialText { text, error } => {
            let partial = with_text(m, text@);
            seq![
                MockStepView::Send(StreamEventView::TextStart { content_index: 0, partial }),
                MockStepView::Send(
                    StreamEventView::TextDelta { content_index: 0, delta: text@, partial },
                ),
                error_step(with_error(partial, error@)),
            ]
        },
        MockResponse::Delayed { delay_ms, response } => seq![
            MockStepView::Sleep(delay_ms),
            MockStepView::Deliver(*response),
        ],
        MockResponse::Hang => seq![
            MockStepView::Send(
                StreamEventView::TextStart {
                    content_index: 0,
                    partial: with_text(m, "hanging..."@),
                },
            ),
            MockStepView::Park,
        ],
    }
}

/// Whether the steps deliver the response: the start of an empty message, then the response.
pub open spec fn is_script(r: MockResponse, steps: Seq<MockStepView>) -> bool {
    &&& steps.len() > 0
    &&& steps[0] is Send
    &&& steps[0]->Send_0 is Start
    &&& ({
        let m = steps[0]->Send_0->Start_partial;
        &&& m.is_empty_of("mock"@, "mock"@, "mock-model"@)
        &&& steps == seq![steps[0]] + response_steps(r, m)
    })
}

/// One more event to send.
fn send(steps: &mut Vec<MockStep>, e: StreamEvent)
    ensures
        final(steps).deep_view() == old(steps).deep_view().push(MockStepView::Send(e@)),
{
    steps.push(MockStep::Send(e));
    assert(steps.deep_view() =~= old(steps).deep_view().push(MockStepView::Send(e@)));
}

/// One more text block.
fn add_text(m: &mut AssistantMessage, text: &str)
    ensures
        final(m)@ == with_text(old(m)@, text@),
{
    m.content.push(AssistantContent::Text(TextContent::plain(text.to_owned())));
    assert(m@.content =~= with_text(old(m)@, text@).content);
}

/// The calls of a response, one after the other.
fn send_calls(steps: &mut Vec<MockStep>, output: &mut AssistantMessage, calls: &Vec<ToolCall>)
    ensures
        final(steps).deep_view() == old(steps).deep_view() + call_steps(
            old(output)@,
            calls.deep_view(),
            calls.deep_view().len() as int,
        ),
        final(output)@ == with_calls(
            old(output)@,
            calls.deep_view(),
            calls.deep_view().len() as int,
        ),
{
    let ghost cs = calls.deep_view();
    let ghost m = output@;
    let mut i: usize = 0;
    assert(output@.content =~= with_calls(m, cs, 0).content);
    assert(steps.deep_view() =~= old(steps).deep_view() + call_steps(m, cs, 0));
    while i < calls.len()
        invariant
            i <= calls.len(),
            cs == calls.deep_view(),
            output@ == with_calls(m, cs, i as int),
            steps.deep_view() == old(steps).deep_view() + call_steps(m, cs, i as int),
        decreases calls.len() - i,
    {
        assert(cs[i as int] == calls[i as int]@);
        let ghost content = output@.content;
        let call = calls[i].clone();
        output.content.push(AssistantContent::ToolCall(call));
        assert(output@.content =~= content.push(AssistantContentView::ToolCall(cs[i as int])));
        assert(output@.content =~= with_calls(m, cs, i + 1).content);
        let ghost before = steps.deep_view();
        send(steps, StreamEvent::ToolcallStart { content_index: i, partial: output.clone() });
        send(
            steps,
            StreamEvent::ToolcallEnd {
                content_index: i,
                tool_call: calls[i].clone(),
                partial: output.clone(),
            },
        );
        assert(steps.deep_view() =~= old(steps).deep_view() + call_steps(m, cs, i + 1));
        i = i + 1;
    }
}

/// A whole text.
fn send_text(steps: &mut Vec<MockStep>, output: AssistantMessage, text: String)
    ensures
        final(steps).deep_view() == old(steps).deep_view() + text_steps(output@, text@),
{
    let mut done = output;
    add_text(&mut done, text.as_str());
    done.usage.input = 100;
    done.usage.output = (str_len(text.as_str()) / 4) as u64;
    done.stop_reason = StopReason::Stop;
    send(steps, StreamEvent::TextStart { content_index: 0, partial: done.clone() });
    send(
        steps,
        StreamEvent::TextDelta { content_index: 0, delta: text.clone(), partial: done.clone() },
    );
    let ghost content = text@;
    send(steps, StreamEvent::TextEnd { content_index: 0, content: text, partial: done.clone() });
    send(steps, StreamEvent::Done { reason: StopReason::Stop, message: done });
    assert(steps.deep_view() =~= old(steps).deep_view() + text_steps(output@, content));
}

/// The start of a text, then a failure.
fn send_partial(steps: &mut Vec<MockStep>, output: AssistantMessage, text: String, error: String)
    ensures
        final(steps).deep_view() == old(steps).deep_view() + response_steps(
            (MockResponse::PartialText { text, error }),
            output@,
        ),
{
    let ghost expected = response_steps((MockResponse::PartialText { text, error }), output@);
    let mut partial = output;
    add_text(&mut partial, text.as_str());
    send(steps, StreamEvent::TextStart { content_index: 0, partial: partial.clone() });
    send(
        steps,
        StreamEvent::TextDelta { content_index: 0, delta: text, partial: partial.clone() },
    );
    partial.stop_reason = StopReason::Error;
    partial.error_message = Some(error);
    send(steps, StreamEvent::Error { reason: StopReason::Error, error: partial });
    assert(steps.deep_view() =~= old(steps).deep_view() + expected);
}

/// The steps that deliver a response.
#[verifier::rlimit(30)]
pub fn mock_script(response: MockResponse) -> (r: Vec<MockStep>)
    ensures
        is_script(response, r.deep_view()),
{
    let mut steps: Vec<MockStep> = Vec::new();
    let mut output = AssistantMessage::empty("mock", "mock", "mock-model");
    let ghost m = output@;
    send(&mut steps, StreamEvent::Start { partial: output.clone() });
    let ghost first = steps.deep_view()[0];
    assert(steps.deep_view() =~= seq![first]);
    match response {
        MockResponse::Text(text) => {
            send_text(&mut steps, output, text);
            assert(steps.deep_view() =~= seq![first] + text_steps(m, text@));
        },
        MockResponse::ToolCalls(calls) => {
            send_calls(&mut steps, &mut output, &calls);
            output.usage.input = 100;
            output.usage.output = 50;
            output.stop_reason = StopReason::ToolUse;
            send(&mut steps, StreamEvent::Done { reason: StopReason::ToolUse, message: output });
            assert(steps.deep_view() =~= seq![first] + response_steps(response, m));
        },
        MockResponse::Error(msg) => {
            output.stop_reason = StopReason::Error;
            output.error_message = Some(msg);
            send(&mut steps, StreamEvent::Error { reason: StopReason::Error, error: output });
            assert(steps.deep_view() =~= seq![first] + response_steps(response, m));
        },
        MockResponse::PartialText { text, error } => {
            send_partial(&mut steps, output, text, error);
            assert(steps.deep_view() =~= seq![first] + response_steps(response, m));
        },
        MockResponse::Delayed { delay_ms, response: inner } => {
            steps.push(MockStep::Sleep(delay_ms));
            steps.push(MockStep::Deliver(inner));
            assert(steps.deep_view() =~= seq![first] + response_steps(response, m));
        },
        MockResponse::Hang => {
            add_text(&mut output, "hanging...");
            send(&mut steps, StreamEvent::TextStart { content_index: 0, partial: output });
            let ghost before = steps.deep_view();
            steps.push(MockStep::Park);
            assert(steps.deep_view() =~= before.push(MockStepView::Park));
            assert(steps.deep_view() =~= seq![first] + response_steps(response, m));
        },
    }
    steps
}

/// A delivered response ends with its only terminal event, unless it waits or hangs.
pub proof fn law_script_ends_terminally(r: MockResponse, steps: Seq<MockStepView>)
    requires
        is_script(r, steps),
        !(r is Delayed) && !(r is Hang),
    ensures
        steps.last() is Send,
        crate::types::is_terminal(steps.last()->Send_0),
        forall|i: int|
            0 <= i < steps.len() - 1 ==> (#[trigger] steps[i]) is Send
                && !crate::types::is_terminal(steps[i]->Send_0),
{
    let m = steps[0]->Send_0->Start_partial;
    if let MockResponse::ToolCalls(calls) = r {
        lemma_call_steps(m, calls.deep_view(), calls.deep_view().len() as int);
    }
}

proof fn lemma_call_steps(m: AssistantMessageView, calls: Seq<ToolCallView>, n: int)
    ensures
        forall|i: int|
            0 <= i < call_steps(m, calls, n).len() ==> (#[trigger] call_steps(m, calls, n)[i])
                is Send && !crate::types::is_terminal(call_steps(m, calls, n)[i]->Send_0),
    decreases n,
{
    if n > 0 {
        lemma_call_steps(m, calls, n - 1);
    }
}

// ---------------------------------------------------------------------------
// Provider
// ---------------------------------------------------------------------------

/// A request that the provider has seen.
#[derive(Debug, PartialEq)]
pub struct MockCapture {
    /// Zero-based turn index (order of the requests).
    pub index: usize,
    /// The context of the request.
    pub context: Context,
    /// When the turn started, in milliseconds on the caller's clock.
    pub timestamp: u64,
}

/// Mock provider that returns pre-configured responses.
#[derive(Debug)]
pub struct MockProvider {
    pub responses: Vec<MockResponse>,
    pub captures: Vec<MockCapture>,
}

impl Provider for MockProvider {
    open spec fn id(&self) -> Seq<char> {
        "mock"@
    }

    open spec fn keyed(&self) -> bool {
        true
    }

    fn api_id(&self) -> (r: &str) {
        "mock"
    }

    fn needs_api_key(&self) -> (r: bool) {
        true
    }
}

impl MockProvider {
    pub fn new(responses: Vec<MockResponse>) -> (r: Self)
        ensures
            r.responses@ == responses@,
            r.captures@.len() == 0,
    {
        MockProvider { responses, captures: Vec::new() }
    }

    /// Capture the context of a request and take the next response, or an error when there is
    /// none left.
    pub fn next_response(&mut self, context: &Context, now_ms: u64) -> (r: MockResponse)
        ensures
            final(self).captures@.len() == old(self).captures@.len() + 1,
            final(self).captures@.subrange(0, old(self).captures@.len() as int) == old(
                self,
            ).captures@,
            final(self).captures@.last().index == old(self).captures@.len(),
            final(self).captures@.last().context@ == context@,
            final(self).captures@.last().timestamp == now_ms,
            old(self).responses@.len() > 0 ==> r == old(self).responses@[0]
                && final(self).responses@ == old(self).responses@.remove(0),
            old(self).responses@.len() == 0 ==> r is Error && r->Error_0@
                == "no more mock responses"@ && final(self).responses@ == old(self).responses@,
    {
        let index: usize = self.captures.len();
        self.captures.push(MockCapture { index, context: context.clone(), timestamp: now_ms });
        assert(self.captures@.subrange(0, old(self).captures@.len() as int) =~= old(
            self,
        ).captures@);
        if self.responses.len() > 0 {
            self.responses.remove(0)
        } else {
            MockResponse::Error("no more mock responses".to_owned())
        }
    }

    /// Milliseconds between consecutive requests.
    pub fn turn_durations(&self) -> (r: Vec<u64>)
        ensures
            self.captures@.len() == 0 ==> r@.len() == 0,
            self.captures@.len() > 0 ==> r@.len() == self.captures@.len() - 1,
            forall|i: int|
                0 <= i < r@.len() ==> #[trigger] r@[i] == (if self.captures@[i + 1].timestamp
                    >= self.captures@[i].timestamp {
                    self.captures@[i + 1].timestamp - self.captures@[i].timestamp
                } else {
                    0
                }),
    {
        let mut out: Vec<u64> = Vec::new();
        let mut i: usize = 1;
        while i < self.captures.len()
            invariant
                1 <= i,
                self.captures@.len() == 0 ==> i == 1,
                self.captures@.len() > 0 ==> i <= self.captures@.len(),
                out@.len() == i - 1,
                forall|j: int|
                    0 <= j < out@.len() ==> #[trigger] out@[j] == (if self.captures@[j
                        + 1].timestamp >= self.captures@[j].timestamp {
                        self.captures@[j + 1].timestamp - self.captures@[j].timestamp
                    } else {
                        0
                    }),
            decreases self.captures.len() - i,
        {
            out.push(
                self.captures[i].timestamp.saturating_sub(self.captures[i - 1].timestamp),
            );
            i = i + 1;
        }
        out
    }
}

// ---------------------------------------------------------------------------
// Test helpers
// ---------------------------------------------------------------------------

/// A minimal tool that takes no arguments.
pub fn mock_tool(name: &str, description: &str) -> (r: Tool)
    ensures
        r@.name == name@,
        r@.description == description@,
        r@.parameters.value == Json::Obj(
            map![
                "type"@ => Json::Str("object"@),
                "properties"@ => Json::Obj(Map::empty()),
                "required"@ => Json::Arr(seq![]),
            ],
        ),
{
    let v = with_str(empty_object_value(), "type", "object");
    let v = with_entry(v, "properties".to_owned(), empty_object_value());
    let none: Vec<serde_json::Value> = Vec::new();
    assert(crate::json::jsons(none@) =~= seq![]);
    let v = with_entry(v, "required".to_owned(), array_value(none));
    Tool { name: name.to_owned(), description: description.to_owned(), parameters: v }
}

/// Create a mock model for testing (api id `"mock"`).
pub fn mock_model() -> (r: Model)
    ensures
        r@ == (ModelView {
            id: "mock-model"@,
            name: "Mock Model"@,
            api: "mock"@,
            provider: "mock"@,
            base_url: "http://mock"@,
            thinking: ThinkingStyle::Off,
            cost: ModelCost { input: 0, output: 0, cache_read: 0, cache_write: 0 },
            context_window: 100_000,
            max_tokens: 4_096,
            headers: seq![],
        }),
{
    let r = Model {
        id: "mock-model".to_owned(),
        name: "Mock Model".to_owned(),
        api: "mock".to_owned(),
        provider: "mock".to_owned(),
        base_url: "http://mock".to_owned(),
        thinking: ThinkingStyle::Off,
        cost: ModelCost::default(),
        context_window: 100_000,
        max_tokens: 4_096,
        headers: Vec::new(),
    };
    assert(r@.headers =~= seq![]);
    r
}

/// A scripted text is streamed whole, and is the text of the message that it ends with, which stopped by
/// itself.
pub proof fn law_text_is_delivered(text: Seq<char>, m: AssistantMessageView)
    requires
        m.content.len() == 0,
    ensures
        ({
            let steps = text_steps(m, text);
            let message = steps.last()->Send_0->Done_message;
            &&& steps.last()->Send_0 is Done
            &&& message.text() == text
            &&& message.stop_reason is Stop
            &&& exists|i: int|
                0 <= i < steps.len() && ((#[trigger] steps[i]) matches MockStepView::Send(
                    StreamEventView::TextDelta { delta, .. },
                ) && delta == text)
        }),
{
    let steps = text_steps(m, text);
    let message = steps.last()->Send_0->Done_message;
    assert(steps[1] is Send);
    let c = AssistantContentView::Text(crate::types::plain_text(text));
    assert(message.content =~= seq![c]);
    lemma_one_text(message, text);
}

proof fn lemma_one_text(message: AssistantMessageView, text: Seq<char>)
    requires
        message.content == seq![AssistantContentView::Text(crate::types::plain_text(text))],
    ensures
        message.text() == text,
{
    let content = message.content;
    let parts = Seq::new(content.len(), |i: int| crate::types::block_text(content[i]));
    assert(parts =~= seq![text]);
    let init = parts.subrange(0, parts.len() - 1);
    assert(crate::text::concat(init) =~= Seq::empty());
    assert(crate::text::concat(parts) =~= text);
}

/// Scripted calls are all streamed, in order, and the message that they end with asks for exactly them.
pub proof fn law_calls_are_delivered(m: AssistantMessageView, calls: Seq<ToolCallView>, n: int)
    requires
        m.content.len() == 0,
        0 <= n <= calls.len(),
        calls.len() <= usize::MAX,
    ensures
        call_steps(m, calls, n).len() == 2 * n,
        forall|i: int|
            0 <= i < n ==> ((#[trigger] call_steps(m, calls, n)[2 * i + 1])
                matches MockStepView::Send(
                StreamEventView::ToolcallEnd { tool_call, content_index, .. },
            ) && tool_call == calls[i] && content_index == i),
        crate::agent::tool_calls(with_calls(m, calls, n).content) == calls.subrange(0, n),
    decreases n,
{
    let content = with_calls(m, calls, n).content;
    if n > 0 {
        law_calls_are_delivered(m, calls, n - 1);
        let before = with_calls(m, calls, n - 1).content;
        assert(content.subrange(0, content.len() - 1) =~= before);
        assert(calls.subrange(0, n) =~= calls.subrange(0, n - 1).push(calls[n - 1]));
        let steps = call_steps(m, calls, n);
        let earlier = call_steps(m, calls, n - 1);
        assert forall|i: int| 0 <= i < n implies ((#[trigger] steps[2 * i + 1])
            matches MockStepView::Send(
            StreamEventView::ToolcallEnd { tool_call, content_index, .. },
        ) && tool_call == calls[i] && content_index == i) by {
            if i < n - 1 {
                assert(steps[2 * i + 1] == earlier[2 * i + 1]);
            }
        }
    } else {
        assert(content =~= Seq::empty());
        assert(calls.subrange(0, 0) =~= Seq::empty());
    }
}

/// A scripted failure ends in an error event with its message, behind what was written before it.
pub proof fn law_failures_are_delivered(r: MockResponse, m: AssistantMessageView)
    requires
        r is Error || r is PartialText,
        m.content.len() == 0,
    ensures
        ({
            let steps = response_steps(r, m);
            let message = steps.last()->Send_0->Error_error;
            &&& steps.last()->Send_0 is Error
            &&& message.stop_reason is Error
            &&& r matches MockResponse::Error(e) ==> message.error_message == Some(e@)
                && message.content.len() == 0
            &&& r matches MockResponse::PartialText { text, error } ==> message.error_message
                == Some(error@) && message.text() == text@
        }),
{
    if let MockResponse::PartialText { text, error } = r {
        let message = response_steps(r, m).last()->Send_0->Error_error;
        assert(message.content =~= seq![
            AssistantContentView::Text(crate::types::plain_text(text@)),
        ]);
        lemma_one_text(message, text@);
    }
}

} // verus!
