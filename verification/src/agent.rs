//! The agent loop: stream a response, run the tools it asks for, repeat.

use vstd::prelude::*;

use crate::error::{Error, ErrorView};
use crate::types::{
    AgentPhase, AssistantContent, AssistantContentView, AssistantMessage, AssistantMessageView,
    Context, ContextView, Message, MessageView, StopReason, StreamEvent, StreamEventView, ToolCall,
    ToolCallView, ToolResultMessage, ToolResultMessageView,
};

verus! {

/// Limits of a run.
#[derive(Debug, Clone, Copy, PartialEq, Eq, Structural)]
pub struct AgentConfig {
    /// Hard turn limit: the loop exits with `max_turns_reached` when it is hit.
    pub turn_limit: usize,
}

impl Default for AgentConfig {
    fn default() -> (r: Self)
        ensures
            r.turn_limit == 32,
    {
        AgentConfig { turn_limit: 32 }
    }
}

/// Where a run is.
#[derive(Debug, Clone, Copy, PartialEq, Eq, Structural)]
pub enum AgentMode {
    /// Between turns.
    Turn,
    /// The provider is responding.
    Streaming,
    /// Before the next tool call.
    Tools,
    /// The next tool call is running.
    Running,
    /// The run is over.
    Finished,
}

/// What a run of the loop comes to.
#[derive(Debug, PartialEq)]
pub struct AgentResult {
    /// Messages produced during this run (assistant and tool results, in order).
    pub new_messages: Vec<Message>,
    /// Why the loop stopped.
    pub reason: StopReason,
    /// True if the turn limit was hit.
    pub max_turns_reached: bool,
}

/// What a [`AgentResult`] holds.
#[verifier::ext_equal]
pub struct AgentResultView {
    pub new_messages: Seq<MessageView>,
    pub reason: StopReason,
    pub max_turns_reached: bool,
}

impl View for AgentResult {
    type V = AgentResultView;

    open spec fn view(&self) -> AgentResultView {
        AgentResultView {
            new_messages: self.new_messages.deep_view(),
            reason: self.reason,
            max_turns_reached: self.max_turns_reached,
        }
    }
}

impl DeepView for AgentResult {
    type V = AgentResultView;

    open spec fn deep_view(&self) -> AgentResultView {
        self@
    }
}

impl Clone for AgentResult {
    fn clone(&self) -> (r: Self)
        ensures
            r@ == self@,
    {
        let r = AgentResult {
            new_messages: self.new_messages.clone(),
            reason: self.reason,
            max_turns_reached: self.max_turns_reached,
        };
        assert(r.new_messages.deep_view() =~= self.new_messages.deep_view());
        r
    }
}

/// What a step asks the caller to do, in order.
#[derive(Debug, PartialEq)]
pub enum Effect {
    /// Send the event to whoever listens.
    Emit(StreamEvent),
    /// Persist the message.
    Record(Message),
}

/// What a [`Effect`] holds.
#[verifier::ext_equal]
pub enum EffectView {
    Emit(StreamEventView),
    Record(MessageView),
}

impl View for Effect {
    type V = EffectView;

    open spec fn view(&self) -> EffectView {
        match *self {
            Effect::Emit(x) => EffectView::Emit(x@),
            Effect::Record(x) => EffectView::Record(x@),
        }
    }
}

impl DeepView for Effect {
    type V = EffectView;

    open spec fn deep_view(&self) -> EffectView {
        self@
    }
}

impl Clone for Effect {
    fn clone(&self) -> (r: Self)
        ensures
            r@ == self@,
    {
        match self {
            Effect::Emit(x) => Effect::Emit(x.clone()),
            Effect::Record(x) => Effect::Record(x.clone()),
        }
    }
}

/// What the caller hands to a step.
#[derive(Debug, PartialEq)]
pub enum AgentInput {
    /// Asked for before a turn and before each tool: is the run cancelled?
    Check { cancelled: bool },
    /// The provider sent an event.
    Received { event: StreamEvent, cancelled: bool },
    /// The provider closed its stream.
    Closed { cancelled: bool },
    /// The tool returned a result.
    ToolDone(ToolResultMessage),
    /// The tool could not be run.
    ToolFailed(Error),
}

/// What a [`AgentInput`] holds.
#[verifier::ext_equal]
pub enum AgentInputView {
    Check { cancelled: bool },
    Received { event: StreamEventView, cancelled: bool },
    Closed { cancelled: bool },
    ToolDone(ToolResultMessageView),
    ToolFailed(ErrorView),
}

impl View for AgentInput {
    type V = AgentInputView;

    open spec fn view(&self) -> AgentInputView {
        match *self {
            AgentInput::Check { cancelled } => AgentInputView::Check { cancelled: cancelled },
            AgentInput::Received { event, cancelled } => AgentInputView::Received { event: event@, cancelled: cancelled },
            AgentInput::Closed { cancelled } => AgentInputView::Closed { cancelled: cancelled },
            AgentInput::ToolDone(x) => AgentInputView::ToolDone(x@),
            AgentInput::ToolFailed(x) => AgentInputView::ToolFailed(x@),
        }
    }
}

impl DeepView for AgentInput {
    type V = AgentInputView;

    open spec fn deep_view(&self) -> AgentInputView {
        self@
    }
}

impl Clone for AgentInput {
    fn clone(&self) -> (r: Self)
        ensures
            r@ == self@,
    {
        match self {
            AgentInput::Check { cancelled } => AgentInput::Check { cancelled: *cancelled },
            AgentInput::Received { event, cancelled } => AgentInput::Received { event: event.clone(), cancelled: *cancelled },
            AgentInput::Closed { cancelled } => AgentInput::Closed { cancelled: *cancelled },
            AgentInput::ToolDone(x) => AgentInput::ToolDone(x.clone()),
            AgentInput::ToolFailed(x) => AgentInput::ToolFailed(x.clone()),
        }
    }
}

/// What the caller does next, after the effects of a step.
#[derive(Debug, PartialEq)]
pub enum AgentAction {
    /// Hand in [`AgentInput::Check`].
    Check,
    /// Open a stream for the context, then hand in what it sends.
    Stream,
    /// Hand in the next event of the stream.
    Receive,
    /// Run the tool and hand in its outcome.
    Execute(ToolCall),
    /// The run is over.
    Finish(AgentResult),
    /// The run failed.
    Fail(Error),
}

/// What a [`AgentAction`] holds.
#[verifier::ext_equal]
pub enum AgentActionView {
    Check,
    Stream,
    Receive,
    Execute(ToolCallView),
    Finish(AgentResultView),
    Fail(ErrorView),
}

impl View for AgentAction {
    type V = AgentActionView;

    open spec fn view(&self) -> AgentActionView {
        match *self {
            AgentAction::Check => AgentActionView::Check,
            AgentAction::Stream => AgentActionView::Stream,
            AgentAction::Receive => AgentActionView::Receive,
            AgentAction::Execute(x) => AgentActionView::Execute(x@),
            AgentAction::Finish(x) => AgentActionView::Finish(x@),
            AgentAction::Fail(x) => AgentActionView::Fail(x@),
        }
    }
}

impl DeepView for AgentAction {
    type V = AgentActionView;

    open spec fn deep_view(&self) -> AgentActionView {
        self@
    }
}

impl Clone for AgentAction {
    fn clone(&self) -> (r: Self)
        ensures
            r@ == self@,
    {
        match self {
            AgentAction::Check => AgentAction::Check,
            AgentAction::Stream => AgentAction::Stream,
            AgentAction::Receive => AgentAction::Receive,
            AgentAction::Execute(x) => AgentAction::Execute(x.clone()),
            AgentAction::Finish(x) => AgentAction::Finish(x.clone()),
            AgentAction::Fail(x) => AgentAction::Fail(x.clone()),
        }
    }
}

/// A run of the agent loop.
#[derive(Debug, PartialEq)]
pub struct AgentRun {
    /// Turns that may still be started.
    pub turns_left: usize,
    /// Where the run is.
    pub mode: AgentMode,
    /// The tool calls of the current turn.
    pub calls: Vec<ToolCall>,
    /// The first call that has no result yet.
    pub next: usize,
    /// Messages produced so far.
    pub new_messages: Vec<Message>,
}

/// What a [`AgentRun`] holds.
#[verifier::ext_equal]
pub struct AgentRunView {
    pub turns_left: usize,
    pub mode: AgentMode,
    pub calls: Seq<ToolCallView>,
    pub next: usize,
    pub new_messages: Seq<MessageView>,
}

impl View for AgentRun {
    type V = AgentRunView;

    open spec fn view(&self) -> AgentRunView {
        AgentRunView {
            turns_left: self.turns_left,
            mode: self.mode,
            calls: self.calls.deep_view(),
            next: self.next,
            new_messages: self.new_messages.deep_view(),
        }
    }
}

impl DeepView for AgentRun {
    type V = AgentRunView;

    open spec fn deep_view(&self) -> AgentRunView {
        self@
    }
}

// ---------------------------------------------------------------------------
// Crash recovery
// ---------------------------------------------------------------------------

/// The last assistant message that is followed only by tool results, info messages and failed
/// assistant messages.
pub open spec fn last_assistant(messages: Seq<MessageView>) -> Option<int>
    decreases messages.len(),
{
    if messages.len() == 0 {
        None
    } else {
        match messages[messages.len() - 1] {
            MessageView::ToolResult(_) | MessageView::Info(_) => last_assistant(
                messages.subrange(0, messages.len() - 1),
            ),
            MessageView::Assistant(a) => if a.stop_reason == StopReason::Error {
                last_assistant(messages.subrange(0, messages.len() - 1))
            } else {
                Some(messages.len() - 1)
            },
            _ => None,
        }
    }
}

/// Whether a message after `from` answers the call `id`.
pub open spec fn answered(messages: Seq<MessageView>, from: int, id: Seq<char>) -> bool {
    exists|j: int| from < j < messages.len() && #[trigger] answers(messages[j], id)
}

/// Whether the message answers the call `id`.
pub open spec fn answers(m: MessageView, id: Seq<char>) -> bool {
    m is ToolResult && m->ToolResult_0.tool_call_id == id
}

/// The tool calls of an assistant message.
pub open spec fn tool_calls(content: Seq<AssistantContentView>) -> Seq<ToolCallView>
    decreases content.len(),
{
    if content.len() == 0 {
        seq![]
    } else {
        let init = tool_calls(content.subrange(0, content.len() - 1));
        match content[content.len() - 1] {
            AssistantContentView::ToolCall(tc) => init.push(tc),
            _ => init,
        }
    }
}

/// The calls that no message after `from` answers.
pub open spec fn unanswered(
    calls: Seq<ToolCallView>,
    messages: Seq<MessageView>,
    from: int,
) -> Seq<ToolCallView>
    decreases calls.len(),
{
    if calls.len() == 0 {
        seq![]
    } else {
        let init = unanswered(calls.subrange(0, calls.len() - 1), messages, from);
        let last = calls[calls.len() - 1];
        if answered(messages, from, last.id) {
            init
        } else {
            init.push(last)
        }
    }
}

/// The tool calls that an interrupted session left without a result.
pub open spec fn orphans(messages: Seq<MessageView>) -> Seq<ToolCallView> {
    match last_assistant(messages) {
        Some(i) => if messages[i]->Assistant_0.stop_reason == StopReason::ToolUse {
            unanswered(tool_calls(messages[i]->Assistant_0.content), messages, i)
        } else {
            seq![]
        },
        None => seq![],
    }
}

/// Whether the message is an error result that stands in for the call.
pub open spec fn is_stub(m: MessageView, call: ToolCallView, text: Seq<char>) -> bool {
    m is ToolResult && m->ToolResult_0.is_plain(call.id, call.name, text, true)
}

/// Whether the messages are, one for one, error results for the calls.
pub open spec fn are_stubs(
    ms: Seq<MessageView>,
    calls: Seq<ToolCallView>,
    text: Seq<char>,
) -> bool {
    ms.len() == calls.len() && forall|i: int|
        0 <= i < ms.len() ==> is_stub(#[trigger] ms[i], calls[i], text)
}

/// True if the last message is a `ToolResult`: the session was interrupted after tool execution
/// but before the LLM responded.
pub fn needs_continuation(messages: &[Message]) -> (r: bool)
    ensures
        r == (messages.deep_view().len() > 0 && messages.deep_view().last() is ToolResult),
{
    if messages.len() == 0 {
        return false;
    }
    let last = messages.len() - 1;
    assert(messages.deep_view().last() == messages@[last as int]@);
    match &messages[last] {
        Message::ToolResult(_) => true,
        _ => false,
    }
}

/// The last assistant message is one.
pub proof fn lemma_last_assistant(messages: Seq<MessageView>)
    ensures
        last_assistant(messages) matches Some(i) ==> 0 <= i < messages.len() && messages[i] is Assistant,
    decreases messages.len(),
{
    if messages.len() > 0 {
        lemma_last_assistant(messages.subrange(0, messages.len() - 1));
    }
}

/// Where the last assistant message of an interrupted turn stands.
fn find_last_assistant(messages: &[Message]) -> (r: Option<usize>)
    ensures
        match r {
            Some(i) => last_assistant(messages.deep_view()) == Some(i as int) && i < messages.len(),
            None => last_assistant(messages.deep_view()) is None,
        },
{
    let ghost all = messages.deep_view();
    let mut i: usize = messages.len();
    assert(all.subrange(0, i as int) =~= all);
    while i > 0
        invariant
            i <= messages.len(),
            all == messages.deep_view(),
            last_assistant(all) == last_assistant(all.subrange(0, i as int)),
        decreases i,
    {
        i = i - 1;
        let ghost p = all.subrange(0, i + 1);
        assert(p.subrange(0, p.len() - 1) =~= all.subrange(0, i as int));
        assert(p[i as int] == messages@[i as int]@);
        match &messages[i] {
            Message::ToolResult(_) => {},
            Message::Info(_) => {},
            Message::Assistant(a) => {
                if a.stop_reason != StopReason::Error {
                    return Some(i);
                }
            },
            _ => {
                return None;
            },
        }
    }
    None
}

/// The tool calls of an assistant message.
fn collect_calls(a: &AssistantMessage) -> (r: Vec<ToolCall>)
    ensures
        r.deep_view() == tool_calls(a@.content),
{
    let mut calls: Vec<ToolCall> = Vec::new();
    let ghost all = a@.content;
    let mut i: usize = 0;
    assert(all.subrange(0, 0) =~= seq![]);
    assert(calls.deep_view() =~= seq![]);
    while i < a.content.len()
        invariant
            i <= a.content.len(),
            all == a.content.deep_view(),
            calls.deep_view() == tool_calls(all.subrange(0, i as int)),
        decreases a.content.len() - i,
    {
        let ghost p = all.subrange(0, i + 1);
        assert(p.subrange(0, p.len() - 1) =~= all.subrange(0, i as int));
        assert(p[i as int] == a.content[i as int]@);
        let ghost before = calls.deep_view();
        if let AssistantContent::ToolCall(tc) = &a.content[i] {
            let c = tc.clone();
            calls.push(c);
            assert(calls.deep_view() =~= before.push(tc@));
        }
        i = i + 1;
    }
    assert(all.subrange(0, i as int) =~= all);
    calls
}

/// Whether a message after `from` answers the call `id`.
fn is_answered(messages: &[Message], from: usize, id: &str) -> (r: bool)
    requires
        from < messages.len(),
    ensures
        r == answered(messages.deep_view(), from as int, id@),
{
    let mut j: usize = from + 1;
    while j < messages.len()
        invariant
            from < j <= messages.len(),
            forall|k: int| from < k < j ==> !answers(#[trigger] messages.deep_view()[k], id@),
        decreases messages.len() - j,
    {
        assert(messages.deep_view()[j as int] == messages@[j as int]@);
        if let Message::ToolResult(tr) = &messages[j] {
            if crate::text::str_eq(tr.tool_call_id.as_str(), id) {
                assert(answers(messages.deep_view()[j as int], id@));
                return true;
            }
        }
        j = j + 1;
    }
    false
}

/// An error result that stands in for the call.
fn stub(call: &ToolCall, text: &str) -> (r: ToolResultMessage)
    ensures
        r@.is_plain(call@.id, call@.name, text@, true),
{
    ToolResultMessage::error(call.id.as_str(), call.name.as_str(), text)
}

/// Repair a history corrupted by a crash: an error result for each tool call of the interrupted
/// turn that has none.
pub fn repair_messages(messages: &[Message]) -> (r: Vec<Message>)
    ensures
        are_stubs(
            r.deep_view(),
            orphans(messages.deep_view()),
            "error: session interrupted before execution"@,
        ),
{
    let mut stubs: Vec<Message> = Vec::new();
    let ghost all = messages.deep_view();
    let ghost text = "error: session interrupted before execution"@;
    proof {
        lemma_last_assistant(all);
    }
    let at: usize = match find_last_assistant(messages) {
        Some(i) => i,
        None => {
            return stubs;
        },
    };
    assert(all[at as int] == messages@[at as int]@);
    let calls: Vec<ToolCall> = match &messages[at] {
        Message::Assistant(a) => {
            if a.stop_reason != StopReason::ToolUse {
                return stubs;
            }
            collect_calls(a)
        },
        _ => {
            return stubs;
        },
    };
    let ghost cs = calls.deep_view();
    let mut i: usize = 0;
    assert(cs.subrange(0, 0) =~= seq![]);
    while i < calls.len()
        invariant
            i <= calls.len(),
            at < messages.len(),
            all == messages.deep_view(),
            cs == calls.deep_view(),
            text == "error: session interrupted before execution"@,
            are_stubs(stubs.deep_view(), unanswered(cs.subrange(0, i as int), all, at as int), text),
        decreases calls.len() - i,
    {
        let ghost p = cs.subrange(0, i + 1);
        assert(p.subrange(0, p.len() - 1) =~= cs.subrange(0, i as int));
        assert(p[i as int] == calls[i as int]@);
        let ghost before = stubs.deep_view();
        if !is_answered(messages, at, calls[i].id.as_str()) {
            let m = Message::ToolResult(
                stub(&calls[i], "error: session interrupted before execution"),
            );
            stubs.push(m);
            assert(stubs.deep_view() =~= before.push(m@));
        }
        i = i + 1;
    }
    assert(cs.subrange(0, i as int) =~= cs);
    stubs
}

proof fn lemma_last_assistant_append(messages: Seq<MessageView>, more: Seq<MessageView>)
    requires
        forall|i: int| 0 <= i < more.len() ==> #[trigger] more[i] is ToolResult,
    ensures
        last_assistant(messages + more) == last_assistant(messages),
    decreases more.len(),
{
    let all = messages + more;
    if more.len() == 0 {
        assert(all =~= messages);
    } else {
        let init = more.subrange(0, more.len() - 1);
        assert(all.subrange(0, all.len() - 1) =~= messages + init);
        assert(all[all.len() - 1] == more[more.len() - 1]);
        lemma_last_assistant_append(messages, init);
    }
}

proof fn lemma_unanswered(calls: Seq<ToolCallView>, messages: Seq<MessageView>, from: int)
    ensures
        forall|k: int|
            0 <= k < calls.len() ==> answered(messages, from, (#[trigger] calls[k]).id)
                || unanswered(calls, messages, from).contains(calls[k]),
        forall|k: int|
            0 <= k < unanswered(calls, messages, from).len() ==> {
                let c = #[trigger] unanswered(calls, messages, from)[k];
                calls.contains(c) && !answered(messages, from, c.id)
            },
    decreases calls.len(),
{
    if calls.len() > 0 {
        let prefix = calls.subrange(0, calls.len() - 1);
        let init = unanswered(prefix, messages, from);
        let u = unanswered(calls, messages, from);
        let last = calls[calls.len() - 1];
        lemma_unanswered(prefix, messages, from);
        assert forall|k: int| 0 <= k < calls.len() implies answered(
            messages,
            from,
            (#[trigger] calls[k]).id,
        ) || u.contains(calls[k]) by {
            if k < calls.len() - 1 {
                assert(prefix[k] == calls[k]);
                if init.contains(calls[k]) {
                    let w = choose|w: int| 0 <= w < init.len() && init[w] == calls[k];
                    assert(u[w] == calls[k]);
                }
            } else if !answered(messages, from, last.id) {
                assert(u[u.len() - 1] == last);
            }
        }
        assert forall|k: int| 0 <= k < u.len() implies {
            let c = #[trigger] u[k];
            calls.contains(c) && !answered(messages, from, c.id)
        } by {
            if k < init.len() {
                assert(u[k] == init[k]);
                let w = choose|w: int| 0 <= w < prefix.len() && prefix[w] == init[k];
                assert(calls[w] == u[k]);
            } else {
                assert(u[k] == last);
                assert(calls[calls.len() - 1] == last);
            }
        }
    }
}

/// Calls that are all answered leave none.
pub proof fn lemma_none_unanswered(calls: Seq<ToolCallView>, messages: Seq<MessageView>, from: int)
    requires
        forall|k: int| 0 <= k < calls.len() ==> answered(messages, from, (#[trigger] calls[k]).id),
    ensures
        unanswered(calls, messages, from) == Seq::<ToolCallView>::empty(),
    decreases calls.len(),
{
    if calls.len() > 0 {
        let prefix = calls.subrange(0, calls.len() - 1);
        assert forall|k: int| 0 <= k < prefix.len() implies answered(
            messages,
            from,
            (#[trigger] prefix[k]).id,
        ) by {
            assert(prefix[k] == calls[k]);
        }
        lemma_none_unanswered(prefix, messages, from);
        assert(calls[calls.len() - 1] == calls.last());
    }
}

/// A stub is made for exactly the calls of the interrupted turn that no later message answers.
pub proof fn law_orphans_are_unanswered(messages: Seq<MessageView>, at: int)
    requires
        last_assistant(messages) == Some(at),
        messages[at]->Assistant_0.stop_reason == StopReason::ToolUse,
    ensures
        forall|c: ToolCallView| #[trigger]
            orphans(messages).contains(c) <==> tool_calls(
                messages[at]->Assistant_0.content,
            ).contains(c) && !answered(messages, at, c.id),
{
    let calls = tool_calls(messages[at]->Assistant_0.content);
    lemma_unanswered(calls, messages, at);
    assert forall|c: ToolCallView| #[trigger] orphans(messages).contains(c) <==> calls.contains(c)
        && !answered(messages, at, c.id) by {
        if orphans(messages).contains(c) {
            let w = choose|w: int| 0 <= w < orphans(messages).len() && orphans(messages)[w] == c;
            assert(unanswered(calls, messages, at)[w] == c);
        }
        if calls.contains(c) && !answered(messages, at, c.id) {
            let w = choose|w: int| 0 <= w < calls.len() && calls[w] == c;
            assert(calls[w] == c);
        }
    }
}

/// A repaired history needs no further repair.
pub proof fn law_repair_is_complete(
    messages: Seq<MessageView>,
    stubs: Seq<MessageView>,
    text: Seq<char>,
)
    requires
        are_stubs(stubs, orphans(messages), text),
    ensures
        orphans(messages + stubs) == Seq::<ToolCallView>::empty(),
{
    let all = messages + stubs;
    assert forall|i: int| 0 <= i < stubs.len() implies #[trigger] stubs[i] is ToolResult by {
        assert(is_stub(stubs[i], orphans(messages)[i], text));
    }
    lemma_last_assistant_append(messages, stubs);
    lemma_last_assistant(messages);
    if let Some(at) = last_assistant(messages) {
        assert(all[at] == messages[at]);
        if messages[at]->Assistant_0.stop_reason == StopReason::ToolUse {
            let calls = tool_calls(messages[at]->Assistant_0.content);
            lemma_unanswered(calls, messages, at);
            assert forall|k: int| 0 <= k < calls.len() implies answered(
                all,
                at,
                (#[trigger] calls[k]).id,
            ) by {
                if answered(messages, at, calls[k].id) {
                    let j = choose|j: int|
                        at < j < messages.len() && #[trigger] answers(messages[j], calls[k].id);
                    assert(all[j] == messages[j]);
                    assert(answers(all[j], calls[k].id));
                } else {
                    let u = unanswered(calls, messages, at);
                    let w = choose|w: int| 0 <= w < u.len() && u[w] == calls[k];
                    assert(is_stub(stubs[w], u[w], text));
                    assert(all[messages.len() + w] == stubs[w]);
                    assert(answers(all[messages.len() + w], calls[k].id));
                }
            }
            lemma_none_unanswered(calls, all, at);
        }
    }
}

// ---------------------------------------------------------------------------
// The loop
// ---------------------------------------------------------------------------

/// The phase change that a step announces.
pub open spec fn phase_event(phase: AgentPhase) -> StreamEventView {
    StreamEventView::Phase { phase, turn_started_at_ms: None, phase_started_at_ms: None }
}

/// The event that reports a tool result.
pub open spec fn result_event(r: ToolResultMessageView) -> StreamEventView {
    StreamEventView::ToolResult {
        tool_call_id: r.tool_call_id,
        tool_name: r.tool_name,
        is_error: r.is_error,
        content: r.text(),
        summary: r.summary,
    }
}

/// What is done with a tool result: it is reported, then recorded.
pub open spec fn result_effects(m: MessageView) -> Seq<EffectView> {
    seq![EffectView::Emit(result_event(m->ToolResult_0)), EffectView::Record(m)]
}

/// What is done with several tool results, one after the other.
pub open spec fn results_effects(ms: Seq<MessageView>) -> Seq<EffectView>
    decreases ms.len(),
{
    if ms.len() == 0 {
        seq![]
    } else {
        results_effects(ms.subrange(0, ms.len() - 1)) + result_effects(ms[ms.len() - 1])
    }
}

/// The messages that effects record.
pub open spec fn recorded(effects: Seq<EffectView>) -> Seq<MessageView>
    decreases effects.len(),
{
    if effects.len() == 0 {
        seq![]
    } else {
        let init = recorded(effects.subrange(0, effects.len() - 1));
        match effects[effects.len() - 1] {
            EffectView::Record(m) => init.push(m),
            EffectView::Emit(_) => init,
        }
    }
}

/// How the stream ended, if the event ends it.
pub open spec fn terminal(e: StreamEventView) -> Option<(StopReason, AssistantMessageView)> {
    match e {
        StreamEventView::Done { reason, message } => Some((reason, message)),
        StreamEventView::Error { reason, error } => Some((reason, error)),
        _ => None,
    }
}

/// The end of a run.
pub open spec fn finish(
    produced: Seq<MessageView>,
    reason: StopReason,
    max_turns_reached: bool,
) -> AgentActionView {
    AgentActionView::Finish(
        AgentResultView { new_messages: produced, reason, max_turns_reached },
    )
}

/// Whether the run waits for this input.
pub open spec fn accepts(mode: AgentMode, input: AgentInputView) -> bool {
    match input {
        AgentInputView::Check { .. } => mode == AgentMode::Turn || mode == AgentMode::Tools,
        AgentInputView::Received { .. } => mode == AgentMode::Streaming,
        AgentInputView::Closed { .. } => mode == AgentMode::Streaming,
        AgentInputView::ToolDone(_) => mode == AgentMode::Running,
        AgentInputView::ToolFailed(_) => mode == AgentMode::Running,
    }
}

/// Before a turn: out of turns, cancelled, or a new response.
pub open spec fn turn_step(
    pre: AgentRunView,
    cancelled: bool,
) -> (AgentRunView, Seq<EffectView>, AgentActionView) {
    if pre.turns_left == 0 {
        (
            AgentRunView { mode: AgentMode::Finished, ..pre },
            seq![],
            finish(pre.new_messages, StopReason::Stop, true),
        )
    } else if cancelled {
        (
            AgentRunView { mode: AgentMode::Finished, ..pre },
            seq![],
            finish(pre.new_messages, StopReason::Aborted, false),
        )
    } else {
        (
            AgentRunView {
                mode: AgentMode::Streaming,
                turns_left: (pre.turns_left - 1) as usize,
                ..pre
            },
            seq![EffectView::Emit(phase_event(AgentPhase::Responding))],
            AgentActionView::Stream,
        )
    }
}

/// The response is complete: record it, and go on with its tools where it asks for any.
pub open spec fn response_step(
    pre: AgentRunView,
    event: StreamEventView,
    reason: StopReason,
    message: AssistantMessageView,
) -> (AgentRunView, Seq<EffectView>, AgentActionView) {
    let m = MessageView::Assistant(message);
    let produced = pre.new_messages.push(m);
    let calls = tool_calls(message.content);
    let effects = seq![EffectView::Emit(event), EffectView::Record(m)];
    if reason == StopReason::ToolUse && calls.len() > 0 {
        (
            AgentRunView {
                mode: AgentMode::Tools,
                calls,
                next: 0,
                new_messages: produced,
                ..pre
            },
            effects.push(EffectView::Emit(phase_event(AgentPhase::ToolExec))),
            AgentActionView::Check,
        )
    } else {
        (
            AgentRunView { mode: AgentMode::Finished, new_messages: produced, ..pre },
            effects,
            finish(produced, reason, false),
        )
    }
}

/// An event of the stream. Each is passed on; a cancelled run stops after it.
pub open spec fn event_step(
    pre: AgentRunView,
    event: StreamEventView,
    cancelled: bool,
) -> (AgentRunView, Seq<EffectView>, AgentActionView) {
    if cancelled {
        (
            AgentRunView { mode: AgentMode::Finished, ..pre },
            seq![EffectView::Emit(event)],
            finish(pre.new_messages, StopReason::Aborted, false),
        )
    } else {
        match terminal(event) {
            Some((reason, message)) => response_step(pre, event, reason, message),
            None => (pre, seq![EffectView::Emit(event)], AgentActionView::Receive),
        }
    }
}

/// The stream closed without a terminal event.
pub open spec fn closed_step(
    pre: AgentRunView,
    cancelled: bool,
) -> (AgentRunView, Seq<EffectView>, AgentActionView) {
    (
        AgentRunView { mode: AgentMode::Finished, ..pre },
        seq![],
        if cancelled {
            finish(pre.new_messages, StopReason::Aborted, false)
        } else {
            AgentActionView::Fail(ErrorView::Internal("no completion from provider"@))
        },
    )
}

/// Before a tool call: run it, or, on a cancelled run, answer it and all later ones with an
/// error. `stubs` are those answers.
pub open spec fn tool_step(
    pre: AgentRunView,
    cancelled: bool,
    stubs: Seq<MessageView>,
) -> (AgentRunView, Seq<EffectView>, AgentActionView) {
    if cancelled {
        (
            AgentRunView {
                mode: AgentMode::Finished,
                new_messages: pre.new_messages + stubs,
                ..pre
            },
            results_effects(stubs),
            finish(pre.new_messages + stubs, StopReason::Aborted, false),
        )
    } else {
        (
            AgentRunView { mode: AgentMode::Running, ..pre },
            seq![],
            AgentActionView::Execute(pre.calls[pre.next as int]),
        )
    }
}

/// A tool call came back with the result `m`.
pub open spec fn answer_step(pre: AgentRunView, m: MessageView) -> (
    AgentRunView,
    Seq<EffectView>,
    AgentActionView,
) {
    (
        AgentRunView {
            mode: if pre.next + 1 < pre.calls.len() {
                AgentMode::Tools
            } else {
                AgentMode::Turn
            },
            next: (pre.next + 1) as usize,
            new_messages: pre.new_messages.push(m),
            ..pre
        },
        result_effects(m),
        AgentActionView::Check,
    )
}

/// One step of a run. Results that the step makes up carry the current time, so the step is a
/// relation, not a function.
pub open spec fn agent_step(
    pre: AgentRunView,
    input: AgentInputView,
    post: (AgentRunView, Seq<EffectView>, AgentActionView),
) -> bool {
    let added = post.0.new_messages.skip(pre.new_messages.len() as int);
    match input {
        AgentInputView::Check { cancelled } => if pre.mode == AgentMode::Turn {
            post == turn_step(pre, cancelled)
        } else {
            &&& post == tool_step(pre, cancelled, added)
            &&& cancelled ==> are_stubs(
                added,
                pre.calls.skip(pre.next as int),
                "error: cancelled before execution"@,
            )
        },
        AgentInputView::Received { event, cancelled } => post == event_step(pre, event, cancelled),
        AgentInputView::Closed { cancelled } => post == closed_step(pre, cancelled),
        AgentInputView::ToolDone(r) => post == answer_step(pre, MessageView::ToolResult(r)),
        AgentInputView::ToolFailed(e) => {
            &&& post == answer_step(pre, post.0.new_messages.last())
            &&& is_stub(
                post.0.new_messages.last(),
                pre.calls[pre.next as int],
                crate::error::error_text(e),
            )
        },
    }
}

impl AgentRunView {
    /// While tools are being run, the next call exists.
    pub open spec fn wf(self) -> bool {
        self.mode == AgentMode::Tools || self.mode == AgentMode::Running ==> self.next
            < self.calls.len()
    }
}

/// An announcement of a phase.
fn announce(phase: AgentPhase) -> (r: Effect)
    ensures
        r@ == EffectView::Emit(phase_event(phase)),
{
    Effect::Emit(
        StreamEvent::Phase { phase, turn_started_at_ms: None, phase_started_at_ms: None },
    )
}

/// The event that reports a tool result.
fn report(r: &ToolResultMessage) -> (e: Effect)
    ensures
        e@ == EffectView::Emit(result_event(r@)),
{
    Effect::Emit(
        StreamEvent::ToolResult {
            tool_call_id: r.tool_call_id.clone(),
            tool_name: r.tool_name.clone(),
            is_error: r.is_error,
            content: r.text(),
            summary: r.summary.clone(),
        },
    )
}

impl AgentRun {
    /// A run that may take as many turns as the limits allow.
    pub fn new(config: &AgentConfig) -> (r: Self)
        ensures
            r@.wf(),
            r@ == (AgentRunView {
                turns_left: config.turn_limit,
                mode: AgentMode::Turn,
                calls: seq![],
                next: 0,
                new_messages: seq![],
            }),
    {
        let r = AgentRun {
            turns_left: config.turn_limit,
            mode: AgentMode::Turn,
            calls: Vec::new(),
            next: 0,
            new_messages: Vec::new(),
        };
        assert(r@.calls =~= seq![]);
        assert(r@.new_messages =~= seq![]);
        r
    }

    /// The end of the run.
    fn end(&mut self, reason: StopReason, max_turns_reached: bool) -> (r: AgentAction)
        ensures
            final(self)@ == (AgentRunView { mode: AgentMode::Finished, ..old(self)@ }),
            r@ == finish(old(self)@.new_messages, reason, max_turns_reached),
    {
        self.mode = AgentMode::Finished;
        let new_messages = self.new_messages.clone();
        assert(new_messages.deep_view() =~= self.new_messages.deep_view());
        AgentAction::Finish(AgentResult { new_messages, reason, max_turns_reached })
    }

    /// Keep a message: in the run, in the context and, through the effects, with the caller.
    fn keep(&mut self, context: &mut Context, effects: &mut Vec<Effect>, m: Message)
        ensures
            final(self)@ == (AgentRunView {
                new_messages: old(self)@.new_messages.push(m@),
                ..old(self)@
            }),
            final(context)@ == (ContextView {
                messages: old(context)@.messages.push(m@),
                ..old(context)@
            }),
            final(effects).deep_view() == old(effects).deep_view().push(EffectView::Record(m@)),
    {
        effects.push(Effect::Record(m.clone()));
        self.new_messages.push(m.clone());
        context.messages.push(m);
        assert(effects.deep_view() =~= old(effects).deep_view().push(EffectView::Record(m@)));
        assert(self@.new_messages =~= old(self)@.new_messages.push(m@));
        assert(context@.messages =~= old(context)@.messages.push(m@));
    }

    /// Report a tool result and keep it.
    fn settle(&mut self, context: &mut Context, effects: &mut Vec<Effect>, r: ToolResultMessage)
        ensures
            final(self)@ == (AgentRunView {
                new_messages: old(self)@.new_messages.push(MessageView::ToolResult(r@)),
                ..old(self)@
            }),
            final(context)@ == (ContextView {
                messages: old(context)@.messages.push(MessageView::ToolResult(r@)),
                ..old(context)@
            }),
            final(effects).deep_view() == old(effects).deep_view() + result_effects(
                MessageView::ToolResult(r@),
            ),
    {
        let e = report(&r);
        effects.push(e);
        assert(effects.deep_view() =~= old(effects).deep_view().push(e@));
        let ghost m = MessageView::ToolResult(r@);
        self.keep(context, effects, Message::ToolResult(r));
        assert(effects.deep_view() =~= old(effects).deep_view() + result_effects(m));
    }

    /// Answer all calls that are left with an error.
    fn abandon(&mut self, context: &mut Context, effects: &mut Vec<Effect>)
        requires
            old(self)@.next <= old(self)@.calls.len(),
            old(effects).deep_view().len() == 0,
        ensures
            ({
                let added = final(self)@.new_messages.skip(old(self)@.new_messages.len() as int);
                &&& final(self)@ == (AgentRunView {
                    new_messages: old(self)@.new_messages + added,
                    ..old(self)@
                })
                &&& final(context)@ == (ContextView {
                    messages: old(context)@.messages + added,
                    ..old(context)@
                })
                &&& final(effects).deep_view() == results_effects(added)
                &&& are_stubs(
                    added,
                    old(self)@.calls.skip(old(self)@.next as int),
                    "error: cancelled before execution"@,
                )
            }),
    {
        let mut i: usize = self.next;
        let ghost before = self@;
        let ghost mut added: Seq<MessageView> = seq![];
        let ghost left = before.calls.skip(before.next as int);
        let ghost text = "error: cancelled before execution"@;
        assert(self@.new_messages =~= before.new_messages + added);
        assert(context@.messages =~= old(context)@.messages + added);
        assert(effects.deep_view() =~= results_effects(added));
        while i < self.calls.len()
            invariant
                before.next <= i <= self.calls.len(),
                before == old(self)@,
                left == before.calls.skip(before.next as int),
                text == "error: cancelled before execution"@,
                added.len() == i - before.next,
                self@ == (AgentRunView { new_messages: before.new_messages + added, ..before }),
                context@ == (ContextView {
                    messages: old(context)@.messages + added,
                    ..old(context)@
                }),
                effects.deep_view() == results_effects(added),
                forall|k: int| 0 <= k < added.len() ==> is_stub(#[trigger] added[k], left[k], text),
            decreases self.calls.len() - i,
        {
            let r = stub(&self.calls[i], "error: cancelled before execution");
            assert(self@.calls[i as int] == self.calls[i as int]@);
            assert(left[i - before.next] == self.calls[i as int]@);
            let ghost m = MessageView::ToolResult(r@);
            let ghost was = added;
            self.settle(context, effects, r);
            proof {
                added = added.push(m);
                assert(added.subrange(0, added.len() - 1) =~= was);
                assert(before.new_messages + added =~= (before.new_messages + was).push(m));
                assert(old(context)@.messages + added =~= (old(context)@.messages + was).push(m));
            }
            i = i + 1;
        }
        assert(self@.new_messages.skip(before.new_messages.len() as int) =~= added);
    }

    /// Take one step.
    ///
    /// Messages that the step produces go to the run, to the context and, as
    /// [`Effect::Record`], to the caller.
    pub fn step(&mut self, context: &mut Context, input: AgentInput) -> (r: (
        Vec<Effect>,
        AgentAction,
    ))
        requires
            old(self)@.wf(),
            accepts(old(self)@.mode, input@),
        ensures
            final(self)@.wf(),
            agent_step(old(self)@, input@, (final(self)@, r.0.deep_view(), r.1@)),
            final(context)@ == (ContextView {
                messages: old(context)@.messages + final(self)@.new_messages.skip(
                    old(self)@.new_messages.len() as int,
                ),
                ..old(context)@
            }),
    {
        let mut effects: Vec<Effect> = Vec::new();
        let ghost pre = self@;
        let ghost ctx = context@;
        assert(effects.deep_view() =~= seq![]);
        assert(pre.new_messages.skip(pre.new_messages.len() as int) =~= seq![]);
        assert(ctx.messages + Seq::<MessageView>::empty() =~= ctx.messages);
        assert(forall|m: MessageView|
            pre.new_messages.push(m).skip(pre.new_messages.len() as int) =~= seq![m]);
        assert(forall|m: MessageView| ctx.messages.push(m) =~= ctx.messages + seq![m]);
        let action: AgentAction = match input {
            AgentInput::Check { cancelled } => {
                if self.mode == AgentMode::Turn {
                    if self.turns_left == 0 {
                        self.end(StopReason::Stop, true)
                    } else if cancelled {
                        self.end(StopReason::Aborted, false)
                    } else {
                        self.turns_left = self.turns_left - 1;
                        self.mode = AgentMode::Streaming;
                        let e = announce(AgentPhase::Responding);
                        effects.push(e);
                        assert(effects.deep_view() =~= seq![e@]);
                        AgentAction::Stream
                    }
                } else if cancelled {
                    self.abandon(context, &mut effects);
                    self.end(StopReason::Aborted, false)
                } else {
                    self.mode = AgentMode::Running;
                    assert(self@.calls[self.next as int] == self.calls[self.next as int]@);
                    AgentAction::Execute(self.calls[self.next].clone())
                }
            },
            AgentInput::Received { event, cancelled } => {
                effects.push(Effect::Emit(event.clone()));
                assert(effects.deep_view() =~= seq![EffectView::Emit(event@)]);
                if cancelled {
                    self.end(StopReason::Aborted, false)
                } else {
                    match event {
                        StreamEvent::Done { reason, message } => self.complete(
                            context,
                            &mut effects,
                            reason,
                            message,
                        ),
                        StreamEvent::Error { reason, error } => self.complete(
                            context,
                            &mut effects,
                            reason,
                            error,
                        ),
                        _ => AgentAction::Receive,
                    }
                }
            },
            AgentInput::Closed { cancelled } => {
                if cancelled {
                    self.end(StopReason::Aborted, false)
                } else {
                    self.mode = AgentMode::Finished;
                    AgentAction::Fail(Error::Internal("no completion from provider".to_owned()))
                }
            },
            AgentInput::ToolDone(r) => self.answer(context, &mut effects, r),
            AgentInput::ToolFailed(e) => {
                let text = e.to_string();
                assert(self@.calls[self.next as int] == self.calls[self.next as int]@);
                let r = stub(&self.calls[self.next], text.as_str());
                assert(is_stub(MessageView::ToolResult(r@), pre.calls[pre.next as int], text@));
                self.answer(context, &mut effects, r)
            },
        };
        (effects, action)
    }

    /// The response is complete.
    fn complete(
        &mut self,
        context: &mut Context,
        effects: &mut Vec<Effect>,
        reason: StopReason,
        message: AssistantMessage,
    ) -> (r: AgentAction)
        requires
            old(effects).deep_view().len() == 1,
            old(effects).deep_view()[0] is Emit,
        ensures
            ({
                let event = old(effects).deep_view()[0]->Emit_0;
                (final(self)@, final(effects).deep_view(), r@) == response_step(
                    old(self)@,
                    event,
                    reason,
                    message@,
                )
            }),
            final(self)@.wf(),
            final(context)@ == (ContextView {
                messages: old(context)@.messages.push(MessageView::Assistant(message@)),
                ..old(context)@
            }),
    {
        let ghost event = effects.deep_view()[0]->Emit_0;
        assert(effects.deep_view() =~= seq![EffectView::Emit(event)]);
        let calls = collect_calls(&message);
        let ghost m = MessageView::Assistant(message@);
        self.keep(context, effects, Message::Assistant(message));
        assert(effects.deep_view() =~= seq![EffectView::Emit(event), EffectView::Record(m)]);
        assert(calls.deep_view().len() == calls.len());
        if reason == StopReason::ToolUse && calls.len() > 0 {
            self.mode = AgentMode::Tools;
            self.calls = calls;
            self.next = 0;
            let ghost was = effects.deep_view();
            let e = announce(AgentPhase::ToolExec);
            effects.push(e);
            assert(effects.deep_view() =~= was.push(e@));
            AgentAction::Check
        } else {
            self.end(reason, false)
        }
    }

    /// The next call has its result.
    fn answer(
        &mut self,
        context: &mut Context,
        effects: &mut Vec<Effect>,
        result: ToolResultMessage,
    ) -> (r: AgentAction)
        requires
            old(self)@.next < old(self)@.calls.len(),
            old(effects).deep_view().len() == 0,
        ensures
            (final(self)@, final(effects).deep_view(), r@) == answer_step(
                old(self)@,
                MessageView::ToolResult(result@),
            ),
            final(self)@.wf(),
            final(context)@ == (ContextView {
                messages: old(context)@.messages.push(MessageView::ToolResult(result@)),
                ..old(context)@
            }),
    {
        let ghost m = MessageView::ToolResult(result@);
        let ghost was = effects.deep_view();
        self.settle(context, effects, result);
        assert(was + result_effects(m) =~= result_effects(m));
        assert(self@.calls.len() == self.calls.len());
        self.mode = if self.next + 1 < self.calls.len() {
            AgentMode::Tools
        } else {
            AgentMode::Turn
        };
        self.next = self.next + 1;
        AgentAction::Check
    }
}

// ---------------------------------------------------------------------------
// Laws of the loop
// ---------------------------------------------------------------------------

proof fn lemma_recorded_push(effects: Seq<EffectView>, e: EffectView)
    ensures
        recorded(effects.push(e)) == match e {
            EffectView::Record(m) => recorded(effects).push(m),
            EffectView::Emit(_) => recorded(effects),
        },
{
    let all = effects.push(e);
    assert(all.subrange(0, all.len() - 1) =~= effects);
}

proof fn lemma_recorded_results(ms: Seq<MessageView>)
    ensures
        recorded(results_effects(ms)) == ms,
    decreases ms.len(),
{
    if ms.len() == 0 {
        assert(recorded(results_effects(ms)) =~= ms);
    } else {
        let init = ms.subrange(0, ms.len() - 1);
        let m = ms[ms.len() - 1];
        lemma_recorded_results(init);
        let a = results_effects(init);
        let e = EffectView::Emit(result_event(m->ToolResult_0));
        lemma_recorded_push(a, e);
        lemma_recorded_push(a.push(e), EffectView::Record(m));
        assert(results_effects(ms) =~= a.push(e).push(EffectView::Record(m)));
        assert(ms =~= init.push(m));
    }
}

/// Every message that a step produces is handed to the caller, in order, and no other message
/// is; messages produced earlier stay.
pub proof fn law_produced_is_recorded(
    pre: AgentRunView,
    input: AgentInputView,
    post: (AgentRunView, Seq<EffectView>, AgentActionView),
)
    requires
        pre.wf(),
        accepts(pre.mode, input),
        agent_step(pre, input, post),
    ensures
        post.0.new_messages == pre.new_messages + recorded(post.1),
{
    let none = Seq::<EffectView>::empty();
    assert(recorded(none) =~= seq![]);
    assert(pre.new_messages + Seq::<MessageView>::empty() =~= pre.new_messages);
    match input {
        AgentInputView::Check { cancelled } => {
            let e = EffectView::Emit(phase_event(AgentPhase::Responding));
            lemma_recorded_push(none, e);
            assert(none.push(e) =~= seq![e]);
            let added = post.0.new_messages.skip(pre.new_messages.len() as int);
            lemma_recorded_results(added);
        },
        AgentInputView::Received { event, cancelled } => {
            let e = EffectView::Emit(event);
            lemma_recorded_push(none, e);
            assert(none.push(e) =~= seq![e]);
            if let Some((reason, message)) = terminal(event) {
                let m = MessageView::Assistant(message);
                let r = EffectView::Record(m);
                lemma_recorded_push(seq![e], r);
                assert(seq![e].push(r) =~= seq![e, r]);
                lemma_recorded_push(
                    seq![e, r],
                    EffectView::Emit(phase_event(AgentPhase::ToolExec)),
                );
                assert(pre.new_messages.push(m) =~= pre.new_messages + seq![m]);
                assert(Seq::<MessageView>::empty().push(m) =~= seq![m]);
            }
        },
        AgentInputView::Closed { cancelled } => {},
        AgentInputView::ToolDone(_) | AgentInputView::ToolFailed(_) => {
            let m = post.0.new_messages.last();
            assert(post.0.new_messages == pre.new_messages.push(m));
            let e = EffectView::Emit(result_event(m->ToolResult_0));
            lemma_recorded_push(none, e);
            lemma_recorded_push(none.push(e), EffectView::Record(m));
            assert(none.push(e).push(EffectView::Record(m)) =~= result_effects(m));
            assert(pre.new_messages.push(m) =~= pre.new_messages + seq![m]);
            assert(Seq::<MessageView>::empty().push(m) =~= seq![m]);
        },
    }
}

/// Only opening a stream uses up a turn, so a run opens at most as many as its limit.
pub proof fn law_turns_are_counted(
    pre: AgentRunView,
    input: AgentInputView,
    post: (AgentRunView, Seq<EffectView>, AgentActionView),
)
    requires
        pre.wf(),
        accepts(pre.mode, input),
        agent_step(pre, input, post),
    ensures
        post.0.turns_left + (if post.2 is Stream {
            1int
        } else {
            0
        }) == pre.turns_left,
{
}

/// A run is finished exactly when the step returned its result or its failure.
pub proof fn law_finished_iff_reported(
    pre: AgentRunView,
    input: AgentInputView,
    post: (AgentRunView, Seq<EffectView>, AgentActionView),
)
    requires
        pre.wf(),
        accepts(pre.mode, input),
        agent_step(pre, input, post),
    ensures
        (post.0.mode == AgentMode::Finished) <==> (post.2 is Finish || post.2 is Fail),
        post.2 matches AgentActionView::Finish(result) ==> result.new_messages
            == post.0.new_messages,
        post.0.wf(),
{
}

/// A cancelled run that stops at a tool call answers that call and each later one of the turn.
pub proof fn law_cancel_answers_every_call(
    pre: AgentRunView,
    post: (AgentRunView, Seq<EffectView>, AgentActionView),
)
    requires
        pre.wf(),
        pre.mode == AgentMode::Tools,
        agent_step(pre, (AgentInputView::Check { cancelled: true }), post),
    ensures
        post.0.new_messages.len() == pre.new_messages.len() + pre.calls.len() - pre.next,
        forall|k: int|
            pre.next <= k < pre.calls.len() ==> answers(
                post.0.new_messages[pre.new_messages.len() + k - pre.next],
                (#[trigger] pre.calls[k]).id,
            ),
{
    let added = post.0.new_messages.skip(pre.new_messages.len() as int);
    let left = pre.calls.skip(pre.next as int);
    let text = "error: cancelled before execution"@;
    assert(are_stubs(added, left, text));
    assert forall|k: int| pre.next <= k < pre.calls.len() implies answers(
        post.0.new_messages[pre.new_messages.len() + k - pre.next],
        (#[trigger] pre.calls[k]).id,
    ) by {
        assert(is_stub(added[k - pre.next], left[k - pre.next], text));
    }
}

/// The tool calls of a response are those blocks of it that are tool calls, in order.
pub proof fn law_tool_calls(content: Seq<AssistantContentView>)
    ensures
        tool_calls(content) == content.filter(
            |c: AssistantContentView| c is ToolCall,
        ).map_values(|c: AssistantContentView| c->ToolCall_0),
    decreases content.len(),
{
    reveal(Seq::filter);
    let is = |c: AssistantContentView| c is ToolCall;
    let get = |c: AssistantContentView| c->ToolCall_0;
    let kept = content.filter(is).map_values(get);
    if content.len() > 0 {
        let init = content.drop_last();
        law_tool_calls(init);
        let earlier = init.filter(is).map_values(get);
        assert(content.subrange(0, content.len() - 1) =~= init);
        if content.last() is ToolCall {
            assert(kept =~= earlier.push(content.last()->ToolCall_0));
        } else {
            assert(kept =~= earlier);
        }
    } else {
        assert(kept =~= seq![]);
    }
}

/// The messages that effects record are those that they hand over to be kept, in order.
pub proof fn law_recorded(effects: Seq<EffectView>)
    ensures
        recorded(effects) == effects.filter(|e: EffectView| e is Record).map_values(
            |e: EffectView| e->Record_0,
        ),
    decreases effects.len(),
{
    reveal(Seq::filter);
    let is = |e: EffectView| e is Record;
    let get = |e: EffectView| e->Record_0;
    let kept = effects.filter(is).map_values(get);
    if effects.len() > 0 {
        let init = effects.drop_last();
        law_recorded(init);
        let earlier = init.filter(is).map_values(get);
        assert(effects.subrange(0, effects.len() - 1) =~= init);
        if effects.last() is Record {
            assert(kept =~= earlier.push(effects.last()->Record_0));
        } else {
            assert(kept =~= earlier);
        }
    } else {
        assert(kept =~= seq![]);
    }
}

/// Every event of the provider is passed on once, before anything else that its arrival brings about; of
/// its own a run only announces phases and reports results.
pub proof fn law_events_are_passed_on(
    pre: AgentRunView,
    event: StreamEventView,
    cancelled: bool,
    post: (AgentRunView, Seq<EffectView>, AgentActionView),
)
    requires
        pre.wf(),
        pre.mode == AgentMode::Streaming,
        agent_step(pre, (AgentInputView::Received { event, cancelled }), post),
    ensures
        post.1.len() > 0,
        post.1[0] == EffectView::Emit(event),
        forall|i: int|
            0 < i < post.1.len() ==> ((#[trigger] post.1[i]) matches EffectView::Emit(e) ==> e
                is Phase),
{
}

/// The result of a tool is reported as it is, with the id and the name of its call, and is recorded.
pub proof fn law_results_are_reported(
    pre: AgentRunView,
    r: ToolResultMessageView,
    post: (AgentRunView, Seq<EffectView>, AgentActionView),
)
    requires
        pre.wf(),
        pre.mode == AgentMode::Running,
        agent_step(pre, AgentInputView::ToolDone(r), post),
    ensures
        post.1.len() == 2,
        post.1[0] matches EffectView::Emit(
            StreamEventView::ToolResult { tool_call_id, tool_name, is_error, content, summary },
        ) && tool_call_id == r.tool_call_id && tool_name == r.tool_name && is_error == r.is_error
            && content == crate::types::result_text(r.content) && summary == r.summary,
        post.1[1] == EffectView::Record(MessageView::ToolResult(r)),
        post.0.new_messages.last() == MessageView::ToolResult(r),
{
}

/// A run ends as aborted where it was cancelled; as out of turns only where none is left; with the reason
/// of the response where that asks for no tools; and it fails where the stream ends without a response.
/// In no other case does it end.
pub proof fn law_how_a_run_ends(
    pre: AgentRunView,
    input: AgentInputView,
    post: (AgentRunView, Seq<EffectView>, AgentActionView),
)
    requires
        pre.wf(),
        accepts(pre.mode, input),
        agent_step(pre, input, post),
    ensures
        match input {
            AgentInputView::Check { cancelled } => {
                &&& post.2 is Finish <==> cancelled || (pre.mode == AgentMode::Turn
                    && pre.turns_left == 0)
                &&& post.2 matches AgentActionView::Finish(r) ==> r.max_turns_reached == (pre.mode
                    == AgentMode::Turn && pre.turns_left == 0) && r.reason == (
                if r.max_turns_reached {
                    StopReason::Stop
                } else {
                    StopReason::Aborted
                })
            },
            AgentInputView::Received { event, cancelled } => {
                &&& cancelled ==> post.2 is Finish && post.2->Finish_0.reason == StopReason::Aborted
                    && post.0.new_messages == pre.new_messages
                &&& !cancelled && !(event is Done) && !(event is Error) ==> post.2 is Receive
                    && post.0 == pre
                &&& !cancelled ==> (event matches StreamEventView::Done { reason, message } ==> {
                    &&& post.0.new_messages.last() == MessageView::Assistant(message)
                    &&& post.2 is Finish <==> reason != StopReason::ToolUse || tool_calls(
                        message.content,
                    ).len() == 0
                    &&& post.2 is Finish ==> post.2->Finish_0.reason == reason
                        && !post.2->Finish_0.max_turns_reached
                })
                &&& !cancelled ==> (event matches StreamEventView::Error { reason, error }
                    ==> post.0.new_messages.last() == MessageView::Assistant(error))
            },
            AgentInputView::Closed { cancelled } => {
                &&& post.2 is Fail <==> !cancelled
                &&& cancelled ==> post.2 is Finish && post.2->Finish_0.reason == StopReason::Aborted
            },
            _ => !(post.2 is Finish) && !(post.2 is Fail),
        },
{
}

/// A message that may follow the calls of an interrupted turn: a result, a notice, or a response that
/// failed.
pub open spec fn trails(m: MessageView) -> bool {
    m is ToolResult || m is Info || (m matches MessageView::Assistant(a) && a.stop_reason
        == StopReason::Error)
}

/// The calls of an interrupted turn that have no result are those of its last response which no result
/// behind it answers, in order. Results, notices and failed responses may stand behind it; once the
/// user has written again, or the response asked for no tools, nothing is left open.
pub proof fn law_interrupted_turn(
    before: Seq<MessageView>,
    a: AssistantMessageView,
    behind: Seq<MessageView>,
    m: MessageView,
)
    requires
        a.stop_reason != StopReason::Error,
        forall|i: int| 0 <= i < behind.len() ==> trails(#[trigger] behind[i]),
        m is User || m is CompactionSummary,
    ensures
        ({
            let all = before.push(MessageView::Assistant(a)) + behind;
            let calls = a.content.filter(|c: AssistantContentView| c is ToolCall).map_values(
                |c: AssistantContentView| c->ToolCall_0,
            );
            &&& a.stop_reason == StopReason::ToolUse ==> orphans(all) == calls.filter(
                |c: ToolCallView| !answered(all, before.len() as int, c.id),
            )
            &&& a.stop_reason != StopReason::ToolUse ==> orphans(all).len() == 0
            &&& orphans(before.push(m)).len() == 0
        }),
{
    let all = before.push(MessageView::Assistant(a)) + behind;
    lemma_last_response(before, a, behind);
    law_tool_calls(a.content);
    assert(all[before.len() as int] == MessageView::Assistant(a));
    lemma_unanswered_calls(tool_calls(a.content), all, before.len() as int);
}

proof fn lemma_last_response(
    before: Seq<MessageView>,
    a: AssistantMessageView,
    behind: Seq<MessageView>,
)
    requires
        a.stop_reason != StopReason::Error,
        forall|i: int| 0 <= i < behind.len() ==> trails(#[trigger] behind[i]),
    ensures
        last_assistant(before.push(MessageView::Assistant(a)) + behind) == Some(
            before.len() as int,
        ),
    decreases behind.len(),
{
    let all = before.push(MessageView::Assistant(a)) + behind;
    if behind.len() > 0 {
        let init = behind.subrange(0, behind.len() - 1);
        assert forall|i: int| 0 <= i < init.len() implies trails(#[trigger] init[i]) by {
            assert(init[i] == behind[i]);
        }
        lemma_last_response(before, a, init);
        assert(all.subrange(0, all.len() - 1) =~= before.push(MessageView::Assistant(a)) + init);
        assert(all[all.len() - 1] == behind[behind.len() - 1]);
        assert(trails(behind[behind.len() - 1]));
    } else {
        assert(all[all.len() - 1] == MessageView::Assistant(a));
    }
}

proof fn lemma_unanswered_calls(calls: Seq<ToolCallView>, messages: Seq<MessageView>, from: int)
    ensures
        unanswered(calls, messages, from) == calls.filter(
            |c: ToolCallView| !answered(messages, from, c.id),
        ),
    decreases calls.len(),
{
    reveal(Seq::filter);
    if calls.len() > 0 {
        assert(calls.subrange(0, calls.len() - 1) =~= calls.drop_last());
        lemma_unanswered_calls(calls.drop_last(), messages, from);
    }
}

} // verus!
