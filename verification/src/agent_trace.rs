//! What holds of whole runs of the agent loop.

use vstd::prelude::*;

use crate::agent::{AgentActionView, AgentInputView, AgentMode, AgentRunView, EffectView};
use crate::types::{
    AssistantContentView, MessageView, StopReason, StreamEventView, ToolCallView,
    ToolResultContentView,
};

verus! {

/// A run from its start: the states that it goes through, the messages of the context in each of
/// them, and what brought it from each state to the next.
pub struct Trace {
    pub states: Seq<AgentRunView>,
    pub contexts: Seq<Seq<MessageView>>,
    pub inputs: Seq<AgentInputView>,
    pub effects: Seq<Seq<EffectView>>,
    pub actions: Seq<AgentActionView>,
}

/// Whether the provider and the tools keep to their part: a terminal event gives the stop reason
/// of its message, and a result carries the id of the call that was executed right before.
pub open spec fn is_honest(before: Option<AgentActionView>, input: AgentInputView) -> bool {
    match input {
        AgentInputView::Received { event, .. } => match event {
            StreamEventView::Done { reason, message } => message.stop_reason == reason,
            StreamEventView::Error { reason, error } => error.stop_reason == reason,
            _ => true,
        },
        AgentInputView::ToolDone(r) => before matches Some(AgentActionView::Execute(call))
            ==> r.tool_call_id == call.id,
        _ => true,
    }
}

impl Trace {
    /// Whether step `k` is one of the loop, with an input that the run waits for. The list of tool
    /// calls has no more elements than a list can have.
    pub open spec fn steps_at(self, k: int) -> bool {
        let (pre, post) = (self.states[k], self.states[k + 1]);
        &&& pre.calls.len() <= usize::MAX
        &&& crate::agent::accepts(pre.mode, self.inputs[k])
        &&& is_honest(self.before(k), self.inputs[k])
        &&& crate::agent::agent_step(
            pre,
            self.inputs[k],
            (post, self.effects[k], self.actions[k]),
        )
        &&& self.contexts[k + 1] == self.contexts[k] + post.new_messages.skip(
            pre.new_messages.len() as int,
        )
    }

    /// Whether this is a run from its start.
    pub open spec fn wf(self) -> bool {
        &&& self.states.len() == self.inputs.len() + 1
        &&& self.contexts.len() == self.states.len()
        &&& self.effects.len() == self.inputs.len()
        &&& self.actions.len() == self.inputs.len()
        &&& self.states[0].mode == AgentMode::Turn
        &&& self.states[0].new_messages.len() == 0
        &&& forall|k: int| 0 <= k < self.inputs.len() ==> #[trigger] self.steps_at(k)
    }

    /// What the run asked for right before step `k`.
    pub open spec fn before(self, k: int) -> Option<AgentActionView> {
        if k > 0 {
            Some(self.actions[k - 1])
        } else {
            None
        }
    }

    /// The messages that the run produced.
    pub open spec fn produced(self) -> Seq<MessageView> {
        self.states.last().new_messages
    }
}

/// The tool calls of the message at `i`.
pub open spec fn calls_at(ms: Seq<MessageView>, i: int) -> Seq<ToolCallView> {
    crate::agent::tool_calls(ms[i]->Assistant_0.content)
}

/// Whether the message at `i` asks for its tools to be run.
pub open spec fn asks(ms: Seq<MessageView>, i: int) -> bool {
    ms[i] is Assistant && ms[i]->Assistant_0.stop_reason == StopReason::ToolUse
}

/// Whether the first `n` tool calls of the message at `i` are answered by the messages right behind
/// it, in order.
pub open spec fn answered_in_order(ms: Seq<MessageView>, i: int, n: int) -> bool {
    &&& n <= calls_at(ms, i).len()
    &&& i + n < ms.len()
    &&& forall|k: int|
        0 <= k < n ==> crate::agent::answers(ms[i + 1 + k], (#[trigger] calls_at(ms, i)[k]).id)
}

/// Whether the message at `i` is a response or a tool result and, if it asks for tools, is followed
/// by exactly one result for each of its calls.
pub open spec fn is_complete_at(ms: Seq<MessageView>, i: int) -> bool {
    &&& ms[i] is Assistant || ms[i] is ToolResult
    &&& asks(ms, i) ==> {
        let n = calls_at(ms, i).len() as int;
        &&& answered_in_order(ms, i, n)
        &&& i + n + 1 < ms.len() ==> ms[i + n + 1] is Assistant
    }
}

/// Whether all tool calls have their results.
pub open spec fn is_complete(ms: Seq<MessageView>) -> bool {
    forall|i: int| 0 <= i < ms.len() ==> #[trigger] is_complete_at(ms, i)
}

/// Whether the tool calls of the last response have results as far as the run got, and all earlier
/// ones have theirs.
pub open spec fn is_pending(s: AgentRunView) -> bool {
    let ms = s.new_messages;
    let at = ms.len() - 1 - s.next;
    &&& 0 <= at
    &&& is_complete(ms.subrange(0, at))
    &&& asks(ms, at)
    &&& calls_at(ms, at) == s.calls
    &&& answered_in_order(ms, at, s.next as int)
}

/// What holds of every state of a run.
pub open spec fn run_inv(s: AgentRunView) -> bool {
    &&& s.wf()
    &&& if s.mode == AgentMode::Tools || s.mode == AgentMode::Running {
        is_pending(s)
    } else {
        is_complete(s.new_messages)
    }
}

proof fn lemma_response(ms: Seq<MessageView>, m: MessageView)
    requires
        is_complete(ms),
        m is Assistant,
        m->Assistant_0.stop_reason == StopReason::ToolUse ==> crate::agent::tool_calls(
            m->Assistant_0.content,
        ).len() == 0,
    ensures
        is_complete(ms.push(m)),
{
    let all = ms.push(m);
    assert forall|i: int| 0 <= i < all.len() implies #[trigger] is_complete_at(all, i) by {
        if i < ms.len() {
            assert(is_complete_at(ms, i));
            assert(calls_at(all, i) == calls_at(ms, i));
        }
    }
}

proof fn lemma_answered(ms: Seq<MessageView>, at: int)
    requires
        0 <= at < ms.len(),
        is_complete(ms.subrange(0, at)),
        asks(ms, at),
        ms.len() == at + 1 + calls_at(ms, at).len(),
        answered_in_order(ms, at, calls_at(ms, at).len() as int),
    ensures
        is_complete(ms),
{
    let init = ms.subrange(0, at);
    assert forall|i: int| 0 <= i < ms.len() implies #[trigger] is_complete_at(ms, i) by {
        if i < at {
            assert(is_complete_at(init, i));
            assert(calls_at(ms, i) == calls_at(init, i));
            let n = calls_at(ms, i).len() as int;
            if asks(ms, i) {
                assert forall|k: int| 0 <= k < n implies crate::agent::answers(
                    ms[i + 1 + k],
                    (#[trigger] calls_at(ms, i)[k]).id,
                ) by {
                    assert(crate::agent::answers(init[i + 1 + k], calls_at(init, i)[k].id));
                }
                if i + n + 1 < at {
                    assert(init[i + n + 1] is Assistant);
                }
            }
        } else if i > at {
            assert(crate::agent::answers(ms[at + 1 + (i - at - 1)], calls_at(ms, at)[i - at - 1].id));
        }
    }
}

/// One more result for the last response.
proof fn lemma_one_more(ms: Seq<MessageView>, m: MessageView, at: int, n: int)
    requires
        0 <= at,
        0 <= n < calls_at(ms, at).len(),
        ms.len() == at + 1 + n,
        is_complete(ms.subrange(0, at)),
        asks(ms, at),
        answered_in_order(ms, at, n),
        crate::agent::answers(m, calls_at(ms, at)[n].id),
    ensures
        is_complete(ms.push(m).subrange(0, at)),
        asks(ms.push(m), at),
        calls_at(ms.push(m), at) == calls_at(ms, at),
        answered_in_order(ms.push(m), at, n + 1),
{
    let all = ms.push(m);
    assert(all.subrange(0, at) =~= ms.subrange(0, at));
    assert forall|k: int| 0 <= k < n + 1 implies crate::agent::answers(
        all[at + 1 + k],
        (#[trigger] calls_at(all, at)[k]).id,
    ) by {
        if k < n {
            assert(crate::agent::answers(ms[at + 1 + k], calls_at(ms, at)[k].id));
        }
    }
}

/// All results that are missing for the last response, at once.
proof fn lemma_stubs(s: AgentRunView, added: Seq<MessageView>, text: Seq<char>)
    requires
        s.wf(),
        s.mode == AgentMode::Tools,
        is_pending(s),
        crate::agent::are_stubs(added, s.calls.skip(s.next as int), text),
    ensures
        is_complete(s.new_messages + added),
{
    let ms = s.new_messages;
    let all = ms + added;
    let at = ms.len() - 1 - s.next;
    assert(all.subrange(0, at) =~= ms.subrange(0, at));
    assert(all[at] == ms[at]);
    assert forall|k: int| 0 <= k < s.calls.len() implies crate::agent::answers(
        all[at + 1 + k],
        (#[trigger] calls_at(all, at)[k]).id,
    ) by {
        if k < s.next {
            assert(crate::agent::answers(ms[at + 1 + k], calls_at(ms, at)[k].id));
        } else {
            assert(crate::agent::is_stub(
                added[k - s.next],
                s.calls.skip(s.next as int)[k - s.next],
                text,
            ));
        }
    }
    lemma_answered(all, at);
}

proof fn lemma_step(
    before: Option<AgentActionView>,
    pre: AgentRunView,
    input: AgentInputView,
    post: AgentRunView,
    effects: Seq<EffectView>,
    action: AgentActionView,
)
    requires
        run_inv(pre),
        pre.calls.len() <= usize::MAX,
        crate::agent::accepts(pre.mode, input),
        is_honest(before, input),
        pre.mode == AgentMode::Running ==> before == Some(
            AgentActionView::Execute(pre.calls[pre.next as int]),
        ),
        crate::agent::agent_step(pre, input, (post, effects, action)),
    ensures
        run_inv(post),
        post.mode == AgentMode::Running ==> action == AgentActionView::Execute(
            post.calls[post.next as int],
        ),
        post.new_messages == pre.new_messages + post.new_messages.skip(
            pre.new_messages.len() as int,
        ),
{
    let ms = pre.new_messages;
    let added = post.new_messages.skip(ms.len() as int);
    crate::agent::law_produced_is_recorded(pre, input, (post, effects, action));
    assert(added =~= crate::agent::recorded(effects));
    match input {
        AgentInputView::Check { cancelled } => {
            if pre.mode == AgentMode::Tools && cancelled {
                lemma_stubs(pre, added, "error: cancelled before execution"@);
                assert(is_complete(post.new_messages));
            }
        },
        AgentInputView::Received { event, cancelled } => {
            if !cancelled {
                if let Some((reason, message)) = crate::agent::terminal(event) {
                    let m = MessageView::Assistant(message);
                    let calls = crate::agent::tool_calls(message.content);
                    assert(post.new_messages == ms.push(m));
                    if reason == StopReason::ToolUse && calls.len() > 0 {
                        let all = ms.push(m);
                        assert(all.subrange(0, ms.len() as int) =~= ms);
                        assert(is_pending(post));
                    } else {
                        lemma_response(ms, m);
                    }
                }
            }
        },
        AgentInputView::Closed { cancelled } => {},
        AgentInputView::ToolDone(_) | AgentInputView::ToolFailed(_) => {
            let m = post.new_messages.last();
            let at = ms.len() - 1 - pre.next;
            assert(post.new_messages == ms.push(m));
            lemma_one_more(ms, m, at, pre.next as int);
            if pre.next + 1 == pre.calls.len() {
                lemma_answered(ms.push(m), at);
            }
        },
    }
}

proof fn lemma_trace(t: Trace, k: int)
    requires
        t.wf(),
        0 <= k < t.states.len(),
    ensures
        run_inv(t.states[k]),
        t.contexts[k] == t.contexts[0] + t.states[k].new_messages,
        t.states[k].mode == AgentMode::Running ==> t.before(k) == Some(
            AgentActionView::Execute(t.states[k].calls[t.states[k].next as int]),
        ),
    decreases k,
{
    if k == 0 {
        assert(t.states[0].new_messages =~= Seq::empty());
        assert(t.contexts[0] + t.states[0].new_messages =~= t.contexts[0]);
    } else {
        lemma_trace(t, k - 1);
        assert(t.steps_at(k - 1));
        let (pre, post) = (t.states[k - 1], t.states[k]);
        lemma_step(t.before(k - 1), pre, t.inputs[k - 1], post, t.effects[k - 1], t.actions[k - 1]);
        let added = post.new_messages.skip(pre.new_messages.len() as int);
        assert(t.contexts[0] + pre.new_messages + added =~= t.contexts[0] + (pre.new_messages
            + added));
    }
}

/// What a state holds stays.
proof fn lemma_kept(t: Trace, j: int, k: int)
    requires
        t.wf(),
        0 <= j <= k < t.states.len(),
    ensures
        t.states[j].new_messages.len() <= t.states[k].new_messages.len(),
        t.states[k].new_messages.subrange(0, t.states[j].new_messages.len() as int)
            == t.states[j].new_messages,
    decreases k,
{
    let old = t.states[j].new_messages;
    if j == k {
        assert(old.subrange(0, old.len() as int) =~= old);
    } else {
        lemma_kept(t, j, k - 1);
        lemma_trace(t, k - 1);
        assert(t.steps_at(k - 1));
        let (pre, post) = (t.states[k - 1], t.states[k]);
        lemma_step(t.before(k - 1), pre, t.inputs[k - 1], post, t.effects[k - 1], t.actions[k - 1]);
        assert(post.new_messages.subrange(0, old.len() as int) =~= pre.new_messages.subrange(
            0,
            old.len() as int,
        ));
    }
}

/// When a run has ended, cancelled or not, each response that asks for tools is directly followed
/// by exactly one result for each of its calls, in order and under the call's id.
pub proof fn law_every_call_is_answered(t: Trace)
    requires
        t.wf(),
        t.states.last().mode == AgentMode::Finished,
    ensures
        is_complete(t.produced()),
{
    lemma_trace(t, t.states.len() - 1);
}

/// Which results these are: what the tool returned, an error with the text of its failure, or, for
/// the calls that a cancelled run did not start, an error that says so.
pub proof fn law_results_come_from_the_tools(t: Trace, k: int)
    requires
        t.wf(),
        0 <= k < t.inputs.len(),
    ensures
        ({
            let pre = t.states[k];
            let n = pre.new_messages.len() as int;
            match t.inputs[k] {
                AgentInputView::ToolDone(r) => t.produced().len() > n && t.produced()[n]
                    == MessageView::ToolResult(r),
                AgentInputView::ToolFailed(e) => t.produced().len() > n && crate::agent::is_stub(
                    t.produced()[n],
                    pre.calls[pre.next as int],
                    crate::error::error_text(e),
                ),
                AgentInputView::Check { cancelled } => pre.mode == AgentMode::Tools && cancelled
                    ==> {
                    let left = pre.calls.skip(pre.next as int);
                    &&& t.produced().len() >= n + left.len()
                    &&& crate::agent::are_stubs(
                        t.produced().subrange(n, n + left.len()),
                        left,
                        "error: cancelled before execution"@,
                    )
                },
                _ => true,
            }
        }),
{
    let pre = t.states[k];
    let post = t.states[k + 1];
    let n = pre.new_messages.len() as int;
    let all = t.produced();
    lemma_trace(t, k);
    assert(t.steps_at(k));
    lemma_step(t.before(k), pre, t.inputs[k], post, t.effects[k], t.actions[k]);
    lemma_kept(t, k + 1, t.states.len() - 1);
    let m = post.new_messages.len() as int;
    assert(all.subrange(0, m) == post.new_messages);
    assert forall|i: int| 0 <= i < m implies all[i] == #[trigger] post.new_messages[i] by {
        assert(all.subrange(0, m)[i] == all[i]);
    }
    match t.inputs[k] {
        AgentInputView::ToolDone(_) | AgentInputView::ToolFailed(_) => {
            assert(post.new_messages[n] == post.new_messages.last());
        },
        AgentInputView::Check { cancelled } => {
            if pre.mode == AgentMode::Tools && cancelled {
                let added = post.new_messages.skip(n);
                assert(all.subrange(n, n + added.len()) =~= added);
            }
        },
        _ => {},
    }
}

/// A run that starts from a history without dangling tool calls leaves one.
pub proof fn law_run_leaves_nothing_to_repair(t: Trace)
    requires
        t.wf(),
        t.states.last().mode == AgentMode::Finished,
        crate::agent::orphans(t.contexts[0]).len() == 0,
    ensures
        crate::agent::orphans(t.contexts.last()) == Seq::<ToolCallView>::empty(),
{
    lemma_trace(t, t.states.len() - 1);
    lemma_no_orphans(t.contexts[0], t.produced());
}

proof fn lemma_no_orphans(start: Seq<MessageView>, ms: Seq<MessageView>)
    requires
        crate::agent::orphans(start).len() == 0,
        is_complete(ms),
    ensures
        crate::agent::orphans(start + ms) == Seq::<ToolCallView>::empty(),
{
    let all = start + ms;
    lemma_last_response(start, ms);
    crate::agent::lemma_last_assistant(all);
    match crate::agent::last_assistant(all) {
        Some(at) => {
            let calls = calls_at(all, at);
            if asks(all, at) {
                assert forall|k: int| 0 <= k < calls.len() implies crate::agent::answered(
                    all,
                    at,
                    (#[trigger] calls[k]).id,
                ) by {
                    if at >= start.len() {
                        let i = at - start.len();
                        assert(is_complete_at(ms, i));
                        assert(ms[i] == all[at]);
                        assert(calls_at(ms, i)[k] == calls[k]);
                        assert(crate::agent::answers(ms[i + 1 + k], calls[k].id));
                        assert(all[at + 1 + k] == ms[i + 1 + k]);
                        assert(crate::agent::answers(all[at + 1 + k], calls[k].id));
                    } else {
                        assert(all[at] == start[at]);
                        crate::agent::law_orphans_are_unanswered(start, at);
                        if !crate::agent::answered(start, at, calls[k].id) {
                            assert(calls.contains(calls[k]));
                            assert(crate::agent::orphans(start).contains(calls[k]));
                        }
                        let j = choose|j: int|
                            at < j < start.len() && #[trigger] crate::agent::answers(
                                start[j],
                                calls[k].id,
                            );
                        assert(all[j] == start[j]);
                        assert(crate::agent::answers(all[j], calls[k].id));
                    }
                }
                crate::agent::lemma_none_unanswered(calls, all, at);
            }
        },
        None => {},
    }
}

/// The last response is among the new messages, or it is the one of the old ones.
proof fn lemma_last_response(start: Seq<MessageView>, ms: Seq<MessageView>)
    ensures
        crate::agent::last_assistant(start + ms) matches Some(at) ==> (start.len() <= at
            < start.len() + ms.len() || (at < start.len() && crate::agent::last_assistant(start)
            == Some(at))),
    decreases ms.len(),
{
    let all = start + ms;
    if ms.len() == 0 {
        assert(all =~= start);
        crate::agent::lemma_last_assistant(start);
    } else {
        assert(all.subrange(0, all.len() - 1) =~= start + ms.subrange(0, ms.len() - 1));
        lemma_last_response(start, ms.subrange(0, ms.len() - 1));
    }
}

// ---------------------------------------------------------------------------
// What a run does
// ---------------------------------------------------------------------------

/// The tool calls that actions ask to be executed, in order.
pub open spec fn executed(actions: Seq<AgentActionView>) -> Seq<ToolCallView> {
    actions.filter(|a: AgentActionView| a is Execute).map_values(
        |a: AgentActionView| a->Execute_0,
    )
}

/// The tool calls that a response asks for, in order.
pub open spec fn asked_for(content: Seq<AssistantContentView>) -> Seq<ToolCallView> {
    content.filter(|c: AssistantContentView| c is ToolCall).map_values(
        |c: AssistantContentView| c->ToolCall_0,
    )
}

proof fn lemma_executed_push(actions: Seq<AgentActionView>, a: AgentActionView)
    ensures
        executed(actions.push(a)) == match a {
            AgentActionView::Execute(call) => executed(actions).push(call),
            _ => executed(actions),
        },
{
    reveal(Seq::filter);
    let all = actions.push(a);
    assert(all.drop_last() =~= actions);
    match a {
        AgentActionView::Execute(call) => {
            assert(executed(all) =~= executed(actions).push(call));
        },
        _ => {},
    }
}

/// How far the calls of the response at step `j` have been executed before step `s`.
proof fn lemma_executed(t: Trace, j: int, s: int, content: Seq<AssistantContentView>)
    requires
        t.wf(),
        0 <= j < s <= t.inputs.len(),
        t.inputs[j] matches AgentInputView::Received { event, cancelled } && !cancelled && (
        crate::agent::terminal(event) matches Some(e) && e.0 == StopReason::ToolUse && e.1.content
            == content),
        forall|i: int|
            j < i < s ==> (#[trigger] t.inputs[i] matches AgentInputView::Check { cancelled }
                ==> !cancelled),
        forall|i: int| j < i < s ==> !(#[trigger] t.actions[i] is Stream),
    ensures
        ({
            let state = t.states[s];
            let calls = asked_for(content);
            let done = executed(t.actions.subrange(j + 1, s));
            match state.mode {
                AgentMode::Tools => state.calls == calls && state.next < calls.len() && done
                    == calls.subrange(0, state.next as int),
                AgentMode::Running => state.calls == calls && state.next < calls.len() && done
                    == calls.subrange(0, state.next + 1),
                AgentMode::Turn => done == calls,
                AgentMode::Finished => done == calls,
                AgentMode::Streaming => false,
            }
        }),
    decreases s,
{
    let calls = asked_for(content);
    crate::agent::law_tool_calls(content);
    if s == j + 1 {
        assert(t.steps_at(j));
        assert(t.actions.subrange(j + 1, s) =~= Seq::empty());
        reveal(Seq::filter);
        assert(executed(Seq::empty()) =~= Seq::empty());
        assert(calls.subrange(0, 0) =~= Seq::empty());
        if calls.len() == 0 {
            assert(calls =~= Seq::empty());
        }
    } else {
        let r = s - 1;
        lemma_executed(t, j, r, content);
        lemma_trace(t, r);
        assert(t.steps_at(r));
        let done = t.actions.subrange(j + 1, r);
        assert(t.actions.subrange(j + 1, s) =~= done.push(t.actions[r]));
        lemma_executed_push(done, t.actions[r]);
        let state = t.states[r];
        match t.inputs[r] {
            AgentInputView::Check { cancelled } => {
                assert(!cancelled);
                assert(!(t.actions[r] is Stream));
                if state.mode == AgentMode::Tools {
                    assert(t.actions[r] == AgentActionView::Execute(calls[state.next as int]));
                    assert(calls.subrange(0, state.next + 1) =~= calls.subrange(
                        0,
                        state.next as int,
                    ).push(calls[state.next as int]));
                }
            },
            AgentInputView::ToolDone(_) | AgentInputView::ToolFailed(_) => {
                assert(t.actions[r] is Check);
                if state.next + 1 == calls.len() {
                    assert(calls.subrange(0, state.next + 1) =~= calls);
                }
            },
            _ => {},
        }
    }
}

/// When nothing is cancelled, the calls that are executed behind a response which asks for tools,
/// up to the next response, are that response's tool calls, each once and in order: before the next
/// response is asked for, or the run ends for want of turns, all of them are, and at any earlier
/// point a first part of them.
pub proof fn law_each_call_is_executed_once(
    t: Trace,
    j: int,
    k: int,
    content: Seq<AssistantContentView>,
)
    requires
        t.wf(),
        0 <= j < k <= t.inputs.len(),
        t.inputs[j] matches AgentInputView::Received { event, cancelled } && !cancelled && match event {
            StreamEventView::Done { reason, message } => reason == StopReason::ToolUse
                && message.content == content,
            StreamEventView::Error { reason, error } => reason == StopReason::ToolUse
                && error.content == content,
            _ => false,
        },
        forall|i: int|
            j < i < t.inputs.len() && i <= k ==> (
            #[trigger] t.inputs[i] matches AgentInputView::Check { cancelled } ==> !cancelled),
        forall|i: int| j < i < k ==> !(#[trigger] t.actions[i] is Stream),
    ensures
        ({
            let done = executed(t.actions.subrange(j + 1, k));
            &&& done.len() <= asked_for(content).len()
            &&& done == asked_for(content).subrange(0, done.len() as int)
            &&& k < t.inputs.len() && (t.actions[k] is Stream || t.actions[k] is Finish) ==> done
                == asked_for(content)
            &&& k < t.inputs.len() && t.actions[k] is Execute ==> done.len() < asked_for(
                content,
            ).len() && t.actions[k]->Execute_0 == asked_for(content)[done.len() as int]
        }),
{
    let calls = asked_for(content);
    lemma_executed(t, j, k, content);
    lemma_trace(t, k);
    assert(calls.subrange(0, calls.len() as int) =~= calls);
    if k < t.inputs.len() {
        assert(t.steps_at(k));
        let state = t.states[k];
        match t.inputs[k] {
            AgentInputView::Check { cancelled } => {
                assert(!cancelled);
            },
            _ => {},
        }
    }
}

/// The outcome of a tool is that of the call which was asked for right before, and it is what the run
/// keeps for that call: the result itself, or an error that names the call and says what went wrong.
pub proof fn law_outcome_is_of_the_executed_call(t: Trace, k: int)
    requires
        t.wf(),
        0 <= k < t.inputs.len(),
        t.inputs[k] is ToolDone || t.inputs[k] is ToolFailed,
    ensures
        k > 0,
        t.actions[k - 1] is Execute,
        ({
            let call = t.actions[k - 1]->Execute_0;
            let kept = t.states[k + 1].new_messages;
            &&& kept.len() == t.states[k].new_messages.len() + 1
            &&& kept.drop_last() == t.states[k].new_messages
            &&& kept.last() is ToolResult
            &&& kept.last()->ToolResult_0.tool_call_id == call.id
            &&& t.inputs[k] matches AgentInputView::ToolDone(r) ==> kept.last()->ToolResult_0 == r
            &&& t.inputs[k] matches AgentInputView::ToolFailed(e) ==> {
                let r = kept.last()->ToolResult_0;
                &&& r.tool_name == call.name
                &&& r.is_error
                &&& r.content.len() == 1
                &&& r.content[0] matches ToolResultContentView::Text(x) && x.text
                    == crate::error::error_text(e)
            }
        }),
{
    lemma_trace(t, k);
    assert(t.steps_at(k));
    let pre = t.states[k].new_messages;
    let kept = t.states[k + 1].new_messages;
    assert(kept == pre.push(kept.last()));
    assert(kept.drop_last() =~= pre);
}

/// What each input leads to. An event of the stream is passed on; a complete response is kept and,
/// if it asks for tools, the run goes on, else it ends with the reason of the response; a tool's
/// result is reported and kept. A cancelled run ends at once, as aborted unless its turns are used
/// up, and a stream that closes without a complete response is a failure.
pub proof fn law_input_and_outcome(t: Trace, k: int)
    requires
        t.wf(),
        0 <= k < t.inputs.len(),
    ensures
        match t.inputs[k] {
            AgentInputView::Received { event, cancelled } => {
                &&& t.effects[k].len() > 0
                &&& t.effects[k][0] == EffectView::Emit(event)
                &&& cancelled ==> t.effects[k].len() == 1 && (
                t.actions[k] matches AgentActionView::Finish(r) && r.reason == StopReason::Aborted
                    && !r.max_turns_reached && r.new_messages == t.states[k].new_messages)
                &&& !cancelled && !(event is Done) && !(event is Error) ==> t.effects[k].len() == 1
                    && t.actions[k] is Receive && t.states[k + 1] == t.states[k]
                &&& !cancelled && (event is Done || event is Error) ==> {
                    let (reason, message) = match event {
                        StreamEventView::Done { reason, message } => (reason, message),
                        StreamEventView::Error { reason, error } => (reason, error),
                        _ => arbitrary(),
                    };
                    let kept = t.states[k].new_messages.push(MessageView::Assistant(message));
                    &&& t.effects[k].len() > 1
                    &&& t.effects[k][1] == EffectView::Record(MessageView::Assistant(message))
                    &&& t.states[k + 1].new_messages == kept
                    &&& if reason == StopReason::ToolUse && asked_for(message.content).len() > 0 {
                        t.actions[k] is Check
                    } else {
                        t.actions[k] matches AgentActionView::Finish(r) && r.reason == reason
                            && !r.max_turns_reached && r.new_messages == kept
                    }
                }
            },
            AgentInputView::Closed { cancelled } => if cancelled {
                t.actions[k] matches AgentActionView::Finish(r) && r.reason == StopReason::Aborted
                    && !r.max_turns_reached && r.new_messages == t.states[k].new_messages
            } else {
                t.actions[k] is Fail
            },
            AgentInputView::Check { cancelled } => {
                &&& cancelled ==> (t.actions[k] matches AgentActionView::Finish(r) && (
                r.max_turns_reached || r.reason == StopReason::Aborted))
                &&& !cancelled ==> t.actions[k] is Stream || t.actions[k] is Execute || (
                t.actions[k] matches AgentActionView::Finish(r) && r.max_turns_reached)
            },
            AgentInputView::ToolDone(r) => t.actions[k] is Check && t.effects[k] == seq![
                EffectView::Emit(
                    StreamEventView::ToolResult {
                        tool_call_id: r.tool_call_id,
                        tool_name: r.tool_name,
                        is_error: r.is_error,
                        content: crate::text::concat(
                            r.content.filter(
                                |c: ToolResultContentView| c is Text,
                            ).map_values(|c: ToolResultContentView| c->Text_0.text),
                        ),
                        summary: r.summary,
                    },
                ),
                EffectView::Record(MessageView::ToolResult(r)),
            ],
            AgentInputView::ToolFailed(_) => t.actions[k] is Check,
        },
{
    lemma_trace(t, k);
    assert(t.steps_at(k));
    match t.inputs[k] {
        AgentInputView::Received { event, cancelled } => {
            if let Some((reason, message)) = crate::agent::terminal(event) {
                crate::agent::law_tool_calls(message.content);
            }
        },
        AgentInputView::ToolDone(r) => {
            crate::types::law_result_text(r.content);
        },
        _ => {},
    }
}

/// How many responses actions ask for.
pub open spec fn responses(actions: Seq<AgentActionView>) -> nat {
    actions.filter(|a: AgentActionView| a is Stream).len()
}

/// A run asks for no more responses than its limit. While it has asked for fewer, it goes on between
/// two turns unless it is cancelled; once it has asked for as many, it ends there, and it is said
/// that the limit was reached.
pub proof fn law_turn_limit(t: Trace, k: int)
    requires
        t.wf(),
        0 <= k <= t.inputs.len(),
    ensures
        responses(t.actions.take(k)) + t.states[k].turns_left == t.states[0].turns_left,
        k < t.inputs.len() && t.states[k].mode == AgentMode::Turn ==> {
            let used = responses(t.actions.take(k));
            &&& used == t.states[0].turns_left ==> (
            t.actions[k] matches AgentActionView::Finish(r) && r.max_turns_reached && r.reason
                == StopReason::Stop)
            &&& used < t.states[0].turns_left && t.inputs[k] == (AgentInputView::Check {
                cancelled: false,
            }) ==> t.actions[k] is Stream
            &&& used < t.states[0].turns_left && t.inputs[k] == (AgentInputView::Check {
                cancelled: true,
            }) ==> (t.actions[k] matches AgentActionView::Finish(r) && !r.max_turns_reached
                && r.reason == StopReason::Aborted)
        },
    decreases k,
{
    reveal(Seq::filter);
    if k > 0 {
        law_turn_limit(t, k - 1);
        lemma_trace(t, k - 1);
        assert(t.steps_at(k - 1));
        assert(t.actions.take(k).drop_last() =~= t.actions.take(k - 1));
        assert(t.actions.take(k).last() == t.actions[k - 1]);
        crate::agent::law_turns_are_counted(
            t.states[k - 1],
            t.inputs[k - 1],
            (t.states[k], t.effects[k - 1], t.actions[k - 1]),
        );
    } else {
        assert(t.actions.take(0) =~= Seq::empty());
    }
    lemma_trace(t, k);
    if k < t.inputs.len() {
        assert(t.steps_at(k));
    }
}

/// The messages that the effects of steps record, in order.
pub open spec fn all_recorded(effects: Seq<Seq<EffectView>>) -> Seq<MessageView>
    decreases effects.len(),
{
    if effects.len() == 0 {
        seq![]
    } else {
        all_recorded(effects.drop_last()) + effects.last().filter(
            |e: EffectView| e is Record,
        ).map_values(|e: EffectView| e->Record_0)
    }
}

/// What a run has produced is what it had recorded, in order; all of it is behind what the context
/// held at the start, so the next response is made in view of it, and the result of the run holds
/// it.
pub proof fn law_results_are_fed_back(t: Trace, k: int)
    requires
        t.wf(),
        0 <= k <= t.inputs.len(),
    ensures
        t.states[k].new_messages == all_recorded(t.effects.take(k)),
        t.contexts[k] == t.contexts[0] + all_recorded(t.effects.take(k)),
        k > 0 ==> (t.actions[k - 1] matches AgentActionView::Finish(r) ==> r.new_messages
            == all_recorded(t.effects.take(k))),
    decreases k,
{
    lemma_trace(t, k);
    if k > 0 {
        law_results_are_fed_back(t, k - 1);
        lemma_trace(t, k - 1);
        assert(t.steps_at(k - 1));
        let post = (t.states[k], t.effects[k - 1], t.actions[k - 1]);
        crate::agent::law_produced_is_recorded(t.states[k - 1], t.inputs[k - 1], post);
        crate::agent::law_finished_iff_reported(t.states[k - 1], t.inputs[k - 1], post);
        crate::agent::law_recorded(t.effects[k - 1]);
        assert(t.effects.take(k).drop_last() =~= t.effects.take(k - 1));
        assert(t.effects.take(k).last() == t.effects[k - 1]);
    } else {
        assert(t.effects.take(0) =~= Seq::empty());
        assert(t.states[0].new_messages =~= Seq::empty());
    }
}

} // verus!
