//! Agent turns of a session: what a turn starts from, and what is left to do after it.

use vstd::prelude::*;

use crate::agent::{needs_continuation, repair_messages, AgentMode, AgentResult, AgentRunView};
use crate::db::{StoredSession, StoredSessionView};
use crate::error::{Error, ErrorView};
use crate::protocol::{ErrorKind, Response, ResponseView};
use crate::types::{
    Context, ContextView, Message, MessageView, Model, ModelView, StopReason, Tool, ToolCallView,
    UserMessage,
};

verus! {

/// What stands in for the result of a tool call that was never executed.
pub const INTERRUPTED: &'static str = "error: session interrupted before execution";

/// What a turn starts from.
#[derive(Debug)]
pub struct TurnPlan {
    pub model: Model,
    /// The directory that the tools run in.
    pub cwd: String,
    /// Messages to store before the turn.
    pub to_store: Vec<Message>,
    pub context: Context,
}

/// What a [`TurnPlan`] holds.
#[verifier::ext_equal]
pub struct TurnPlanView {
    pub model: ModelView,
    pub cwd: Seq<char>,
    pub to_store: Seq<MessageView>,
    pub context: ContextView,
}

impl View for TurnPlan {
    type V = TurnPlanView;

    open spec fn view(&self) -> TurnPlanView {
        TurnPlanView {
            model: self.model@,
            cwd: self.cwd@,
            to_store: self.to_store.deep_view(),
            context: self.context@,
        }
    }
}

impl DeepView for TurnPlan {
    type V = TurnPlanView;

    open spec fn deep_view(&self) -> TurnPlanView {
        self@
    }
}

/// What is left to do after a turn.
#[derive(Debug)]
pub struct TurnOutcome {
    /// Messages to store.
    pub to_store: Vec<Message>,
    /// What the subscribers are told.
    pub notice: Response,
}

/// What a [`TurnOutcome`] holds.
#[verifier::ext_equal]
pub struct TurnOutcomeView {
    pub to_store: Seq<MessageView>,
    pub notice: ResponseView,
}

impl View for TurnOutcome {
    type V = TurnOutcomeView;

    open spec fn view(&self) -> TurnOutcomeView {
        TurnOutcomeView {
            to_store: self.to_store.deep_view(),
            notice: self.notice@,
        }
    }
}

impl DeepView for TurnOutcome {
    type V = TurnOutcomeView;

    open spec fn deep_view(&self) -> TurnOutcomeView {
        self@
    }
}

/// Whether messages repair a session: one error result for each tool call that an interrupted turn
/// left without a result.
pub open spec fn repairs(stubs: Seq<MessageView>, messages: Seq<MessageView>) -> bool {
    crate::agent::are_stubs(stubs, crate::agent::orphans(messages), INTERRUPTED@)
}

/// Whether a plan is one for a turn of a session that a message starts: an interrupted turn is
/// repaired first, then the message follows.
pub open spec fn is_plan(
    plan: TurnPlanView,
    session: StoredSessionView,
    messages: Seq<MessageView>,
    message: MessageView,
) -> bool {
    &&& plan.model == session.model
    &&& plan.cwd == crate::server::text_or(session.cwd, "/tmp"@)
    &&& plan.to_store.len() > 0
    &&& plan.to_store.last() == message
    &&& repairs(plan.to_store.drop_last(), messages)
    &&& plan.context.system_prompt == session.system_prompt
    &&& plan.context.messages == messages + plan.to_store
}

/// Prepare a turn of a session that a message of the user starts.
pub fn prepare_turn(
    session_id: &str,
    session: Option<StoredSession>,
    messages: Vec<Message>,
    message: Message,
    tools: Vec<Tool>,
) -> (r: core::result::Result<TurnPlan, Error>)
    ensures
        match (session, r) {
            (Some(s), Ok(plan)) => is_plan(plan@, s@, messages.deep_view(), message@)
                && plan@.context.tools == tools.deep_view(),
            (None, Err(e)) => e@ == ErrorView::Io("session "@ + session_id@ + " not found"@),
            _ => false,
        },
{
    let session = match session {
        Some(s) => s,
        None => {
            let mut text: String = "session ".to_owned();
            text.append(session_id);
            text.append(" not found");
            return Err(Error::Io(text));
        },
    };
    let ghost past = messages.deep_view();
    let ghost m = message@;
    let list = messages.as_slice();
    assert(list.deep_view() =~= past);
    let mut to_store = repair_messages(list);
    let ghost stubs = to_store.deep_view();
    to_store.push(message);
    assert(to_store.deep_view() =~= stubs.push(m));
    assert(to_store.deep_view().drop_last() =~= stubs);
    let ghost new = to_store.deep_view();
    let mut all = messages;
    let mut i: usize = 0;
    assert(all.deep_view() =~= past + new.subrange(0, 0));
    while i < to_store.len()
        invariant
            i <= to_store.len(),
            new == to_store.deep_view(),
            all.deep_view() == past + new.subrange(0, i as int),
        decreases to_store.len() - i,
    {
        assert(new[i as int] == to_store[i as int]@);
        let ghost now = all.deep_view();
        let x = to_store[i].clone();
        all.push(x);
        assert(all.deep_view() =~= now.push(x@));
        assert(all.deep_view() =~= past + new.subrange(0, i + 1));
        i = i + 1;
    }
    assert(new.subrange(0, i as int) =~= new);
    let cwd: String = match session.cwd {
        Some(d) => d,
        None => "/tmp".to_owned(),
    };
    Ok(
        TurnPlan {
            model: session.model,
            cwd,
            to_store,
            context: Context { system_prompt: session.system_prompt, messages: all, tools },
        },
    )
}

/// Prepare a turn of a session that a text of the user starts.
pub fn prepare_text_turn(
    session_id: &str,
    session: Option<StoredSession>,
    messages: Vec<Message>,
    user_text: &str,
    tools: Vec<Tool>,
) -> (r: core::result::Result<TurnPlan, Error>)
    ensures
        match (session, r) {
            (Some(s), Ok(plan)) => {
                let m = plan@.to_store.last();
                &&& is_plan(plan@, s@, messages.deep_view(), m)
                &&& m is User
                &&& m->User_0.content == seq![
                    crate::types::UserContentView::Text(crate::types::plain_text(user_text@)),
                ]
                &&& plan@.context.tools == tools.deep_view()
            },
            (None, Err(e)) => e@ == ErrorView::Io("session "@ + session_id@ + " not found"@),
            _ => false,
        },
{
    prepare_turn(
        session_id,
        session,
        messages,
        Message::User(UserMessage::text(user_text)),
        tools,
    )
}

/// What the subscribers are told of a turn that ended for a reason: that it was cancelled, or that
/// it is done.
pub open spec fn end_notice(reason: StopReason) -> ResponseView {
    if reason == StopReason::Aborted {
        ResponseView::Cancelled
    } else {
        ResponseView::AgentDone
    }
}

/// What is left to do after a turn: store its messages and report that it is done or was cancelled,
/// or report why it failed.
pub fn turn_outcome(result: &core::result::Result<AgentResult, Error>) -> (r: TurnOutcome)
    ensures
        r@ == (match *result {
            Ok(a) => TurnOutcomeView {
                to_store: a@.new_messages,
                notice: end_notice(a@.reason),
            },
            Err(e) => TurnOutcomeView {
                to_store: seq![],
                notice: ResponseView::Error {
                    kind: ErrorKind::Internal,
                    message: crate::error::error_text(e@),
                },
            },
        }),
{
    match result {
        Ok(a) => {
            let to_store = a.new_messages.clone();
            assert(to_store.deep_view() =~= a.new_messages.deep_view());
            let notice: Response = if a.reason == StopReason::Aborted {
                Response::Cancelled
            } else {
                Response::AgentDone
            };
            TurnOutcome { to_store, notice }
        },
        Err(e) => {
            let to_store: Vec<Message> = Vec::new();
            assert(to_store.deep_view() =~= seq![]);
            TurnOutcome {
                to_store,
                notice: Response::Error { kind: ErrorKind::Internal, message: e.to_string() },
            }
        },
    }
}

/// The messages that repair a session, and whether it was interrupted: after such a repair, or
/// where its last message is a tool result that nobody responded to.
pub fn repair_session(messages: &[Message]) -> (r: (Vec<Message>, bool))
    ensures
        repairs(r.0.deep_view(), messages.deep_view()),
        r.1 == (crate::agent::orphans(messages.deep_view()).len() > 0 || (
        messages.deep_view().len() > 0 && messages.deep_view().last() is ToolResult)),
{
    let stubs = repair_messages(messages);
    assert(stubs.deep_view().len() == stubs.len());
    let interrupted: bool = stubs.len() > 0 || needs_continuation(messages);
    (stubs, interrupted)
}

/// A turn starts from a history without dangling tool calls: what stands before the message that
/// starts it needs no repair.
pub proof fn law_turn_starts_repaired(
    plan: TurnPlanView,
    session: StoredSessionView,
    messages: Seq<MessageView>,
    message: MessageView,
)
    requires
        is_plan(plan, session, messages, message),
    ensures
        crate::agent::orphans(plan.context.messages.drop_last()) == Seq::<ToolCallView>::empty(),
        plan.context.messages.last() == message,
{
    let stubs = plan.to_store.drop_last();
    crate::agent::law_repair_is_complete(messages, stubs, INTERRUPTED@);
    assert(plan.context.messages.drop_last() =~= messages + stubs);
}

/// A turn that is cancelled before it starts produces nothing, ends as aborted, and is reported as
/// cancelled, not as done.
pub proof fn law_cancelled_turn_is_reported(run: AgentRunView)
    requires
        run.turns_left > 0,
        run.mode == AgentMode::Turn,
        run.new_messages.len() == 0,
    ensures
        crate::agent::turn_step(run, true).2 == crate::agent::finish(
            Seq::empty(),
            StopReason::Aborted,
            false,
        ),
        end_notice(StopReason::Aborted) == ResponseView::Cancelled,
        forall|reason: StopReason|
            reason != StopReason::Aborted ==> #[trigger] end_notice(reason)
                == ResponseView::AgentDone,
{
    assert(run.new_messages =~= Seq::empty());
}

/// The subscribers are told that a turn was cancelled exactly where it was.
pub proof fn law_end_notice(reason: StopReason)
    ensures
        end_notice(reason) is Cancelled <==> reason is Aborted,
        !(reason is Aborted) ==> end_notice(reason) is AgentDone,
{
}

} // verus!
