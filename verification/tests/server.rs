use tars::agent::{
    repair_messages, AgentAction, AgentConfig, AgentInput, AgentResult, AgentRun, Effect,
};
use tars::agent_runner::{prepare_text_turn, repair_session, turn_outcome};
use tars::cli::{
    chat_output, model_row, provider_row, repl_action, session_row, ChatOutput, ReplAction,
};
use tars::client::{
    chat_requests, create_session_request, created_session, expect_ack, is_terminal, listed_models,
    listed_sessions, was_cancelled, ClientError,
};
use tars::daemon::{connect_action, is_old_log, ConnectAction};
use tars::db::{message_indicates_incomplete_turn, replace_messages, StoredSession};
use tars::error::Error;
use tars::plugin::{
    await_reply, read_reply, registration, result_message, tool_call_request, worker_registration,
    CallFailure, Heard, PluginManager, PluginMessage, PluginRegistration, PluginRequest,
    PluginToolDef, PluginToolResult, Reply, WorkerAction, WorkerInput, WorkerState,
};
use tars::protocol::{
    ErrorKind, ModelInfo, Request, Response, SessionInfo, SessionStats, TokenStats,
};
use tars::providers::log::{log_model, LogProvider};
use tars::providers::mock::{mock_script, MockProvider, MockResponse, MockStep};
use tars::retry::Delay;
use tars::server::{
    dispatch, handle_connection, make_session_info, messages_loaded, model_stored, plan_request,
    session_archived, session_created, session_found, session_stats, sessions_listed,
    stream_response, ConnectionAction, ConnectionEvent, ConnectionMode, ServerStep, SessionBuffers, SessionRow,
    Written,
};
use tars::shutdown::{keeps_draining, pid_contents, recorded_pid, PidFile, ShutdownHandle};
use tars::tools::{default_tools, ToolOutput};
use tars::types::{
    AgentPhase, AssistantContent, AssistantMessage, Context, InfoMessage, Message, Model, ModelCost, StopReason,
    StreamEvent, TextContent, ThinkingStyle, Tool, ToolCall, ToolResultMessage, Usage,
    UserMessage,
};

fn json(text: &str) -> serde_json::Value {
    serde_json::from_str(text).unwrap()
}

fn mock_model() -> Model {
    Model {
        id: "mock-model".into(),
        name: "Mock".into(),
        api: "mock".into(),
        provider: "mock".into(),
        base_url: "http://mock".into(),
        thinking: ThinkingStyle::Off,
        cost: ModelCost::default(),
        context_window: 100_000,
        max_tokens: 4096,
        headers: Vec::new(),
    }
}

fn stored(id: &str, model: Model, system_prompt: Option<&str>) -> StoredSession {
    StoredSession {
        id: id.into(),
        model,
        system_prompt: system_prompt.map(String::from),
        cwd: Some("/tmp".into()),
        created_at: 5_000,
        parent_id: None,
        tagline: None,
        archived: false,
    }
}

fn call(id: &str, args: &str) -> ToolCall {
    ToolCall {
        id: id.into(),
        name: "bash".into(),
        arguments: json(args),
    }
}

// -- turns --

/// A server's memory of one session.
struct Memory {
    session: StoredSession,
    messages: Vec<Message>,
    sent: Vec<Response>,
}

impl Memory {
    fn new(session: StoredSession) -> Self {
        Memory { session, messages: Vec::new(), sent: Vec::new() }
    }

    /// Run a turn; `answers` are the event lists that the provider gives, `output` what every tool
    /// prints.
    fn turn(
        &mut self,
        mut answers: Vec<Vec<StreamEvent>>,
        text: &str,
        output: &str,
    ) -> Result<AgentResult, Error> {
        let session = self.session.clone();
        let id = session.id.clone();
        let plan =
            prepare_text_turn(&id, Some(session), self.messages.clone(), text, default_tools())?;
        assert_eq!(plan.cwd, "/tmp");
        self.messages.extend(plan.to_store);
        let mut context = plan.context;
        let mut run = AgentRun::new(&AgentConfig::default());
        let mut action = AgentAction::Check;
        let mut incoming: Vec<StreamEvent> = Vec::new();
        let result = loop {
            let input = match action {
                AgentAction::Check => AgentInput::Check { cancelled: false },
                AgentAction::Stream => {
                    incoming = answers.remove(0);
                    AgentInput::Received { event: incoming.remove(0), cancelled: false }
                }
                AgentAction::Receive => {
                    if incoming.is_empty() {
                        AgentInput::Closed { cancelled: false }
                    } else {
                        AgentInput::Received { event: incoming.remove(0), cancelled: false }
                    }
                }
                AgentAction::Execute(call) => AgentInput::ToolDone(ToolResultMessage::success(
                    &call.id, &call.name, output,
                )),
                AgentAction::Finish(result) => break Ok(result),
                AgentAction::Fail(error) => break Err(error),
            };
            let (effects, next) = run.step(&mut context, input);
            for effect in effects {
                if let Effect::Emit(e) = effect {
                    self.sent.push(stream_response(e));
                }
            }
            action = next;
        };
        let outcome = turn_outcome(&result);
        self.messages.extend(outcome.to_store);
        self.sent.push(outcome.notice);
        result
    }
}

fn events(response: MockResponse) -> Vec<StreamEvent> {
    mock_script(response)
        .into_iter()
        .filter_map(|s| match s {
            MockStep::Send(e) => Some(e),
            _ => None,
        })
        .collect()
}

fn orphan(id: &str, args: &str) -> Message {
    let mut assistant = AssistantMessage::empty("mock", "mock", "mock-model");
    assistant.stop_reason = StopReason::ToolUse;
    assistant.content.push(AssistantContent::ToolCall(call(id, args)));
    Message::Assistant(assistant)
}

fn full_turn(session_id: &str, prompt: &str, text: &str) {
    let mut memory = Memory::new(stored(session_id, mock_model(), Some(prompt)));
    let answers = vec![events(MockResponse::Text("hello from mock".into()))];
    let result = memory.turn(answers, text, "").unwrap();

    assert_eq!(result.reason, StopReason::Stop);
    assert!(!result.new_messages.is_empty());

    // user + assistant
    assert_eq!(memory.messages.len(), 2);
    assert!(matches!(memory.messages[0], Message::User(_)));
    assert!(matches!(memory.messages[1], Message::Assistant(_)));

    // Stream events and AgentDone
    assert!(memory.sent.iter().any(|r| matches!(r, Response::Stream { .. })));
    assert!(memory.sent.iter().any(|r| matches!(r, Response::AgentDone)));
}

#[test]
fn chat_end_to_end_via_runner() {
    full_turn("s1", "you are helpful", "hi");
}

#[test]
fn e2e_full_turn_mock() {
    full_turn("e2e_mock", "you are a test helper", "test message");
}

fn tool_turn(session_id: &str, call: ToolCall, answer: &str) -> AgentResult {
    let mut memory = Memory::new(stored(session_id, mock_model(), None));
    let answers = vec![
        events(MockResponse::ToolCalls(vec![call])),
        events(MockResponse::Text(answer.into())),
    ];
    let result = memory.turn(answers, "run bash", "subprocess_e2e_ok").unwrap();
    // assistant tool, tool_result, assistant text
    assert_eq!(result.new_messages.len(), 3);
    assert_eq!(memory.messages.len(), 4); // user + 3
    result
}

#[test]
fn chat_with_tool_use() {
    tool_turn("s2", call("tc1", r#"{"command": "echo hi"}"#), "done");
}

#[test]
fn e2e_tool_use_mock() {
    tool_turn("e2e_tool", call("tc_e2e", r#"{"command": "echo e2e_ok"}"#), "tool done");
}

#[test]
fn e2e_subprocess_plugin() {
    let result = tool_turn(
        "e2e_sub",
        call("tc_sub_e2e", r#"{"command": "echo subprocess_e2e_ok"}"#),
        "subprocess done",
    );
    match &result.new_messages[1] {
        Message::ToolResult(tr) => {
            let text: String = tr.content.iter().map(|c| c.text().to_string()).collect();
            assert!(text.contains("subprocess_e2e_ok"), "got: {text}");
        }
        other => panic!("expected ToolResult, got: {:?}", other),
    }
}

fn recovery(session_id: &str, orphan_id: &str, args: &str) {
    let mut memory = Memory::new(stored(session_id, mock_model(), None));
    // A crash: assistant with ToolUse but no ToolResult
    memory.messages.push(orphan(orphan_id, args));

    // Repair should synthesize a stub
    let (stubs, repaired) = repair_session(&memory.messages);
    assert!(repaired);
    memory.messages.extend(stubs);
    assert_eq!(memory.messages.len(), 2);
    assert!(
        matches!(&memory.messages[1], Message::ToolResult(tr) if tr.tool_call_id == orphan_id && tr.is_error)
    );
    // No dangling tool_use after repair
    assert!(repair_messages(&memory.messages).is_empty());

    // Now a normal chat should see a clean history
    let answers = vec![events(MockResponse::Text("recovered".into()))];
    let result = memory.turn(answers, "continue", "").unwrap();
    assert_eq!(result.reason, StopReason::Stop);
    // assistant orphan + stub + user continue + assistant recovered
    assert_eq!(memory.messages.len(), 4);
}

#[test]
fn repair_killed_mid_tool_turn() {
    recovery("s3", "tc_orphan", r#"{"command": "sleep 10"}"#);
}

#[test]
fn e2e_crash_recovery() {
    recovery("e2e_crash", "tc_orphan_e2e", r#"{"command": "sleep 100"}"#);
}

#[test]
fn turns_repair_before_they_start() {
    let messages = vec![orphan("tc", "{}")];
    let plan = prepare_text_turn(
        "s",
        Some(stored("s", mock_model(), None)),
        messages,
        "go on",
        Vec::new(),
    )
    .unwrap();
    // The stub is stored before the new message, and the turn sees both.
    assert_eq!(plan.to_store.len(), 2);
    assert!(matches!(&plan.to_store[0], Message::ToolResult(t) if t.tool_call_id == "tc"));
    assert!(matches!(&plan.to_store[1], Message::User(_)));
    assert_eq!(plan.context.messages.len(), 3);
    assert!(repair_messages(&plan.context.messages).is_empty());
}

#[test]
fn unknown_sessions_have_no_turns() {
    let r = prepare_text_turn("nope", None, Vec::new(), "hi", Vec::new());
    assert!(matches!(r, Err(Error::Io(m)) if m == "session nope not found"));
}

#[test]
fn failed_turns_are_announced() {
    let outcome = turn_outcome(&Err(Error::Auth("x".into())));
    assert!(outcome.to_store.is_empty());
    assert!(matches!(outcome.notice, Response::Error { .. }));
}

// -- stored messages --

#[test]
fn message_indicates_incomplete() {
    let user = Message::User(UserMessage::text("hi"));
    assert!(message_indicates_incomplete_turn(&user));
    let tr = Message::ToolResult(ToolResultMessage::success("tc1", "bash", "ok"));
    assert!(message_indicates_incomplete_turn(&tr));
    let mut a = AssistantMessage::empty("m", "m", "m");
    a.stop_reason = StopReason::ToolUse;
    assert!(message_indicates_incomplete_turn(&Message::Assistant(
        a.clone()
    )));
    a.stop_reason = StopReason::Error;
    assert!(message_indicates_incomplete_turn(&Message::Assistant(
        a.clone()
    )));
    a.stop_reason = StopReason::Stop;
    assert!(!message_indicates_incomplete_turn(&Message::Assistant(a)));
    let info = Message::Info(InfoMessage::new("info"));
    assert!(!message_indicates_incomplete_turn(&info));
}

#[test]
fn replaced_messages_come_first() {
    let text = |s: &str| Message::User(UserMessage::text(s));
    let history = vec![text("a"), text("b"), text("c")];
    let out = replace_messages(&history, 2, &[text("summary")]);
    assert_eq!(out.len(), 2);
    assert!(matches!(&out[0], Message::User(u) if u == &UserMessage { timestamp: u.timestamp, ..UserMessage::text("summary") }));
    assert_eq!(out[1], history[2]);
}

// -- the server --

fn row(session: StoredSession) -> SessionRow {
    SessionRow {
        session,
        message_count: Some(0),
        last_message_at: None,
        phase: None,
        messages: Vec::new(),
    }
}

fn create_request() -> Request {
    create_session_request(None, None)
}

/// Serve the request that creates a session.
fn create() -> StoredSession {
    match plan_request(create_request(), 17, 18) {
        ServerStep::CreateSession(session) => {
            let response = session_created(&session, Ok(()));
            assert_eq!(created_session(response).unwrap(), session.id);
            session
        }
        other => panic!("expected CreateSession, got {other:?}"),
    }
}

#[test]
fn roundtrip_via_duplex() {
    // CreateSession
    let session = create();
    let session_id = session.id.clone();
    assert_eq!(session_id, "s17");

    // ListSessions should contain it
    let step = plan_request(Request::ListSessions { include_archived: false }, 0, 0);
    assert!(matches!(step, ServerStep::ListSessions { include_archived: false }));
    let sessions = listed_sessions(sessions_listed(Ok(vec![row(session)]), false)).unwrap();
    assert!(sessions.iter().any(|s| s.id == session_id));

    // GetMessages should be empty initially (no user messages yet)
    match plan_request(Request::GetMessages { session_id: session_id.clone() }, 0, 0) {
        ServerStep::LoadMessages { session_id: asked } => assert_eq!(asked, session_id),
        other => panic!("expected LoadMessages, got {other:?}"),
    }
    match messages_loaded(Ok(Vec::new())) {
        Response::Messages { messages } => assert!(messages.is_empty()),
        other => panic!("expected Messages, got {:?}", other),
    }
}

#[test]
fn broadcast_via_subscribe() {
    let event = stream_response(StreamEvent::Status {
        message: "hello broadcast".into(),
    });
    let mut mode = ConnectionMode::Serving;

    // Nothing reaches a connection that has not subscribed.
    let action = handle_connection(&mut mode, ConnectionEvent::Broadcast(event.clone()));
    assert_eq!(action, ConnectionAction::Wait);

    // Subscribe
    let request = Request::Subscribe { session_id: "s1".into() };
    let action = handle_connection(&mut mode, ConnectionEvent::Received(request));
    assert_eq!(action, ConnectionAction::Subscribe { session_id: "s1".into() });
    assert_eq!(mode, ConnectionMode::Subscribed);

    // Broadcast
    let action = handle_connection(&mut mode, ConnectionEvent::Broadcast(event.clone()));
    assert_eq!(action, ConnectionAction::Write(event));
    assert_eq!(mode, ConnectionMode::Subscribed);
    assert_eq!(
        handle_connection(&mut mode, ConnectionEvent::Closed),
        ConnectionAction::Close
    );
}

fn chat_on(session_id: &str, text: &str) {
    let (chat, subscribe) = chat_requests(session_id, text);
    match plan_request(chat, 0, 0) {
        ServerStep::StartTurn { session_id: asked, message, notice, reply } => {
            assert_eq!(asked, session_id);
            assert!(matches!(message, Message::User(_)));
            assert_eq!(notice, Response::UserMessage { text: text.into() });
            assert!(expect_ack(reply).is_ok());
        }
        other => panic!("expected StartTurn, got {other:?}"),
    }
    assert_eq!(subscribe, Request::Subscribe { session_id: session_id.into() });
}

#[test]
fn chat_appends_and_broadcasts() {
    chat_on(&create().id, "hello");
}

#[test]
fn e2e_server_roundtrip() {
    chat_on(&create().id, "hello server");
}

#[test]
fn malformed_lines_are_answered() {
    let mut mode = ConnectionMode::Serving;
    let action = handle_connection(&mut mode, ConnectionEvent::Malformed("bad".into()));
    assert!(matches!(
        action,
        ConnectionAction::Write(Response::Error { kind: ErrorKind::Parse, .. })
    ));
    assert_eq!(mode, ConnectionMode::Serving);
    assert_eq!(
        handle_connection(&mut mode, ConnectionEvent::WriteFailed(Written::ParseError)),
        ConnectionAction::Wait
    );
    assert_eq!(
        handle_connection(&mut mode, ConnectionEvent::WriteFailed(Written::Acknowledgement)),
        ConnectionAction::Wait
    );
    assert_eq!(
        handle_connection(&mut mode, ConnectionEvent::WriteFailed(Written::Answer)),
        ConnectionAction::Close
    );
    assert_eq!(
        handle_connection(&mut mode, ConnectionEvent::WriteFailed(Written::Notice)),
        ConnectionAction::Close
    );
}

#[test]
fn server_failures_are_errors() {
    assert!(matches!(
        session_found("x", Ok(None)),
        Response::Error { kind: ErrorKind::NotFound, .. }
    ));
    assert!(matches!(session_archived(Err("locked".into())), Response::Error { .. }));
    assert_eq!(session_archived(Ok(())), Response::SessionArchived);
    assert!(matches!(session_created(&create(), Err("full".into())), Response::Error { .. }));
    let info = match session_found("s17", Ok(Some(row(create())))) {
        Response::SessionInfo { info } => info,
        other => panic!("expected SessionInfo, got {other:?}"),
    };
    assert_eq!(info, make_session_info(&row(create())));
}

#[test]
fn archived_sessions_are_listed_on_request() {
    let asked = Request::ArchiveSession { session_id: "s17".into() };
    match plan_request(asked, 0, 0) {
        ServerStep::ArchiveSession { session_id } => assert_eq!(session_id, "s17"),
        other => panic!("expected ArchiveSession, got {other:?}"),
    }
    let open = create();
    let archived = StoredSession { id: "old".into(), ..create() }.archive();
    let rows = || Ok(vec![row(open.clone()), row(archived.clone())]);
    let some = listed_sessions(sessions_listed(rows(), false)).unwrap();
    assert_eq!(some.iter().map(|s| s.id.as_str()).collect::<Vec<_>>(), ["s17"]);
    let all = listed_sessions(sessions_listed(rows(), true)).unwrap();
    assert_eq!(
        all.iter().map(|s| (s.id.as_str(), s.archived)).collect::<Vec<_>>(),
        [("s17", false), ("old", true)]
    );
}

#[test]
fn a_changed_model_is_stored() {
    let asked = Request::SetModel { session_id: "s17".into(), model_id: "big".into() };
    let (session_id, model) = match plan_request(asked, 0, 0) {
        ServerStep::StoreModel { session_id, model } => (session_id, model),
        other => panic!("expected StoreModel, got {other:?}"),
    };
    assert_eq!(session_id, "s17");
    match model_stored(&model, Ok(())) {
        Response::ModelChanged { model } => {
            assert_eq!(model.id, "big");
            assert_eq!(model.provider, "mock");
        }
        other => panic!("expected ModelChanged, got {other:?}"),
    }
    assert!(matches!(model_stored(&model, Err("full".into())), Response::Error { .. }));
    let changed = create().with_model(model);
    assert_eq!(make_session_info(&row(changed)).model, "big");
}

#[test]
fn session_info_tells_what_is_known() {
    let request = Request::CreateSession {
        model: None,
        provider: None,
        system_prompt: None,
        cwd: None,
        parent_id: Some("p".into()),
        tagline: Some("a task".into()),
    };
    let session = match plan_request(request, 1, 61_234) {
        ServerStep::CreateSession(session) => session,
        other => panic!("expected CreateSession, got {other:?}"),
    };
    let quiet = make_session_info(&row(session.clone()));
    assert_eq!((quiet.created_at, quiet.last_activity), (61, 61));
    assert_eq!(quiet.state, AgentPhase::Idle);
    assert_eq!(quiet.cwd.as_deref(), Some("/tmp"));
    assert_eq!(quiet.parent_id.as_deref(), Some("p"));
    assert_eq!(quiet.tagline.as_deref(), Some("a task"));
    let busy = make_session_info(&SessionRow {
        session,
        message_count: None,
        last_message_at: Some(95_999),
        phase: Some(AgentPhase::Thinking),
        messages: Vec::new(),
    });
    assert_eq!(busy.last_activity, 95);
    assert_eq!(busy.state, AgentPhase::Thinking);
    assert_eq!(busy.message_count, 0);
}

fn spent(input: u64, output: u64, calls: &[&str]) -> Message {
    let mut message = AssistantMessage::empty("m", "m", "m");
    message.usage = Usage { input, output, cache_read: 5, cache_write: 7, total_tokens: 0 };
    message.content.push(AssistantContent::Text(TextContent {
        text: "t".into(),
        text_signature: None,
    }));
    for id in calls {
        message.content.push(AssistantContent::ToolCall(call(id, "{}")));
    }
    Message::Assistant(message)
}

#[test]
fn session_info_sums_up_its_messages() {
    let result = ToolResultMessage {
        tool_call_id: "a".into(),
        tool_name: "x".into(),
        content: Vec::new(),
        details: None,
        is_error: false,
        timestamp: 0,
        duration_ms: None,
        summary: None,
        post_persist_actions: Vec::new(),
    };
    let mut messages = vec![
        Message::User(UserMessage::text("hi")),
        spent(100, 10, &["a", "b"]),
        Message::ToolResult(result.clone()),
        Message::ToolResult(result),
        spent(250, 20, &["c"]),
        Message::User(UserMessage::text("go on")),
    ];
    let info = make_session_info(&SessionRow {
        messages: messages.clone(),
        ..row(stored("s1", mock_model(), None))
    });
    assert_eq!(
        info.stats,
        SessionStats {
            user_messages: 2,
            assistant_messages: 2,
            tool_calls: 3,
            tool_results: 2,
            tokens: TokenStats { input: 350, output: 30, cache_read: 10, cache_write: 14 },
            context_window: 100_000,
            context_tokens: Some(250),
        }
    );
    messages.push(spent(u64::MAX, 0, &[]));
    let full = session_stats(&messages, 1);
    assert_eq!(full.tokens.input, u64::MAX);
    assert_eq!(full.context_tokens, Some(u64::MAX));
    assert_eq!((full.assistant_messages, full.context_window), (3, 1));
    let none = make_session_info(&row(stored("s1", mock_model(), None))).stats;
    assert_eq!(none, SessionStats { context_window: 100_000, ..SessionStats::default() });
}

#[test]
fn a_run_cancelled_between_tools_leaves_nothing_to_repair() {
    let mut run = AgentRun::new(&AgentConfig::default());
    let mut context = Context { system_prompt: None, messages: Vec::new(), tools: Vec::new() };
    let mut message = AssistantMessage::empty("m", "m", "m");
    message.stop_reason = StopReason::ToolUse;
    for id in ["a", "b"] {
        message.content.push(AssistantContent::ToolCall(call(id, "{}")));
    }
    let done = StreamEvent::Done { reason: StopReason::ToolUse, message };
    let inputs = vec![
        AgentInput::Check { cancelled: false },
        AgentInput::Received { event: done, cancelled: false },
        AgentInput::Check { cancelled: false },
        AgentInput::ToolFailed(Error::Internal("boom".into())),
        AgentInput::Check { cancelled: true },
    ];
    let mut last = AgentAction::Check;
    for input in inputs {
        last = run.step(&mut context, input).1;
    }
    assert!(matches!(last, AgentAction::Finish(r) if r.new_messages.len() == 3));
    let texts: Vec<(String, String)> = context.messages[1..]
        .iter()
        .map(|m| match m {
            Message::ToolResult(r) => (r.tool_call_id.clone(), r.text()),
            other => panic!("expected a result, got {other:?}"),
        })
        .collect();
    assert_eq!(texts[0].0, "a");
    assert!(texts[0].1.contains("boom"));
    assert_eq!(texts[1], ("b".into(), "error: cancelled before execution".into()));
    assert!(repair_messages(&context.messages).is_empty());
}

#[test]
fn a_cancelled_turn_is_reported_as_such() {
    let mut run = AgentRun::new(&AgentConfig::default());
    let mut context = Context { system_prompt: None, messages: Vec::new(), tools: Vec::new() };
    let (effects, action) = run.step(&mut context, AgentInput::Check { cancelled: true });
    assert!(effects.is_empty());
    let result = match action {
        AgentAction::Finish(result) => result,
        other => panic!("expected Finish, got {other:?}"),
    };
    assert_eq!(result.reason, StopReason::Aborted);
    assert!(result.new_messages.is_empty());
    let outcome = turn_outcome(&Ok(result));
    assert_eq!(outcome.notice, Response::Cancelled);
    assert!(outcome.to_store.is_empty());
}

#[test]
fn dispatch_reads_the_clock() {
    match dispatch(create_request()) {
        ServerStep::CreateSession(session) => {
            let n: u64 = session.id[1..].parse().unwrap();
            assert!(n > 1_500_000_000_000);
        }
        other => panic!("expected CreateSession, got {other:?}"),
    }
}

#[test]
fn buffers_keep_what_is_not_drained() {
    let mut buffers = SessionBuffers::new();
    buffers.push("a", Response::AgentDone);
    buffers.push("b", Response::Cancelled);
    buffers.push("a", Response::Cancelled);
    assert_eq!(buffers.drain("a"), vec![Response::AgentDone, Response::Cancelled]);
    assert!(buffers.drain("a").is_empty());
    assert_eq!(buffers.drain("b").len(), 1);
}

#[test]
fn connect_and_create_session() {
    let session = match plan_request(create_session_request(None, Some("/tmp".into())), 3, 3) {
        ServerStep::CreateSession(session) => session,
        other => panic!("expected CreateSession, got {other:?}"),
    };
    assert_eq!(session.cwd.as_deref(), Some("/tmp"));
    let session_id = created_session(session_created(&session, Ok(()))).unwrap();
    assert!(!session_id.is_empty());

    let sessions = listed_sessions(sessions_listed(Ok(vec![row(session)]), false)).unwrap();
    assert_eq!(sessions.len(), 1);
    assert_eq!(sessions[0].id, session_id);
}

fn models_of_server() -> Vec<ModelInfo> {
    match plan_request(Request::ListModels, 0, 0) {
        ServerStep::Reply(response) => listed_models(response).unwrap(),
        other => panic!("expected Reply, got {other:?}"),
    }
}

#[test]
fn list_models() {
    assert!(!models_of_server().is_empty());
}

#[test]
fn chat_streaming() {
    let mut memory = Memory::new(stored("s_chat", log_model(), None));
    memory.turn(vec![LogProvider.events()], "hello", "").unwrap();
    // What was sent is kept for a subscriber, up to a terminal response.
    let mut buffers = SessionBuffers::new();
    for response in memory.sent {
        buffers.push("s_chat", response);
    }
    let mut saw_done = false;
    for response in buffers.drain("s_chat") {
        if is_terminal(&response) {
            assert_eq!(response, Response::AgentDone);
            saw_done = true;
            break;
        }
    }
    assert!(saw_done, "should see AgentDone");
}

#[test]
fn closed_connection_returns_error() {
    let mut first = ConnectionMode::Serving;
    assert_eq!(
        handle_connection(&mut first, ConnectionEvent::Closed),
        ConnectionAction::Close
    );
    // Another connection is served.
    let mut second = ConnectionMode::Serving;
    let action = handle_connection(&mut second, ConnectionEvent::Received(Request::ListModels));
    assert_eq!(action, ConnectionAction::Serve(Request::ListModels));
    assert!(!models_of_server().is_empty());
}

#[test]
fn unexpected_answers_are_errors() {
    assert!(matches!(
        created_session(Response::Ack),
        Err(ClientError::Unexpected(Response::Ack))
    ));
    assert!(expect_ack(Response::AgentDone).is_err());
    assert_eq!(was_cancelled(Response::Cancelled).ok(), Some(true));
    assert!(was_cancelled(Response::AgentDone).is_err());
    assert!(!is_terminal(&Response::Ack));
}

// -- shutdown --

#[test]
fn pid_file_round_trip() {
    let contents = pid_contents(4_242);
    assert_eq!(contents, "4242");
    assert_eq!(recorded_pid(&format!("{contents}\n")), Some(4_242));
    assert_eq!(recorded_pid("none"), None);
    let file = PidFile::create("/run/test.pid".into(), None, false).unwrap();
    assert_eq!(file.path(), "/run/test.pid");
}

#[test]
fn pid_file_detects_running() {
    let contents = pid_contents(1);
    assert!(PidFile::create("/run/test.pid".into(), Some(&contents), true).is_err());
    assert!(PidFile::create("/run/test.pid".into(), Some(&contents), false).is_ok());
    assert!(PidFile::create("/run/test.pid".into(), Some("junk"), true).is_ok());
}

#[test]
fn shutdown_handle_drain() {
    let handle = ShutdownHandle::new();
    assert_eq!(handle.active_count(), 0);

    let guard = handle.enter();
    assert_eq!(handle.active_count(), 1);

    let guard2 = handle.enter();
    assert_eq!(handle.active_count(), 2);

    drop(guard);
    assert_eq!(handle.active_count(), 1);

    drop(guard2);
    assert_eq!(handle.active_count(), 0);
}

#[test]
fn shutdown_handle_drain_waits() {
    let handle = ShutdownHandle::new();
    let h = handle.clone();
    let guard = h.enter();
    assert!(handle.active_count() > 0);
    assert!(keeps_draining(handle.active_count(), false));
    drop(guard);
    assert!(!keeps_draining(handle.active_count(), false));
    assert_eq!(handle.active_count(), 0);
}

#[test]
fn shutdown_handle_drain_timeout() {
    let handle = ShutdownHandle::new();
    let h = handle.clone().enter();
    assert!(handle.active_count() > 0);
    // Past the deadline it gives up, still active
    assert!(!keeps_draining(handle.active_count(), true));
    assert!(handle.active_count() > 0);
    drop(h);
}

#[test]
fn shutdown_is_seen_by_clones() {
    let handle = ShutdownHandle::new();
    let other = handle.clone();
    assert!(!other.is_shutting_down());
    let guard = other.enter();
    handle.request_shutdown();
    assert!(other.is_shutting_down());
    assert_eq!(handle.active_count(), 1);
    drop(guard);
    let late = handle.enter();
    handle.request_shutdown();
    assert!(handle.is_shutting_down() && other.is_shutting_down());
    assert_eq!((handle.active_count(), other.active_count()), (1, 1));
    drop(late);
    assert_eq!(other.active_count(), 0);
    let fresh = ShutdownHandle::default();
    assert!(!fresh.is_shutting_down());
    assert_eq!(fresh.active_count(), 0);
}

// -- plugins --

fn plugin(name: &str, tools: &[&str]) -> PluginRegistration {
    PluginRegistration {
        name: name.into(),
        tools: tools
            .iter()
            .map(|t| PluginToolDef {
                name: t.to_string(),
                description: format!("{t} of {name}"),
                parameters: json("{}"),
            })
            .collect(),
    }
}

#[test]
fn spawn_worker_and_round_trip() {
    let mut pm = PluginManager::new();
    pm.register(registration(worker_registration(&default_tools())).unwrap());

    // Should have registered tools
    let schemas = pm.tool_schemas();
    assert!(schemas.iter().any(|t| t.name == "bash"));
    assert!(schemas.iter().any(|t| t.name == "read"));

    // Execute a tool call
    let tc = call("test-1", r#"{"command": "echo hello"}"#);
    assert_eq!(pm.route(&tc.name), Ok(0));
    match tool_call_request(&tc, "/tmp") {
        PluginRequest::ToolCall { tool_call_id, cwd, .. } => {
            assert_eq!(tool_call_id, "test-1");
            assert_eq!(cwd.as_deref(), Some("/tmp"));
        }
        other => panic!("expected ToolCall, got {other:?}"),
    }
    let reply = PluginMessage::ToolResult(PluginToolResult {
        tool_call_id: "test-1".into(),
        content: "hello\n".into(),
        is_error: false,
        summary: None,
    });
    let result = match read_reply(reply, "test-1") {
        Reply::Done(result) => result,
        other => panic!("expected Done, got {other:?}"),
    };
    let message = result_message(&tc, Ok(result)).unwrap();
    assert!(!message.is_error);
    assert!(message.text().contains("hello"));
    assert_eq!(message.tool_call_id, "test-1");
}

#[test]
fn unknown_tool_returns_error() {
    let pm = PluginManager::new();
    assert!(pm.route("nonexistent").is_err());
}

#[test]
fn last_registration_of_a_tool_wins() {
    let mut pm = PluginManager::new();
    pm.register(plugin("a", &["x", "y"]));
    pm.register(plugin("b", &["y", "z"]));
    assert_eq!(pm.route("x"), Ok(0));
    assert_eq!(pm.route("y"), Ok(1));
    assert_eq!(pm.route("z"), Ok(1));
}

#[test]
fn other_messages_are_waited_out() {
    let delta = PluginMessage::OutputDelta { tool_call_id: "t".into(), text: "x".into() };
    assert!(matches!(read_reply(delta, "t"), Reply::Wait));
    let other = PluginMessage::ToolResult(PluginToolResult {
        tool_call_id: "u".into(),
        content: String::new(),
        is_error: false,
        summary: None,
    });
    assert!(matches!(read_reply(other, "t"), Reply::Wait));
    let register = PluginMessage::Register(plugin("a", &[]));
    assert!(matches!(read_reply(register, "t"), Reply::Refused(_)));
    assert!(registration(PluginMessage::OutputDelta {
        tool_call_id: "t".into(),
        text: String::new(),
    })
    .is_err());
    let other = result_message(&call("t", "{}"), Err(CallFailure::Other("no".into())));
    assert_eq!(other.unwrap_err(), Error::Internal("no".into()));
}

#[test]
fn a_lost_plugin_is_an_io_error() {
    let lost = match await_reply(Heard::Closed, "t") {
        Reply::Refused(e) => e,
        other => panic!("expected Refused, got {other:?}"),
    };
    assert_eq!(lost, CallFailure::Lost("plugin stdout closed".into()));
    let error = result_message(&call("t", "{}"), Err(lost)).unwrap_err();
    assert_eq!(error, Error::Io("plugin stdout closed".into()));
    match await_reply(Heard::Broken("broken pipe".into()), "t") {
        Reply::Refused(e) => assert_eq!(e, CallFailure::Lost("broken pipe".into())),
        other => panic!("expected Refused, got {other:?}"),
    }
    match await_reply(Heard::Unreadable("bad".into()), "t") {
        Reply::Refused(e) => assert_eq!(e, CallFailure::Other("parse error: bad".into())),
        other => panic!("expected Refused, got {other:?}"),
    }
    let delta = PluginMessage::OutputDelta { tool_call_id: "t".into(), text: "x".into() };
    assert!(matches!(await_reply(Heard::Message(delta), "t"), Reply::Wait));
}

#[test]
fn worker_answers_each_call_once() {
    let mut worker = WorkerState::new();
    let request = |id: &str| {
        WorkerInput::Request(PluginRequest::ToolCall {
            tool_call_id: id.into(),
            name: "bash".into(),
            arguments: json("{}"),
            cwd: None,
        })
    };
    assert!(matches!(worker.step(request("a")), WorkerAction::Run { .. }));
    assert!(matches!(worker.step(WorkerInput::Unreadable), WorkerAction::Continue));
    assert!(matches!(worker.step(request("b")), WorkerAction::Run { .. }));
    let cancel = PluginRequest::CancelToolCall { tool_call_id: "a".into() };
    assert!(matches!(worker.step(WorkerInput::Request(cancel)), WorkerAction::Continue));
    let stop = WorkerInput::Request(PluginRequest::Shutdown);
    assert!(matches!(worker.step(stop), WorkerAction::Stop));
    // Nothing is read any more, and the calls still get their results.
    assert!(matches!(worker.step(request("c")), WorkerAction::Stop));
    for id in ["b", "a"] {
        let result = ToolResultMessage::success(id, "bash", "ok");
        match worker.step(WorkerInput::Executed(result)) {
            WorkerAction::Send(PluginMessage::ToolResult(r)) => assert_eq!(r.tool_call_id, id),
            _ => panic!("expected a result"),
        }
    }
    assert!(matches!(worker.step(WorkerInput::Ended), WorkerAction::Stop));
}

#[test]
fn worker_round_trip() {
    match worker_registration(&default_tools()) {
        PluginMessage::Register(reg) => {
            assert_eq!(reg.name, "worker");
            assert!(!reg.tools.is_empty());
            assert!(reg.tools.iter().any(|t| t.name == "bash"));
            assert!(reg.tools.iter().any(|t| t.name == "read"));
            assert!(reg.tools.iter().any(|t| t.name == "write"));
            assert!(reg.tools.iter().any(|t| t.name == "edit"));
        }
        other => panic!("expected Register, got: {:?}", other),
    }

    let mut worker = WorkerState::new();
    let request = PluginRequest::ToolCall {
        tool_call_id: "test-1".into(),
        name: "bash".into(),
        arguments: json(r#"{"command": "echo hello"}"#),
        cwd: Some("/tmp".into()),
    };
    let tool_call = match worker.handle(request) {
        WorkerAction::Run { tool_call, cwd, cancel } => {
            assert_eq!(cwd, "/tmp");
            assert!(!cancel.is_cancelled());
            tool_call
        }
        _ => panic!("expected Run"),
    };
    let output = ToolOutput::text("hello\n");
    let result = tars::tools::answer_call(&tool_call, output);
    match worker.finish(&result) {
        PluginMessage::ToolResult(tr) => {
            assert_eq!(tr.tool_call_id, "test-1");
            assert!(!tr.is_error);
            assert!(tr.content.contains("hello"));
        }
        other => panic!("expected ToolResult, got: {:?}", other),
    }
    assert!(matches!(worker.handle(PluginRequest::Shutdown), WorkerAction::Stop));
}

#[test]
fn worker_cancel_tool() {
    let mut worker = WorkerState::new();
    let request = PluginRequest::ToolCall {
        tool_call_id: "cancel-test".into(),
        name: "bash".into(),
        arguments: json(r#"{"command": "sleep 30"}"#),
        cwd: Some("/tmp".into()),
    };
    let running = match worker.handle(request) {
        WorkerAction::Run { cancel, .. } => cancel,
        _ => panic!("expected Run"),
    };
    assert!(!running.is_cancelled());
    let cancel = PluginRequest::CancelToolCall { tool_call_id: "cancel-test".into() };
    assert!(matches!(worker.handle(cancel), WorkerAction::Continue));
    assert!(running.is_cancelled());
    let again = PluginRequest::CancelToolCall { tool_call_id: "cancel-test".into() };
    assert!(matches!(worker.handle(again), WorkerAction::Continue));
}

#[test]
fn plugin_tools_become_tools() {
    let tool: Tool = plugin("p", &["x"]).tools[0].to_tool();
    assert_eq!(tool.name, "x");
    assert_eq!(tool.description, "x of p");
}

// -- the command line --

fn listed() -> SessionInfo {
    make_session_info(&SessionRow {
        message_count: Some(3),
        ..row(stored("s1", mock_model(), None))
    })
}

#[test]
fn rows_show_their_fields() {
    let text = session_row(&listed());
    assert!(text.starts_with("s1  model=mock-model  msgs=3"), "{text}");
    let model = &models_of_server()[0];
    assert!(model_row(model).contains(" ctx=100000"));
    assert_eq!(
        provider_row("p", "openai", &vec!["a".into(), "b".into()]),
        "  p (openai): a, b"
    );
}

#[test]
fn typed_lines() {
    assert!(matches!(repl_action("  \n"), ReplAction::Skip));
    assert!(matches!(repl_action("/quit\n"), ReplAction::Quit));
    assert!(matches!(repl_action("/exit"), ReplAction::Quit));
    assert!(matches!(repl_action(" hi \n"), ReplAction::Send(t) if t == "hi"));
}

#[test]
fn chat_output_of_responses() {
    let mut partial = AssistantMessage::empty("t", "t", "t");
    partial.content.push(AssistantContent::Text(TextContent {
        text: "hi".into(),
        text_signature: None,
    }));
    let delta = stream_response(StreamEvent::TextDelta {
        content_index: 0,
        delta: "hi".into(),
        partial,
    });
    assert!(matches!(chat_output(&delta), ChatOutput::Text(t) if t == "hi"));
    assert!(matches!(chat_output(&Response::AgentDone), ChatOutput::Done));
    assert!(matches!(chat_output(&Response::Ack), ChatOutput::Silent));
    let failed = Response::Error { kind: ErrorKind::Internal, message: "boom".into() };
    assert!(matches!(chat_output(&failed), ChatOutput::Failed(m) if m == "error: boom"));
}

// -- the daemon --

#[test]
fn connecting_starts_the_server_once() {
    assert_eq!(connect_action(true, 0), ConnectAction::Ready);
    assert_eq!(connect_action(false, 0), ConnectAction::StartServer { wait_ms: 100 });
    assert_eq!(connect_action(false, 7), ConnectAction::Retry { wait_ms: 100 });
    assert!(matches!(connect_action(false, 50), ConnectAction::Fail(_)));
}

#[test]
fn prune_skips_non_log_files() {
    let old = || Some(Delay::from_secs(31 * 86_400));
    assert!(!is_old_log("/logs/not_a_log.txt", old(), 30));
    assert!(is_old_log("/logs/tars.log", old(), 30));
    assert!(!is_old_log("/logs/tars.log", Some(Delay::from_secs(86_400)), 30));
    assert!(!is_old_log("/logs/tars.log", None, 30));
}

#[test]
fn mock_turns_are_recorded() {
    let mut provider = MockProvider::new(vec![MockResponse::Text("x".into())]);
    assert_eq!(provider.responses.len(), 1);
    let plan = prepare_text_turn(
        "s",
        Some(stored("s", mock_model(), Some("p"))),
        Vec::new(),
        "hi",
        default_tools(),
    )
    .unwrap();
    provider.next_response(&plan.context, 1);
    assert_eq!(provider.captures[0].context.system_prompt.as_deref(), Some("p"));
    assert_eq!(provider.captures[0].context.tools.len(), default_tools().len());
}
