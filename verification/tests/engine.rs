use tars::agent::{
    needs_continuation, repair_messages, AgentAction, AgentConfig, AgentInput, AgentMode,
    AgentResult, AgentRun, Effect,
};
use tars::compaction::{
    build_summarization_context, estimate_context_tokens, estimate_tokens, extract_summary,
    find_cut_point, serialize_messages, should_compact, CompactionSettings,
};
use tars::error::Error;
use tars::providers::mock::{mock_script, MockProvider, MockResponse, MockStep};
use tars::retry::{
    backoff_for_test, classify_error, classify_error_at, countdown_step, immediate_message,
    CountdownAction, Delay, MAX_RETRY_DELAY_MS,
};
use tars::types::{
    AssistantContent, AssistantMessage, CompactionSummaryMessage, Context, InfoMessage, Message,
    StopReason, StreamEvent, TextContent, Tool, ToolCall, ToolResultContent, ToolResultMessage,
    UserContent, UserMessage,
};

fn json(text: &str) -> serde_json::Value {
    serde_json::from_str(text).unwrap()
}

// -- the agent loop --

type Executor = fn(&ToolCall) -> Result<ToolResultMessage, Error>;

fn echo(call: &ToolCall) -> Result<ToolResultMessage, Error> {
    Ok(ToolResultMessage::success(
        &call.id,
        &call.name,
        &format!("echo: {}", call.arguments),
    ))
}

fn refuse(call: &ToolCall) -> Result<ToolResultMessage, Error> {
    Err(Error::Internal(format!("fail tool {}", call.name)))
}

struct Outcome {
    result: Result<AgentResult, Error>,
    events: Vec<StreamEvent>,
    persisted: Vec<Message>,
}

/// Run the loop against a mock; `cancel_at` is the number of inputs before it is cancelled.
fn run(
    provider: &mut MockProvider,
    ctx: &mut Context,
    executor: Executor,
    config: &AgentConfig,
    cancel_at: usize,
) -> Outcome {
    let mut state = AgentRun::new(config);
    let mut events = Vec::new();
    let mut persisted = Vec::new();
    let mut incoming: Vec<StreamEvent> = Vec::new();
    let mut action = AgentAction::Check;
    let mut inputs = 0;
    loop {
        let cancelled = inputs >= cancel_at;
        inputs += 1;
        let input = match action {
            AgentAction::Check => AgentInput::Check { cancelled },
            AgentAction::Stream => {
                incoming = mock_script(provider.next_response(ctx, 0))
                    .into_iter()
                    .filter_map(|s| match s {
                        MockStep::Send(e) => Some(e),
                        _ => None,
                    })
                    .collect();
                AgentInput::Received { event: incoming.remove(0), cancelled }
            }
            AgentAction::Receive => {
                if incoming.is_empty() {
                    AgentInput::Closed { cancelled }
                } else {
                    AgentInput::Received { event: incoming.remove(0), cancelled }
                }
            }
            AgentAction::Execute(call) => match executor(&call) {
                Ok(r) => AgentInput::ToolDone(r),
                Err(e) => AgentInput::ToolFailed(e),
            },
            AgentAction::Finish(result) => {
                assert_eq!(state.mode, AgentMode::Finished);
                return Outcome { result: Ok(result), events, persisted };
            }
            AgentAction::Fail(error) => {
                return Outcome { result: Err(error), events, persisted };
            }
        };
        let (effects, next) = state.step(ctx, input);
        for effect in effects {
            match effect {
                Effect::Emit(e) => events.push(e),
                Effect::Record(m) => persisted.push(m),
            }
        }
        action = next;
    }
}

fn call(id: &str, args: &str) -> ToolCall {
    ToolCall {
        id: id.into(),
        name: "bash".into(),
        arguments: json(args),
    }
}

fn asking(text: &str) -> Context {
    Context {
        messages: vec![Message::User(UserMessage::text(text))],
        ..Default::default()
    }
}

const NEVER: usize = usize::MAX;

#[test]
fn loop_tool_then_stop() {
    let mut mock = MockProvider::new(vec![
        MockResponse::ToolCalls(vec![call("tc1", r#"{"cmd":"ls"}"#)]),
        MockResponse::Text("done".into()),
    ]);
    let mut ctx = Context {
        system_prompt: Some("you are helpful".into()),
        messages: vec![Message::User(UserMessage::text("hi"))],
        tools: vec![Tool {
            name: "bash".into(),
            description: "run bash".into(),
            parameters: json(r#"{"type":"object"}"#),
        }],
    };
    let out = run(&mut mock, &mut ctx, echo, &AgentConfig { turn_limit: 5 }, NEVER);
    let result = out.result.unwrap();

    assert_eq!(result.new_messages.len(), 3); // assistant tool, tool_result, assistant text
    assert_eq!(result.reason, StopReason::Stop);
    assert!(!result.max_turns_reached);
    assert_eq!(ctx.messages.len(), 4); // user + 3 new
    // persisted matches new_messages
    assert_eq!(out.persisted, result.new_messages);

    // Provider saw correct contexts: first turn had 1 user msg, second had user+assistant+tool_result
    let caps = &mock.captures;
    assert_eq!(caps.len(), 2);
    assert_eq!(caps[0].context.messages.len(), 1);
    assert_eq!(caps[1].context.messages.len(), 3);

    // events include tool result
    assert!(out
        .events
        .iter()
        .any(|ev| matches!(ev, StreamEvent::ToolResult { .. })));
}

#[test]
fn loop_stops_at_turn_limit() {
    let mut mock = MockProvider::new(vec![
        MockResponse::ToolCalls(vec![call("tc1", "{}")]),
        MockResponse::ToolCalls(vec![call("tc2", "{}")]),
        MockResponse::ToolCalls(vec![call("tc3", "{}")]),
    ]);
    let mut ctx = asking("loop");
    let out = run(&mut mock, &mut ctx, echo, &AgentConfig { turn_limit: 2 }, NEVER);
    let result = out.result.unwrap();
    assert!(result.max_turns_reached);
    assert_eq!(result.new_messages.len(), 4); // 2 turns * (assistant + tool_result)
}

#[test]
fn executor_error_becomes_tool_error() {
    let mut mock = MockProvider::new(vec![
        MockResponse::ToolCalls(vec![call("tc1", "{}")]),
        MockResponse::Text("recovered".into()),
    ]);
    let mut ctx = asking("hi");
    let out = run(&mut mock, &mut ctx, refuse, &AgentConfig::default(), NEVER);
    let result = out.result.unwrap();
    // First tool result should be error
    assert!(matches!(&result.new_messages[1], Message::ToolResult(tr) if tr.is_error));
    assert_eq!(result.reason, StopReason::Stop);
}

#[test]
fn needs_continuation_and_repair() {
    assert!(!needs_continuation(&[]));
    let msgs = vec![Message::User(UserMessage::text("hi"))];
    assert!(!needs_continuation(&msgs));
    let msgs2 = vec![
        Message::User(UserMessage::text("hi")),
        Message::ToolResult(ToolResultMessage::success("tc1", "bash", "ok")),
    ];
    assert!(needs_continuation(&msgs2));

    // repair: orphan tool_use
    let mut a = AssistantMessage::empty("mock", "mock", "mock");
    a.stop_reason = StopReason::ToolUse;
    a.content.push(AssistantContent::ToolCall(call("tc1", "{}")));
    let msgs = vec![Message::Assistant(a)];
    let stubs = repair_messages(&msgs);
    assert_eq!(stubs.len(), 1);
    assert!(matches!(&stubs[0], Message::ToolResult(tr) if tr.tool_call_id == "tc1"));
}

#[test]
fn cancel_mid_loop_aborts() {
    let mut mock = MockProvider::new(vec![MockResponse::Text("hi".into())]);
    let mut ctx = asking("hi");
    let out = run(&mut mock, &mut ctx, echo, &AgentConfig::default(), 0);
    let result = out.result.unwrap();
    assert_eq!(result.reason, StopReason::Aborted);
    assert!(result.new_messages.is_empty());
}

#[test]
fn cancelled_before_tools_answers_every_call() {
    let mut mock = MockProvider::new(vec![MockResponse::ToolCalls(vec![
        call("a", "{}"),
        call("b", "{}"),
    ])]);
    let mut ctx = asking("hi");
    // One check and the events of the response come before the tools.
    let events = mock_script(MockResponse::ToolCalls(vec![call("a", "{}"), call("b", "{}")])).len();
    let out = run(&mut mock, &mut ctx, echo, &AgentConfig::default(), 1 + events);
    let result = out.result.unwrap();
    assert_eq!(result.reason, StopReason::Aborted);
    let answered: Vec<String> = result
        .new_messages
        .iter()
        .filter_map(|m| match m {
            Message::ToolResult(t) => Some(t.tool_call_id.clone()),
            _ => None,
        })
        .collect();
    assert_eq!(answered, ["a", "b"]);
    assert!(repair_messages(&ctx.messages).is_empty());
}

#[test]
fn repair_is_needed_once() {
    let mut a = AssistantMessage::empty("m", "m", "m");
    a.stop_reason = StopReason::ToolUse;
    a.content.push(AssistantContent::ToolCall(call("x", "{}")));
    a.content.push(AssistantContent::ToolCall(call("y", "{}")));
    let mut history = vec![
        Message::User(UserMessage::text("go")),
        Message::Assistant(a),
        Message::ToolResult(ToolResultMessage::success("x", "bash", "ok")),
    ];
    let stubs = repair_messages(&history);
    assert_eq!(stubs.len(), 1);
    assert!(matches!(&stubs[0], Message::ToolResult(t) if t.tool_call_id == "y" && t.is_error
        && t.text() == "error: session interrupted before execution"));
    history.extend(stubs);
    assert!(repair_messages(&history).is_empty());
}

// -- compaction --

fn user(text: &str) -> Message {
    Message::User(UserMessage::text(text))
}

fn assistant(text: &str, input_tokens: u64) -> Message {
    let mut a = AssistantMessage::empty("test", "test", "test");
    a.content.push(AssistantContent::Text(TextContent {
        text: text.to_string(),
        text_signature: None,
    }));
    a.usage.input = input_tokens;
    a.usage.output = 100;
    Message::Assistant(a)
}

fn compaction_summary(text: &str) -> Message {
    Message::CompactionSummary(CompactionSummaryMessage {
        summary: text.to_string(),
        tokens_before: 50000,
        timestamp: 0,
    })
}

fn prompt_of(ctx: &Context) -> String {
    match &ctx.messages[0] {
        Message::User(u) => match &u.content[0] {
            UserContent::Text(t) => t.text.clone(),
            _ => panic!("expected text content"),
        },
        _ => panic!("expected user message"),
    }
}

#[test]
fn estimate_tokens_basic() {
    let msg = user("hello");
    assert_eq!(estimate_tokens(&msg), 2);
    let msg = user(&"x".repeat(400));
    assert_eq!(estimate_tokens(&msg), 100);
}

#[test]
fn should_compact_thresholds() {
    let settings = CompactionSettings {
        enabled: true,
        reserve_tokens: 16_000,
        keep_recent_tokens: 20_000,
    };
    assert!(should_compact(190_000, 200_000, &settings));
    assert!(!should_compact(180_000, 200_000, &settings));
    let disabled = CompactionSettings {
        enabled: false,
        ..settings
    };
    assert!(!should_compact(190_000, 200_000, &disabled));
}

#[test]
fn find_cut_point_keeps_recent() {
    let big = "x".repeat(400);
    let messages = vec![
        user(&big),
        assistant(&big, 500),
        user(&big),
        assistant(&big, 800),
        user(&big),
        assistant(&big, 1000),
    ];
    let cut = find_cut_point(&messages, 250);
    assert_eq!(cut, 4);
}

#[test]
fn find_cut_point_never_cuts_at_tool_result() {
    let big = "x".repeat(400);
    let messages = vec![
        user(&big),
        assistant(&big, 500),
        Message::ToolResult(ToolResultMessage {
            tool_call_id: "tc1".into(),
            tool_name: "bash".into(),
            content: vec![ToolResultContent::Text(TextContent {
                text: big.clone(),
                text_signature: None,
            })],
            details: None,
            is_error: false,
            timestamp: 0,
            duration_ms: None,
            summary: None,
            post_persist_actions: Vec::new(),
        }),
        user(&big),
        assistant(&big, 1000),
    ];
    let cut = find_cut_point(&messages, 250);
    assert_eq!(cut, 3);
}

#[test]
fn find_cut_point_with_compaction_summary() {
    let big = "x".repeat(400);
    let messages = vec![
        compaction_summary("previous summary"),
        user(&big),
        assistant(&big, 500),
        user(&big),
        assistant(&big, 1000),
    ];
    let cut = find_cut_point(&messages, 250);
    assert_eq!(cut, 3);
}

#[test]
fn estimate_context_tokens_uses_usage() {
    let messages = vec![user("hello"), assistant("world", 5000), user("followup")];
    let est = estimate_context_tokens(&messages);
    assert!(est > 5000);
    assert!(est < 5200);
}

#[test]
fn estimate_context_tokens_no_usage() {
    let messages = vec![user("hello"), user("world")];
    let est = estimate_context_tokens(&messages);
    assert_eq!(est, 4);
}

#[test]
fn serialize_messages_roundtrip() {
    let messages = vec![user("write a test"), assistant("here's the code", 100)];
    let text = serialize_messages(&messages);
    assert!(text.contains("## User"));
    assert!(text.contains("write a test"));
    assert!(text.contains("## Assistant"));
    assert!(text.contains("here's the code"));
}

#[test]
fn repeated_compaction_preserves_recent() {
    let big = "x".repeat(400);
    let messages = vec![
        compaction_summary("previous work summary"),
        user(&big),
        assistant(&big, 500),
        user(&big),
        assistant(&big, 800),
        user(&big),
        assistant(&big, 1000),
    ];
    let cut = find_cut_point(&messages, 250);
    assert!(cut >= 3, "cut={cut} should be >= 3 (keep recent)");
    assert!(cut <= 5, "cut={cut} should be <= 5");
    assert!(
        matches!(
            &messages[cut],
            Message::User(_) | Message::CompactionSummary(_)
        ),
        "cut point must be at a turn boundary"
    );
}

#[test]
fn should_compact_after_previous_compaction() {
    let messages = vec![
        compaction_summary("summary of earlier work"),
        user("continue working"),
        assistant("ok", 190_000),
    ];
    let settings = CompactionSettings {
        enabled: true,
        reserve_tokens: 16_000,
        keep_recent_tokens: 20_000,
    };
    let ctx_tokens = estimate_context_tokens(&messages);
    assert!(ctx_tokens > 180_000);
    assert!(should_compact(ctx_tokens, 200_000, &settings));
    assert!(!should_compact(ctx_tokens, 1_000_000, &settings));
}

#[test]
fn estimate_tokens_info() {
    let msg = Message::Info(InfoMessage {
        text: "hello".into(),
        timestamp: 0,
    });
    assert_eq!(estimate_tokens(&msg), 2);
}

#[test]
fn find_cut_point_info_is_valid_boundary() {
    let big = "x".repeat(400);
    let messages = vec![
        user(&big),
        assistant(&big, 500),
        Message::Info(InfoMessage {
            text: "notification".into(),
            timestamp: 0,
        }),
        user(&big),
        assistant(&big, 1000),
    ];
    let cut = find_cut_point(&messages, 250);
    assert!(cut >= 2 && cut <= 3, "cut={cut} should be 2 or 3");
    assert!(
        matches!(&messages[cut], Message::User(_) | Message::Info(_)),
        "cut point must be at a valid boundary"
    );
}

#[test]
fn short_conversations_are_not_cut() {
    let messages = vec![user("hi"), assistant("hello", 5)];
    assert_eq!(find_cut_point(&messages, 20_000), 0);
    assert_eq!(find_cut_point(&[], 20_000), 0);
}

#[test]
fn build_summarization_context_without_hint_has_no_keep_hint_block() {
    let messages = vec![user("hi"), assistant("hello", 5)];
    let ctx = build_summarization_context(&messages, None);
    let prompt = prompt_of(&ctx);
    assert!(prompt.contains("## Goal"), "standard sections present");
    assert!(
        !prompt.contains("<keep_hint>"),
        "no keep_hint block when hint=None"
    );
    assert!(
        !prompt.contains("User-specified focus"),
        "no focus header when hint=None"
    );
}

#[test]
fn build_summarization_context_with_hint_includes_block() {
    let messages = vec![user("hi"), assistant("hello", 5)];
    let ctx = build_summarization_context(&messages, Some("keep file paths verbatim"));
    let prompt = prompt_of(&ctx);
    assert!(
        prompt.contains("## Goal"),
        "standard sections must still be present"
    );
    assert!(
        prompt.contains("<keep_hint>\nkeep file paths verbatim\n</keep_hint>"),
        "hint must appear inside <keep_hint> tags, got: {prompt}"
    );
    assert!(
        prompt.contains("advisory"),
        "hint block must mark itself as advisory"
    );
}

#[test]
fn build_summarization_context_with_blank_hint_omits_block() {
    let messages = vec![user("hi"), assistant("hello", 5)];
    let ctx = build_summarization_context(&messages, Some("   \n  \t"));
    assert!(
        !prompt_of(&ctx).contains("<keep_hint>"),
        "whitespace-only hint must be treated as None"
    );
}

#[test]
fn extract_summary_from_stream() {
    let mut msg = AssistantMessage::empty("test", "test", "test");
    msg.content.push(AssistantContent::Text(TextContent {
        text: "summary text here".into(),
        text_signature: None,
    }));
    let events = [StreamEvent::Done {
        reason: StopReason::Stop,
        message: msg,
    }];
    let summary = extract_summary(&events).unwrap();
    assert_eq!(summary, "summary text here");
}

#[test]
fn summarize_via_mock_provider() {
    let mut mock = MockProvider::new(vec![MockResponse::Text("mock summary".into())]);
    let messages = vec![user("hello"), assistant("world", 100)];
    let context = build_summarization_context(&messages, None);
    let events: Vec<StreamEvent> = mock_script(mock.next_response(&context, 0))
        .into_iter()
        .filter_map(|s| match s {
            MockStep::Send(e) => Some(e),
            _ => None,
        })
        .collect();
    assert_eq!(extract_summary(&events).unwrap(), "mock summary");
}

#[test]
fn failed_summaries_are_errors() {
    let mut msg = AssistantMessage::empty("test", "test", "test");
    msg.error_message = Some("overloaded".into());
    let events = [StreamEvent::Error { reason: StopReason::Error, error: msg }];
    assert!(matches!(
        extract_summary(&events),
        Err(Error::Http { status: 0, message }) if message == "overloaded"
    ));
    assert!(extract_summary(&[]).is_err());
}

// -- retries --

#[test]
fn rate_limited_with_retry_after() {
    let err = Error::RateLimited {
        provider: "openai".into(),
        retry_after: Some(7),
    };
    let d = classify_error(&err, 0, 3, 500).unwrap();
    assert_eq!(d, Delay::from_secs(7));
}

#[test]
fn rate_limited_without_retry_after_uses_backoff() {
    let err = Error::RateLimited {
        provider: "openai".into(),
        retry_after: None,
    };
    let d = classify_error(&err, 0, 3, 500).unwrap();
    // backoff attempt 0 = 500ms (jitter may reduce slightly, but at least > 300)
    assert!(d.as_millis() >= 300 && d.as_millis() <= 500);
}

#[test]
fn internal_is_retryable() {
    let err = Error::Internal("boom".into());
    assert!(classify_error(&err, 0, 3, 500).is_some());
}

#[test]
fn auth_not_retryable() {
    let err = Error::Auth("anthropic".into());
    assert!(classify_error(&err, 0, 3, 500).is_none());
}

#[test]
fn max_retries_exhausted() {
    let err = Error::RateLimited {
        provider: "a".into(),
        retry_after: Some(1),
    };
    assert!(classify_error(&err, 3, 3, 500).is_none());
}

#[test]
fn backoff_doubles_up_to_the_limit() {
    assert_eq!(backoff_for_test(0, 500).as_millis(), 500);
    assert_eq!(backoff_for_test(3, 500).as_millis(), 4_000);
    assert_eq!(backoff_for_test(20, 500).as_millis(), MAX_RETRY_DELAY_MS as u128);
}

#[test]
fn jitter_stays_within_bounds() {
    let err = Error::Internal("boom".into());
    for nanos in [0u32, 1, 499_999_999, 999_999_999] {
        let d = classify_error_at(&err, 1, 3, 1_000, nanos).unwrap().as_millis();
        assert!((1_000..=2_000).contains(&d), "{nanos}: {d}");
    }
}

/// Count a delay down; the statuses that are shown, or none where it is cancelled.
fn countdown(mut remaining: Delay, cancel_after: usize) -> Option<Vec<String>> {
    let mut shown = None;
    let mut statuses = Vec::new();
    let mut steps = 0;
    loop {
        match countdown_step(remaining, steps >= cancel_after, shown, 1, 3, "retryable", "boom") {
            CountdownAction::Cancelled => return None,
            CountdownAction::Finished => return Some(statuses),
            CountdownAction::Wait { status, shown: now, sleep } => {
                statuses.extend(status);
                shown = Some(now);
                let left = remaining.as_millis() - sleep.as_millis();
                remaining = Delay::from_millis(left as u64);
            }
        }
        steps += 1;
    }
}

#[test]
fn countdown_emits_status_and_respects_cancel() {
    let statuses = countdown(Delay::from_millis(150), NEVER).expect("not cancelled");
    assert!(statuses.iter().any(|m| m.starts_with("Retrying ")));
}

#[test]
fn countdown_aborts_on_cancel() {
    assert!(countdown(Delay::from_secs(5), 1).is_none());
}

#[test]
fn countdown_shows_each_second_once() {
    let statuses = countdown(Delay::from_secs(3), NEVER).unwrap();
    assert_eq!(
        statuses,
        [
            "Retrying (attempt 1/3) in 3s... (retryable: boom)",
            "Retrying (attempt 1/3) in 2s... (retryable: boom)",
            "Retrying (attempt 1/3) in 1s... (retryable: boom)",
        ]
    );
    assert_eq!(
        immediate_message(2, 3, "boom"),
        "Retrying (attempt 2/3) immediately: boom"
    );
}
