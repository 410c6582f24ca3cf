use std::collections::HashMap;

use serde_json::Value;
use tars::error::{map_http_status, Error};
use tars::provider::{HostedProvider, Provider, ProviderRegistry};
use tars::providers::anthropic::{
    event_kind, map_stop_reason, read_line as read_anthropic_line, sse_error_message,
    strip_partial_tool_state, Anthropic, AnthropicStream, EventKind, LineAction,
};
use tars::providers::anthropic_request::{
    build_request_body as build_anthropic_body, map_effort, models, supports_adaptive_thinking,
};
use tars::providers::anthropic_types::{
    ApiUsage, ContentBlock, ContentBlockDeltaEvent, ContentBlockStartEvent, ContentBlockStopEvent,
    Delta, MessageDelta, MessageDeltaEvent, MessageStartEvent, MessageStartMessage, WireEvent,
};
use tars::providers::log::{log_model, LogProvider};
use tars::providers::mock::{
    mock_model, mock_script, mock_tool, MockProvider, MockResponse, MockStep,
};
use tars::providers::openai::{
    map_finish_reason, read_line as read_openai_line, ChatLine, OpenAi, OpenAiStream,
};
use tars::providers::openai_request::build_request_body as build_openai_body;
use tars::providers::openai_types::{
    ChatChoice, ChatCompletionChunk, ChatDelta, ChatUsage, FunctionDelta, ToolCallDelta,
};
use tars::providers::transport::{
    anthropic_key, anthropic_request, failure_event, openai_key, openai_request, retry_after,
};
use tars::providers::reader::{ChunkReader, EventReader, NamedData};
use tars::sse::LineBuffer;
use tars::types::{
    AssistantContent, AssistantMessage, CacheRetention, Context, Header, Message, Model, ModelCost,
    StopReason, StreamEvent, StreamOptions, ThinkingEffort, ThinkingStyle, Tool, ToolCall,
    UserMessage,
};

fn json(text: &str) -> Value {
    serde_json::from_str(text).unwrap()
}

fn text_of(v: &Value, key: &str) -> Option<String> {
    v.get(key).and_then(Value::as_str).map(String::from)
}

fn number_of(v: &Value, key: &str) -> Option<u64> {
    v.get(key).and_then(Value::as_u64)
}

// -- Anthropic: wire events --

const ANTHROPIC: &str = "anthropic-messages";

fn api_usage(v: &Value) -> ApiUsage {
    ApiUsage {
        input_tokens: number_of(v, "input_tokens"),
        output_tokens: number_of(v, "output_tokens"),
        cache_read_input_tokens: number_of(v, "cache_read_input_tokens"),
        cache_creation_input_tokens: number_of(v, "cache_creation_input_tokens"),
    }
}

fn wire_event(name: &str, data: &str) -> WireEvent {
    let v = json(data);
    match event_kind(name) {
        EventKind::MessageStart => WireEvent::MessageStart(MessageStartEvent {
            message: MessageStartMessage {
                id: text_of(&v["message"], "id").unwrap(),
                usage: v["message"].get("usage").map(api_usage),
            },
        }),
        EventKind::ContentBlockStart => {
            let b = &v["content_block"];
            WireEvent::ContentBlockStart(ContentBlockStartEvent {
                index: number_of(&v, "index").unwrap(),
                content_block: match b["type"].as_str().unwrap() {
                    "text" => ContentBlock::Text { text: text_of(b, "text").unwrap() },
                    "thinking" => ContentBlock::Thinking { thinking: text_of(b, "thinking").unwrap() },
                    "tool_use" => ContentBlock::ToolUse {
                        id: text_of(b, "id").unwrap(),
                        name: text_of(b, "name").unwrap(),
                        input: b["input"].clone(),
                    },
                    other => panic!("unknown block {other}"),
                },
            })
        }
        EventKind::ContentBlockDelta => {
            let d = &v["delta"];
            WireEvent::ContentBlockDelta(ContentBlockDeltaEvent {
                index: number_of(&v, "index").unwrap(),
                delta: match d["type"].as_str().unwrap() {
                    "text_delta" => Delta::TextDelta { text: text_of(d, "text").unwrap() },
                    "thinking_delta" => Delta::ThinkingDelta { thinking: text_of(d, "thinking").unwrap() },
                    "input_json_delta" => Delta::InputJsonDelta {
                        partial_json: text_of(d, "partial_json").unwrap(),
                    },
                    "signature_delta" => Delta::SignatureDelta { signature: text_of(d, "signature").unwrap() },
                    other => panic!("unknown delta {other}"),
                },
            })
        }
        EventKind::ContentBlockStop => WireEvent::ContentBlockStop(ContentBlockStopEvent {
            index: number_of(&v, "index").unwrap(),
        }),
        EventKind::MessageDelta => WireEvent::MessageDelta(MessageDeltaEvent {
            delta: v.get("delta").map(|d| MessageDelta { stop_reason: text_of(d, "stop_reason") }),
            usage: v.get("usage").map(api_usage),
        }),
        EventKind::MessageStop => WireEvent::MessageStop,
        EventKind::Error => WireEvent::Error { data: data.to_string() },
        EventKind::Other => WireEvent::Other,
    }
}

/// The events of a recorded stream, whose bytes arrive in pieces of some size.
fn anthropic_events(lines: &[&str], piece: usize) -> Vec<StreamEvent> {
    let (mut stream, start) = AnthropicStream::start(ANTHROPIC, "anthropic", "sonnet-4-6");
    let mut events = vec![start];
    let mut raw = lines.join("\n");
    raw.push('\n');
    let mut reader = EventReader::new();
    for chunk in raw.as_bytes().chunks(piece) {
        reader.push_bytes(chunk);
        while let Some(next) = reader.next_data() {
            if let Some(e) = stream.apply(wire_event(&next.event, &next.data)) {
                events.push(e);
            }
            if stream.is_finished() {
                return events;
            }
        }
    }
    events.push(stream.end_unexpectedly());
    events
}

fn text_deltas(events: &[StreamEvent]) -> Vec<String> {
    events
        .iter()
        .filter_map(|e| match e {
            StreamEvent::TextDelta { delta, .. } => Some(delta.clone()),
            _ => None,
        })
        .collect()
}

fn toolcall_deltas(events: &[StreamEvent]) -> Vec<String> {
    events
        .iter()
        .filter_map(|e| match e {
            StreamEvent::ToolcallDelta { delta, .. } => Some(delta.clone()),
            _ => None,
        })
        .collect()
}

fn thinking_deltas(events: &[StreamEvent]) -> Vec<String> {
    events
        .iter()
        .filter_map(|e| match e {
            StreamEvent::ThinkingDelta { delta, .. } => Some(delta.clone()),
            _ => None,
        })
        .collect()
}

const TEXT_STREAM: [&str; 14] = [
    "event: message_start",
    r#"data: {"message":{"id":"msg_1","usage":{"input_tokens":10}}}"#,
    "event: content_block_start",
    r#"data: {"index":0,"content_block":{"type":"text","text":""}}"#,
    "event: content_block_delta",
    r#"data: {"index":0,"delta":{"type":"text_delta","text":"Hello"}}"#,
    "event: content_block_delta",
    r#"data: {"index":0,"delta":{"type":"text_delta","text":" world"}}"#,
    "event: content_block_stop",
    r#"data: {"index":0}"#,
    "event: message_delta",
    r#"data: {"delta":{"stop_reason":"end_turn"},"usage":{"output_tokens":5}}"#,
    "event: message_stop",
    r#"data: {}"#,
];

#[test]
fn anthropic_sse_text_stream() {
    let events = anthropic_events(&TEXT_STREAM, 4096);
    assert!(matches!(events[0], StreamEvent::Start { .. }));
    assert!(matches!(
        events[1],
        StreamEvent::TextStart {
            content_index: 0,
            ..
        }
    ));
    assert_eq!(text_deltas(&events), vec!["Hello", " world"]);
    let done = events.last().unwrap();
    match done {
        StreamEvent::Done { reason, message } => {
            assert_eq!(*reason, StopReason::Stop);
            assert_eq!(message.usage.input, 10);
            assert_eq!(message.usage.output, 5);
            assert_eq!(message.text(), "Hello world");
            assert_eq!(message.response_id.as_deref(), Some("msg_1"));
        }
        other => panic!("expected Done, got {other:?}"),
    }
}

#[test]
fn pieces_of_a_stream_do_not_matter() {
    let whole = text_deltas(&anthropic_events(&TEXT_STREAM, 4096));
    for piece in [1, 2, 3, 7, 50] {
        assert_eq!(text_deltas(&anthropic_events(&TEXT_STREAM, piece)), whole);
    }
}

#[test]
fn lines_are_taken_out_once_complete() {
    let mut buffer = LineBuffer::new();
    buffer.push_text("a\r\nb");
    assert_eq!(buffer.next_line().as_deref(), Some("a"));
    assert_eq!(buffer.next_line(), None);
    buffer.push_bytes(b"c\n");
    assert_eq!(buffer.next_line().as_deref(), Some("bc"));
    buffer.push_bytes(&[0xff, b'\n']);
    assert_eq!(buffer.next_line().as_deref(), Some("\u{fffd}"));
    buffer.push_text("dropped\n");
    buffer.clear();
    assert_eq!(buffer.next_line(), None);
}

#[test]
fn event_names_stay_in_force() {
    assert_eq!(read_anthropic_line(": comment"), LineAction::Skip);
    assert_eq!(read_anthropic_line("event: x"), LineAction::SetEvent("x".into()));
    let mut reader = EventReader::new();
    reader.push_bytes(b"event: a\ndata: 1\n\ndata: 2\nevent: b\nda");
    let named = |event: &str, data: &str| NamedData { event: event.into(), data: data.into() };
    assert_eq!(reader.next_data(), Some(named("a", "1")));
    assert_eq!(reader.next_data(), Some(named("a", "2")));
    assert_eq!(reader.next_data(), None);
    reader.push_bytes(b"ta: 3\n");
    assert_eq!(reader.next_data(), Some(named("b", "3")));
}

#[test]
fn the_end_of_a_chat_takes_the_rest_along() {
    assert_eq!(read_openai_line("data:[DONE]"), ChatLine::Done);
    assert_eq!(read_openai_line("  "), ChatLine::Skip);
    let mut reader = ChunkReader::new();
    reader.push_bytes(b"data: 1\n: note\ndata:  2\ndata: [DONE]\ndata: 3\n");
    assert_eq!(reader.next_data().as_deref(), Some("1"));
    assert_eq!(reader.next_data().as_deref(), Some("2"));
    assert_eq!(reader.next_data(), None);
    assert_eq!(reader.next_data(), None);
    reader.push_bytes(b"data: 4\n");
    assert_eq!(reader.next_data().as_deref(), Some("4"));
}

#[test]
fn sse_tool_use_stream() {
    let lines = [
        "event: message_start",
        r#"data: {"message":{"id":"msg_2"}}"#,
        "event: content_block_start",
        r#"data: {"index":0,"content_block":{"type":"tool_use","id":"toolu_1","name":"bash","input":{}}}"#,
        "event: content_block_delta",
        r#"data: {"index":0,"delta":{"type":"input_json_delta","partial_json":"{\"cmd\":"}}"#,
        "event: content_block_delta",
        r#"data: {"index":0,"delta":{"type":"input_json_delta","partial_json":"\"ls\"}"}}"#,
        "event: content_block_stop",
        r#"data: {"index":0}"#,
        "event: message_delta",
        r#"data: {"delta":{"stop_reason":"tool_use"}}"#,
        "event: message_stop",
        r#"data: {}"#,
    ];
    let events = anthropic_events(&lines, 4096);
    assert!(matches!(
        events[1],
        StreamEvent::ToolcallStart {
            content_index: 0,
            ..
        }
    ));
    assert_eq!(toolcall_deltas(&events), vec!["{\"cmd\":", "\"ls\"}"]);
    let end = events
        .iter()
        .find(|e| matches!(e, StreamEvent::ToolcallEnd { .. }))
        .unwrap();
    match end {
        StreamEvent::ToolcallEnd { tool_call, .. } => {
            assert_eq!(tool_call.id, "toolu_1");
            assert_eq!(tool_call.name, "bash");
            assert_eq!(tool_call.arguments, json(r#"{"cmd":"ls"}"#));
        }
        _ => unreachable!(),
    }
    assert!(matches!(
        events.last().unwrap(),
        StreamEvent::Done {
            reason: StopReason::ToolUse,
            ..
        }
    ));
}

#[test]
fn sse_thinking_stream() {
    let lines = [
        "event: message_start",
        r#"data: {"message":{"id":"msg_3"}}"#,
        "event: content_block_start",
        r#"data: {"index":0,"content_block":{"type":"thinking","thinking":""}}"#,
        "event: content_block_delta",
        r#"data: {"index":0,"delta":{"type":"thinking_delta","thinking":"Let me"}}"#,
        "event: content_block_delta",
        r#"data: {"index":0,"delta":{"type":"thinking_delta","thinking":" think"}}"#,
        "event: content_block_stop",
        r#"data: {"index":0}"#,
        "event: content_block_start",
        r#"data: {"index":1,"content_block":{"type":"text","text":""}}"#,
        "event: content_block_delta",
        r#"data: {"index":1,"delta":{"type":"text_delta","text":"Answer"}}"#,
        "event: content_block_stop",
        r#"data: {"index":1}"#,
        "event: message_delta",
        r#"data: {"delta":{"stop_reason":"end_turn"}}"#,
        "event: message_stop",
        r#"data: {}"#,
    ];
    let events = anthropic_events(&lines, 4096);
    assert!(matches!(events[1], StreamEvent::ThinkingStart { .. }));
    assert_eq!(thinking_deltas(&events), vec!["Let me", " think"]);
    assert!(
        events
            .iter()
            .any(|e| matches!(e, StreamEvent::ThinkingEnd { .. }))
    );
    assert!(
        events
            .iter()
            .any(|e| matches!(e, StreamEvent::TextStart { .. }))
    );
    assert!(matches!(
        events.last().unwrap(),
        StreamEvent::Done {
            reason: StopReason::Stop,
            ..
        }
    ));
}

#[test]
fn sse_cache_usage() {
    let lines = [
        "event: message_start",
        r#"data: {"message":{"id":"msg_4","usage":{"input_tokens":100,"cache_read_input_tokens":40,"cache_creation_input_tokens":10}}}"#,
        "event: content_block_start",
        r#"data: {"index":0,"content_block":{"type":"text","text":""}}"#,
        "event: content_block_delta",
        r#"data: {"index":0,"delta":{"type":"text_delta","text":"hi"}}"#,
        "event: content_block_stop",
        r#"data: {"index":0}"#,
        "event: message_delta",
        r#"data: {"delta":{"stop_reason":"end_turn"},"usage":{"output_tokens":5}}"#,
        "event: message_stop",
        r#"data: {}"#,
    ];
    let events = anthropic_events(&lines, 4096);
    match events.last().unwrap() {
        StreamEvent::Done { message, .. } => {
            assert_eq!(message.usage.input, 100);
            assert_eq!(message.usage.cache_read, 40);
            assert_eq!(message.usage.cache_write, 10);
            assert_eq!(message.usage.output, 5);
            assert_eq!(message.usage.total_tokens, 155);
        }
        other => panic!("expected Done, got {other:?}"),
    }
}

#[test]
fn sse_error_scrubs_partial_tool() {
    let lines = [
        "event: message_start",
        r#"data: {"message":{"id":"msg_5"}}"#,
        "event: content_block_start",
        r#"data: {"index":0,"content_block":{"type":"tool_use","id":"toolu_1","name":"bash","input":{}}}"#,
        "event: content_block_delta",
        r#"data: {"index":0,"delta":{"type":"input_json_delta","partial_json":"{\"partial\":"}}"#,
        "event: error",
        r#"data: {"error":{"type":"overloaded_error","message":"overloaded"}}"#,
    ];
    let events = anthropic_events(&lines, 4096);
    let err = events
        .iter()
        .find(|e| matches!(e, StreamEvent::Error { .. }))
        .expect("error event");
    match err {
        StreamEvent::Error { error, .. } => {
            // partial JSON should have been scrubbed
            let tc = match &error.content[0] {
                AssistantContent::ToolCall(tc) => tc,
                other => panic!("expected ToolCall, got {other:?}"),
            };
            assert_eq!(tc.arguments, json("{}"));
            assert_eq!(error.error_message.as_deref(), Some("overloaded"));
        }
        _ => unreachable!(),
    }
}

#[test]
fn truncated_stream_is_an_error() {
    let events = anthropic_events(&TEXT_STREAM[..8], 4096);
    match events.last().unwrap() {
        StreamEvent::Error { reason, error } => {
            assert_eq!(*reason, StopReason::Error);
            assert_eq!(error.error_message.as_deref(), Some("Stream ended unexpectedly"));
            assert_eq!(error.text(), "Hello world");
        }
        other => panic!("expected Error, got {other:?}"),
    }
}

#[test]
fn error_data_without_message_is_quoted() {
    assert_eq!(sse_error_message("oops"), "SSE error: oops");
    assert_eq!(sse_error_message("{}"), "SSE error: {}");
}

#[test]
fn signatures_are_collected() {
    let lines = [
        "event: content_block_start",
        r#"data: {"index":4,"content_block":{"type":"thinking","thinking":""}}"#,
        "event: content_block_delta",
        r#"data: {"index":4,"delta":{"type":"signature_delta","signature":"ab"}}"#,
        "event: content_block_delta",
        r#"data: {"index":4,"delta":{"type":"signature_delta","signature":"cd"}}"#,
        "event: message_stop",
        r#"data: {}"#,
    ];
    match anthropic_events(&lines, 4096).last().unwrap() {
        StreamEvent::Done { message, .. } => match &message.content[0] {
            AssistantContent::Thinking(t) => {
                assert_eq!(t.thinking_signature.as_deref(), Some("abcd"));
            }
            other => panic!("expected Thinking, got {other:?}"),
        },
        other => panic!("expected Done, got {other:?}"),
    }
}

#[test]
fn strip_partial_tool_state_resets() {
    let mut output = AssistantMessage::empty(ANTHROPIC, "anthropic", "sonnet");
    output.content.push(AssistantContent::ToolCall(ToolCall {
        id: "tc_complete".into(),
        name: "done".into(),
        arguments: json(r#"{"ok": true}"#),
    }));
    output.content.push(AssistantContent::ToolCall(ToolCall {
        id: "tc_in_flight".into(),
        name: "in_flight".into(),
        arguments: json("{}"),
    }));
    let block_index_map: Vec<(u64, usize)> = vec![(0, 0), (1, 1)];
    let mut accum: HashMap<u64, String> = HashMap::new();
    accum.insert(1, "{\"partial\": \"val".to_string());
    strip_partial_tool_state(&mut output, &mut accum, &block_index_map);
    assert!(accum.is_empty());
    assert_eq!(
        output.content[0],
        AssistantContent::ToolCall(ToolCall {
            id: "tc_complete".into(),
            name: "done".into(),
            arguments: json(r#"{"ok": true}"#)
        })
    );
    assert_eq!(
        output.content[1],
        AssistantContent::ToolCall(ToolCall {
            id: "tc_in_flight".into(),
            name: "in_flight".into(),
            arguments: json("{}")
        })
    );
}

#[test]
fn map_stop_reason_exhaustive() {
    assert_eq!(map_stop_reason("end_turn"), StopReason::Stop);
    assert_eq!(map_stop_reason("pause_turn"), StopReason::Stop);
    assert_eq!(map_stop_reason("stop_sequence"), StopReason::Stop);
    assert_eq!(map_stop_reason("max_tokens"), StopReason::Length);
    assert_eq!(map_stop_reason("tool_use"), StopReason::ToolUse);
    assert_eq!(map_stop_reason("unknown"), StopReason::Error);
    assert_eq!(map_stop_reason(""), StopReason::Error);
}

#[test]
fn anthropic_http_status_mapping() {
    assert!(matches!(
        map_http_status(401, "".into(), None, "a"),
        Error::Auth(_)
    ));
    assert!(matches!(
        map_http_status(429, "".into(), Some(7), "a"),
        Error::RateLimited {
            retry_after: Some(7),
            ..
        }
    ));
    assert!(matches!(
        map_http_status(408, "".into(), None, "a"),
        Error::Timeout(_)
    ));
    assert!(matches!(
        map_http_status(413, "".into(), None, "a"),
        Error::ContextOverflow
    ));
    assert!(matches!(
        map_http_status(500, "oops".into(), None, "a"),
        Error::Http { status: 500, .. }
    ));
}

// -- Anthropic: requests --

fn simple_context(system: Option<&str>, user_text: &str) -> Context {
    Context {
        system_prompt: system.map(String::from),
        messages: vec![Message::User(UserMessage::text(user_text))],
        tools: Vec::new(),
    }
}

fn build_for_anthropic(context: &Context, options: &StreamOptions) -> Value {
    let model = models("line", "Line").into_iter().next().unwrap();
    build_anthropic_body(&model, context, options).unwrap().to_value()
}

#[test]
fn system_prompt_has_cache_control() {
    let body = build_for_anthropic(
        &simple_context(Some("Be helpful."), "hi"),
        &StreamOptions::default(),
    );
    let blocks = body["system"].as_array().unwrap();
    assert_eq!(blocks.len(), 1);
    assert_eq!(blocks[0]["text"], "Be helpful.");
    assert_eq!(blocks[0]["cache_control"]["type"], "ephemeral");
}

#[test]
fn last_user_message_gets_cache_breakpoint() {
    let body = build_for_anthropic(
        &simple_context(None, "hello world"),
        &StreamOptions::default(),
    );
    let messages = body["messages"].as_array().unwrap();
    let last = messages.last().unwrap();
    let content = last["content"].as_array().unwrap();
    assert_eq!(content[0]["cache_control"]["type"], "ephemeral");
}

#[test]
fn last_tool_has_cache_control_only() {
    let ctx = Context {
        system_prompt: None,
        messages: vec![Message::User(UserMessage::text("hi"))],
        tools: vec![
            Tool {
                name: "first".into(),
                description: "first".into(),
                parameters: json(r#"{"type":"object"}"#),
            },
            Tool {
                name: "second".into(),
                description: "second".into(),
                parameters: json(r#"{"type":"object"}"#),
            },
        ],
    };
    let body = build_for_anthropic(&ctx, &StreamOptions::default());
    let tools = body["tools"].as_array().unwrap();
    assert!(tools[0].get("cache_control").is_none());
    assert_eq!(tools[1]["cache_control"]["type"], "ephemeral");
}

#[test]
fn request_body_is_complete() {
    let mut options = StreamOptions::default();
    options.thinking_enabled = Some(true);
    options.max_tokens = Some(1_000);
    let body = build_for_anthropic(&simple_context(Some("Be helpful."), "hi"), &options);
    assert_eq!(body["model"], "line-opus-4-7");
    assert_eq!(body["max_tokens"], 1_000);
    assert_eq!(body["stream"], true);
    assert_eq!(body["thinking"]["type"], "adaptive");
}

#[test]
fn model_table() {
    let all = models("line", "Line");
    assert_eq!(all.len(), 7);
    let sonnet = all.iter().find(|m| m.id == "line-sonnet-4-6").unwrap();
    assert_eq!(sonnet.name, "Line Sonnet 4.6");
    assert_eq!(sonnet.context_window, 1_000_000);
    assert_eq!(sonnet.max_tokens, 64_000);
    assert_eq!(sonnet.api, ANTHROPIC);
}

#[test]
fn effort_depends_on_the_model() {
    assert!(supports_adaptive_thinking("x-opus-4.7"));
    assert!(!supports_adaptive_thinking("x-haiku-4-5"));
    assert_eq!(map_effort(ThinkingEffort::XHigh, "x-opus-4-6"), "max");
    assert_eq!(map_effort(ThinkingEffort::XHigh, "x-opus-4-7"), "xhigh");
    assert_eq!(map_effort(ThinkingEffort::XHigh, "x-sonnet-4-6"), "high");
    assert_eq!(map_effort(ThinkingEffort::Low, "anything"), "low");
}

// -- OpenAI: chunks --

const OPENAI: &str = "openai-completions";

fn chunk_of(data: &str) -> ChatCompletionChunk {
    let v = json(data);
    ChatCompletionChunk {
        id: text_of(&v, "id"),
        usage: v.get("usage").map(|u| ChatUsage {
            prompt_tokens: number_of(u, "prompt_tokens").unwrap_or(0),
            completion_tokens: number_of(u, "completion_tokens").unwrap_or(0),
            cached_tokens: number_of(&u["prompt_tokens_details"], "cached_tokens").unwrap_or(0),
            reasoning_tokens: number_of(&u["completion_tokens_details"], "reasoning_tokens")
                .unwrap_or(0),
        }),
        choices: v["choices"]
            .as_array()
            .unwrap()
            .iter()
            .map(|c| ChatChoice {
                finish_reason: text_of(c, "finish_reason"),
                delta: ChatDelta {
                    reasoning_content: text_of(&c["delta"], "reasoning_content"),
                    content: text_of(&c["delta"], "content"),
                    tool_calls: c["delta"].get("tool_calls").and_then(Value::as_array).map(|calls| {
                        calls
                            .iter()
                            .map(|t| ToolCallDelta {
                                index: number_of(t, "index").unwrap() as usize,
                                id: text_of(t, "id"),
                                function: t.get("function").map(|f| FunctionDelta {
                                    name: text_of(f, "name"),
                                    arguments: text_of(f, "arguments"),
                                }),
                            })
                            .collect()
                    }),
                },
            })
            .collect(),
    }
}

fn openai_events(lines: &[&str]) -> Vec<StreamEvent> {
    let (mut stream, start) = OpenAiStream::start(OPENAI, "openai", "gpt-test");
    let mut events = vec![start];
    let mut reader = ChunkReader::new();
    for line in lines {
        reader.push_bytes(line.as_bytes());
        reader.push_bytes(b"\r\n");
        while let Some(data) = reader.next_data() {
            events.extend(stream.apply(chunk_of(&data)));
        }
    }
    events.extend(stream.finish());
    events
}

#[test]
fn openai_sse_text_stream() {
    let lines = [
        r#"data: {"id":"chatcmpl-1","choices":[{"index":0,"delta":{"role":"assistant"},"finish_reason":null}]}"#,
        r#"data: {"choices":[{"index":0,"delta":{"content":"Hello"},"finish_reason":null}]}"#,
        r#"data: {"choices":[{"index":0,"delta":{"content":" world"},"finish_reason":null}]}"#,
        r#"data: {"choices":[{"index":0,"delta":{},"finish_reason":"stop"}],"usage":{"prompt_tokens":10,"completion_tokens":5}}"#,
        "data: [DONE]",
    ];
    let events = openai_events(&lines);
    // Expect: Start, TextStart, TextDelta*2, TextEnd, Done
    assert!(matches!(events[0], StreamEvent::Start { .. }));
    assert!(matches!(
        events[1],
        StreamEvent::TextStart {
            content_index: 0,
            ..
        }
    ));
    assert_eq!(text_deltas(&events), vec!["Hello", " world"]);
    assert!(
        matches!(events[events.len() - 2], StreamEvent::TextEnd { ref content, .. } if content == "Hello world")
    );
    match &events[events.len() - 1] {
        StreamEvent::Done { reason, message } => {
            assert_eq!(*reason, StopReason::Stop);
            assert_eq!(message.usage.input, 10);
            assert_eq!(message.usage.output, 5);
            assert_eq!(message.text(), "Hello world");
        }
        other => panic!("expected Done, got {other:?}"),
    }
}

#[test]
fn sse_tool_call_accumulation() {
    let lines = [
        r#"data: {"choices":[{"index":0,"delta":{"tool_calls":[{"index":0,"id":"call_1","function":{"name":"bash","arguments":""}}]},"finish_reason":null}]}"#,
        r#"data: {"choices":[{"index":0,"delta":{"tool_calls":[{"index":0,"function":{"arguments":"{\"cmd\":"}}]},"finish_reason":null}]}"#,
        r#"data: {"choices":[{"index":0,"delta":{"tool_calls":[{"index":0,"function":{"arguments":"\"ls\"}"}}]},"finish_reason":null}]}"#,
        r#"data: {"choices":[{"index":0,"delta":{},"finish_reason":"tool_calls"}]}"#,
        "data: [DONE]",
    ];
    let events = openai_events(&lines);

    assert!(matches!(events[0], StreamEvent::Start { .. }));
    assert!(matches!(
        events[1],
        StreamEvent::ToolcallStart {
            content_index: 0,
            ..
        }
    ));
    assert_eq!(toolcall_deltas(&events), vec!["{\"cmd\":", "\"ls\"}"]);

    match events
        .iter()
        .find(|e| matches!(e, StreamEvent::ToolcallEnd { .. }))
        .unwrap()
    {
        StreamEvent::ToolcallEnd { tool_call, .. } => {
            assert_eq!(tool_call.id, "call_1");
            assert_eq!(tool_call.name, "bash");
            assert_eq!(tool_call.arguments, json(r#"{"cmd":"ls"}"#));
        }
        _ => unreachable!(),
    }
    assert!(matches!(
        events.last().unwrap(),
        StreamEvent::Done {
            reason: StopReason::ToolUse,
            ..
        }
    ));
}

#[test]
fn broken_arguments_become_an_empty_object() {
    let lines = [
        r#"data: {"choices":[{"index":0,"delta":{"tool_calls":[{"index":1,"id":"c","function":{"name":"bash","arguments":"{oops"}}]},"finish_reason":null}]}"#,
        "data: [DONE]",
    ];
    let events = openai_events(&lines);
    let calls: Vec<&ToolCall> = events
        .iter()
        .filter_map(|e| match e {
            StreamEvent::ToolcallEnd { tool_call, .. } => Some(tool_call),
            _ => None,
        })
        .collect();
    // A gap in the numbering is filled with an empty call.
    assert_eq!(calls.len(), 2);
    assert_eq!(calls[0].id, "");
    assert_eq!(calls[1].id, "c");
    assert_eq!(calls[1].arguments, json("{}"));
}

#[test]
fn sse_reasoning_content_as_thinking() {
    let lines = [
        r#"data: {"choices":[{"index":0,"delta":{"reasoning_content":"Let me think"},"finish_reason":null}]}"#,
        r#"data: {"choices":[{"index":0,"delta":{"reasoning_content":" more"},"finish_reason":null}]}"#,
        r#"data: {"choices":[{"index":0,"delta":{"content":"Answer"},"finish_reason":null}]}"#,
        r#"data: {"choices":[{"index":0,"delta":{},"finish_reason":"stop"}]}"#,
        "data: [DONE]",
    ];
    let events = openai_events(&lines);

    assert!(matches!(events[1], StreamEvent::ThinkingStart { .. }));
    assert_eq!(thinking_deltas(&events), vec!["Let me think", " more"]);
    assert!(
        events
            .iter()
            .any(|e| matches!(e, StreamEvent::ThinkingEnd { .. }))
    );
    assert!(
        events
            .iter()
            .any(|e| matches!(e, StreamEvent::TextStart { .. }))
    );
    assert!(matches!(
        events.last().unwrap(),
        StreamEvent::Done {
            reason: StopReason::Stop,
            ..
        }
    ));
}

#[test]
fn sse_usage_with_cache_and_reasoning() {
    let lines = [
        r#"data: {"choices":[{"index":0,"delta":{"content":"hi"},"finish_reason":null}]}"#,
        r#"data: {"choices":[{"index":0,"delta":{},"finish_reason":"stop"}],"usage":{"prompt_tokens":100,"completion_tokens":10,"prompt_tokens_details":{"cached_tokens":40},"completion_tokens_details":{"reasoning_tokens":5}}}"#,
        "data: [DONE]",
    ];
    let events = openai_events(&lines);
    match events.last().unwrap() {
        StreamEvent::Done { message, .. } => {
            assert_eq!(message.usage.input, 60);
            assert_eq!(message.usage.output, 15);
            assert_eq!(message.usage.cache_read, 40);
        }
        other => panic!("expected Done, got {other:?}"),
    }
}

#[test]
fn map_finish_reason_exhaustive() {
    assert_eq!(map_finish_reason("stop"), StopReason::Stop);
    assert_eq!(map_finish_reason("length"), StopReason::Length);
    assert_eq!(map_finish_reason("tool_calls"), StopReason::ToolUse);
    assert_eq!(map_finish_reason("content_filter"), StopReason::Error);
    assert_eq!(map_finish_reason("unknown"), StopReason::Stop);
    assert_eq!(map_finish_reason(""), StopReason::Stop);
}

#[test]
fn openai_http_status_mapping() {
    assert!(matches!(
        map_http_status(401, "unauthorized".into(), None, "openai"),
        Error::Auth(_)
    ));
    assert!(matches!(
        map_http_status(429, "slow".into(), Some(7), "openai"),
        Error::RateLimited {
            retry_after: Some(7),
            ..
        }
    ));
    assert!(matches!(
        map_http_status(408, "".into(), None, "openai"),
        Error::Timeout(_)
    ));
    assert!(matches!(
        map_http_status(413, "".into(), None, "openai"),
        Error::ContextOverflow
    ));
    assert!(matches!(
        map_http_status(500, "oops".into(), None, "openai"),
        Error::Http { status: 500, .. }
    ));
}

// -- OpenAI: requests --

fn openai_model(base_url: &str) -> Model {
    Model {
        id: "gpt-test".into(),
        name: "GPT Test".into(),
        api: OPENAI.into(),
        provider: "openai".into(),
        base_url: base_url.into(),
        thinking: ThinkingStyle::Off,
        cost: ModelCost::default(),
        context_window: 128_000,
        max_tokens: 16_000,
        headers: Vec::new(),
    }
}

fn build_for_openai(base_url: &str, options: &StreamOptions) -> Value {
    let model = openai_model(base_url);
    build_openai_body(&model, &simple_context(None, "hi"), options)
        .expect("build_request_body")
        .to_value()
}

#[test]
fn prompt_cache_key_set_for_openai_with_session_id() {
    let opts = StreamOptions {
        session_id: Some("sess-abc".into()),
        ..Default::default()
    };
    let body = build_for_openai("https://api.openai.com/v1", &opts);
    assert_eq!(body["prompt_cache_key"], "sess-abc");
}

#[test]
fn prompt_cache_key_omitted_for_compatible_backend() {
    let opts = StreamOptions {
        session_id: Some("sess-abc".into()),
        cache_retention: Some(CacheRetention::Long),
        ..Default::default()
    };
    let body = build_for_openai("https://api.litellm.example/v1", &opts);
    assert!(
        body.get("prompt_cache_key").is_none(),
        "non-OpenAI backends must not receive prompt_cache_key, got {body}"
    );
    assert!(
        body.get("prompt_cache_retention").is_none(),
        "non-OpenAI backends must not receive prompt_cache_retention, got {body}"
    );
}

#[test]
fn prompt_cache_retention_long_emits_24h() {
    let opts = StreamOptions {
        session_id: Some("sess-abc".into()),
        cache_retention: Some(CacheRetention::Long),
        ..Default::default()
    };
    let body = build_for_openai("https://api.openai.com/v1", &opts);
    assert_eq!(body["prompt_cache_retention"], "24h");
    assert_eq!(body["prompt_cache_key"], "sess-abc");
}

#[test]
fn prompt_cache_retention_short_omits_field() {
    let opts = StreamOptions {
        session_id: Some("sess-abc".into()),
        cache_retention: Some(CacheRetention::Short),
        ..Default::default()
    };
    let body = build_for_openai("https://api.openai.com/v1", &opts);
    assert!(
        body.get("prompt_cache_retention").is_none(),
        "Short retention should omit prompt_cache_retention, got {body}"
    );
    assert_eq!(body["prompt_cache_key"], "sess-abc");
}

#[test]
fn cache_retention_none_disables_key() {
    let opts = StreamOptions {
        session_id: Some("sess-abc".into()),
        cache_retention: Some(CacheRetention::Off),
        ..Default::default()
    };
    let body = build_for_openai("https://api.openai.com/v1", &opts);
    assert!(
        body.get("prompt_cache_key").is_none(),
        "CacheRetention::Off must suppress prompt_cache_key, got {body}"
    );
    assert!(
        body.get("prompt_cache_retention").is_none(),
        "CacheRetention::Off must suppress prompt_cache_retention, got {body}"
    );
}

#[test]
fn prompt_cache_key_omitted_without_session_id() {
    let body = build_for_openai("https://api.openai.com/v1", &StreamOptions::default());
    assert!(
        body.get("prompt_cache_key").is_none(),
        "no session_id means no prompt_cache_key, got {body}"
    );
    assert!(
        body.get("prompt_cache_retention").is_none(),
        "default retention is Short -> no prompt_cache_retention, got {body}"
    );
}

// -- transport --

#[test]
fn provider_requests() {
    let model = vec![Header { name: "x-model".into(), value: "1".into() }];
    let options = vec![Header { name: "x-option".into(), value: "2".into() }];
    let a = anthropic_request("https://api.anthropic.com//", "key", &model, &options);
    assert_eq!(a.url, "https://api.anthropic.com/v1/messages");
    let names: Vec<&str> = a.headers.iter().map(|h| h.name.as_str()).collect();
    assert_eq!(
        names,
        ["content-type", "anthropic-version", "accept", "x-api-key", "x-model", "x-option"]
    );
    assert_eq!(a.headers[3].value, "key");
    assert_eq!(a.timeout_secs, 600);

    let o = openai_request("http://localhost/v1", "", &Vec::new(), &options);
    assert_eq!(o.url, "http://localhost/v1/chat/completions");
    assert!(o.headers.iter().all(|h| h.name != "authorization"));
    let o = openai_request("http://localhost/v1", "k", &Vec::new(), &options);
    assert!(o.headers.iter().any(|h| h.name == "authorization" && h.value == "Bearer k"));
    assert_eq!(o.timeout_secs, 180);
}

#[test]
fn provider_keys() {
    assert_eq!(anthropic_key(Some("a".into()), Some("b".into())).unwrap(), "a");
    assert_eq!(anthropic_key(None, Some("b".into())).unwrap(), "b");
    assert!(matches!(anthropic_key(None, None), Err(Error::NoApiKey(p)) if p == "anthropic"));
    assert_eq!(openai_key(None, None), "");
    assert_eq!(retry_after(Some("7")), Some(7));
    assert_eq!(retry_after(Some("soon")), None);
    assert_eq!(retry_after(None), None);
}

#[test]
fn failures_are_reported_as_events() {
    match failure_event("a", "p", "m", &Error::Timeout("p".into())) {
        StreamEvent::Error { reason, error } => {
            assert_eq!(reason, StopReason::Error);
            assert_eq!(error.error_message.as_deref(), Some("request to 'p' timed out"));
            assert_eq!(error.model, "m");
        }
        other => panic!("expected Error, got {other:?}"),
    }
}

// -- mock and log providers --

/// The events of a response; a wait is skipped, and a response that never ends is cut off.
fn deliver(response: MockResponse, parked: &mut bool) -> Vec<StreamEvent> {
    let mut out = Vec::new();
    for step in mock_script(response) {
        match step {
            MockStep::Send(e) => out.push(e),
            MockStep::Sleep(_) => {}
            MockStep::Deliver(inner) => out.extend(deliver(*inner, parked)),
            MockStep::Park => *parked = true,
        }
    }
    out
}

fn mock_events(responses: Vec<MockResponse>) -> (Vec<StreamEvent>, bool) {
    let mut provider = MockProvider::new(responses);
    let mut parked = false;
    let response = provider.next_response(&Context::default(), 0);
    let events = deliver(response, &mut parked);
    (events, parked)
}

#[test]
fn text_response_stream_events() {
    let (events, _) = mock_events(vec![MockResponse::Text("hello".into())]);
    // Expect: Start, TextStart, TextDelta, TextEnd, Done
    assert_eq!(events.len(), 5);
    assert!(matches!(events[0], StreamEvent::Start { .. }));
    assert!(matches!(
        events[1],
        StreamEvent::TextStart {
            content_index: 0,
            ..
        }
    ));
    assert!(matches!(events[2], StreamEvent::TextDelta { delta: ref d, .. } if d == "hello"));
    assert!(matches!(events[3], StreamEvent::TextEnd { content: ref c, .. } if c == "hello"));
    assert!(matches!(
        events[4],
        StreamEvent::Done {
            reason: StopReason::Stop,
            ..
        }
    ));
}

#[test]
fn tool_calls_stream_events() {
    let tc = ToolCall {
        id: "tc_1".into(),
        name: "read".into(),
        arguments: json(r#"{"path": "Cargo.toml"}"#),
    };
    let (events, _) = mock_events(vec![MockResponse::ToolCalls(vec![tc.clone()])]);
    assert_eq!(events.len(), 4);
    assert!(matches!(events[0], StreamEvent::Start { .. }));
    assert!(matches!(
        events[1],
        StreamEvent::ToolcallStart {
            content_index: 0,
            ..
        }
    ));
    assert!(
        matches!(events[2], StreamEvent::ToolcallEnd { content_index: 0, tool_call: ref t, .. } if *t == tc)
    );
    assert!(matches!(
        events[3],
        StreamEvent::Done {
            reason: StopReason::ToolUse,
            ..
        }
    ));
}

#[test]
fn error_response() {
    let (events, _) = mock_events(vec![MockResponse::Error("boom".into())]);
    assert_eq!(events.len(), 2);
    assert!(matches!(events[0], StreamEvent::Start { .. }));
    assert!(
        matches!(events[1], StreamEvent::Error { reason: StopReason::Error, error: ref e } if e.error_message.as_deref() == Some("boom"))
    );
}

#[test]
fn partial_text_then_error() {
    let (events, _) = mock_events(vec![MockResponse::PartialText {
        text: "partial".into(),
        error: "connection dropped".into(),
    }]);
    assert_eq!(events.len(), 4);
    assert!(matches!(events[0], StreamEvent::Start { .. }));
    assert!(matches!(events[1], StreamEvent::TextStart { .. }));
    assert!(matches!(events[2], StreamEvent::TextDelta { delta: ref d, .. } if d == "partial"));
    // Then an Error (no TextEnd)
    assert!(
        matches!(events[3], StreamEvent::Error { error: ref e, .. } if e.error_message.as_deref() == Some("connection dropped"))
    );
}

#[test]
fn delayed_response() {
    let (events, _) = mock_events(vec![MockResponse::Delayed {
        delay_ms: 50,
        response: Box::new(MockResponse::Text("late".into())),
    }]);
    assert!(matches!(events[0], StreamEvent::Start { .. }));
    // Inner response sends its own Start after the delay.
    assert!(matches!(events[1], StreamEvent::Start { .. }));
    assert!(matches!(events[2], StreamEvent::TextStart { .. }));
    assert!(matches!(events[3], StreamEvent::TextDelta { delta: ref d, .. } if d == "late"));
    assert!(matches!(events.last(), Some(StreamEvent::Done { .. })));
    let steps = mock_script(MockResponse::Delayed {
        delay_ms: 50,
        response: Box::new(MockResponse::Hang),
    });
    assert!(steps.iter().any(|s| matches!(s, MockStep::Sleep(50))));
}

#[test]
fn hang_never_finishes() {
    let (events, parked) = mock_events(vec![MockResponse::Hang]);
    // Receives Start and a TextStart, then the mock parks forever.
    assert_eq!(events.len(), 2);
    assert!(matches!(events[0], StreamEvent::Start { .. }));
    assert!(matches!(events[1], StreamEvent::TextStart { .. }));
    assert!(parked);
}

#[test]
fn captures_recorded() {
    let mut provider = MockProvider::new(vec![
        MockResponse::Text("a".into()),
        MockResponse::Text("b".into()),
    ]);
    let ctx1 = Context {
        system_prompt: Some("first".into()),
        ..Context::default()
    };
    let ctx2 = Context {
        system_prompt: Some("second".into()),
        ..Context::default()
    };
    provider.next_response(&ctx1, 10);
    provider.next_response(&ctx2, 25);
    let caps = &provider.captures;
    assert_eq!(caps.len(), 2);
    assert_eq!(caps[0].context.system_prompt.as_deref(), Some("first"));
    assert_eq!(caps[1].context.system_prompt.as_deref(), Some("second"));
    assert_eq!(provider.turn_durations(), vec![15]);
}

#[test]
fn exhausted_queue_emits_error() {
    let (events, _) = mock_events(vec![]);
    assert_eq!(events.len(), 2);
    assert!(matches!(events[0], StreamEvent::Start { .. }));
    assert!(
        matches!(events[1], StreamEvent::Error { ref error, .. } if error.error_message.as_deref() == Some("no more mock responses"))
    );
}

#[test]
fn log_provider_needs_no_api_key() {
    assert!(!LogProvider.needs_api_key());
    assert_eq!(LogProvider.api_id(), "log");
}

#[test]
fn log_provider_streams_start_then_done() {
    assert_eq!(log_model().api, "log");
    let events = LogProvider.events();
    assert_eq!(events.len(), 2);
    assert!(matches!(events[0], StreamEvent::Start { .. }));
    assert!(matches!(
        events[1],
        StreamEvent::Done {
            reason: StopReason::Stop,
            ..
        }
    ));
}

#[test]
fn mock_model_and_tool_helpers() {
    let m = mock_model();
    assert_eq!(m.api, "mock");
    assert_eq!(m.context_window, 100_000);

    let t = mock_tool("bash", "run a command");
    assert_eq!(t.name, "bash");
    assert_eq!(t.description, "run a command");
    assert_eq!(
        t.parameters,
        json(r#"{"type":"object","properties":{},"required":[]}"#)
    );
}

// -- registry --

type TestProvider = HostedProvider<u8>;

fn test_provider(api_id: &str, needs_api_key: bool) -> TestProvider {
    HostedProvider {
        api_id: api_id.into(),
        needs_api_key,
        handle: 7,
    }
}

fn sample_model(api: &str) -> Model {
    let mut m = openai_model("http://localhost");
    m.id = "test-model".into();
    m.api = api.into();
    m
}

#[test]
fn registry_dispatches_by_api_id() {
    let mut reg = ProviderRegistry::new();
    reg.register(test_provider("mock", false));
    reg.register(test_provider("other", true));
    let p = reg.provider_for(&sample_model("mock")).unwrap();
    assert_eq!(p.api_id(), "mock");
    assert_eq!(p.handle, 7);
    assert_eq!(reg.get("other").map(|p| p.needs_api_key), Some(true));
    assert!(reg.get("third").is_none());
}

#[test]
fn registry_unknown_api_returns_no_provider() {
    let reg: ProviderRegistry<TestProvider> = ProviderRegistry::new();
    let model = sample_model("not-registered");
    match reg.provider_for(&model) {
        Ok(_) => panic!("no provider is registered"),
        Err(err) => assert!(matches!(err, Error::NoProvider(a) if a == "not-registered")),
    }
}

#[test]
fn needs_api_key_defaults_true_for_unknown_api() {
    let reg: ProviderRegistry<TestProvider> = ProviderRegistry::new();
    assert!(reg.needs_api_key("definitely-not-registered"));
}

#[test]
fn needs_api_key_reports_registered_value() {
    let mut reg = ProviderRegistry::new();
    reg.register(test_provider("log", false));
    reg.register(test_provider("real", true));
    assert!(!reg.needs_api_key("log"));
    assert!(reg.needs_api_key("real"));
}

#[test]
fn register_replaces_same_api_id() {
    let mut reg = ProviderRegistry::new();
    reg.register(test_provider("mock", false));
    reg.register(test_provider("mock", true));
    // the second registration replaces the first
    assert!(reg.needs_api_key("mock"));
}

#[test]
fn registry_routes_mock_through_stream_and_captures_context() {
    let mut registry = ProviderRegistry::new();
    registry.register(MockProvider::new(vec![MockResponse::Text("via registry".into())]));
    assert!(registry.needs_api_key("mock"));
    assert_eq!(registry.provider_for(&mock_model()).unwrap().responses.len(), 1);
}

#[test]
fn registry_routes_log_provider() {
    let mut registry = ProviderRegistry::new();
    registry.register(LogProvider);
    assert!(!registry.needs_api_key("log"));
    let events = registry.provider_for(&log_model()).unwrap().events();
    assert!(matches!(events[0], StreamEvent::Start { .. }));
    assert!(matches!(
        events[1],
        StreamEvent::Done {
            reason: StopReason::Stop,
            ..
        }
    ));
}

#[test]
fn provider_ids() {
    assert_eq!(Anthropic.api_id(), "anthropic-messages");
    assert_eq!(OpenAi.api_id(), "openai-completions");
    assert!(Anthropic.needs_api_key() && OpenAi.needs_api_key());
}
