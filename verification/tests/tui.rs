use tars::protocol::{Response, SessionInfo, SessionStats, TokenStats};
use tars::tui::app::{
    build_transcript, new_session_info, App, ChatAction, ChatState, KeyCode, KeyEvent, LoopAction,
    PickerAction, PickerState, Screen, StreamOutcome, TranscriptLine, CONTROL, SHIFT,
};
use tars::tui::markdown::{styled_line, to_lines, Color, Line, Style};
use tars::tui::ui::{
    chat_lines, chat_title, input_title, picker_footer, picker_rows, scroll_offset, status_line,
    total_lines_overflow,
};
use tars::types::{
    AgentPhase, AssistantContent, AssistantMessage, CompactionSummaryMessage, InfoMessage, Message,
    StopReason, StreamEvent, TextContent, ThinkingContent, ToolCall, ToolResultMessage, UserMessage,
};

fn json(text: &str) -> serde_json::Value {
    serde_json::from_str(text).unwrap()
}

fn key(code: KeyCode) -> KeyEvent {
    KeyEvent::new(code, 0)
}

fn ctrl_c() -> KeyEvent {
    KeyEvent::new(KeyCode::Char('c'), CONTROL)
}

fn user_msg(text: &str) -> Message {
    Message::User(UserMessage::text(text))
}

fn text_block(text: &str) -> AssistantContent {
    AssistantContent::Text(TextContent {
        text: text.into(),
        text_signature: None,
    })
}

fn saying(text: &str) -> AssistantMessage {
    let mut a = AssistantMessage::empty("t", "t", "t");
    a.content.push(text_block(text));
    a
}

// -- transcript building --

#[test]
fn transcript_user_and_assistant() {
    let lines = build_transcript(&[user_msg("hi"), Message::Assistant(saying("hello"))]);
    assert_eq!(lines[0], TranscriptLine::User("hi".into()));
    assert_eq!(lines[1], TranscriptLine::Assistant("hello".into()));
}

#[test]
fn transcript_tool_result_carries_name_and_error() {
    let tr = ToolResultMessage::success("tc1", "bash", "ok");
    let lines = build_transcript(&[Message::ToolResult(tr)]);
    match &lines[0] {
        TranscriptLine::Tool { name, is_error } => {
            assert_eq!(name, "bash");
            assert!(!is_error);
        }
        other => panic!("expected Tool, got {other:?}"),
    }
}

#[test]
fn transcript_skips_empty_assistant() {
    let a = AssistantMessage::empty("t", "t", "t");
    let lines = build_transcript(&[Message::Assistant(a)]);
    assert!(lines.is_empty());
}

#[test]
fn transcript_summary_and_info() {
    let msgs = vec![
        Message::CompactionSummary(CompactionSummaryMessage {
            summary: "earlier work".into(),
            tokens_before: 100,
            timestamp: 0,
        }),
        Message::Info(InfoMessage {
            text: "note".into(),
            timestamp: 0,
        }),
    ];
    let lines = build_transcript(&msgs);
    assert_eq!(lines[0], TranscriptLine::Summary("earlier work".into()));
    assert_eq!(lines[1], TranscriptLine::Info("note".into()));
}

#[test]
fn user_message_renders() {
    let u = UserMessage::text("hello world");
    let lines = build_transcript(&[Message::User(u)]);
    assert_eq!(lines, vec![TranscriptLine::User("hello world".into())]);
}

#[test]
fn transcript_of_more_messages_starts_the_same() {
    let first = [user_msg("a"), Message::Assistant(saying("b"))];
    let both = [user_msg("a"), Message::Assistant(saying("b")), user_msg("c")];
    let short = build_transcript(&first);
    let long = build_transcript(&both);
    assert_eq!(long[..short.len()], short[..]);
    assert_eq!(long.last(), Some(&TranscriptLine::User("c".into())));
}

// -- chat state: streaming events --

#[test]
fn text_delta_accumulates_via_snapshot() {
    let mut chat = ChatState::new("s1", "m1");
    let mut partial = saying("hel");
    chat.apply_event(&StreamEvent::Start {
        partial: partial.clone(),
    });
    assert_eq!(chat.streaming.as_deref(), Some("hel"));

    partial.content[0] = text_block("hello");
    chat.apply_event(&StreamEvent::TextDelta {
        content_index: 0,
        delta: "lo".into(),
        partial: partial.clone(),
    });
    assert_eq!(chat.streaming.as_deref(), Some("hello"));
}

#[test]
fn done_flushes_assistant_text() {
    let mut chat = ChatState::new("s1", "m1");
    chat.busy = true;
    chat.apply_event(&StreamEvent::Done {
        reason: StopReason::Stop,
        message: saying("final answer"),
    });
    chat.finish_turn();
    assert!(chat.streaming.is_none());
    assert!(!chat.busy);
    assert_eq!(
        chat.lines.last(),
        Some(&TranscriptLine::Assistant("final answer".into()))
    );
}

#[test]
fn toolcall_end_flushes_streaming_then_tool() {
    let mut chat = ChatState::new("s1", "m1");
    let partial = saying("running tool");
    chat.apply_event(&StreamEvent::TextDelta {
        content_index: 0,
        delta: String::new(),
        partial: partial.clone(),
    });

    chat.apply_event(&StreamEvent::ToolcallEnd {
        content_index: 1,
        tool_call: ToolCall {
            id: "tc1".into(),
            name: "bash".into(),
            arguments: json("{}"),
        },
        partial,
    });

    assert!(chat.streaming.is_none());
    assert_eq!(
        chat.lines[0],
        TranscriptLine::Assistant("running tool".into())
    );
    assert_eq!(
        chat.lines[1],
        TranscriptLine::Tool {
            name: "bash".into(),
            is_error: false
        }
    );
}

#[test]
fn error_event_records_message() {
    let mut chat = ChatState::new("s1", "m1");
    chat.apply_event(&StreamEvent::Error {
        reason: StopReason::Error,
        error: saying("boom"),
    });
    assert_eq!(chat.error.as_deref(), Some("boom"));
}

#[test]
fn thinking_is_shown_dim_while_it_streams() {
    let mut chat = ChatState::new("s1", "m1");
    let mut partial = AssistantMessage::empty("t", "t", "t");
    partial.content.push(AssistantContent::Thinking(ThinkingContent {
        thinking: "let me see".into(),
        thinking_signature: None,
        redacted: false,
    }));
    chat.apply_event(&StreamEvent::ThinkingDelta {
        content_index: 0,
        delta: "see".into(),
        partial,
    });
    assert_eq!(chat.thinking.as_deref(), Some("let me see"));
    let lines = chat_lines(&chat);
    assert!(lines
        .iter()
        .any(|l| l.style.dim && l.spans.iter().any(|s| s.text.contains("let me see"))));
}

// -- picker navigation --

fn session_info(id: &str) -> SessionInfo {
    SessionInfo {
        id: id.into(),
        model: "test-model".into(),
        provider: "mock".into(),
        cwd: Some("/tmp".into()),
        message_count: 3,
        stats: SessionStats {
            user_messages: 1,
            assistant_messages: 1,
            tool_calls: 0,
            tool_results: 0,
            tokens: TokenStats::default(),
            context_window: 100_000,
            context_tokens: None,
        },
        state: AgentPhase::Idle,
        created_at: 0,
        last_activity: 0,
        parent_id: None,
        project_name: Some("tars".into()),
        tagline: Some("working on tests".into()),
        archived: false,
    }
}

#[test]
fn picker_selection_wraps() {
    let mut app = App::new();
    app.picker.sessions = vec![session_info("a"), session_info("b"), session_info("c")];
    app.handle_picker_key(key(KeyCode::Char('j')));
    assert_eq!(app.picker.selected, 1);
    app.handle_picker_key(key(KeyCode::Up));
    assert_eq!(app.picker.selected, 0);
    app.handle_picker_key(key(KeyCode::Up));
    assert_eq!(app.picker.selected, 2, "wraps to end");
    app.handle_picker_key(key(KeyCode::Char('j')));
    assert_eq!(app.picker.selected, 0, "wraps to start");
    app.handle_picker_key(key(KeyCode::Down));
    assert_eq!(app.picker.selected, 1);
}

#[test]
fn moving_there_and_back_changes_nothing() {
    let mut app = App::new();
    app.picker.sessions = vec![session_info("a"), session_info("b"), session_info("c")];
    for selected in 0..3 {
        app.picker.selected = selected;
        app.picker.move_selection(2);
        app.picker.move_selection(-2);
        assert_eq!(app.picker.selected, selected);
    }
}

#[test]
fn picker_open_requires_sessions() {
    let mut app = App::new();
    assert_eq!(
        app.handle_picker_key(key(KeyCode::Enter)),
        PickerAction::Nothing
    );
    app.picker.sessions = vec![session_info("a")];
    assert_eq!(
        app.handle_picker_key(key(KeyCode::Enter)),
        PickerAction::Open(0)
    );
    assert!(!app.open(1));
    assert!(app.open(0));
    assert!(matches!(&app.screen, Screen::Chat(c) if c.session_id == "a"));
}

#[test]
fn picker_quit_keys() {
    let mut app = App::new();
    assert_eq!(
        app.handle_picker_key(key(KeyCode::Char('q'))),
        PickerAction::Quit
    );
    assert_eq!(app.handle_picker_key(key(KeyCode::Esc)), PickerAction::Quit);
    assert_eq!(app.handle_picker_key(ctrl_c()), PickerAction::Quit);
}

#[test]
fn quit_on_ctrl_c_from_picker() {
    let mut app = App::new();
    let action = app.handle_picker_key(KeyEvent::new(KeyCode::Char('c'), CONTROL));
    assert_eq!(action, PickerAction::Quit);
    assert_eq!(app.handle_key(ctrl_c()), LoopAction::Quit);
}

#[test]
fn released_keys_do_nothing() {
    let mut app = App::new();
    let released = KeyEvent { pressed: false, ..key(KeyCode::Char('q')) };
    assert_eq!(app.handle_picker_key(released), PickerAction::Nothing);
}

#[test]
fn sessions_are_loaded() {
    let mut picker = App::new().picker;
    picker.begin_refresh();
    assert!(picker.loading);
    assert_eq!(picker_rows(&picker)[0].spans[0].text, "loading sessions...");
    picker.sessions_loaded(Ok(vec![session_info("a")]));
    assert!(!picker.loading);
    assert_eq!(picker.sessions.len(), 1);
    picker.sessions_loaded(Err("no server".into()));
    assert_eq!(picker.error.as_deref(), Some("no server"));
    let footer = picker_footer(&picker);
    assert_eq!(footer.spans[0].text, "no server");
    assert_eq!(footer.style.color, Color::Red);
}

// -- chat keys --

fn app_in_chat() -> App {
    let mut app = App::new();
    app.screen = Screen::Chat(Box::new(ChatState::new("s1", "m1")));
    app
}

fn chat(app: &App) -> &ChatState {
    match &app.screen {
        Screen::Chat(chat) => chat,
        Screen::Picker => panic!("expected chat screen"),
    }
}

#[test]
fn chat_input_and_send() {
    let mut app = app_in_chat();
    for c in "hi there".chars() {
        app.handle_chat_key(key(KeyCode::Char(c)));
    }
    assert_eq!(chat(&app).input, "hi there");

    let action = app.handle_chat_key(key(KeyCode::Enter));
    assert_eq!(action, ChatAction::Send("hi there".into()));
    assert!(chat(&app).input.is_empty());
}

#[test]
fn shifted_characters_are_typed() {
    let mut app = app_in_chat();
    app.handle_chat_key(KeyEvent::new(KeyCode::Char('H'), SHIFT));
    app.handle_chat_key(key(KeyCode::Char('é')));
    assert_eq!(chat(&app).input, "Hé");
    app.handle_chat_key(key(KeyCode::Backspace));
    assert_eq!(chat(&app).input, "H");
}

#[test]
fn chat_send_blocked_while_busy() {
    let mut app = app_in_chat();
    if let Screen::Chat(chat) = &mut app.screen {
        chat.input = "blocked".into();
        chat.busy = true;
    }
    assert_eq!(app.handle_chat_key(key(KeyCode::Enter)), ChatAction::Nothing);
}

#[test]
fn chat_backspace_and_back() {
    let mut app = app_in_chat();
    app.handle_chat_key(key(KeyCode::Char('x')));
    app.handle_chat_key(key(KeyCode::Backspace));
    assert!(chat(&app).input.is_empty());

    // Back returns to picker when idle
    app.handle_chat_key(key(KeyCode::Char('y')));
    assert_eq!(app.handle_chat_key(key(KeyCode::Esc)), ChatAction::Back);

    // While busy, Esc cancels the turn instead.
    if let Screen::Chat(chat) = &mut app.screen {
        chat.busy = true;
    }
    assert_eq!(app.handle_chat_key(key(KeyCode::Esc)), ChatAction::Cancel);
    assert_eq!(app.handle_key(key(KeyCode::Esc)), LoopAction::Cancel);
}

#[test]
fn chat_scrolling() {
    let mut app = app_in_chat();
    app.handle_chat_key(key(KeyCode::PageUp));
    app.handle_chat_key(key(KeyCode::Up));
    assert_eq!(chat(&app).scroll, 13);

    app.handle_chat_key(key(KeyCode::PageDown));
    app.handle_chat_key(key(KeyCode::PageDown));
    assert_eq!(chat(&app).scroll, 0, "clamped at bottom");
}

#[test]
fn streamed_responses_end_the_turn() {
    let mut app = app_in_chat();
    if let Screen::Chat(c) = &mut app.screen {
        c.begin_turn();
    }
    let event = Box::new(StreamEvent::Start { partial: saying("hel") });
    assert_eq!(app.apply_response(Response::Stream { event }), StreamOutcome::Continue);
    assert_eq!(chat(&app).streaming.as_deref(), Some("hel"));
    assert_eq!(app.apply_response(Response::AgentDone), StreamOutcome::TurnFinished);
    assert!(!chat(&app).busy);
}

#[test]
fn history_replaces_the_transcript() {
    let mut c = ChatState::new("s1", "m1");
    c.history_loaded(Ok(Response::Messages { messages: vec![user_msg("old")] }));
    assert_eq!(c.lines, vec![TranscriptLine::User("old".into())]);
    c.history_loaded(Err("gone".into()));
    assert_eq!(c.error.as_deref(), Some("gone"));
    c.turn_failed("refused");
    assert_eq!(c.error.as_deref(), Some("refused"));
}

// -- labels --

#[test]
fn row_label_includes_fields() {
    let label = PickerState::row_label(&session_info("abc"));
    assert!(label.contains("abc"));
    assert!(label.contains("test-model"));
    assert!(label.contains("3 msgs"));
    assert!(label.contains("working on tests"));
}

#[test]
fn new_sessions_are_empty() {
    let info = new_session_info("n1".into());
    assert_eq!(info.id, "n1");
    assert_eq!(info.message_count, 0);
    assert_eq!(info.state, AgentPhase::Idle);
}

#[test]
fn chat_decorations() {
    let mut c = ChatState::new("s1", "m1");
    assert_eq!(chat_title(&c), " tars chat  [m1] ");
    assert_eq!(input_title(&c).text, " message  (enter send  esc back) ");
    c.busy = true;
    assert_eq!(input_title(&c).style.color, Color::Yellow);
    c.scroll = 4;
    let status: String = status_line(&c).spans.iter().map(|s| s.text.as_str()).collect();
    assert!(status.contains("session s1"));
    assert!(status.contains("(scrolled 4 lines, pgdn to follow)"));
}

#[test]
fn overflow_decides_the_offset() {
    let mut c = ChatState::new("s1", "m1");
    for _ in 0..10 {
        c.lines.push(TranscriptLine::User("x".into()));
    }
    assert_eq!(total_lines_overflow(&c, 4), 6);
    assert_eq!(total_lines_overflow(&c, 20), 0);
    assert_eq!(scroll_offset(&c, 4), 6);
    c.scroll = 2;
    assert_eq!(scroll_offset(&c, 4), 4);
    c.scroll = 8;
    assert_eq!(scroll_offset(&c, 4), 0);
    assert_eq!(scroll_offset(&ChatState { scroll: 8, ..ChatState::new("s1", "m1") }, 4), 0);
    assert_eq!(chat_lines(&c).len(), 10);
}

// -- markdown --

fn plain(lines: &[Line]) -> Vec<String> {
    lines
        .iter()
        .map(|l| l.spans.iter().map(|s| s.text.clone()).collect())
        .collect()
}

#[test]
fn paragraphs_and_separators() {
    let lines = to_lines("first\nparagraph\n\nsecond");
    let texts = plain(&lines);
    // Soft breaks become line breaks; paragraphs separated by one blank.
    assert_eq!(texts, vec!["first", "paragraph", "", "second"], "{texts:?}");
}

#[test]
fn heading_text_is_bold() {
    let lines = to_lines("# Hello");
    assert_eq!(plain(&lines)[0], "Hello");
    assert!(lines[0].spans[0].style.bold);
}

#[test]
fn inline_code_styled() {
    let lines = to_lines("run `cargo test` now");
    let spans = &lines[0].spans;
    assert!(spans.iter().any(|s| s.text == "cargo test"), "{spans:?}");
}

#[test]
fn code_block_lines() {
    let text = "```rust\nfn main() {}\nlet x = 1;\n```";
    let lines = to_lines(text);
    let texts = plain(&lines);
    assert!(
        texts.iter().any(|l| l.contains("fn main() {}")),
        "{texts:?}"
    );
    assert!(texts.iter().any(|l| l.contains("let x = 1;")), "{texts:?}");
    // Code lines must not carry a paragraph separator between them.
    let main_idx = texts.iter().position(|l| l.contains("fn main")).unwrap();
    let let_idx = texts.iter().position(|l| l.contains("let x")).unwrap();
    assert_eq!(let_idx - main_idx, 1, "code block stays contiguous");
}

#[test]
fn bold_and_italic_no_literal_markers() {
    let all: String = plain(&to_lines("this is **bold** and *italic*")).join("");
    assert!(all.contains("bold"), "{all}");
    assert!(all.contains("italic"), "{all}");
    assert!(!all.contains("**"), "no literal markers: {all}");
}

#[test]
fn list_items_bulletted() {
    let lines = to_lines("- one\n- two\n");
    let texts = plain(&lines);
    assert_eq!(texts, vec!["• one", "• two"], "{texts:?}");
}

#[test]
fn blockquote_prefix() {
    let lines = to_lines("> quoted");
    let texts = plain(&lines);
    assert_eq!(texts[0], "> quoted", "{texts:?}");
}

#[test]
fn rule_renders() {
    let lines = to_lines("---");
    assert!(
        lines
            .iter()
            .any(|l| l.spans.iter().any(|s| s.text.contains("────"))),
        "{lines:?}"
    );
}

#[test]
fn plain_text_is_just_text() {
    let lines = to_lines("plain line");
    assert_eq!(plain(&lines), vec!["plain line"]);
}

#[test]
fn blocks_are_separated_by_one_blank_line() {
    assert_eq!(plain(&to_lines("para\n\n# Head")), ["para", "", "Head"]);
    assert_eq!(plain(&to_lines("# A\n## B")), ["A", "", "B"]);
    assert_eq!(plain(&to_lines("para\n\n```\na\nb\n```\n\nend")), ["para", "", "a", "b", "", "end"]);
    assert_eq!(plain(&to_lines("para\n\n- one\n- two\n\n> q")), ["para", "", "• one", "• two", "", "> q"]);
    assert_eq!(plain(&to_lines("- a\n  - b\n- c")), ["• a", "• b", "• c"]);
    let ruled = plain(&to_lines("para\n\n---\n\nend"));
    assert_eq!(ruled.len(), 5);
    assert_eq!((ruled[1].as_str(), ruled[3].as_str()), ("", ""));
    assert_eq!(plain(&to_lines("a <b>c</b>")), ["a <b>c</b>"]);
    assert_eq!(
        plain(&to_lines("para\n\n<div>\nx\n</div>\n\nend")),
        ["para", "", "<div>", "x", "</div>", "", "end"]
    );
    assert_eq!(plain(&to_lines("> ```\n> code\n> ```")), ["> code"]);
    assert_eq!(plain(&to_lines("- a\n  > q\n- b")), ["• a", "", "> q", "• b"]);
}

#[test]
fn heading_does_not_leak_bold() {
    // After the heading, following text must not be bold.
    let lines = to_lines("# Head\n\nafter");
    let after = &lines[2].spans[0];
    assert!(!after.style.bold, "style leaked: {:?}", after.style);
}

#[test]
fn rendered_text_has_no_trailing_blank() {
    for text in ["one\n\ntwo\n\n", "# h\n", "- a\n\n", ""] {
        let texts = plain(&to_lines(text));
        assert!(texts.last().map_or(true, |l| !l.is_empty()), "{texts:?}");
    }
}

#[test]
fn styled_lines_keep_their_style() {
    let line = styled_line("a", Style::color(Color::Green));
    assert_eq!(line.spans.len(), 1);
    assert_eq!(line.style, Style::color(Color::Green));
    assert_ne!(Style::dim(), Style::plain());
}
