//! TUI state machine.
//!
//! Pure state and transitions, no terminal I/O.

use vstd::prelude::*;

use crate::protocol::{Response, ResponseView, SessionInfo, SessionInfoView, SessionStats, TokenStats};
use crate::text::{is_blank, str_join, str_trim, usize_text};
use crate::types::{
    AgentPhase, AssistantContent, AssistantContentView, AssistantMessage, AssistantMessageView,
    Message, MessageView, StreamEvent, StreamEventView, UserContent, UserContentView,
};

verus! {

// ---------------------------------------------------------------------------
// Keys
// ---------------------------------------------------------------------------

/// The keys that the screens react to.
#[derive(Debug, Clone, Copy, PartialEq, Eq, Structural)]
pub enum KeyCode {
    Char(char),
    Enter,
    Esc,
    Backspace,
    PageUp,
    PageDown,
    Up,
    Down,
    Other,
}

/// The shift key, among the modifiers of a key.
pub const SHIFT: u8 = 1;

/// The control key, among the modifiers of a key.
pub const CONTROL: u8 = 2;

/// A key with its modifiers.
#[derive(Debug, Clone, Copy, PartialEq, Eq, Structural)]
pub struct KeyEvent {
    pub code: KeyCode,
    pub modifiers: u8,
    /// Whether the key went down, as opposed to being held or released.
    pub pressed: bool,
}

impl KeyEvent {
    /// A key that went down.
    pub fn new(code: KeyCode, modifiers: u8) -> (r: Self)
        ensures
            r == (KeyEvent { code, modifiers, pressed: true }),
    {
        KeyEvent { code, modifiers, pressed: true }
    }
}

/// Outcome of a key on the picker screen (drives async work in the event loop).
#[derive(Debug, Clone, Copy, PartialEq, Eq, Structural)]
pub enum PickerAction {
    Nothing,
    Quit,
    Refresh,
    NewSession,
    Open(usize),
}

/// Outcome of handling one streamed response.
#[derive(Debug, Clone, Copy, PartialEq, Eq, Structural)]
pub enum StreamOutcome {
    Continue,
    TurnFinished,
}

// ---------------------------------------------------------------------------
// State
// ---------------------------------------------------------------------------

/// One renderable line group in the chat transcript.
#[derive(Debug, PartialEq, Eq)]
pub enum TranscriptLine {
    User(String),
    Assistant(String),
    Tool { name: String, is_error: bool },
    Summary(String),
    Info(String),
}

/// What a [`TranscriptLine`] holds.
#[verifier::ext_equal]
pub enum TranscriptLineView {
    User(Seq<char>),
    Assistant(Seq<char>),
    Tool { name: Seq<char>, is_error: bool },
    Summary(Seq<char>),
    Info(Seq<char>),
}

impl View for TranscriptLine {
    type V = TranscriptLineView;

    open spec fn view(&self) -> TranscriptLineView {
        match *self {
            TranscriptLine::User(x) => TranscriptLineView::User(x@),
            TranscriptLine::Assistant(x) => TranscriptLineView::Assistant(x@),
            TranscriptLine::Tool { name, is_error } => TranscriptLineView::Tool { name: name@, is_error: is_error },
            TranscriptLine::Summary(x) => TranscriptLineView::Summary(x@),
            TranscriptLine::Info(x) => TranscriptLineView::Info(x@),
        }
    }
}

impl DeepView for TranscriptLine {
    type V = TranscriptLineView;

    open spec fn deep_view(&self) -> TranscriptLineView {
        self@
    }
}

impl Clone for TranscriptLine {
    fn clone(&self) -> (r: Self)
        ensures
            r@ == self@,
    {
        match self {
            TranscriptLine::User(x) => TranscriptLine::User(x.clone()),
            TranscriptLine::Assistant(x) => TranscriptLine::Assistant(x.clone()),
            TranscriptLine::Tool { name, is_error } => TranscriptLine::Tool { name: name.clone(), is_error: *is_error },
            TranscriptLine::Summary(x) => TranscriptLine::Summary(x.clone()),
            TranscriptLine::Info(x) => TranscriptLine::Info(x.clone()),
        }
    }
}

/// State of the chat screen.
#[derive(Debug)]
pub struct ChatState {
    pub session_id: String,
    pub model: String,
    pub lines: Vec<TranscriptLine>,
    /// Current input buffer.
    pub input: String,
    /// Text of the assistant message currently streaming in.
    pub streaming: Option<String>,
    /// Extended-thinking text currently streaming in (rendered dim).
    pub thinking: Option<String>,
    /// True while an agent turn is running.
    pub busy: bool,
    /// Lines scrolled up from the bottom (0 = pinned to bottom).
    pub scroll: u16,
    /// Last error surfaced from the server.
    pub error: Option<String>,
}

/// What a [`ChatState`] holds.
#[verifier::ext_equal]
pub struct ChatStateView {
    pub session_id: Seq<char>,
    pub model: Seq<char>,
    pub lines: Seq<TranscriptLineView>,
    pub input: Seq<char>,
    pub streaming: Option<Seq<char>>,
    pub thinking: Option<Seq<char>>,
    pub busy: bool,
    pub scroll: u16,
    pub error: Option<Seq<char>>,
}

impl View for ChatState {
    type V = ChatStateView;

    open spec fn view(&self) -> ChatStateView {
        ChatStateView {
            session_id: self.session_id@,
            model: self.model@,
            lines: self.lines.deep_view(),
            input: self.input@,
            streaming: self.streaming.deep_view(),
            thinking: self.thinking.deep_view(),
            busy: self.busy,
            scroll: self.scroll,
            error: self.error.deep_view(),
        }
    }
}

impl DeepView for ChatState {
    type V = ChatStateView;

    open spec fn deep_view(&self) -> ChatStateView {
        self@
    }
}

impl Clone for ChatState {
    fn clone(&self) -> (r: Self)
        ensures
            r@ == self@,
    {
        let r = ChatState {
            session_id: self.session_id.clone(),
            model: self.model.clone(),
            lines: self.lines.clone(),
            input: self.input.clone(),
            streaming: self.streaming.clone(),
            thinking: self.thinking.clone(),
            busy: self.busy,
            scroll: self.scroll,
            error: self.error.clone(),
        };
        assert(r.lines.deep_view() =~= self.lines.deep_view());
        r
    }
}

/// State of the session picker.
#[derive(Debug)]
pub struct PickerState {
    pub sessions: Vec<SessionInfo>,
    pub selected: usize,
    pub loading: bool,
    pub error: Option<String>,
}

/// What a [`PickerState`] holds.
#[verifier::ext_equal]
pub struct PickerStateView {
    pub sessions: Seq<SessionInfoView>,
    pub selected: usize,
    pub loading: bool,
    pub error: Option<Seq<char>>,
}

impl View for PickerState {
    type V = PickerStateView;

    open spec fn view(&self) -> PickerStateView {
        PickerStateView {
            sessions: self.sessions.deep_view(),
            selected: self.selected,
            loading: self.loading,
            error: self.error.deep_view(),
        }
    }
}

impl DeepView for PickerState {
    type V = PickerStateView;

    open spec fn deep_view(&self) -> PickerStateView {
        self@
    }
}

impl Clone for PickerState {
    fn clone(&self) -> (r: Self)
        ensures
            r@ == self@,
    {
        let r = PickerState {
            sessions: self.sessions.clone(),
            selected: self.selected,
            loading: self.loading,
            error: self.error.clone(),
        };
        assert(r.sessions.deep_view() =~= self.sessions.deep_view());
        r
    }
}

/// What is on the screen.
#[derive(Debug)]
pub enum Screen {
    Picker,
    Chat(Box<ChatState>),
}

/// What a [`Screen`] holds.
#[verifier::ext_equal]
pub enum ScreenView {
    Picker,
    Chat(ChatStateView),
}

impl View for Screen {
    type V = ScreenView;

    open spec fn view(&self) -> ScreenView {
        match *self {
            Screen::Picker => ScreenView::Picker,
            Screen::Chat(x) => ScreenView::Chat(x@),
        }
    }
}

impl DeepView for Screen {
    type V = ScreenView;

    open spec fn deep_view(&self) -> ScreenView {
        self@
    }
}

/// State of the terminal UI.
#[derive(Debug)]
pub struct App {
    pub running: bool,
    pub screen: Screen,
    pub picker: PickerState,
}

/// What a [`App`] holds.
#[verifier::ext_equal]
pub struct AppView {
    pub running: bool,
    pub screen: ScreenView,
    pub picker: PickerStateView,
}

impl View for App {
    type V = AppView;

    open spec fn view(&self) -> AppView {
        AppView {
            running: self.running,
            screen: self.screen@,
            picker: self.picker@,
        }
    }
}

impl DeepView for App {
    type V = AppView;

    open spec fn deep_view(&self) -> AppView {
        self@
    }
}

/// Outcome of a key on the chat screen.
#[derive(Debug, PartialEq, Eq)]
pub enum ChatAction {
    Nothing,
    Quit,
    Back,
    Cancel,
    Send(String),
}

/// What a [`ChatAction`] holds.
#[verifier::ext_equal]
pub enum ChatActionView {
    Nothing,
    Quit,
    Back,
    Cancel,
    Send(Seq<char>),
}

impl View for ChatAction {
    type V = ChatActionView;

    open spec fn view(&self) -> ChatActionView {
        match *self {
            ChatAction::Nothing => ChatActionView::Nothing,
            ChatAction::Quit => ChatActionView::Quit,
            ChatAction::Back => ChatActionView::Back,
            ChatAction::Cancel => ChatActionView::Cancel,
            ChatAction::Send(x) => ChatActionView::Send(x@),
        }
    }
}

impl DeepView for ChatAction {
    type V = ChatActionView;

    open spec fn deep_view(&self) -> ChatActionView {
        self@
    }
}

impl Clone for ChatAction {
    fn clone(&self) -> (r: Self)
        ensures
            r@ == self@,
    {
        match self {
            ChatAction::Nothing => ChatAction::Nothing,
            ChatAction::Quit => ChatAction::Quit,
            ChatAction::Back => ChatAction::Back,
            ChatAction::Cancel => ChatAction::Cancel,
            ChatAction::Send(x) => ChatAction::Send(x.clone()),
        }
    }
}

/// What the event loop is to do.
#[derive(Debug, PartialEq, Eq)]
pub enum LoopAction {
    Nothing,
    Quit,
    RefreshSessions,
    NewSession,
    Open(usize),
    Back,
    Cancel,
    Send(String),
}

/// What a [`LoopAction`] holds.
#[verifier::ext_equal]
pub enum LoopActionView {
    Nothing,
    Quit,
    RefreshSessions,
    NewSession,
    Open(usize),
    Back,
    Cancel,
    Send(Seq<char>),
}

impl View for LoopAction {
    type V = LoopActionView;

    open spec fn view(&self) -> LoopActionView {
        match *self {
            LoopAction::Nothing => LoopActionView::Nothing,
            LoopAction::Quit => LoopActionView::Quit,
            LoopAction::RefreshSessions => LoopActionView::RefreshSessions,
            LoopAction::NewSession => LoopActionView::NewSession,
            LoopAction::Open(x) => LoopActionView::Open(x),
            LoopAction::Back => LoopActionView::Back,
            LoopAction::Cancel => LoopActionView::Cancel,
            LoopAction::Send(x) => LoopActionView::Send(x@),
        }
    }
}

impl DeepView for LoopAction {
    type V = LoopActionView;

    open spec fn deep_view(&self) -> LoopActionView {
        self@
    }
}

// ---------------------------------------------------------------------------
// Transcript
// ---------------------------------------------------------------------------

/// The text of a user message.
pub open spec fn user_text(content: Seq<UserContentView>) -> Seq<char> {
    crate::text::join(Seq::new(content.len(), |i: int| user_part(content[i])), "\n"@)
}

/// The text of a block of a user message.
pub open spec fn user_part(c: UserContentView) -> Seq<char> {
    match c {
        UserContentView::Text(t) => t.text,
        UserContentView::Image(_) => "[image]"@,
    }
}

/// Whether a text shows anything.
pub open spec fn shows(text: Seq<char>) -> bool {
    crate::text::trim(text).len() > 0
}

/// The line that a message shows as, if any.
pub open spec fn line_of(m: MessageView) -> Option<TranscriptLineView> {
    match m {
        MessageView::User(u) => if shows(user_text(u.content)) {
            Some(TranscriptLineView::User(user_text(u.content)))
        } else {
            None
        },
        MessageView::Assistant(a) => if shows(a.text()) {
            Some(TranscriptLineView::Assistant(a.text()))
        } else {
            None
        },
        MessageView::ToolResult(t) => Some(
            TranscriptLineView::Tool { name: t.tool_name, is_error: t.is_error },
        ),
        MessageView::CompactionSummary(c) => Some(TranscriptLineView::Summary(c.summary)),
        MessageView::Info(i) => Some(TranscriptLineView::Info(i.text)),
    }
}

/// The transcript of the first `n` messages.
pub open spec fn transcript(messages: Seq<MessageView>, n: int) -> Seq<TranscriptLineView>
    decreases n,
{
    if n <= 0 {
        seq![]
    } else {
        with_line(transcript(messages, n - 1), line_of(messages[n - 1]))
    }
}

/// Lines with one more, if there is one.
pub open spec fn with_line(lines: Seq<TranscriptLineView>, l: Option<TranscriptLineView>) -> Seq<
    TranscriptLineView,
> {
    match l {
        Some(x) => lines.push(x),
        None => lines,
    }
}

/// The text of a user message.
fn render_user(content: &Vec<UserContent>) -> (r: String)
    ensures
        r@ == user_text(content.deep_view()),
{
    let ghost all = content.deep_view();
    let mut parts: Vec<String> = Vec::new();
    let mut i: usize = 0;
    while i < content.len()
        invariant
            i <= content.len(),
            all == content.deep_view(),
            parts.len() == i,
            forall|j: int| 0 <= j < i ==> (#[trigger] parts@[j])@ == user_part(all[j]),
        decreases content.len() - i,
    {
        assert(all[i as int] == content[i as int]@);
        let part: String = match &content[i] {
            UserContent::Text(t) => t.text.clone(),
            UserContent::Image(_) => "[image]".to_owned(),
        };
        parts.push(part);
        i = i + 1;
    }
    assert(parts.deep_view() =~= Seq::new(all.len(), |i: int| user_part(all[i])));
    str_join(&parts, "\n")
}

/// The line that a message shows as, if any.
fn make_line(m: &Message) -> (r: Option<TranscriptLine>)
    ensures
        r.deep_view() == line_of(m@),
{
    match m {
        Message::User(u) => {
            let text = render_user(&u.content);
            if is_blank(text.as_str()) {
                None
            } else {
                Some(TranscriptLine::User(text))
            }
        },
        Message::Assistant(a) => {
            let text = a.text();
            if is_blank(text.as_str()) {
                None
            } else {
                Some(TranscriptLine::Assistant(text))
            }
        },
        Message::ToolResult(t) => Some(
            TranscriptLine::Tool { name: t.tool_name.clone(), is_error: t.is_error },
        ),
        Message::CompactionSummary(c) => Some(TranscriptLine::Summary(c.summary.clone())),
        Message::Info(i) => Some(TranscriptLine::Info(i.text.clone())),
    }
}

/// Flatten persisted messages into transcript lines.
pub fn build_transcript(messages: &[Message]) -> (r: Vec<TranscriptLine>)
    ensures
        r.deep_view() == transcript(messages.deep_view(), messages.deep_view().len() as int),
{
    let ghost all = messages.deep_view();
    let mut lines: Vec<TranscriptLine> = Vec::new();
    let mut i: usize = 0;
    assert(lines.deep_view() =~= seq![]);
    assert(all.len() == messages.len());
    while i < messages.len()
        invariant
            i <= messages.len(),
            all == messages.deep_view(),
            lines.deep_view() == transcript(all, i as int),
        decreases messages.len() - i,
    {
        assert(all[i as int] == messages@[i as int]@);
        let ghost before = lines.deep_view();
        if let Some(l) = make_line(&messages[i]) {
            lines.push(l);
            assert(lines.deep_view() =~= before.push(l@));
        }
        i = i + 1;
    }
    lines
}

// ---------------------------------------------------------------------------
// Chat screen state
// ---------------------------------------------------------------------------

/// The thinking of a block of an assistant message, nothing for another kind of block.
pub open spec fn thinking_part(c: AssistantContentView) -> Seq<char> {
    match c {
        AssistantContentView::Thinking(t) => t.thinking,
        _ => seq![],
    }
}

/// The thinking blocks of an assistant message, one after the other.
pub open spec fn thinking_of(m: AssistantMessageView) -> Seq<char> {
    crate::text::concat(Seq::new(m.content.len(), |i: int| thinking_part(m.content[i])))
}

/// Join a snapshot's thinking blocks (the current thinking text).
pub fn thinking_text(msg: &AssistantMessage) -> (r: String)
    ensures
        r@ == thinking_of(msg@),
{
    let mut out: String = String::new();
    let mut i: usize = 0;
    let ghost parts = Seq::new(msg@.content.len(), |i: int| thinking_part(msg@.content[i]));
    assert(parts.subrange(0, 0) =~= seq![]);
    while i < msg.content.len()
        invariant
            i <= msg.content.len(),
            parts == Seq::new(msg@.content.len(), |i: int| thinking_part(msg@.content[i])),
            out@ == crate::text::concat(parts.subrange(0, i as int)),
        decreases msg.content.len() - i,
    {
        let ghost p = parts.subrange(0, i + 1);
        assert(p.subrange(0, p.len() - 1) =~= parts.subrange(0, i as int));
        assert(p[i as int] == thinking_part(msg.content[i as int]@));
        match &msg.content[i] {
            AssistantContent::Thinking(t) => {
                out.append(t.thinking.as_str());
            },
            _ => {
                assert(out@ + Seq::<char>::empty() =~= out@);
            },
        }
        i = i + 1;
    }
    assert(parts.subrange(0, i as int) =~= parts);
    out
}

/// The line for a text of the assistant, unless it shows nothing.
pub open spec fn assistant_line(text: Seq<char>) -> Option<TranscriptLineView> {
    if shows(text) {
        Some(TranscriptLineView::Assistant(text))
    } else {
        None
    }
}

impl ChatStateView {
    /// The state of a chat that just opened.
    pub open spec fn opened(session_id: Seq<char>, model: Seq<char>) -> ChatStateView {
        ChatStateView {
            session_id,
            model,
            lines: seq![],
            input: seq![],
            streaming: None,
            thinking: None,
            busy: false,
            scroll: 0,
            error: None,
        }
    }

    /// The streaming text moved into the transcript.
    pub open spec fn flushed(self) -> ChatStateView {
        match self.streaming {
            Some(text) => ChatStateView {
                streaming: None,
                lines: with_line(self.lines, assistant_line(text)),
                ..self
            },
            None => self,
        }
    }

    /// One more line in the transcript.
    pub open spec fn noted(self, l: TranscriptLineView) -> ChatStateView {
        ChatStateView { lines: self.lines.push(l), ..self }
    }

    /// The state after a streaming event.
    pub open spec fn applied(self, e: StreamEventView) -> ChatStateView {
        match e {
            StreamEventView::Start { partial } => ChatStateView {
                streaming: Some(partial.text()),
                ..self
            },
            StreamEventView::TextStart { partial, .. } => ChatStateView {
                streaming: Some(partial.text()),
                ..self
            },
            StreamEventView::TextDelta { partial, .. } => ChatStateView {
                streaming: Some(partial.text()),
                ..self
            },
            StreamEventView::TextEnd { partial, .. } => ChatStateView {
                streaming: Some(partial.text()),
                ..self
            },
            StreamEventView::ThinkingStart { partial, .. } => ChatStateView {
                streaming: None,
                thinking: Some(thinking_of(partial)),
                ..self
            },
            StreamEventView::ThinkingDelta { partial, .. } => ChatStateView {
                streaming: None,
                thinking: Some(thinking_of(partial)),
                ..self
            },
            StreamEventView::ThinkingEnd { .. } => ChatStateView { thinking: None, ..self },
            StreamEventView::ToolcallEnd { tool_call, .. } => self.flushed().noted(
                TranscriptLineView::Tool { name: tool_call.name, is_error: false },
            ),
            StreamEventView::ToolResult { tool_name, is_error, .. } => self.noted(
                TranscriptLineView::Tool { name: tool_name, is_error },
            ),
            StreamEventView::Done { message, .. } => {
                let f = self.flushed();
                ChatStateView { lines: with_line(f.lines, assistant_line(message.text())), ..f }
            },
            StreamEventView::Error { error, .. } => ChatStateView {
                error: Some(
                    if error.text().len() == 0 {
                        "agent turn failed"@
                    } else {
                        error.text()
                    },
                ),
                ..self.flushed()
            },
            StreamEventView::Status { message } => self.noted(TranscriptLineView::Info(message)),
            _ => self,
        }
    }

    /// The state after a turn: the live view is cleared.
    pub open spec fn finished(self) -> ChatStateView {
        ChatStateView { streaming: None, thinking: None, busy: false, scroll: 0, ..self }
    }
}

/// A scroll offset some lines further up.
pub open spec fn scrolled_up(scroll: u16, delta: u16) -> u16 {
    if scroll + delta <= u16::MAX {
        (scroll + delta) as u16
    } else {
        u16::MAX
    }
}

/// A scroll offset some lines further down.
pub open spec fn scrolled_down(scroll: u16, delta: u16) -> u16 {
    if scroll >= delta {
        (scroll - delta) as u16
    } else {
        0
    }
}

impl Default for ChatState {
    fn default() -> (r: Self)
        ensures
            r@ == ChatStateView::opened(seq![], seq![]),
    {
        let empty: String = String::new();
        assert(empty@ =~= seq![]);
        ChatState::new(empty.as_str(), empty.as_str())
    }
}

impl ChatState {
    /// A chat that just opened.
    pub fn new(session_id: &str, model: &str) -> (r: Self)
        ensures
            r@ == ChatStateView::opened(session_id@, model@),
    {
        let r = ChatState {
            session_id: session_id.to_owned(),
            model: model.to_owned(),
            lines: Vec::new(),
            input: String::new(),
            streaming: None,
            thinking: None,
            busy: false,
            scroll: 0,
            error: None,
        };
        assert(r@.lines =~= seq![]);
        assert(r@.input =~= seq![]);
        r
    }

    /// Replace the transcript from a fresh `GetMessages` result.
    pub fn set_history(&mut self, messages: &[Message])
        ensures
            final(self)@ == (ChatStateView {
                lines: transcript(messages.deep_view(), messages.deep_view().len() as int),
                scroll: 0,
                ..old(self)@
            }),
    {
        self.lines = build_transcript(messages);
        self.scroll = 0;
    }

    /// One more line in the transcript.
    fn note(&mut self, l: TranscriptLine)
        ensures
            final(self)@ == old(self)@.noted(l@),
    {
        let ghost before = self@.lines;
        self.lines.push(l);
        assert(self@.lines =~= before.push(l@));
    }

    /// One more line for a text of the assistant, unless it shows nothing.
    fn note_text(&mut self, text: String)
        ensures
            final(self)@ == (ChatStateView {
                lines: with_line(old(self)@.lines, assistant_line(text@)),
                ..old(self)@
            }),
    {
        if !is_blank(text.as_str()) {
            self.note(TranscriptLine::Assistant(text));
        }
    }

    /// Apply a streaming event. Snapshots (`partial`) are authoritative, so this is a simple
    /// assignment per event rather than incremental bookkeeping.
    pub fn apply_event(&mut self, event: &StreamEvent)
        ensures
            final(self)@ == old(self)@.applied(event@),
    {
        match event {
            StreamEvent::Start { partial } => {
                self.streaming = Some(partial.text());
            },
            StreamEvent::TextStart { partial, .. } => {
                self.streaming = Some(partial.text());
            },
            StreamEvent::TextDelta { partial, .. } => {
                self.streaming = Some(partial.text());
            },
            StreamEvent::TextEnd { partial, .. } => {
                self.streaming = Some(partial.text());
            },
            StreamEvent::ThinkingStart { partial, .. } => {
                self.streaming = None;
                self.thinking = Some(thinking_text(partial));
            },
            StreamEvent::ThinkingDelta { partial, .. } => {
                self.streaming = None;
                self.thinking = Some(thinking_text(partial));
            },
            StreamEvent::ThinkingEnd { .. } => {
                self.thinking = None;
            },
            StreamEvent::ToolcallEnd { tool_call, .. } => {
                self.flush_streaming();
                self.note(TranscriptLine::Tool { name: tool_call.name.clone(), is_error: false });
            },
            StreamEvent::ToolResult { tool_name, is_error, .. } => {
                self.note(TranscriptLine::Tool { name: tool_name.clone(), is_error: *is_error });
            },
            StreamEvent::Done { message, .. } => {
                self.flush_streaming();
                self.note_text(message.text());
            },
            StreamEvent::Error { error, .. } => {
                self.flush_streaming();
                let text = error.text();
                self.error = Some(
                    if text.as_str().is_empty() {
                        "agent turn failed".to_owned()
                    } else {
                        text
                    },
                );
            },
            StreamEvent::Status { message } => {
                self.note(TranscriptLine::Info(message.clone()));
            },
            _ => {},
        }
    }

    /// Move any in-flight streaming text into a transcript line.
    pub fn flush_streaming(&mut self)
        ensures
            final(self)@ == old(self)@.flushed(),
    {
        if let Some(text) = self.streaming.take() {
            self.note_text(text);
        }
    }

    /// Agent turn finished. Streaming text is finalized by a subsequent history reload; clear the
    /// live view state.
    pub fn finish_turn(&mut self)
        ensures
            final(self)@ == old(self)@.finished(),
    {
        self.streaming = None;
        self.thinking = None;
        self.busy = false;
        self.scroll = 0;
    }

    /// Scroll by `delta` lines (positive = scroll up).
    pub fn scroll_by(&mut self, delta: u16)
        ensures
            final(self)@ == (ChatStateView {
                scroll: scrolled_up(old(self)@.scroll, delta),
                ..old(self)@
            }),
    {
        self.scroll = self.scroll.saturating_add(delta);
    }

    /// A turn starts: the chat is busy and the last error is forgotten.
    pub fn begin_turn(&mut self)
        ensures
            final(self)@ == (ChatStateView { busy: true, error: None, ..old(self)@ }),
    {
        self.busy = true;
        self.error = None;
    }

    /// A turn could not be started.
    pub fn turn_failed(&mut self, error: &str)
        ensures
            final(self)@ == (ChatStateView { busy: false, error: Some(error@), ..old(self)@ }),
    {
        self.busy = false;
        self.error = Some(error.to_owned());
    }

    /// The history was asked for, and this came back.
    pub fn history_loaded(&mut self, reply: core::result::Result<Response, String>)
        ensures
            final(self)@ == (match reply {
                Ok(r) => match r@ {
                    ResponseView::Messages { messages } => ChatStateView {
                        lines: transcript(messages, messages.len() as int),
                        scroll: 0,
                        ..old(self)@
                    },
                    ResponseView::Error { message, .. } => ChatStateView {
                        error: Some(message),
                        ..old(self)@
                    },
                    _ => old(self)@,
                },
                Err(e) => ChatStateView { error: Some(e@), ..old(self)@ },
            }),
    {
        match reply {
            Ok(Response::Messages { messages }) => {
                let list = messages.as_slice();
                assert(list.deep_view() =~= messages.deep_view());
                self.set_history(list);
            },
            Ok(Response::Error { message, .. }) => {
                self.error = Some(message);
            },
            Ok(_) => {},
            Err(e) => {
                self.error = Some(e);
            },
        }
    }
}

// ---------------------------------------------------------------------------
// Session picker state
// ---------------------------------------------------------------------------

impl PickerStateView {
    /// The selection moved, going round at both ends.
    pub open spec fn moved(self, delta: int) -> PickerStateView {
        if self.sessions.len() == 0 {
            self
        } else {
            PickerStateView {
                selected: ((self.selected + delta) % self.sessions.len() as int) as usize,
                ..self
            }
        }
    }

    /// Sessions arrived; the selection stays within them.
    pub open spec fn listed(self, sessions: Seq<SessionInfoView>) -> PickerStateView {
        PickerStateView {
            sessions,
            selected: if self.selected < sessions.len() {
                self.selected
            } else if sessions.len() == 0 {
                0
            } else {
                (sessions.len() - 1) as usize
            },
            loading: false,
            error: None,
        }
    }
}

/// The row of a session.
pub open spec fn label(s: SessionInfoView) -> Seq<char> {
    s.id + "  "@ + s.model + "  "@ + crate::text::decimal(s.message_count as nat) + " msgs  "@
        + match s.tagline {
        Some(t) => t,
        None => ""@,
    }
}

impl Default for PickerState {
    fn default() -> (r: Self)
        ensures
            r@ == (PickerStateView { sessions: seq![], selected: 0, loading: false, error: None }),
    {
        let r = PickerState { sessions: Vec::new(), selected: 0, loading: false, error: None };
        assert(r@.sessions =~= seq![]);
        r
    }
}

impl PickerState {
    /// Move the selection, going round at both ends.
    pub fn move_selection(&mut self, delta: i32)
        ensures
            final(self)@ == old(self)@.moved(delta as int),
    {
        assert(self@.sessions.len() == self.sessions.len());
        if self.sessions.len() == 0 {
            return;
        }
        let len: i128 = self.sessions.len() as i128;
        let at: i128 = (self.selected as i128 + delta as i128) % len;
        let next: i128 = if at < 0 {
            at + len
        } else {
            at
        };
        proof {
            let x = self.selected as int + delta as int;
            let n = len as int;
            if x < 0 {
                let up = (-x) % n;
                assert(at == -up);
                vstd::arithmetic::div_mod::lemma_fundamental_div_mod(-x, n);
                let q = (-x) / n;
                if up == 0 {
                    assert(x == n * (-q) + 0) by (nonlinear_arith)
                        requires
                            -x == n * q + up,
                            up == 0,
                    ;
                    vstd::arithmetic::div_mod::lemma_fundamental_div_mod_converse(x, n, -q, 0);
                } else {
                    assert(x == n * (-q - 1) + (n - up)) by (nonlinear_arith)
                        requires
                            -x == n * q + up,
                    ;
                    vstd::arithmetic::div_mod::lemma_fundamental_div_mod_converse(
                        x,
                        n,
                        -q - 1,
                        n - up,
                    );
                }
            }
            assert(next == x % n);
        }
        self.selected = next as usize;
    }

    /// Short summary line for one session row.
    pub fn row_label(session: &SessionInfo) -> (r: String)
        ensures
            r@ == label(session@),
    {
        let mut out: String = session.id.clone();
        out.append("  ");
        out.append(session.model.as_str());
        out.append("  ");
        out.append(usize_text(session.message_count).as_str());
        out.append(" msgs  ");
        match &session.tagline {
            Some(t) => {
                out.append(t.as_str());
            },
            None => {
                out.append("");
            },
        }
        out
    }

    /// The sessions are asked for.
    pub fn begin_refresh(&mut self)
        ensures
            final(self)@ == (PickerStateView { loading: true, error: None, ..old(self)@ }),
    {
        self.loading = true;
        self.error = None;
    }

    /// The sessions were asked for, and this came back.
    pub fn sessions_loaded(&mut self, reply: core::result::Result<Vec<SessionInfo>, String>)
        ensures
            final(self)@ == (match reply {
                Ok(sessions) => old(self)@.listed(sessions.deep_view()),
                Err(e) => PickerStateView { loading: false, error: Some(e@), ..old(self)@ },
            }),
    {
        match reply {
            Ok(sessions) => {
                assert(sessions.deep_view().len() == sessions.len());
                self.sessions = sessions;
                self.error = None;
                if self.selected >= self.sessions.len() {
                    self.selected = self.sessions.len().saturating_sub(1);
                }
            },
            Err(e) => {
                self.error = Some(e);
            },
        }
        self.loading = false;
    }
}

// ---------------------------------------------------------------------------
// App + actions
// ---------------------------------------------------------------------------

/// What a key means on the picker screen, and how it moves the selection.
pub open spec fn picker_step(p: PickerStateView, key: KeyEvent) -> (PickerStateView, PickerAction) {
    if !key.pressed {
        (p, PickerAction::Nothing)
    } else {
        match key.code {
            KeyCode::Char(c) => if c == 'c' && key.modifiers == CONTROL {
                (p, PickerAction::Quit)
            } else if c == 'q' {
                (p, PickerAction::Quit)
            } else if c == 'k' {
                (p.moved(-1), PickerAction::Nothing)
            } else if c == 'j' {
                (p.moved(1), PickerAction::Nothing)
            } else if c == 'r' {
                (p, PickerAction::Refresh)
            } else if c == 'n' {
                (p, PickerAction::NewSession)
            } else {
                (p, PickerAction::Nothing)
            },
            KeyCode::Esc => (p, PickerAction::Quit),
            KeyCode::Up => (p.moved(-1), PickerAction::Nothing),
            KeyCode::Down => (p.moved(1), PickerAction::Nothing),
            KeyCode::Enter => if p.sessions.len() == 0 {
                (p, PickerAction::Nothing)
            } else {
                (p, PickerAction::Open(p.selected))
            },
            _ => (p, PickerAction::Nothing),
        }
    }
}

/// What a key means on the chat screen, and how it changes the chat.
pub open spec fn chat_step(c: ChatStateView, key: KeyEvent) -> (ChatStateView, ChatActionView) {
    if !key.pressed {
        (c, ChatActionView::Nothing)
    } else {
        match key.code {
            KeyCode::Char(x) => if x == 'c' && key.modifiers == CONTROL {
                (c, ChatActionView::Quit)
            } else if key.modifiers == 0 || key.modifiers == SHIFT {
                (ChatStateView { input: c.input.push(x), ..c }, ChatActionView::Nothing)
            } else {
                (c, ChatActionView::Nothing)
            },
            KeyCode::Esc => if c.busy {
                (c, ChatActionView::Cancel)
            } else {
                (c, ChatActionView::Back)
            },
            KeyCode::Enter => if shows(c.input) && !c.busy {
                (
                    ChatStateView { input: seq![], ..c },
                    ChatActionView::Send(crate::text::trim(c.input)),
                )
            } else {
                (c, ChatActionView::Nothing)
            },
            KeyCode::Backspace => (
                ChatStateView {
                    input: if c.input.len() > 0 {
                        c.input.drop_last()
                    } else {
                        c.input
                    },
                    ..c
                },
                ChatActionView::Nothing,
            ),
            KeyCode::PageUp => (
                ChatStateView { scroll: scrolled_up(c.scroll, 10), ..c },
                ChatActionView::Nothing,
            ),
            KeyCode::PageDown => (
                ChatStateView { scroll: scrolled_down(c.scroll, 10), ..c },
                ChatActionView::Nothing,
            ),
            KeyCode::Up => (
                ChatStateView { scroll: scrolled_up(c.scroll, 3), ..c },
                ChatActionView::Nothing,
            ),
            KeyCode::Down => (
                ChatStateView { scroll: scrolled_down(c.scroll, 3), ..c },
                ChatActionView::Nothing,
            ),
            KeyCode::Other => (c, ChatActionView::Nothing),
        }
    }
}

/// The state after a streamed response on the chat screen.
pub open spec fn response_step(c: ChatStateView, r: ResponseView) -> (ChatStateView, StreamOutcome) {
    match r {
        ResponseView::Stream { event } => (c.applied(event), StreamOutcome::Continue),
        ResponseView::AgentDone => (c.finished(), StreamOutcome::TurnFinished),
        ResponseView::Cancelled => (c.finished(), StreamOutcome::TurnFinished),
        ResponseView::Error { message, .. } => (
            ChatStateView { busy: false, streaming: None, error: Some(message), ..c },
            StreamOutcome::TurnFinished,
        ),
        _ => (c, StreamOutcome::Continue),
    }
}

/// What the event loop does for an action of the picker.
pub open spec fn picker_loop(a: PickerAction) -> LoopActionView {
    match a {
        PickerAction::Nothing => LoopActionView::Nothing,
        PickerAction::Quit => LoopActionView::Quit,
        PickerAction::Refresh => LoopActionView::RefreshSessions,
        PickerAction::NewSession => LoopActionView::NewSession,
        PickerAction::Open(i) => LoopActionView::Open(i),
    }
}

/// What the event loop does for an action of the chat.
pub open spec fn chat_loop(a: ChatActionView) -> LoopActionView {
    match a {
        ChatActionView::Nothing => LoopActionView::Nothing,
        ChatActionView::Quit => LoopActionView::Quit,
        ChatActionView::Back => LoopActionView::Back,
        ChatActionView::Cancel => LoopActionView::Cancel,
        ChatActionView::Send(t) => LoopActionView::Send(t),
    }
}

/// `String::pop`: the last character is taken off.
#[verifier::external_body]
fn pop_char(s: &mut String)
    ensures
        final(s)@ == (if old(s)@.len() > 0 {
            old(s)@.drop_last()
        } else {
            old(s)@
        }),
{
    s.pop();
}

impl ChatState {
    /// What a key means on the chat screen.
    fn handle_key(&mut self, key: KeyEvent) -> (r: ChatAction)
        ensures
            (final(self)@, r@) == chat_step(old(self)@, key),
    {
        if !key.pressed {
            return ChatAction::Nothing;
        }
        match key.code {
            KeyCode::Char(c) => {
                if c == 'c' && key.modifiers == CONTROL {
                    ChatAction::Quit
                } else {
                    if key.modifiers == 0 || key.modifiers == SHIFT {
                        self.input.push(c);
                    }
                    ChatAction::Nothing
                }
            },
            KeyCode::Esc => if self.busy {
                ChatAction::Cancel
            } else {
                ChatAction::Back
            },
            KeyCode::Enter => {
                let text = str_trim(self.input.as_str());
                if !text.as_str().is_empty() && !self.busy {
                    self.input = String::new();
                    assert(self@.input =~= seq![]);
                    ChatAction::Send(text)
                } else {
                    ChatAction::Nothing
                }
            },
            KeyCode::Backspace => {
                pop_char(&mut self.input);
                ChatAction::Nothing
            },
            KeyCode::PageUp => {
                self.scroll_by(10);
                ChatAction::Nothing
            },
            KeyCode::PageDown => {
                self.scroll = self.scroll.saturating_sub(10);
                ChatAction::Nothing
            },
            KeyCode::Up => {
                self.scroll_by(3);
                ChatAction::Nothing
            },
            KeyCode::Down => {
                self.scroll = self.scroll.saturating_sub(3);
                ChatAction::Nothing
            },
            KeyCode::Other => ChatAction::Nothing,
        }
    }

    /// Apply a streamed response.
    fn handle_response(&mut self, resp: Response) -> (r: StreamOutcome)
        ensures
            (final(self)@, r) == response_step(old(self)@, resp@),
    {
        match resp {
            Response::Stream { event } => {
                self.apply_event(&event);
                StreamOutcome::Continue
            },
            Response::AgentDone => {
                self.finish_turn();
                StreamOutcome::TurnFinished
            },
            Response::Cancelled => {
                self.finish_turn();
                StreamOutcome::TurnFinished
            },
            Response::Error { message, .. } => {
                self.busy = false;
                self.streaming = None;
                self.error = Some(message);
                StreamOutcome::TurnFinished
            },
            _ => StreamOutcome::Continue,
        }
    }
}

impl Default for App {
    fn default() -> (r: Self)
        ensures
            r@ == (AppView {
                running: true,
                screen: ScreenView::Picker,
                picker: PickerStateView {
                    sessions: seq![],
                    selected: 0,
                    loading: false,
                    error: None,
                },
            }),
    {
        App::new()
    }
}

impl App {
    /// The picker, with no sessions yet.
    pub fn new() -> (r: Self)
        ensures
            r@ == (AppView {
                running: true,
                screen: ScreenView::Picker,
                picker: PickerStateView {
                    sessions: seq![],
                    selected: 0,
                    loading: false,
                    error: None,
                },
            }),
    {
        App { running: true, screen: Screen::Picker, picker: PickerState::default() }
    }

    /// A key on the picker screen.
    pub fn handle_picker_key(&mut self, key: KeyEvent) -> (r: PickerAction)
        ensures
            ({
                let (picker, action) = picker_step(old(self)@.picker, key);
                final(self)@ == (AppView { picker, ..old(self)@ }) && r == action
            }),
    {
        if !key.pressed {
            return PickerAction::Nothing;
        }
        match key.code {
            KeyCode::Char(c) => {
                if c == 'c' && key.modifiers == CONTROL {
                    PickerAction::Quit
                } else if c == 'q' {
                    PickerAction::Quit
                } else if c == 'k' {
                    self.picker.move_selection(-1);
                    PickerAction::Nothing
                } else if c == 'j' {
                    self.picker.move_selection(1);
                    PickerAction::Nothing
                } else if c == 'r' {
                    PickerAction::Refresh
                } else if c == 'n' {
                    PickerAction::NewSession
                } else {
                    PickerAction::Nothing
                }
            },
            KeyCode::Esc => PickerAction::Quit,
            KeyCode::Up => {
                self.picker.move_selection(-1);
                PickerAction::Nothing
            },
            KeyCode::Down => {
                self.picker.move_selection(1);
                PickerAction::Nothing
            },
            KeyCode::Enter => {
                assert(self@.picker.sessions.len() == self.picker.sessions.len());
                if self.picker.sessions.len() == 0 {
                    PickerAction::Nothing
                } else {
                    PickerAction::Open(self.picker.selected)
                }
            },
            _ => PickerAction::Nothing,
        }
    }

    /// A key on the chat screen.
    pub fn handle_chat_key(&mut self, key: KeyEvent) -> (r: ChatAction)
        ensures
            match old(self)@.screen {
                ScreenView::Picker => final(self)@ == old(self)@ && r@ == ChatActionView::Nothing,
                ScreenView::Chat(chat) => {
                    let (next, action) = chat_step(chat, key);
                    final(self)@ == (AppView { screen: ScreenView::Chat(next), ..old(self)@ })
                        && r@ == action
                },
            },
    {
        match &mut self.screen {
            Screen::Picker => ChatAction::Nothing,
            Screen::Chat(chat) => chat.handle_key(key),
        }
    }

    /// A key on whichever screen is shown.
    pub fn handle_key(&mut self, key: KeyEvent) -> (r: LoopAction)
        ensures
            match old(self)@.screen {
                ScreenView::Picker => {
                    let (picker, action) = picker_step(old(self)@.picker, key);
                    final(self)@ == (AppView { picker, ..old(self)@ }) && r@ == picker_loop(action)
                },
                ScreenView::Chat(chat) => {
                    let (next, action) = chat_step(chat, key);
                    final(self)@ == (AppView { screen: ScreenView::Chat(next), ..old(self)@ })
                        && r@ == chat_loop(action)
                },
            },
    {
        let picking: bool = match &self.screen {
            Screen::Picker => true,
            Screen::Chat(_) => false,
        };
        if picking {
            match self.handle_picker_key(key) {
                PickerAction::Nothing => LoopAction::Nothing,
                PickerAction::Quit => LoopAction::Quit,
                PickerAction::Refresh => LoopAction::RefreshSessions,
                PickerAction::NewSession => LoopAction::NewSession,
                PickerAction::Open(index) => LoopAction::Open(index),
            }
        } else {
            match self.handle_chat_key(key) {
                ChatAction::Nothing => LoopAction::Nothing,
                ChatAction::Quit => LoopAction::Quit,
                ChatAction::Back => LoopAction::Back,
                ChatAction::Cancel => LoopAction::Cancel,
                ChatAction::Send(text) => LoopAction::Send(text),
            }
        }
    }

    /// Apply a streamed response to the chat on the screen.
    pub fn apply_response(&mut self, resp: Response) -> (r: StreamOutcome)
        ensures
            match old(self)@.screen {
                ScreenView::Picker => final(self)@ == old(self)@ && r == StreamOutcome::Continue,
                ScreenView::Chat(chat) => {
                    let (next, outcome) = response_step(chat, resp@);
                    final(self)@ == (AppView { screen: ScreenView::Chat(next), ..old(self)@ })
                        && r == outcome
                },
            },
    {
        match &mut self.screen {
            Screen::Picker => StreamOutcome::Continue,
            Screen::Chat(chat) => chat.handle_response(resp),
        }
    }

    /// Open a session of the picker.
    pub fn open(&mut self, index: usize) -> (r: bool)
        ensures
            r == (index < old(self)@.picker.sessions.len()),
            final(self)@ == (if r {
                let s = old(self)@.picker.sessions[index as int];
                AppView {
                    screen: ScreenView::Chat(ChatStateView::opened(s.id, s.model)),
                    ..old(self)@
                }
            } else {
                old(self)@
            }),
    {
        assert(self@.picker.sessions.len() == self.picker.sessions.len());
        if index >= self.picker.sessions.len() {
            return false;
        }
        assert(self@.picker.sessions[index as int] == self.picker.sessions[index as int]@);
        let chat = ChatState::new(
            self.picker.sessions[index].id.as_str(),
            self.picker.sessions[index].model.as_str(),
        );
        self.screen = Screen::Chat(Box::new(chat));
        true
    }
}

/// What is known of a session that was just created: its id alone.
pub fn new_session_info(session_id: String) -> (r: SessionInfo)
    ensures
        r@ == (SessionInfoView {
            id: session_id@,
            model: seq![],
            provider: seq![],
            cwd: None,
            message_count: 0,
            stats: SessionStats {
                user_messages: 0,
                assistant_messages: 0,
                tool_calls: 0,
                tool_results: 0,
                tokens: TokenStats { input: 0, output: 0, cache_read: 0, cache_write: 0 },
                context_window: 0,
                context_tokens: None,
            },
            state: AgentPhase::Idle,
            created_at: 0,
            last_activity: 0,
            parent_id: None,
            tagline: None,
            archived: false,
            project_name: None,
        }),
{
    let r = SessionInfo {
        id: session_id,
        model: String::new(),
        provider: String::new(),
        cwd: None,
        message_count: 0,
        stats: SessionStats {
            user_messages: 0,
            assistant_messages: 0,
            tool_calls: 0,
            tool_results: 0,
            tokens: TokenStats { input: 0, output: 0, cache_read: 0, cache_write: 0 },
            context_window: 0,
            context_tokens: None,
        },
        state: AgentPhase::Idle,
        created_at: 0,
        last_activity: 0,
        parent_id: None,
        tagline: None,
        archived: false,
        project_name: None,
    };
    assert(r@.model =~= seq![]);
    assert(r@.provider =~= seq![]);
    r
}

// ---------------------------------------------------------------------------
// Laws
// ---------------------------------------------------------------------------

/// Moving the selection by one and back leaves it where it was.
pub proof fn law_moves_cancel(p: PickerStateView)
    requires
        p.selected < p.sessions.len() <= usize::MAX,
    ensures
        p.moved(1).moved(-1) == p,
        p.moved(-1).moved(1) == p,
        p.moved(1).selected < p.sessions.len(),
        p.moved(-1).selected < p.sessions.len(),
{
    let n = p.sessions.len() as int;
    let s = p.selected as int;
    if s + 1 < n {
        vstd::arithmetic::div_mod::lemma_small_mod((s + 1) as nat, n as nat);
        vstd::arithmetic::div_mod::lemma_small_mod(s as nat, n as nat);
    } else {
        vstd::arithmetic::div_mod::lemma_mod_self_0(n);
        vstd::arithmetic::div_mod::lemma_fundamental_div_mod_converse(-1, n, -1, n - 1);
    }
    if s > 0 {
        vstd::arithmetic::div_mod::lemma_small_mod((s - 1) as nat, n as nat);
        vstd::arithmetic::div_mod::lemma_small_mod(s as nat, n as nat);
    } else {
        vstd::arithmetic::div_mod::lemma_fundamental_div_mod_converse(-1, n, -1, n - 1);
        vstd::arithmetic::div_mod::lemma_mod_self_0(n);
    }
}

/// The transcript of a conversation goes on from that of its beginning.
pub proof fn law_transcript_extends(a: Seq<MessageView>, b: Seq<MessageView>, n: int)
    requires
        0 <= n <= b.len(),
    ensures
        transcript(a + b, a.len() + n) == transcript(a, a.len() as int) + transcript(b, n),
    decreases n,
{
    if n == 0 {
        lemma_transcript_prefix(a, b, a.len() as int);
        assert(transcript(a, a.len() as int) + transcript(b, 0) =~= transcript(a, a.len() as int));
    } else {
        law_transcript_extends(a, b, n - 1);
        assert((a + b)[a.len() + n - 1] == b[n - 1]);
        assert(transcript(a + b, a.len() + n) =~= transcript(a, a.len() as int) + transcript(b, n));
    }
}

proof fn lemma_transcript_prefix(a: Seq<MessageView>, b: Seq<MessageView>, n: int)
    requires
        0 <= n <= a.len(),
    ensures
        transcript(a + b, n) == transcript(a, n),
    decreases n,
{
    if n > 0 {
        lemma_transcript_prefix(a, b, n - 1);
        assert((a + b)[n - 1] == a[n - 1]);
    }
}

/// Whether something else than whitespace stands in a text.
pub open spec fn has_ink(text: Seq<char>) -> bool {
    exists|i: int| 0 <= i < text.len() && !crate::text::is_ws(#[trigger] text[i])
}

proof fn lemma_shows(text: Seq<char>)
    ensures
        shows(text) <==> has_ink(text),
{
    let s = crate::text::trim_start(text);
    let t = crate::text::trim_end(s);
    crate::text::law_trim_start(text);
    crate::text::law_trim_end(s);
    if t.len() > 0 {
        let k = text.len() - s.len();
        assert(s[t.len() - 1] == text[k + t.len() - 1]);
    } else if has_ink(text) {
        let i = choose|i: int| 0 <= i < text.len() && !crate::text::is_ws(#[trigger] text[i]);
        let k = text.len() - s.len();
        if i >= k {
            assert(s[i - k] == text[i]);
        }
    }
}

/// A message of the user or of the assistant shows as one line, with all of its text, unless that is
/// blank; a result of a tool, a summary and a notice always show.
pub proof fn law_line_of_a_message(m: MessageView)
    ensures
        match m {
            MessageView::User(u) => {
                &&& line_of(m) is Some <==> has_ink(user_text(u.content))
                &&& line_of(m) is Some ==> line_of(m) == Some(
                    TranscriptLineView::User(user_text(u.content)),
                )
            },
            MessageView::Assistant(a) => {
                &&& line_of(m) is Some <==> has_ink(a.text())
                &&& line_of(m) is Some ==> line_of(m) == Some(
                    TranscriptLineView::Assistant(a.text()),
                )
            },
            MessageView::ToolResult(t) => line_of(m) == Some(
                TranscriptLineView::Tool { name: t.tool_name, is_error: t.is_error },
            ),
            MessageView::CompactionSummary(c) => line_of(m) == Some(
                TranscriptLineView::Summary(c.summary),
            ),
            MessageView::Info(i) => line_of(m) == Some(TranscriptLineView::Info(i.text)),
        },
        transcript(seq![m], 1) == match line_of(m) {
            Some(l) => seq![l],
            None => seq![],
        },
{
    match m {
        MessageView::User(u) => lemma_shows(user_text(u.content)),
        MessageView::Assistant(a) => lemma_shows(a.text()),
        _ => {},
    }
    assert(transcript(seq![m], 0) =~= seq![]);
    assert(transcript(seq![m], 1) =~= match line_of(m) {
        Some(l) => seq![l],
        None => seq![],
    });
}

/// The text of a message of the user is that of its blocks, a line each, with a placeholder for an
/// image.
pub proof fn law_user_text(c: UserContentView, more: Seq<UserContentView>)
    requires
        more.len() > 0,
    ensures
        c matches UserContentView::Text(t) ==> user_text(seq![c]) == t.text,
        c is Image ==> user_text(seq![c]) == "[image]"@,
        user_text(seq![c] + more) == user_text(seq![c]) + "\n"@ + user_text(more),
{
    let rest = Seq::new(more.len(), |i: int| user_part(more[i]));
    let all = seq![c] + more;
    assert(Seq::new(all.len(), |i: int| user_part(all[i])) =~= seq![user_part(c)] + rest);
    let one = seq![c];
    assert(Seq::new(one.len(), |i: int| user_part(one[i])) =~= seq![user_part(c)]);
    crate::text::law_join(seq![user_part(c)], rest, "\n"@);
}

/// No key changes the transcript, the session, or what is streaming; a key that is let go does nothing.
pub proof fn law_keys_leave_the_transcript(c: ChatStateView, key: KeyEvent)
    ensures
        ({
            let after = chat_step(c, key).0;
            &&& after.lines == c.lines
            &&& after.session_id == c.session_id
            &&& after.model == c.model
            &&& after.streaming == c.streaming
            &&& after.thinking == c.thinking
            &&& after.busy == c.busy
            &&& after.error == c.error
        }),
        !key.pressed ==> chat_step(c, key) == (c, ChatActionView::Nothing),
{
}

/// What is typed is what is sent: each character goes to the end of the input, the backspace key takes
/// it off again, and the return key sends the input without blanks around it and clears it, unless it
/// is blank or a turn runs.
pub proof fn law_typing(c: ChatStateView, x: char, shifted: bool)
    ensures
        ({
            let typed = KeyEvent {
                code: KeyCode::Char(x),
                modifiers: if shifted {
                    SHIFT
                } else {
                    0
                },
                pressed: true,
            };
            let back = KeyEvent { code: KeyCode::Backspace, modifiers: 0, pressed: true };
            let enter = KeyEvent { code: KeyCode::Enter, modifiers: 0, pressed: true };
            &&& chat_step(c, typed).0.input == c.input.push(x)
            &&& chat_step(c, typed).1 is Nothing
            &&& chat_step(chat_step(c, typed).0, back).0 == c
            &&& chat_step(c, enter).1 is Send <==> has_ink(c.input) && !c.busy
            &&& chat_step(c, enter).1 matches ChatActionView::Send(t) ==> t == crate::text::trim(
                c.input,
            ) && chat_step(c, enter).0.input.len() == 0
            &&& !(chat_step(c, enter).1 is Send) ==> chat_step(c, enter).0 == c
        }),
{
    lemma_shows(c.input);
    let typed = KeyEvent {
        code: KeyCode::Char(x),
        modifiers: if shifted {
            SHIFT
        } else {
            0
        },
        pressed: true,
    };
    assert(chat_step(c, typed).0.input.drop_last() =~= c.input);
}

/// Escape asks a running turn to stop, and leaves the chat while none runs; control and `c` quit. No
/// other key does any of these.
pub proof fn law_leaving(c: ChatStateView, key: KeyEvent)
    ensures
        ({
            let action = chat_step(c, key).1;
            &&& action is Quit <==> key.pressed && key.code == KeyCode::Char('c') && key.modifiers
                == CONTROL
            &&& action is Cancel <==> key.pressed && key.code is Esc && c.busy
            &&& action is Back <==> key.pressed && key.code is Esc && !c.busy
        }),
{
}

/// Whatever is streamed, no line of the transcript is lost or changed.
pub proof fn law_transcript_only_grows(c: ChatStateView, r: ResponseView)
    ensures
        ({
            let after = response_step(c, r).0;
            &&& after.lines.len() >= c.lines.len()
            &&& after.lines.subrange(0, c.lines.len() as int) == c.lines
            &&& after.input == c.input
            &&& after.session_id == c.session_id
        }),
{
    let after = response_step(c, r).0;
    assert(after.lines.subrange(0, c.lines.len() as int) =~= c.lines);
}

/// A turn is over once the agent is done, was cancelled or failed, and not before; then nothing is shown
/// as streaming, and the next message can be sent.
pub proof fn law_turn_ends(c: ChatStateView, r: ResponseView)
    ensures
        ({
            let (after, outcome) = response_step(c, r);
            &&& outcome is TurnFinished <==> r is AgentDone || r is Cancelled || r is Error
            &&& outcome is TurnFinished ==> !after.busy && after.streaming is None
            &&& r matches ResponseView::Error { message, .. } ==> after.error == Some(message)
            &&& !(outcome is TurnFinished) ==> after.busy == c.busy
        }),
{
}

/// What the assistant writes is shown as it comes in, and its thinking meanwhile. Once it calls a tool,
/// what it wrote stands in the transcript, unless it is blank, with the call behind it.
pub proof fn law_stream_is_shown(c: ChatStateView, e: StreamEventView)
    ensures
        e matches StreamEventView::TextDelta { partial, .. } ==> c.applied(e).streaming == Some(
            partial.text(),
        ),
        e matches StreamEventView::ThinkingDelta { partial, .. } ==> c.applied(e).thinking == Some(
            thinking_of(partial),
        ) && c.applied(e).streaming is None,
        e is ThinkingEnd ==> c.applied(e).thinking is None,
        e matches StreamEventView::ToolcallEnd { tool_call, .. } ==> {
            let call = TranscriptLineView::Tool { name: tool_call.name, is_error: false };
            let after = c.applied(e);
            &&& after.streaming is None
            &&& after.lines == match c.streaming {
                Some(t) => if has_ink(t) {
                    c.lines.push(TranscriptLineView::Assistant(t)).push(call)
                } else {
                    c.lines.push(call)
                },
                None => c.lines.push(call),
            }
        },
        e matches StreamEventView::ToolResult { tool_name, is_error, .. } ==> c.applied(e).lines
            == c.lines.push(TranscriptLineView::Tool { name: tool_name, is_error }),
        e matches StreamEventView::Status { message } ==> c.applied(e).lines == c.lines.push(
            TranscriptLineView::Info(message),
        ),
        e matches StreamEventView::Done { message, .. } ==> has_ink(message.text())
            ==> c.applied(e).lines.last() == TranscriptLineView::Assistant(message.text()),
        e matches StreamEventView::Error { error, .. } ==> c.applied(e).error == Some(
            if error.text().len() > 0 {
                error.text()
            } else {
                "agent turn failed"@
            },
        ),
{
    if let Some(t) = c.streaming {
        lemma_shows(t);
    }
    if let StreamEventView::Done { message, .. } = e {
        lemma_shows(message.text());
    }
}

/// The thinking of a message is that of its thinking blocks, in order.
pub proof fn law_thinking(m: AssistantMessageView, c: AssistantContentView)
    ensures
        ({
            let longer = AssistantMessageView { content: m.content.push(c), ..m };
            thinking_of(longer) == thinking_of(m) + match c {
                AssistantContentView::Thinking(t) => t.thinking,
                _ => Seq::empty(),
            }
        }),
{
    let longer = AssistantMessageView { content: m.content.push(c), ..m };
    let parts = Seq::new(longer.content.len(), |i: int| thinking_part(longer.content[i]));
    assert(parts.subrange(0, parts.len() - 1) =~= Seq::new(
        m.content.len(),
        |i: int| thinking_part(m.content[i]),
    ));
}

/// Scrolling up and down by the same number of lines comes back, unless the offset has reached its
/// largest value.
pub proof fn law_scrolling(scroll: u16, delta: u16)
    ensures
        scroll + delta <= u16::MAX ==> scrolled_down(scrolled_up(scroll, delta), delta) == scroll,
        scrolled_up(scroll, delta) >= scroll,
        scrolled_down(scroll, delta) <= scroll,
        scrolled_down(scroll, scroll) == 0,
{
}

/// The selection is on a session as long as there are any, whatever list arrives; the return key opens
/// the selected one.
pub proof fn law_selection_stays_within(p: PickerStateView, sessions: Seq<SessionInfoView>)
    requires
        sessions.len() <= usize::MAX,
    ensures
        ({
            let after = p.listed(sessions);
            let enter = KeyEvent { code: KeyCode::Enter, modifiers: 0, pressed: true };
            &&& after.sessions == sessions
            &&& !after.loading
            &&& sessions.len() > 0 ==> after.selected < sessions.len()
            &&& p.selected < sessions.len() ==> after.selected == p.selected
            &&& sessions.len() > 0 ==> picker_step(after, enter).1 == PickerAction::Open(
                after.selected,
            )
            &&& sessions.len() == 0 ==> picker_step(after, enter).1 is Nothing
        }),
{
}

/// The row of a session shows its id and its model, and how many messages it has; its tagline stands at
/// the end.
pub proof fn law_label(s: SessionInfoView)
    ensures
        crate::text::starts_with(
            label(s),
            s.id + "  "@ + s.model + "  "@ + crate::text::decimal(s.message_count as nat)
                + " msgs  "@,
        ),
        s.tagline matches Some(t) ==> crate::text::ends_with(label(s), t),
{
    let l = label(s);
    let head = s.id + "  "@ + s.model + "  "@ + crate::text::decimal(s.message_count as nat)
        + " msgs  "@;
    assert(l.subrange(0, head.len() as int) =~= head);
    if let Some(t) = s.tagline {
        assert(l.subrange(l.len() - t.len(), l.len() as int) =~= t);
    }
}

/// What the keys of the picker do: they move the selection, open, renew or create a session, or quit; none
/// of them changes the list.
pub proof fn law_picker_keys(p: PickerStateView, key: KeyEvent)
    ensures
        ({
            let (after, action) = picker_step(p, key);
            let plain = key.pressed && key.modifiers == 0;
            &&& after.sessions == p.sessions
            &&& !key.pressed ==> after == p && action is Nothing
            &&& key.pressed && (key.code is Up || key.code == KeyCode::Char('k')) ==> after
                == p.moved(-1) && action is Nothing
            &&& key.pressed && (key.code is Down || key.code == KeyCode::Char('j')) ==> after
                == p.moved(1) && action is Nothing
            &&& plain ==> (action is Quit <==> key.code is Esc || key.code == KeyCode::Char('q'))
            &&& plain ==> (action is Refresh <==> key.code == KeyCode::Char('r'))
            &&& plain ==> (action is NewSession <==> key.code == KeyCode::Char('n'))
            &&& action is Open ==> key.code is Enter && action == PickerAction::Open(p.selected)
        }),
        picker_loop(PickerAction::Open(p.selected)) == LoopActionView::Open(p.selected),
        picker_loop(PickerAction::Quit) is Quit,
        picker_loop(PickerAction::Refresh) is RefreshSessions,
        picker_loop(PickerAction::NewSession) is NewSession,
{
}

} // verus!
