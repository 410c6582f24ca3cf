//! The server: what is done for each request, and how a connection goes.
//!
//! The database, the sockets and the clock are handled by the caller, which performs each step and
//! hands back what came of it.

use vstd::prelude::*;

use crate::db::{StoredSession, StoredSessionView};
use crate::paths::Paths;
use crate::protocol::{
    ChatAttachment, ChatAttachmentView, ErrorKind, ModelInfo, ModelInfoView, Request, RequestView,
    Response, ResponseView, SessionInfo, SessionInfoView, SessionStats, TokenStats,
};
use crate::strmap::StrMap;
use crate::text::u64_text;
use crate::time::timestamp_ms;
use crate::types::{
    AgentPhase, AssistantContent, AssistantContentView, AssistantMessage, ImageContentView, Message, MessageView, Model,
    ModelCost, ModelView, StreamEvent, TextContent, ThinkingStyle, UserContent, UserContentView,
    UserMessage, UserMessageView,
};

verus! {

/// A stored session, with what else is known of it.
#[derive(Debug)]
pub struct SessionRow {
    pub session: StoredSession,
    /// The number of its messages, where that could be read.
    pub message_count: Option<usize>,
    /// When its last message was stored, in milliseconds since the Unix epoch.
    pub last_message_at: Option<i64>,
    /// What its running turn does, if one is running.
    pub phase: Option<AgentPhase>,
    /// Its messages, oldest first. There are none where they could not be read.
    pub messages: Vec<Message>,
}

/// What a [`SessionRow`] holds.
#[verifier::ext_equal]
pub struct SessionRowView {
    pub session: StoredSessionView,
    pub message_count: Option<usize>,
    pub last_message_at: Option<i64>,
    pub phase: Option<AgentPhase>,
    pub messages: Seq<MessageView>,
}

impl View for SessionRow {
    type V = SessionRowView;

    open spec fn view(&self) -> SessionRowView {
        SessionRowView {
            session: self.session@,
            message_count: self.message_count,
            last_message_at: self.last_message_at,
            phase: self.phase,
            messages: self.messages.deep_view(),
        }
    }
}

impl DeepView for SessionRow {
    type V = SessionRowView;

    open spec fn deep_view(&self) -> SessionRowView {
        self@
    }
}

/// What the server does for a request.
#[derive(Debug)]
pub enum ServerStep {
    /// Answer at once.
    Reply(Response),
    /// Store a session.
    CreateSession(StoredSession),
    /// Read all sessions, and list them without the archived ones unless those are asked for.
    ListSessions { include_archived: bool },
    /// Read a session.
    FindSession { session_id: String },
    /// Read a session's messages.
    LoadMessages { session_id: String },
    /// Mark a session as archived.
    ArchiveSession { session_id: String },
    /// Store another model for a session.
    StoreModel { session_id: String, model: Model },
    /// Store a message of the user, tell the subscribers, answer, and run the agent.
    StartTurn { session_id: String, message: Message, notice: Response, reply: Response },
    /// Ask the running turn of a session to stop, and answer.
    CancelTurn { session_id: String, reply: Response },
}

/// What a [`ServerStep`] holds.
#[verifier::ext_equal]
pub enum ServerStepView {
    Reply(ResponseView),
    CreateSession(StoredSessionView),
    ListSessions { include_archived: bool },
    FindSession { session_id: Seq<char> },
    LoadMessages { session_id: Seq<char> },
    ArchiveSession { session_id: Seq<char> },
    StoreModel { session_id: Seq<char>, model: ModelView },
    StartTurn { session_id: Seq<char>, message: MessageView, notice: ResponseView, reply: ResponseView },
    CancelTurn { session_id: Seq<char>, reply: ResponseView },
}

impl View for ServerStep {
    type V = ServerStepView;

    open spec fn view(&self) -> ServerStepView {
        match *self {
            ServerStep::Reply(x) => ServerStepView::Reply(x@),
            ServerStep::CreateSession(x) => ServerStepView::CreateSession(x@),
            ServerStep::ListSessions { include_archived } => ServerStepView::ListSessions { include_archived: include_archived },
            ServerStep::FindSession { session_id } => ServerStepView::FindSession { session_id: session_id@ },
            ServerStep::LoadMessages { session_id } => ServerStepView::LoadMessages { session_id: session_id@ },
            ServerStep::ArchiveSession { session_id } => ServerStepView::ArchiveSession { session_id: session_id@ },
            ServerStep::StoreModel { session_id, model } => ServerStepView::StoreModel { session_id: session_id@, model: model@ },
            ServerStep::StartTurn { session_id, message, notice, reply } => ServerStepView::StartTurn { session_id: session_id@, message: message@, notice: notice@, reply: reply@ },
            ServerStep::CancelTurn { session_id, reply } => ServerStepView::CancelTurn { session_id: session_id@, reply: reply@ },
        }
    }
}

impl DeepView for ServerStep {
    type V = ServerStepView;

    open spec fn deep_view(&self) -> ServerStepView {
        self@
    }
}

/// What was written to a connection.
#[derive(Debug, Clone, Copy, PartialEq, Eq, Structural)]
pub enum Written {
    /// The answer to a request.
    Answer,
    /// The answer to a line that is no request.
    ParseError,
    /// The acknowledgement of a subscription.
    Acknowledgement,
    /// Something for all subscribers.
    Notice,
}

/// What happens on a connection.
#[derive(Debug)]
pub enum ConnectionEvent {
    /// A request was read.
    Received(Request),
    /// A line was read that is no request, for this reason.
    Malformed(String),
    /// The server has something for all subscribers.
    Broadcast(Response),
    /// What was written last did not go through.
    WriteFailed(Written),
    /// There is nothing more to read.
    Closed,
}

/// What a [`ConnectionEvent`] holds.
#[verifier::ext_equal]
pub enum ConnectionEventView {
    Received(RequestView),
    Malformed(Seq<char>),
    Broadcast(ResponseView),
    WriteFailed(Written),
    Closed,
}

impl View for ConnectionEvent {
    type V = ConnectionEventView;

    open spec fn view(&self) -> ConnectionEventView {
        match *self {
            ConnectionEvent::Received(x) => ConnectionEventView::Received(x@),
            ConnectionEvent::Malformed(x) => ConnectionEventView::Malformed(x@),
            ConnectionEvent::Broadcast(x) => ConnectionEventView::Broadcast(x@),
            ConnectionEvent::WriteFailed(x) => ConnectionEventView::WriteFailed(x),
            ConnectionEvent::Closed => ConnectionEventView::Closed,
        }
    }
}

impl DeepView for ConnectionEvent {
    type V = ConnectionEventView;

    open spec fn deep_view(&self) -> ConnectionEventView {
        self@
    }
}

/// What the handler of a connection does.
#[derive(Debug, PartialEq)]
pub enum ConnectionAction {
    /// Serve a request, and write the answer.
    Serve(Request),
    /// Write a response.
    Write(Response),
    /// Write an acknowledgement, then what was kept for the session.
    Subscribe { session_id: String },
    /// Wait for the next event.
    Wait,
    /// Close the connection.
    Close,
}

/// What a [`ConnectionAction`] holds.
#[verifier::ext_equal]
pub enum ConnectionActionView {
    Serve(RequestView),
    Write(ResponseView),
    Subscribe { session_id: Seq<char> },
    Wait,
    Close,
}

impl View for ConnectionAction {
    type V = ConnectionActionView;

    open spec fn view(&self) -> ConnectionActionView {
        match *self {
            ConnectionAction::Serve(x) => ConnectionActionView::Serve(x@),
            ConnectionAction::Write(x) => ConnectionActionView::Write(x@),
            ConnectionAction::Subscribe { session_id } => ConnectionActionView::Subscribe { session_id: session_id@ },
            ConnectionAction::Wait => ConnectionActionView::Wait,
            ConnectionAction::Close => ConnectionActionView::Close,
        }
    }
}

impl DeepView for ConnectionAction {
    type V = ConnectionActionView;

    open spec fn deep_view(&self) -> ConnectionActionView {
        self@
    }
}

// ---------------------------------------------------------------------------
// Requests
// ---------------------------------------------------------------------------

/// A time in milliseconds as one in seconds.
pub open spec fn seconds(ms: i64) -> i64 {
    (ms as int / 1000) as i64
}

/// A time in milliseconds as one in seconds.
fn to_seconds(ms: i64) -> (r: i64)
    ensures
        r == seconds(ms),
{
    if ms >= 0 {
        ms / 1000
    } else {
        -1 - (-1 - ms) / 1000
    }
}

/// When something last happened in a session: its last message, or its creation.
pub open spec fn last_active(row: SessionRowView) -> i64 {
    match row.last_message_at {
        Some(t) => t,
        None => row.session.created_at,
    }
}

/// One of the figures that are summed up over the messages of a session.
pub enum Figure {
    UserMessages,
    AssistantMessages,
    ToolCalls,
    ToolResults,
    Input,
    Output,
    CacheRead,
    CacheWrite,
}

/// What a message adds to a figure.
pub open spec fn figure(message: MessageView, what: Figure) -> nat {
    match (what, message) {
        (Figure::UserMessages, MessageView::User(_)) => 1,
        (Figure::AssistantMessages, MessageView::Assistant(_)) => 1,
        (Figure::ToolCalls, MessageView::Assistant(a)) => crate::agent::tool_calls(a.content).len(),
        (Figure::ToolResults, MessageView::ToolResult(_)) => 1,
        (Figure::Input, MessageView::Assistant(a)) => a.usage.input as nat,
        (Figure::Output, MessageView::Assistant(a)) => a.usage.output as nat,
        (Figure::CacheRead, MessageView::Assistant(a)) => a.usage.cache_read as nat,
        (Figure::CacheWrite, MessageView::Assistant(a)) => a.usage.cache_write as nat,
        _ => 0,
    }
}

/// A figure over the messages of a session.
pub open spec fn total(messages: Seq<MessageView>, what: Figure) -> nat
    decreases messages.len(),
{
    if messages.len() == 0 {
        0
    } else {
        total(messages.drop_last(), what) + figure(messages.last(), what)
    }
}

/// A count as a `usize`, which holds the largest where the count exceeds it.
pub open spec fn as_count(n: nat) -> usize {
    if n <= usize::MAX {
        n as usize
    } else {
        usize::MAX
    }
}

/// A number of tokens as a `u64`, which holds the largest where the number exceeds it.
pub open spec fn as_tokens(n: nat) -> u64 {
    if n <= u64::MAX {
        n as u64
    } else {
        u64::MAX
    }
}

/// The input tokens of the last assistant message, if there is one.
pub open spec fn last_input(messages: Seq<MessageView>) -> Option<u64>
    decreases messages.len(),
{
    if messages.len() == 0 {
        None
    } else {
        match messages.last() {
            MessageView::Assistant(a) => Some(a.usage.input),
            _ => last_input(messages.drop_last()),
        }
    }
}

/// What has been used in a session: sums over its messages, and the context that the last
/// assistant message took.
pub open spec fn stats_of(messages: Seq<MessageView>, context_window: u64) -> SessionStats {
    SessionStats {
        user_messages: as_count(total(messages, Figure::UserMessages)),
        assistant_messages: as_count(total(messages, Figure::AssistantMessages)),
        tool_calls: as_count(total(messages, Figure::ToolCalls)),
        tool_results: as_count(total(messages, Figure::ToolResults)),
        tokens: TokenStats {
            input: as_tokens(total(messages, Figure::Input)),
            output: as_tokens(total(messages, Figure::Output)),
            cache_read: as_tokens(total(messages, Figure::CacheRead)),
            cache_write: as_tokens(total(messages, Figure::CacheWrite)),
        },
        context_window,
        context_tokens: last_input(messages),
    }
}

/// A count with more added to it.
fn add_count(n: usize, more: usize) -> (r: usize)
    ensures
        r == as_count((n + more) as nat),
{
    if more <= usize::MAX - n {
        n + more
    } else {
        usize::MAX
    }
}

/// A number of tokens with more added to it.
fn add_tokens(n: u64, more: u64) -> (r: u64)
    ensures
        r == as_tokens((n + more) as nat),
{
    if more <= u64::MAX - n {
        n + more
    } else {
        u64::MAX
    }
}

/// The number of tool calls in an assistant message.
fn count_calls(message: &AssistantMessage) -> (r: usize)
    ensures
        r == crate::agent::tool_calls(message@.content).len(),
{
    let ghost all = message@.content;
    let mut n: usize = 0;
    let mut i: usize = 0;
    assert(all.subrange(0, 0) =~= seq![]);
    while i < message.content.len()
        invariant
            all == message@.content,
            all.len() == message.content.len(),
            n <= i <= message.content.len(),
            n == crate::agent::tool_calls(all.subrange(0, i as int)).len(),
        decreases message.content.len() - i,
    {
        let ghost upto = all.subrange(0, i + 1);
        assert(upto.subrange(0, upto.len() - 1) =~= all.subrange(0, i as int));
        assert(upto.last() == message.content[i as int]@);
        if let AssistantContent::ToolCall(_) = &message.content[i] {
            n = n + 1;
        }
        i = i + 1;
    }
    assert(all.subrange(0, i as int) =~= all);
    n
}

/// What has been used in a session, once one more message is counted in.
fn count_message(stats: SessionStats, message: &Message) -> (r: SessionStats)
    ensures
        forall|before: Seq<MessageView>|
            stats == #[trigger] stats_of(before, stats.context_window) ==> r == stats_of(
                before.push(message@),
                stats.context_window,
            ),
{
    let mut r: SessionStats = stats;
    match message {
        Message::User(_) => {
            r.user_messages = add_count(r.user_messages, 1);
        },
        Message::Assistant(a) => {
            r.assistant_messages = add_count(r.assistant_messages, 1);
            r.tool_calls = add_count(r.tool_calls, count_calls(a));
            r.tokens.input = add_tokens(r.tokens.input, a.usage.input);
            r.tokens.output = add_tokens(r.tokens.output, a.usage.output);
            r.tokens.cache_read = add_tokens(r.tokens.cache_read, a.usage.cache_read);
            r.tokens.cache_write = add_tokens(r.tokens.cache_write, a.usage.cache_write);
            r.context_tokens = Some(a.usage.input);
        },
        Message::ToolResult(_) => {
            r.tool_results = add_count(r.tool_results, 1);
        },
        Message::CompactionSummary(_) => {},
        Message::Info(_) => {},
    }
    assert forall|before: Seq<MessageView>|
        stats == #[trigger] stats_of(before, stats.context_window) implies r == stats_of(
        before.push(message@),
        stats.context_window,
    ) by {
        assert(before.push(message@).drop_last() =~= before);
    }
    r
}

/// What has been used in a session.
pub fn session_stats(messages: &Vec<Message>, context_window: u64) -> (r: SessionStats)
    ensures
        r == stats_of(messages.deep_view(), context_window),
{
    let ghost all = messages.deep_view();
    let mut stats: SessionStats = SessionStats::default();
    stats.context_window = context_window;
    let mut i: usize = 0;
    assert(all.subrange(0, 0) =~= seq![]);
    while i < messages.len()
        invariant
            all == messages.deep_view(),
            i <= messages.len(),
            stats == stats_of(all.subrange(0, i as int), context_window),
        decreases messages.len() - i,
    {
        stats = count_message(stats, &messages[i]);
        assert(all.subrange(0, i + 1) =~= all.subrange(0, i as int).push(messages[i as int]@));
        i = i + 1;
    }
    assert(all.subrange(0, i as int) =~= all);
    stats
}

/// The statistics of a session are cumulative: a message that is added to it adds its own figures
/// and takes nothing away.
pub proof fn law_stats_are_cumulative(messages: Seq<MessageView>, message: MessageView, window: u64)
    ensures
        forall|what: Figure| #[trigger]
            total(messages.push(message), what) == total(messages, what) + figure(message, what),
        ({
            let before = stats_of(messages, window);
            let after = stats_of(messages.push(message), window);
            &&& after.user_messages >= before.user_messages
            &&& after.assistant_messages >= before.assistant_messages
            &&& after.tool_calls >= before.tool_calls
            &&& after.tool_results >= before.tool_results
            &&& after.tokens.input >= before.tokens.input
            &&& after.tokens.output >= before.tokens.output
            &&& after.tokens.cache_read >= before.tokens.cache_read
            &&& after.tokens.cache_write >= before.tokens.cache_write
            &&& after.context_tokens == match message {
                MessageView::Assistant(a) => Some(a.usage.input),
                _ => before.context_tokens,
            }
        }),
{
    assert(messages.push(message).drop_last() =~= messages);
}

/// What clients are told of a stored session.
pub open spec fn info_of(row: SessionRowView) -> SessionInfoView {
    let s = row.session;
    SessionInfoView {
        id: s.id,
        model: s.model.id,
        provider: s.model.provider,
        cwd: s.cwd,
        message_count: count_or_zero(row.message_count),
        stats: stats_of(row.messages, s.model.context_window),
        state: match row.phase {
            Some(p) => p,
            None => AgentPhase::Idle,
        },
        created_at: seconds(s.created_at),
        last_activity: seconds(last_active(row)),
        parent_id: s.parent_id,
        tagline: s.tagline,
        archived: s.archived,
        project_name: None,
    }
}

/// A count, or zero where it is unknown.
pub open spec fn count_or_zero(count: Option<usize>) -> usize {
    match count {
        Some(n) => n,
        None => 0,
    }
}

/// What clients are told of a stored session.
pub fn make_session_info(row: &SessionRow) -> (r: SessionInfo)
    ensures
        r@ == info_of(row@),
{
    let stored = &row.session;
    let message_count: usize = match row.message_count {
        Some(n) => n,
        None => 0,
    };
    let last_activity: i64 = match row.last_message_at {
        Some(t) => t,
        None => stored.created_at,
    };
    let state: AgentPhase = match row.phase {
        Some(p) => p,
        None => AgentPhase::Idle,
    };
    SessionInfo {
        id: stored.id.clone(),
        model: stored.model.id.clone(),
        provider: stored.model.provider.clone(),
        cwd: stored.cwd.clone(),
        message_count,
        stats: session_stats(&row.messages, stored.model.context_window),
        state,
        created_at: to_seconds(stored.created_at),
        last_activity: to_seconds(last_activity),
        parent_id: stored.parent_id.clone(),
        tagline: stored.tagline.clone(),
        archived: stored.archived,
        project_name: None,
    }
}

/// A model of the mock provider.
pub open spec fn mock_info(id: Seq<char>, name: Seq<char>) -> ModelInfoView {
    ModelInfoView {
        id,
        name,
        provider: "mock"@,
        thinking: ThinkingStyle::Off,
        context_window: 100_000,
        max_tokens: 4096,
    }
}

/// A model of the mock provider.
pub fn mock_model_info(id: &str, name: &str) -> (r: ModelInfo)
    ensures
        r@ == mock_info(id@, name@),
{
    ModelInfo {
        id: id.to_owned(),
        name: name.to_owned(),
        provider: "mock".to_owned(),
        thinking: ThinkingStyle::Off,
        context_window: 100_000,
        max_tokens: 4096,
    }
}

/// A model of the mock provider, as sessions have it.
pub open spec fn session_model(id: Seq<char>, name: Seq<char>) -> ModelView {
    ModelView {
        id,
        name,
        api: "mock"@,
        provider: "mock"@,
        base_url: "http://mock"@,
        thinking: ThinkingStyle::Off,
        cost: ModelCost { input: 0, output: 0, cache_read: 0, cache_write: 0 },
        context_window: 100_000,
        max_tokens: 4096,
        headers: seq![],
    }
}

/// A text, or another one where there is none.
pub open spec fn text_or(t: Option<Seq<char>>, other: Seq<char>) -> Seq<char> {
    match t {
        Some(x) => x,
        None => other,
    }
}

/// A model of the mock provider, as sessions have it.
fn make_model(id: String, name: &str) -> (r: Model)
    ensures
        r@ == session_model(id@, name@),
{
    let model = Model {
        id,
        name: name.to_owned(),
        api: "mock".to_owned(),
        provider: "mock".to_owned(),
        base_url: "http://mock".to_owned(),
        thinking: ThinkingStyle::Off,
        cost: ModelCost::default(),
        context_window: 100_000,
        max_tokens: 4096,
        headers: Vec::new(),
    };
    assert(model@.headers =~= seq![]);
    model
}

/// The session that a request creates at a time. A model and a directory that are not given are
/// filled in.
pub open spec fn new_session(
    model: Option<Seq<char>>,
    system_prompt: Option<Seq<char>>,
    cwd: Option<Seq<char>>,
    parent_id: Option<Seq<char>>,
    tagline: Option<Seq<char>>,
    named_at: u64,
    created_at: u64,
) -> StoredSessionView {
    StoredSessionView {
        id: "s"@ + crate::text::decimal(named_at as nat),
        model: session_model(text_or(model, "mock-model"@), "Mock"@),
        system_prompt: Some(text_or(system_prompt, "default system"@)),
        cwd: Some(text_or(cwd, "/tmp"@)),
        created_at: created_at as i64,
        parent_id,
        tagline,
        archived: false,
    }
}

/// The content of a chat message: its text, then its attachments.
pub open spec fn chat_content(text: Seq<char>, attachments: Seq<ChatAttachmentView>) -> Seq<
    UserContentView,
> {
    seq![UserContentView::Text(crate::types::plain_text(text))] + Seq::new(
        attachments.len(),
        |i: int| attached(attachments[i]),
    )
}

/// The block for an attachment.
pub open spec fn attached(a: ChatAttachmentView) -> UserContentView {
    match a {
        ChatAttachmentView::Image { data, mime_type } => UserContentView::Image(
            ImageContentView { data, mime_type },
        ),
    }
}

/// What is done for a request, with the clock at two times.
pub open spec fn planned(request: RequestView, first: u64, second: u64) -> ServerStepView {
    match request {
        RequestView::CreateSession { model, system_prompt, cwd, parent_id, tagline, .. } =>
            ServerStepView::CreateSession(
            new_session(model, system_prompt, cwd, parent_id, tagline, first, second),
        ),
        RequestView::ListSessions { include_archived } => ServerStepView::ListSessions {
            include_archived,
        },
        RequestView::GetSessionInfo { session_id } => ServerStepView::FindSession { session_id },
        RequestView::GetMessages { session_id } => ServerStepView::LoadMessages { session_id },
        RequestView::ArchiveSession { session_id } => ServerStepView::ArchiveSession { session_id },
        RequestView::ListModels => ServerStepView::Reply(
            ResponseView::Models { models: seq![mock_info("mock-model"@, "Mock"@)] },
        ),
        RequestView::SetModel { session_id, model_id } => ServerStepView::StoreModel {
            session_id,
            model: session_model(model_id, model_id),
        },
        RequestView::Chat { session_id, text, attachments } => ServerStepView::StartTurn {
            session_id,
            message: MessageView::User(
                UserMessageView { content: chat_content(text, attachments), timestamp: first },
            ),
            notice: ResponseView::UserMessage { text },
            reply: ResponseView::Ack,
        },
        RequestView::Subscribe { .. } => ServerStepView::Reply(ResponseView::Ack),
        RequestView::CancelChat { session_id } => ServerStepView::CancelTurn {
            session_id,
            reply: ResponseView::Cancelled,
        },
    }
}

/// The content of a chat message.
fn make_content(text: &str, attachments: &Vec<ChatAttachment>) -> (r: Vec<UserContent>)
    ensures
        r.deep_view() == chat_content(text@, attachments.deep_view()),
{
    let ghost all = attachments.deep_view();
    let mut content: Vec<UserContent> = vec![
        UserContent::Text(TextContent::plain(text.to_owned())),
    ];
    let mut i: usize = 0;
    while i < attachments.len()
        invariant
            i <= attachments.len(),
            all == attachments.deep_view(),
            content.len() == i + 1,
            content@[0]@ == UserContentView::Text(crate::types::plain_text(text@)),
            forall|j: int| 0 < j <= i ==> (#[trigger] content@[j])@ == attached(all[j - 1]),
        decreases attachments.len() - i,
    {
        assert(all[i as int] == attachments[i as int]@);
        content.push(attachments[i].to_user_content());
        i = i + 1;
    }
    assert(content.deep_view() =~= chat_content(text@, all));
    content
}

/// What is done for a request, with the clock at two times.
pub fn plan_request(request: Request, first: u64, second: u64) -> (r: ServerStep)
    ensures
        r@ == planned(request@, first, second),
{
    match request {
        Request::CreateSession { model, system_prompt, cwd, parent_id, tagline, .. } => {
            let mut id: String = "s".to_owned();
            id.append(u64_text(first).as_str());
            let model_id: String = match model {
                Some(m) => m,
                None => "mock-model".to_owned(),
            };
            let prompt: String = match system_prompt {
                Some(p) => p,
                None => "default system".to_owned(),
            };
            let dir: String = match cwd {
                Some(d) => d,
                None => "/tmp".to_owned(),
            };
            ServerStep::CreateSession(
                StoredSession {
                    id,
                    model: make_model(model_id, "Mock"),
                    system_prompt: Some(prompt),
                    cwd: Some(dir),
                    created_at: second as i64,
                    parent_id,
                    tagline,
                    archived: false,
                },
            )
        },
        Request::ListSessions { include_archived } => ServerStep::ListSessions { include_archived },
        Request::GetSessionInfo { session_id } => ServerStep::FindSession { session_id },
        Request::GetMessages { session_id } => ServerStep::LoadMessages { session_id },
        Request::ArchiveSession { session_id } => ServerStep::ArchiveSession { session_id },
        Request::ListModels => {
            let models: Vec<ModelInfo> = vec![mock_model_info("mock-model", "Mock")];
            assert(models.deep_view() =~= seq![mock_info("mock-model"@, "Mock"@)]);
            ServerStep::Reply(Response::Models { models })
        },
        Request::SetModel { session_id, model_id } => {
            let name: String = model_id.clone();
            ServerStep::StoreModel { session_id, model: make_model(model_id, name.as_str()) }
        },
        Request::Chat { session_id, text, attachments } => {
            let content = make_content(text.as_str(), &attachments);
            ServerStep::StartTurn {
                session_id,
                message: Message::User(UserMessage { content, timestamp: first }),
                notice: Response::UserMessage { text },
                reply: Response::Ack,
            }
        },
        Request::Subscribe { .. } => ServerStep::Reply(Response::Ack),
        Request::CancelChat { session_id } => ServerStep::CancelTurn {
            session_id,
            reply: Response::Cancelled,
        },
    }
}

/// What is done for a request now.
pub fn dispatch(request: Request) -> (r: ServerStep)
    ensures
        exists|first: u64, second: u64| r@ == #[trigger] planned(request@, first, second),
{
    let ghost asked = request@;
    let first: u64 = timestamp_ms();
    let second: u64 = timestamp_ms();
    let r = plan_request(request, first, second);
    assert(r@ == planned(asked, first, second));
    r
}

// ---------------------------------------------------------------------------
// Answers
// ---------------------------------------------------------------------------

/// What clients are told of a model.
pub open spec fn described(m: ModelView) -> ModelInfoView {
    ModelInfoView {
        id: m.id,
        name: m.name,
        provider: m.provider,
        thinking: m.thinking,
        context_window: m.context_window,
        max_tokens: m.max_tokens,
    }
}

/// The answer to a request that the database failed.
pub open spec fn failure(message: Seq<char>) -> ResponseView {
    ResponseView::Error { kind: ErrorKind::Internal, message }
}

fn fail(message: String) -> (r: Response)
    ensures
        r@ == failure(message@),
{
    Response::Error { kind: ErrorKind::Internal, message }
}

/// The answer once a session was stored, or was not.
pub fn session_created(
    session: &StoredSession,
    stored: core::result::Result<(), String>,
) -> (r: Response)
    ensures
        r@ == (match stored {
            Ok(_) => ResponseView::SessionCreated { session_id: session@.id },
            Err(e) => failure(e@),
        }),
{
    match stored {
        Ok(_) => Response::SessionCreated { session_id: session.id.clone() },
        Err(e) => fail(e),
    }
}

/// What clients are told of the first `n` sessions: of all of them, or of those that are not
/// archived.
pub open spec fn listing(rows: Seq<SessionRowView>, include_archived: bool, n: int) -> Seq<
    SessionInfoView,
>
    decreases n,
{
    if n <= 0 {
        seq![]
    } else {
        let init = listing(rows, include_archived, n - 1);
        if include_archived || !rows[n - 1].session.archived {
            init.push(info_of(rows[n - 1]))
        } else {
            init
        }
    }
}

/// The answer once all sessions were read, or were not.
pub fn sessions_listed(
    found: core::result::Result<Vec<SessionRow>, String>,
    include_archived: bool,
) -> (r: Response)
    ensures
        r@ == (match found {
            Ok(rows) => ResponseView::Sessions {
                sessions: listing(
                    rows.deep_view(),
                    include_archived,
                    rows.deep_view().len() as int,
                ),
            },
            Err(e) => failure(e@),
        }),
{
    match found {
        Ok(rows) => {
            let ghost all = rows.deep_view();
            let mut infos: Vec<SessionInfo> = Vec::new();
            let mut i: usize = 0;
            assert(infos.deep_view() =~= seq![]);
            while i < rows.len()
                invariant
                    i <= rows.len(),
                    all == rows.deep_view(),
                    infos.deep_view() == listing(all, include_archived, i as int),
                decreases rows.len() - i,
            {
                assert(all[i as int] == rows[i as int]@);
                let ghost before = infos.deep_view();
                if include_archived || !rows[i].session.archived {
                    let info = make_session_info(&rows[i]);
                    infos.push(info);
                    assert(infos.deep_view() =~= before.push(info@));
                }
                i = i + 1;
            }
            Response::Sessions { sessions: infos }
        },
        Err(e) => fail(e),
    }
}

/// The answer once a session was looked for. One that does not exist is reported as such.
pub fn session_found(
    session_id: &str,
    found: core::result::Result<Option<SessionRow>, String>,
) -> (r: Response)
    ensures
        r@ == (match found {
            Ok(Some(row)) => ResponseView::SessionInfo {
                info: info_of(row@),
            },
            Ok(None) => ResponseView::Error {
                kind: ErrorKind::NotFound,
                message: "session "@ + session_id@ + " not found"@,
            },
            Err(e) => failure(e@),
        }),
{
    match found {
        Ok(Some(row)) => Response::SessionInfo { info: make_session_info(&row) },
        Ok(None) => {
            let mut message: String = "session ".to_owned();
            message.append(session_id);
            message.append(" not found");
            Response::Error { kind: ErrorKind::NotFound, message }
        },
        Err(e) => fail(e),
    }
}

/// The answer once the messages of a session were read, or were not.
pub fn messages_loaded(found: core::result::Result<Vec<Message>, String>) -> (r: Response)
    ensures
        r@ == (match found {
            Ok(messages) => ResponseView::Messages { messages: messages.deep_view() },
            Err(e) => failure(e@),
        }),
{
    match found {
        Ok(messages) => Response::Messages { messages },
        Err(e) => fail(e),
    }
}

/// The answer once another model was stored for a session, or was not.
pub fn model_stored(model: &Model, stored: core::result::Result<(), String>) -> (r: Response)
    ensures
        r@ == (match stored {
            Ok(_) => ResponseView::ModelChanged { model: described(model@) },
            Err(e) => failure(e@),
        }),
{
    match stored {
        Ok(_) => Response::ModelChanged {
            model: ModelInfo {
                id: model.id.clone(),
                name: model.name.clone(),
                provider: model.provider.clone(),
                thinking: model.thinking,
                context_window: model.context_window,
                max_tokens: model.max_tokens,
            },
        },
        Err(e) => fail(e),
    }
}

/// The answer once a session was archived, or was not.
pub fn session_archived(archived: core::result::Result<(), String>) -> (r: Response)
    ensures
        r@ == (match archived {
            Ok(_) => ResponseView::SessionArchived,
            Err(e) => failure(e@),
        }),
{
    match archived {
        Ok(_) => Response::SessionArchived,
        Err(e) => fail(e),
    }
}

// ---------------------------------------------------------------------------
// Connections
// ---------------------------------------------------------------------------

/// How a connection is used.
#[derive(Debug, Clone, Copy, PartialEq, Eq, Structural)]
pub enum ConnectionMode {
    /// Requests are answered one by one.
    Serving,
    /// Whatever the server has for all subscribers is passed on; requests are ignored.
    Subscribed,
}

/// What the handler does for an event, and how the connection is used from then on. Nothing comes
/// between a request and its answer: what is broadcast goes to subscribed connections only. A
/// connection on which an answer or a broadcast cannot be written is closed; where that befalls a
/// parse error or an acknowledgement, it is read from again.
pub open spec fn connection_step(mode: ConnectionMode, event: ConnectionEventView) -> (
    ConnectionMode,
    ConnectionActionView,
) {
    match event {
        ConnectionEventView::Closed => (mode, ConnectionActionView::Close),
        ConnectionEventView::WriteFailed(what) => if what == Written::ParseError || what
            == Written::Acknowledgement {
            (mode, ConnectionActionView::Wait)
        } else {
            (mode, ConnectionActionView::Close)
        },
        ConnectionEventView::Broadcast(response) => if mode == ConnectionMode::Subscribed {
            (mode, ConnectionActionView::Write(response))
        } else {
            (mode, ConnectionActionView::Wait)
        },
        ConnectionEventView::Received(request) => if mode == ConnectionMode::Subscribed {
            (mode, ConnectionActionView::Wait)
        } else {
            match request {
                RequestView::Subscribe { session_id } => (
                    ConnectionMode::Subscribed,
                    ConnectionActionView::Subscribe { session_id },
                ),
                _ => (mode, ConnectionActionView::Serve(request)),
            }
        },
        ConnectionEventView::Malformed(message) => if mode == ConnectionMode::Subscribed {
            (mode, ConnectionActionView::Wait)
        } else {
            (
                mode,
                ConnectionActionView::Write(
                    ResponseView::Error { kind: ErrorKind::Parse, message },
                ),
            )
        },
    }
}

/// What the handler of a connection does for an event.
pub fn handle_connection(mode: &mut ConnectionMode, event: ConnectionEvent) -> (r: ConnectionAction)
    ensures
        (*final(mode), r@) == connection_step(*old(mode), event@),
{
    match event {
        ConnectionEvent::Closed => ConnectionAction::Close,
        ConnectionEvent::WriteFailed(what) => {
            if what == Written::ParseError || what == Written::Acknowledgement {
                ConnectionAction::Wait
            } else {
                ConnectionAction::Close
            }
        },
        ConnectionEvent::Broadcast(response) => {
            if *mode == ConnectionMode::Subscribed {
                ConnectionAction::Write(response)
            } else {
                ConnectionAction::Wait
            }
        },
        ConnectionEvent::Received(request) => {
            if *mode == ConnectionMode::Subscribed {
                return ConnectionAction::Wait;
            }
            match request {
                Request::Subscribe { session_id } => {
                    *mode = ConnectionMode::Subscribed;
                    ConnectionAction::Subscribe { session_id }
                },
                other => ConnectionAction::Serve(other),
            }
        },
        ConnectionEvent::Malformed(message) => {
            if *mode == ConnectionMode::Subscribed {
                ConnectionAction::Wait
            } else {
                ConnectionAction::Write(Response::Error { kind: ErrorKind::Parse, message })
            }
        },
    }
}

/// A connection that is not subscribed writes only answers, one for each line that it reads: a
/// request is served, and anything else is answered with a parse error.
pub proof fn law_every_line_is_answered(event: ConnectionEventView)
    requires
        event is Received || event is Malformed,
    ensures
        ({
            let action = connection_step(ConnectionMode::Serving, event).1;
            match event {
                ConnectionEventView::Received(RequestView::Subscribe { session_id }) => action
                    == (ConnectionActionView::Subscribe { session_id }),
                ConnectionEventView::Received(request) => action == ConnectionActionView::Serve(
                    request,
                ),
                ConnectionEventView::Malformed(message) => action == ConnectionActionView::Write(
                    ResponseView::Error { kind: ErrorKind::Parse, message },
                ),
                _ => false,
            }
        }),
{
}

/// Nothing that is broadcast comes between a request and its answer.
pub proof fn law_broadcasts_wait_for_subscription(response: ResponseView)
    ensures
        connection_step(ConnectionMode::Serving, ConnectionEventView::Broadcast(response)) == (
            ConnectionMode::Serving,
            ConnectionActionView::Wait,
        ),
{
}

/// An archived session is listed, and marked as such, exactly where archived ones are asked for;
/// any other session is listed in either case.
pub proof fn law_archived_sessions_on_request(
    rows: Seq<SessionRowView>,
    include_archived: bool,
    i: int,
)
    requires
        0 <= i < rows.len(),
    ensures
        include_archived || !rows[i].session.archived ==> listing(
            rows,
            include_archived,
            rows.len() as int,
        ).contains(info_of(rows[i])),
        info_of(rows[i]).archived == rows[i].session.archived,
        forall|k: int|
            0 <= k < listing(rows, include_archived, rows.len() as int).len() ==> include_archived
                || !(#[trigger] listing(rows, include_archived, rows.len() as int)[k]).archived,
{
    lemma_listing(rows, include_archived, rows.len() as int);
}

proof fn lemma_listing(rows: Seq<SessionRowView>, include_archived: bool, n: int)
    requires
        0 <= n <= rows.len(),
    ensures
        forall|i: int|
            0 <= i < n && (include_archived || !(#[trigger] rows[i]).session.archived) ==> listing(
                rows,
                include_archived,
                n,
            ).contains(info_of(rows[i])),
        forall|k: int|
            0 <= k < listing(rows, include_archived, n).len() ==> include_archived || !(
            #[trigger] listing(rows, include_archived, n)[k]).archived,
    decreases n,
{
    if n > 0 {
        lemma_listing(rows, include_archived, n - 1);
        let init = listing(rows, include_archived, n - 1);
        let all = listing(rows, include_archived, n);
        assert forall|i: int|
            0 <= i < n && (include_archived || !(#[trigger] rows[i]).session.archived) implies all.contains(
            info_of(rows[i]),
        ) by {
            if i < n - 1 {
                let w = choose|w: int| 0 <= w < init.len() && init[w] == info_of(rows[i]);
                assert(all[w] == info_of(rows[i]));
            } else {
                assert(all[all.len() - 1] == info_of(rows[i]));
            }
        }
    }
}

/// Rows in which the session with an id is archived.
pub open spec fn archived_in(rows: Seq<SessionRowView>, id: Seq<char>) -> Seq<SessionRowView> {
    Seq::new(
        rows.len(),
        |i: int|
            if rows[i].session.id == id {
                SessionRowView { session: rows[i].session.archive(), ..rows[i] }
            } else {
                rows[i]
            },
    )
}

/// Once a session is archived, an ordinary listing leaves it out, and one that includes archived
/// sessions shows it as such. Other sessions are listed as before.
pub proof fn law_archive_then_list(rows: Seq<SessionRowView>, i: int)
    requires
        0 <= i < rows.len(),
    ensures
        ({
            let id = rows[i].session.id;
            let after = archived_in(rows, id);
            let some = listing(after, false, after.len() as int);
            let all = listing(after, true, after.len() as int);
            &&& forall|k: int| 0 <= k < some.len() ==> (#[trigger] some[k]).id != id
            &&& all.contains(info_of(after[i]))
            &&& info_of(after[i]).id == id
            &&& info_of(after[i]).archived
            &&& forall|j: int|
                0 <= j < rows.len() && rows[j].session.id != id && !rows[j].session.archived
                    ==> some.contains(info_of(#[trigger] rows[j]))
        }),
{
    let id = rows[i].session.id;
    let after = archived_in(rows, id);
    let some = listing(after, false, after.len() as int);
    lemma_listing(after, true, after.len() as int);
    lemma_listing(after, false, after.len() as int);
    assert(after[i].session.id == id);
    assert forall|k: int| 0 <= k < some.len() implies (#[trigger] some[k]).id != id by {
        lemma_listed_rows(after, false, after.len() as int);
        let j = choose|j: int|
            0 <= j < after.len() && some[k] == #[trigger] info_of(after[j])
                && !after[j].session.archived;
        assert(after[j].session.id == rows[j].session.id);
    }
    assert forall|j: int|
        0 <= j < rows.len() && rows[j].session.id != id
            && !rows[j].session.archived implies some.contains(info_of(#[trigger] rows[j])) by {
        assert(after[j] == rows[j]);
    }
}

/// What is listed stands for a row that may be listed.
proof fn lemma_listed_rows(rows: Seq<SessionRowView>, include_archived: bool, n: int)
    requires
        0 <= n <= rows.len(),
    ensures
        forall|k: int|
            0 <= k < listing(rows, include_archived, n).len() ==> exists|j: int|
                0 <= j < n && (#[trigger] listing(rows, include_archived, n)[k])
                    == #[trigger] info_of(rows[j]) && (include_archived
                    || !rows[j].session.archived),
    decreases n,
{
    if n > 0 {
        lemma_listed_rows(rows, include_archived, n - 1);
        let init = listing(rows, include_archived, n - 1);
        let all = listing(rows, include_archived, n);
        assert forall|k: int| 0 <= k < all.len() implies exists|j: int|
            0 <= j < n && (#[trigger] all[k]) == #[trigger] info_of(rows[j]) && (include_archived
                || !rows[j].session.archived) by {
            if k < init.len() {
                assert(all[k] == init[k]);
                let j = choose|j: int|
                    0 <= j < n - 1 && init[k] == #[trigger] info_of(rows[j]) && (include_archived
                        || !rows[j].session.archived);
                assert(all[k] == info_of(rows[j]));
            } else {
                assert(all[k] == info_of(rows[n - 1]));
            }
        }
    }
}

/// What a request to change the model stores is what the session's info gives from then on, and
/// what the request is answered.
pub proof fn law_changed_model_is_shown(
    row: SessionRowView,
    model_id: Seq<char>,
    first: u64,
    second: u64,
)
    ensures
        ({
            let step = planned(
                RequestView::SetModel { session_id: row.session.id, model_id },
                first,
                second,
            );
            let model = step->StoreModel_model;
            let changed = SessionRowView { session: row.session.with_model(model), ..row };
            &&& step is StoreModel
            &&& step->StoreModel_session_id == row.session.id
            &&& info_of(changed).id == row.session.id
            &&& info_of(changed).model == model_id
            &&& described(model) == mock_info(model_id, model_id)
        }),
{
}

/// Once subscribed, a connection stays so until it is closed.
pub proof fn law_subscription_lasts(event: ConnectionEventView)
    ensures
        connection_step(ConnectionMode::Subscribed, event).0 == ConnectionMode::Subscribed,
{
}

// ---------------------------------------------------------------------------
// Events kept for subscribers
// ---------------------------------------------------------------------------

/// What happened in each session since somebody last asked, in order.
pub struct SessionBuffers {
    buffers: StrMap<Vec<Response>>,
}

impl SessionBuffers {
    /// What is kept for a session.
    pub closed spec fn kept(self, session_id: Seq<char>) -> Seq<ResponseView> {
        if self.buffers@.contains_key(session_id) {
            self.buffers@[session_id].deep_view()
        } else {
            seq![]
        }
    }

    /// Nothing is kept yet.
    pub fn new() -> (r: Self)
        ensures
            forall|id: Seq<char>| #[trigger] r.kept(id) == Seq::<ResponseView>::empty(),
    {
        SessionBuffers { buffers: StrMap::new() }
    }

    /// Keep a response for a session.
    pub fn push(&mut self, session_id: &str, response: Response)
        ensures
            final(self).kept(session_id@) == old(self).kept(session_id@).push(response@),
            forall|id: Seq<char>|
                id != session_id@ ==> #[trigger] final(self).kept(id) == old(self).kept(id),
    {
        let ghost before = self.kept(session_id@);
        let mut list: Vec<Response> = match self.buffers.remove(session_id) {
            Some(l) => l,
            None => Vec::new(),
        };
        assert(list.deep_view() =~= before);
        list.push(response);
        assert(list.deep_view() =~= before.push(response@));
        self.buffers.insert(session_id.to_owned(), list);
    }

    /// Hand out what is kept for a session, and keep it no longer.
    pub fn drain(&mut self, session_id: &str) -> (r: Vec<Response>)
        ensures
            r.deep_view() == old(self).kept(session_id@),
            final(self).kept(session_id@) == Seq::<ResponseView>::empty(),
            forall|id: Seq<char>|
                id != session_id@ ==> #[trigger] final(self).kept(id) == old(self).kept(id),
    {
        let ghost before = self.kept(session_id@);
        match self.buffers.remove(session_id) {
            Some(l) => l,
            None => {
                let none: Vec<Response> = Vec::new();
                assert(none.deep_view() =~= before);
                none
            },
        }
    }
}

/// The response that passes a streaming event on.
pub fn stream_response(event: StreamEvent) -> (r: Response)
    ensures
        r@ == (ResponseView::Stream { event: event@ }),
{
    Response::Stream { event: Box::new(event) }
}

/// Where the server listens.
pub fn socket_path_from(paths: &Paths) -> (r: String)
    ensures
        r@ == crate::path::joined(paths@.runtime_dir, "tars.sock"@),
{
    paths.socket_path()
}

/// The session that a request is about.
pub open spec fn session_of(request: RequestView) -> Option<Seq<char>> {
    match request {
        RequestView::GetSessionInfo { session_id } => Some(session_id),
        RequestView::GetMessages { session_id } => Some(session_id),
        RequestView::ArchiveSession { session_id } => Some(session_id),
        RequestView::SetModel { session_id, .. } => Some(session_id),
        RequestView::Chat { session_id, .. } => Some(session_id),
        RequestView::CancelChat { session_id } => Some(session_id),
        _ => None,
    }
}

/// The session that a step acts on.
pub open spec fn acts_on(step: ServerStepView) -> Option<Seq<char>> {
    match step {
        ServerStepView::FindSession { session_id } => Some(session_id),
        ServerStepView::LoadMessages { session_id } => Some(session_id),
        ServerStepView::ArchiveSession { session_id } => Some(session_id),
        ServerStepView::StoreModel { session_id, .. } => Some(session_id),
        ServerStepView::StartTurn { session_id, .. } => Some(session_id),
        ServerStepView::CancelTurn { session_id, .. } => Some(session_id),
        _ => None,
    }
}

/// A request about a session acts on that session and on no other, and each kind of request does its
/// own kind of thing. Only a chat starts a turn, only an archiving archives, and only a request for a
/// session creates one.
pub proof fn law_request_acts_on_its_session(request: RequestView, first: u64, second: u64)
    ensures
        ({
            let step = planned(request, first, second);
            &&& acts_on(step) == session_of(request)
            &&& step is CreateSession <==> request is CreateSession
            &&& step is ListSessions <==> request is ListSessions
            &&& step is FindSession <==> request is GetSessionInfo
            &&& step is LoadMessages <==> request is GetMessages
            &&& step is ArchiveSession <==> request is ArchiveSession
            &&& step is StoreModel <==> request is SetModel
            &&& step is StartTurn <==> request is Chat
            &&& step is CancelTurn <==> request is CancelChat
            &&& request matches RequestView::ListSessions { include_archived } ==> step == (
            ServerStepView::ListSessions { include_archived })
        }),
{
}

/// A chat stores what the user wrote: first the text, then each attachment in order, and nothing else.
/// The subscribers are told the same text.
pub proof fn law_chat_is_stored(
    session_id: Seq<char>,
    text: Seq<char>,
    attachments: Seq<ChatAttachmentView>,
    first: u64,
    second: u64,
)
    ensures
        ({
            let step = planned(
                RequestView::Chat { session_id, text, attachments },
                first,
                second,
            );
            let stored = step->StartTurn_message->User_0;
            &&& step->StartTurn_message is User
            &&& stored.timestamp == first
            &&& stored.content.len() == attachments.len() + 1
            &&& stored.content[0] matches UserContentView::Text(t) && t.text == text
            &&& forall|i: int|
                0 <= i < attachments.len() ==> (#[trigger] stored.content[i + 1]
                    matches UserContentView::Image(image) && attachments[i]
                    == (ChatAttachmentView::Image { data: image.data, mime_type: image.mime_type }))
            &&& step->StartTurn_notice == (ResponseView::UserMessage { text })
            &&& step->StartTurn_reply is Ack
        }),
{
}

/// What a request gives for a new session is what is stored and then told of it; what it does not give
/// is filled in. Sessions that are named at other times have other names.
pub proof fn law_new_session_is_as_asked(request: RequestView, first: u64, second: u64, other: u64)
    requires
        request is CreateSession,
    ensures
        ({
            let stored = planned(request, first, second)->CreateSession_0;
            &&& request->CreateSession_model matches Some(m) ==> stored.model.id == m
            &&& request->CreateSession_model is None ==> stored.model.id == "mock-model"@
            &&& request->CreateSession_system_prompt matches Some(s) ==> stored.system_prompt
                == Some(s)
            &&& request->CreateSession_system_prompt is None ==> stored.system_prompt == Some(
                "default system"@,
            )
            &&& request->CreateSession_cwd matches Some(d) ==> stored.cwd == Some(d)
            &&& request->CreateSession_cwd is None ==> stored.cwd == Some("/tmp"@)
            &&& stored.parent_id == request->CreateSession_parent_id
            &&& stored.tagline == request->CreateSession_tagline
            &&& !stored.archived
            &&& second <= i64::MAX ==> stored.created_at == second
            &&& first != other ==> stored.id != planned(request, other, second)->CreateSession_0.id
        }),
{
    if first != other {
        let a = planned(request, first, second)->CreateSession_0.id;
        let b = planned(request, other, second)->CreateSession_0.id;
        crate::text::law_decimal_is_injective(first as nat, other as nat);
        let n = "s"@.len() as int;
        assert(a.subrange(n, a.len() as int) =~= crate::text::decimal(first as nat));
        assert(b.subrange(n, b.len() as int) =~= crate::text::decimal(other as nat));
    }
}

/// The times that clients are told are whole seconds: a time that they are told is at most the stored
/// one, and less than a second before it.
pub proof fn law_seconds(ms: i64)
    ensures
        seconds(ms) * 1000 <= ms < seconds(ms) * 1000 + 1000,
{
}

/// What clients are told of a session is what is stored of it. It was last active at its last message,
/// or, while it has none, when it was created; it is idle unless a turn runs.
pub proof fn law_info_is_of_the_session(row: SessionRowView)
    ensures
        ({
            let info = info_of(row);
            &&& info.id == row.session.id
            &&& info.model == row.session.model.id
            &&& info.provider == row.session.model.provider
            &&& info.cwd == row.session.cwd
            &&& info.parent_id == row.session.parent_id
            &&& info.tagline == row.session.tagline
            &&& info.archived == row.session.archived
            &&& row.message_count matches Some(n) ==> info.message_count == n
            &&& row.message_count is None ==> info.message_count == 0
            &&& row.phase matches Some(p) ==> info.state == p
            &&& row.phase is None ==> info.state is Idle
            &&& info.created_at == row.session.created_at as int / 1000
            &&& row.last_message_at matches Some(t) ==> info.last_activity == t as int / 1000
            &&& row.last_message_at is None ==> info.last_activity == info.created_at
            &&& info.stats.context_window == row.session.model.context_window
        }),
{
}

/// Every session that may be listed is listed once, in the order in which they are stored.
pub proof fn law_listing_keeps_order(rows: Seq<SessionRowView>, include_archived: bool)
    ensures
        listing(rows, include_archived, rows.len() as int) == rows.filter(
            |row: SessionRowView| include_archived || !row.session.archived,
        ).map_values(|row: SessionRowView| info_of(row)),
    decreases rows.len(),
{
    reveal(Seq::filter);
    let keep = |row: SessionRowView| include_archived || !row.session.archived;
    let show = |row: SessionRowView| info_of(row);
    if rows.len() > 0 {
        let init = rows.drop_last();
        law_listing_keeps_order(init, include_archived);
        lemma_listing_prefix(rows, init, include_archived, init.len() as int);
        assert(rows.filter(keep) == if keep(rows.last()) {
            init.filter(keep).push(rows.last())
        } else {
            init.filter(keep)
        });
        assert(init.filter(keep).push(rows.last()).map_values(show) =~= init.filter(
            keep,
        ).map_values(show).push(info_of(rows.last())));
    }
    assert(listing(rows, include_archived, rows.len() as int) =~= rows.filter(keep).map_values(
        show,
    ));
}

proof fn lemma_listing_prefix(
    rows: Seq<SessionRowView>,
    init: Seq<SessionRowView>,
    include_archived: bool,
    n: int,
)
    requires
        0 <= n <= init.len() <= rows.len(),
        forall|i: int| 0 <= i < init.len() ==> init[i] == rows[i],
    ensures
        listing(rows, include_archived, n) == listing(init, include_archived, n),
    decreases n,
{
    if n > 0 {
        lemma_listing_prefix(rows, init, include_archived, n - 1);
    }
}

/// The statistics count what is there: messages of each kind, tool calls, and the tokens that the
/// assistant messages report. They do not depend on how the messages are grouped.
pub proof fn law_stats_count_what_is_there(
    messages: Seq<MessageView>,
    more: Seq<MessageView>,
    m: MessageView,
)
    ensures
        total(messages, Figure::UserMessages) == messages.filter(
            |x: MessageView| x is User,
        ).len(),
        total(messages, Figure::AssistantMessages) == messages.filter(
            |x: MessageView| x is Assistant,
        ).len(),
        total(messages, Figure::ToolResults) == messages.filter(
            |x: MessageView| x is ToolResult,
        ).len(),
        forall|what: Figure| #[trigger]
            total(messages + more, what) == total(messages, what) + total(more, what),
        m matches MessageView::Assistant(a) ==> total(seq![m], Figure::ToolCalls)
            == a.content.filter(|c: AssistantContentView| c is ToolCall).len() && total(
            seq![m],
            Figure::Input,
        ) == a.usage.input && total(seq![m], Figure::Output) == a.usage.output && total(
            seq![m],
            Figure::CacheRead,
        ) == a.usage.cache_read && total(seq![m], Figure::CacheWrite) == a.usage.cache_write,
        !(m is Assistant) ==> total(seq![m], Figure::ToolCalls) == 0 && total(
            seq![m],
            Figure::Input,
        ) == 0 && total(seq![m], Figure::Output) == 0 && total(seq![m], Figure::CacheRead) == 0
            && total(seq![m], Figure::CacheWrite) == 0,
{
    lemma_counts(messages);
    assert forall|what: Figure| #[trigger]
        total(messages + more, what) == total(messages, what) + total(more, what) by {
        lemma_total_concat(messages, more, what);
    }
    assert(seq![m].drop_last() =~= Seq::empty());
    assert forall|what: Figure| #[trigger] total(seq![m], what) == figure(m, what) by {
        assert(total(seq![m].drop_last(), what) == 0);
    }
    if let MessageView::Assistant(a) = m {
        crate::agent::law_tool_calls(a.content);
    }
}

proof fn lemma_total_concat(messages: Seq<MessageView>, more: Seq<MessageView>, what: Figure)
    ensures
        total(messages + more, what) == total(messages, what) + total(more, what),
    decreases more.len(),
{
    if more.len() == 0 {
        assert(messages + more =~= messages);
    } else {
        assert((messages + more).drop_last() =~= messages + more.drop_last());
        lemma_total_concat(messages, more.drop_last(), what);
    }
}

proof fn lemma_counts(messages: Seq<MessageView>)
    ensures
        total(messages, Figure::UserMessages) == messages.filter(
            |x: MessageView| x is User,
        ).len(),
        total(messages, Figure::AssistantMessages) == messages.filter(
            |x: MessageView| x is Assistant,
        ).len(),
        total(messages, Figure::ToolResults) == messages.filter(
            |x: MessageView| x is ToolResult,
        ).len(),
    decreases messages.len(),
{
    reveal(Seq::filter);
    if messages.len() > 0 {
        lemma_counts(messages.drop_last());
    }
}

/// What a session has used is given exactly, as long as it fits.
pub proof fn law_stats_are_the_totals(messages: Seq<MessageView>, window: u64)
    ensures
        ({
            let s = stats_of(messages, window);
            &&& total(messages, Figure::UserMessages) <= usize::MAX ==> s.user_messages == total(
                messages,
                Figure::UserMessages,
            )
            &&& total(messages, Figure::AssistantMessages) <= usize::MAX ==> s.assistant_messages
                == total(messages, Figure::AssistantMessages)
            &&& total(messages, Figure::ToolCalls) <= usize::MAX ==> s.tool_calls == total(
                messages,
                Figure::ToolCalls,
            )
            &&& total(messages, Figure::ToolResults) <= usize::MAX ==> s.tool_results == total(
                messages,
                Figure::ToolResults,
            )
            &&& total(messages, Figure::Input) <= u64::MAX ==> s.tokens.input == total(
                messages,
                Figure::Input,
            )
            &&& total(messages, Figure::Output) <= u64::MAX ==> s.tokens.output == total(
                messages,
                Figure::Output,
            )
            &&& total(messages, Figure::CacheRead) <= u64::MAX ==> s.tokens.cache_read == total(
                messages,
                Figure::CacheRead,
            )
            &&& total(messages, Figure::CacheWrite) <= u64::MAX ==> s.tokens.cache_write == total(
                messages,
                Figure::CacheWrite,
            )
            &&& s.context_window == window
        }),
{
}

/// A subscribed connection is sent all that is broadcast. A connection is closed at its end, and where an
/// answer or a broadcast could not be written, and in no other case.
pub proof fn law_connections(mode: ConnectionMode, event: ConnectionEventView)
    ensures
        event matches ConnectionEventView::Broadcast(r) ==> mode == ConnectionMode::Subscribed
            ==> connection_step(mode, event).1 == ConnectionActionView::Write(r),
        connection_step(mode, event).1 is Close <==> event is Closed || event
            == ConnectionEventView::WriteFailed(Written::Answer) || event
            == ConnectionEventView::WriteFailed(Written::Notice),
        connection_step(mode, event).0 != mode <==> mode == ConnectionMode::Serving && (event
            matches ConnectionEventView::Received(r) && r is Subscribe),
{
}

} // verus!
