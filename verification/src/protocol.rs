//! Wire protocol between client and server: every line on the socket is one [`Request`] (client to
//! server) or one [`Response`] (server to client).

use vstd::prelude::*;

use crate::error::{Error, ErrorView};
use crate::types::{
    AgentPhase, ImageContent, ImageContentView, Message, MessageView, StreamEvent,
    StreamEventView, ThinkingStyle, UserContent, UserContentView,
};

verus! {

/// Wire-level classification of a failed request.
///
/// Clients can programmatically retry (rate limits, timeouts), surface auth problems, and
/// distinguish "not found" from "invalid input" without parsing the message text.
#[derive(Debug, Clone, Copy, PartialEq, Eq, Structural)]
pub enum ErrorKind {
    NoProvider,
    NoApiKey,
    Http { status: u16 },
    RateLimited { retry_after: Option<u64> },
    Timeout,
    Auth,
    ContextOverflow,
    Cancelled,
    /// The addressed session/model/object does not exist.
    NotFound,
    /// The request was malformed or supplied invalid arguments.
    Invalid,
    Parse,
    ChannelClosed,
    Internal,
}

/// Tokens by kind.
#[derive(Debug, Clone, Copy, PartialEq, Eq, Structural)]
pub struct TokenStats {
    pub input: u64,
    pub output: u64,
    pub cache_read: u64,
    pub cache_write: u64,
}

impl Default for TokenStats {
    fn default() -> (r: Self)
        ensures
            r == (TokenStats { input: 0, output: 0, cache_read: 0, cache_write: 0 }),
    {
        TokenStats { input: 0, output: 0, cache_read: 0, cache_write: 0 }
    }
}

impl TokenStats {
    /// All tokens.
    pub open spec fn sum(self) -> int {
        self.input + self.output + self.cache_read + self.cache_write
    }

    /// All tokens.
    pub fn total(&self) -> (r: u64)
        requires
            self.sum() <= u64::MAX,
        ensures
            r == self.sum(),
    {
        self.input + self.output + self.cache_read + self.cache_write
    }
}

/// Cumulative per-session usage statistics.
#[derive(Debug, Clone, Copy, PartialEq, Eq, Structural)]
pub struct SessionStats {
    pub user_messages: usize,
    pub assistant_messages: usize,
    pub tool_calls: usize,
    pub tool_results: usize,
    pub tokens: TokenStats,
    /// Context window size from the model.
    pub context_window: u64,
    /// Estimated context usage from the last assistant response (input tokens).
    pub context_tokens: Option<u64>,
}

impl Default for SessionStats {
    fn default() -> (r: Self)
        ensures
            r == (SessionStats {
                user_messages: 0,
                assistant_messages: 0,
                tool_calls: 0,
                tool_results: 0,
                tokens: TokenStats { input: 0, output: 0, cache_read: 0, cache_write: 0 },
                context_window: 0,
                context_tokens: None,
            }),
    {
        SessionStats {
            user_messages: 0,
            assistant_messages: 0,
            tool_calls: 0,
            tool_results: 0,
            tokens: TokenStats::default(),
            context_window: 0,
            context_tokens: None,
        }
    }
}

/// Attachments to a [`Request::Chat`] message. Today only images are supported.
#[derive(Debug, PartialEq)]
pub enum ChatAttachment {
    /// An image: base64-encoded bytes and a MIME type accepted by the server (`image/png`, `image/jpeg`, `image/gif`, `image/webp`).
    Image { data: String, mime_type: String },
}

/// What a [`ChatAttachment`] holds.
#[verifier::ext_equal]
pub enum ChatAttachmentView {
    Image { data: Seq<char>, mime_type: Seq<char> },
}

impl View for ChatAttachment {
    type V = ChatAttachmentView;

    open spec fn view(&self) -> ChatAttachmentView {
        match *self {
            ChatAttachment::Image { data, mime_type } => ChatAttachmentView::Image { data: data@, mime_type: mime_type@ },
        }
    }
}

impl DeepView for ChatAttachment {
    type V = ChatAttachmentView;

    open spec fn deep_view(&self) -> ChatAttachmentView {
        self@
    }
}

impl Clone for ChatAttachment {
    fn clone(&self) -> (r: Self)
        ensures
            r@ == self@,
    {
        match self {
            ChatAttachment::Image { data, mime_type } => ChatAttachment::Image { data: data.clone(), mime_type: mime_type.clone() },
        }
    }
}

/// Client to server.
#[derive(Debug, PartialEq)]
pub enum Request {
    /// Send a chat message in a session (starts or resumes the agent loop).
    Chat { session_id: String, text: String, attachments: Vec<ChatAttachment> },
    /// Create a new session. All fields optional; the server fills model and cwd from defaults when omitted.
    CreateSession { model: Option<String>, provider: Option<String>, system_prompt: Option<String>, cwd: Option<String>, parent_id: Option<String>, tagline: Option<String> },
    /// Info about a single session.
    GetSessionInfo { session_id: String },
    /// List sessions, archived ones only if asked for.
    ListSessions { include_archived: bool },
    /// Archive a session.
    ArchiveSession { session_id: String },
    /// Message history for a session.
    GetMessages { session_id: String },
    /// Subscribe to live events on a session (for multi-client). The connection stays open.
    Subscribe { session_id: String },
    /// Cancel an in-progress chat (agent loop) for a session.
    CancelChat { session_id: String },
    /// List available models.
    ListModels,
    /// Change model for a session.
    SetModel { session_id: String, model_id: String },
}

/// What a [`Request`] holds.
#[verifier::ext_equal]
pub enum RequestView {
    Chat { session_id: Seq<char>, text: Seq<char>, attachments: Seq<ChatAttachmentView> },
    CreateSession { model: Option<Seq<char>>, provider: Option<Seq<char>>, system_prompt: Option<Seq<char>>, cwd: Option<Seq<char>>, parent_id: Option<Seq<char>>, tagline: Option<Seq<char>> },
    GetSessionInfo { session_id: Seq<char> },
    ListSessions { include_archived: bool },
    ArchiveSession { session_id: Seq<char> },
    GetMessages { session_id: Seq<char> },
    Subscribe { session_id: Seq<char> },
    CancelChat { session_id: Seq<char> },
    ListModels,
    SetModel { session_id: Seq<char>, model_id: Seq<char> },
}

impl View for Request {
    type V = RequestView;

    open spec fn view(&self) -> RequestView {
        match *self {
            Request::Chat { session_id, text, attachments } => RequestView::Chat { session_id: session_id@, text: text@, attachments: attachments.deep_view() },
            Request::CreateSession { model, provider, system_prompt, cwd, parent_id, tagline } => RequestView::CreateSession { model: model.deep_view(), provider: provider.deep_view(), system_prompt: system_prompt.deep_view(), cwd: cwd.deep_view(), parent_id: parent_id.deep_view(), tagline: tagline.deep_view() },
            Request::GetSessionInfo { session_id } => RequestView::GetSessionInfo { session_id: session_id@ },
            Request::ListSessions { include_archived } => RequestView::ListSessions { include_archived: include_archived },
            Request::ArchiveSession { session_id } => RequestView::ArchiveSession { session_id: session_id@ },
            Request::GetMessages { session_id } => RequestView::GetMessages { session_id: session_id@ },
            Request::Subscribe { session_id } => RequestView::Subscribe { session_id: session_id@ },
            Request::CancelChat { session_id } => RequestView::CancelChat { session_id: session_id@ },
            Request::ListModels => RequestView::ListModels,
            Request::SetModel { session_id, model_id } => RequestView::SetModel { session_id: session_id@, model_id: model_id@ },
        }
    }
}

impl DeepView for Request {
    type V = RequestView;

    open spec fn deep_view(&self) -> RequestView {
        self@
    }
}

impl Clone for Request {
    fn clone(&self) -> (r: Self)
        ensures
            r@ == self@,
    {
        match self {
            Request::Chat { session_id, text, attachments } => {
                let attachments_copy = attachments.clone();
                assert(attachments_copy.deep_view() =~= attachments.deep_view());
                Request::Chat { session_id: session_id.clone(), text: text.clone(), attachments: attachments_copy }
            },
            Request::CreateSession { model, provider, system_prompt, cwd, parent_id, tagline } => Request::CreateSession { model: model.clone(), provider: provider.clone(), system_prompt: system_prompt.clone(), cwd: cwd.clone(), parent_id: parent_id.clone(), tagline: tagline.clone() },
            Request::GetSessionInfo { session_id } => Request::GetSessionInfo { session_id: session_id.clone() },
            Request::ListSessions { include_archived } => Request::ListSessions { include_archived: *include_archived },
            Request::ArchiveSession { session_id } => Request::ArchiveSession { session_id: session_id.clone() },
            Request::GetMessages { session_id } => Request::GetMessages { session_id: session_id.clone() },
            Request::Subscribe { session_id } => Request::Subscribe { session_id: session_id.clone() },
            Request::CancelChat { session_id } => Request::CancelChat { session_id: session_id.clone() },
            Request::ListModels => Request::ListModels,
            Request::SetModel { session_id, model_id } => Request::SetModel { session_id: session_id.clone(), model_id: model_id.clone() },
        }
    }
}

/// Model metadata surfaced to clients.
#[derive(Debug, PartialEq, Eq)]
pub struct ModelInfo {
    pub id: String,
    pub name: String,
    pub provider: String,
    pub thinking: ThinkingStyle,
    pub context_window: u64,
    pub max_tokens: u64,
}

/// What a [`ModelInfo`] holds.
#[verifier::ext_equal]
pub struct ModelInfoView {
    pub id: Seq<char>,
    pub name: Seq<char>,
    pub provider: Seq<char>,
    pub thinking: ThinkingStyle,
    pub context_window: u64,
    pub max_tokens: u64,
}

impl View for ModelInfo {
    type V = ModelInfoView;

    open spec fn view(&self) -> ModelInfoView {
        ModelInfoView {
            id: self.id@,
            name: self.name@,
            provider: self.provider@,
            thinking: self.thinking,
            context_window: self.context_window,
            max_tokens: self.max_tokens,
        }
    }
}

impl DeepView for ModelInfo {
    type V = ModelInfoView;

    open spec fn deep_view(&self) -> ModelInfoView {
        self@
    }
}

impl Clone for ModelInfo {
    fn clone(&self) -> (r: Self)
        ensures
            r@ == self@,
    {
        let r = ModelInfo {
            id: self.id.clone(),
            name: self.name.clone(),
            provider: self.provider.clone(),
            thinking: self.thinking,
            context_window: self.context_window,
            max_tokens: self.max_tokens,
        };
        r
    }
}

/// Session metadata surfaced to clients.
#[derive(Debug, PartialEq)]
pub struct SessionInfo {
    pub id: String,
    pub model: String,
    pub provider: String,
    pub cwd: Option<String>,
    pub message_count: usize,
    pub stats: SessionStats,
    /// Current agent phase. `Idle` when no turn is running.
    pub state: AgentPhase,
    /// Unix timestamp (seconds) of session creation.
    pub created_at: i64,
    /// Unix timestamp (seconds) of last activity (last message or creation).
    pub last_activity: i64,
    /// Parent session ID (`None` for root sessions).
    pub parent_id: Option<String>,
    /// Short description of what this session is working on.
    pub tagline: Option<String>,
    pub archived: bool,
    /// The project that the working directory belongs to.
    pub project_name: Option<String>,
}

/// What a [`SessionInfo`] holds.
#[verifier::ext_equal]
pub struct SessionInfoView {
    pub id: Seq<char>,
    pub model: Seq<char>,
    pub provider: Seq<char>,
    pub cwd: Option<Seq<char>>,
    pub message_count: usize,
    pub stats: SessionStats,
    pub state: AgentPhase,
    pub created_at: i64,
    pub last_activity: i64,
    pub parent_id: Option<Seq<char>>,
    pub tagline: Option<Seq<char>>,
    pub archived: bool,
    pub project_name: Option<Seq<char>>,
}

impl View for SessionInfo {
    type V = SessionInfoView;

    open spec fn view(&self) -> SessionInfoView {
        SessionInfoView {
            id: self.id@,
            model: self.model@,
            provider: self.provider@,
            cwd: self.cwd.deep_view(),
            message_count: self.message_count,
            stats: self.stats,
            state: self.state,
            created_at: self.created_at,
            last_activity: self.last_activity,
            parent_id: self.parent_id.deep_view(),
            tagline: self.tagline.deep_view(),
            archived: self.archived,
            project_name: self.project_name.deep_view(),
        }
    }
}

impl DeepView for SessionInfo {
    type V = SessionInfoView;

    open spec fn deep_view(&self) -> SessionInfoView {
        self@
    }
}

impl Clone for SessionInfo {
    fn clone(&self) -> (r: Self)
        ensures
            r@ == self@,
    {
        let r = SessionInfo {
            id: self.id.clone(),
            model: self.model.clone(),
            provider: self.provider.clone(),
            cwd: self.cwd.clone(),
            message_count: self.message_count,
            stats: self.stats,
            state: self.state,
            created_at: self.created_at,
            last_activity: self.last_activity,
            parent_id: self.parent_id.clone(),
            tagline: self.tagline.clone(),
            archived: self.archived,
            project_name: self.project_name.clone(),
        };
        r
    }
}

/// Server to client.
#[derive(Debug, PartialEq)]
pub enum Response {
    /// The session was created.
    SessionCreated { session_id: String },
    /// Info about a single session.
    SessionInfo { info: SessionInfo },
    /// List of sessions.
    Sessions { sessions: Vec<SessionInfo> },
    /// The session was archived.
    SessionArchived,
    /// Available models.
    Models { models: Vec<ModelInfo> },
    /// Model changed for a session.
    ModelChanged { model: ModelInfo },
    /// Streaming event from the LLM.
    Stream { event: Box<StreamEvent> },
    /// Message history for a session.
    Messages { messages: Vec<Message> },
    /// A user message was sent (broadcast to subscribers).
    UserMessage { text: String },
    /// Agent loop completed (all turns done).
    AgentDone,
    /// Agent loop was cancelled by the user.
    Cancelled,
    /// Generic success ack.
    Ack,
    /// Structured failure. `kind` lets clients branch on the error class without string matching; `message` is for humans and logs.
    Error { kind: ErrorKind, message: String },
}

/// What a [`Response`] holds.
#[verifier::ext_equal]
pub enum ResponseView {
    SessionCreated { session_id: Seq<char> },
    SessionInfo { info: SessionInfoView },
    Sessions { sessions: Seq<SessionInfoView> },
    SessionArchived,
    Models { models: Seq<ModelInfoView> },
    ModelChanged { model: ModelInfoView },
    Stream { event: StreamEventView },
    Messages { messages: Seq<MessageView> },
    UserMessage { text: Seq<char> },
    AgentDone,
    Cancelled,
    Ack,
    Error { kind: ErrorKind, message: Seq<char> },
}

impl View for Response {
    type V = ResponseView;

    open spec fn view(&self) -> ResponseView {
        match *self {
            Response::SessionCreated { session_id } => ResponseView::SessionCreated { session_id: session_id@ },
            Response::SessionInfo { info } => ResponseView::SessionInfo { info: info@ },
            Response::Sessions { sessions } => ResponseView::Sessions { sessions: sessions.deep_view() },
            Response::SessionArchived => ResponseView::SessionArchived,
            Response::Models { models } => ResponseView::Models { models: models.deep_view() },
            Response::ModelChanged { model } => ResponseView::ModelChanged { model: model@ },
            Response::Stream { event } => ResponseView::Stream { event: event@ },
            Response::Messages { messages } => ResponseView::Messages { messages: messages.deep_view() },
            Response::UserMessage { text } => ResponseView::UserMessage { text: text@ },
            Response::AgentDone => ResponseView::AgentDone,
            Response::Cancelled => ResponseView::Cancelled,
            Response::Ack => ResponseView::Ack,
            Response::Error { kind, message } => ResponseView::Error { kind: kind, message: message@ },
        }
    }
}

impl DeepView for Response {
    type V = ResponseView;

    open spec fn deep_view(&self) -> ResponseView {
        self@
    }
}

impl Clone for Response {
    fn clone(&self) -> (r: Self)
        ensures
            r@ == self@,
    {
        match self {
            Response::SessionCreated { session_id } => Response::SessionCreated { session_id: session_id.clone() },
            Response::SessionInfo { info } => Response::SessionInfo { info: info.clone() },
            Response::Sessions { sessions } => {
                let sessions_copy = sessions.clone();
                assert(sessions_copy.deep_view() =~= sessions.deep_view());
                Response::Sessions { sessions: sessions_copy }
            },
            Response::SessionArchived => Response::SessionArchived,
            Response::Models { models } => {
                let models_copy = models.clone();
                assert(models_copy.deep_view() =~= models.deep_view());
                Response::Models { models: models_copy }
            },
            Response::ModelChanged { model } => Response::ModelChanged { model: model.clone() },
            Response::Stream { event } => Response::Stream { event: Box::new((**event).clone()) },
            Response::Messages { messages } => {
                let messages_copy = messages.clone();
                assert(messages_copy.deep_view() =~= messages.deep_view());
                Response::Messages { messages: messages_copy }
            },
            Response::UserMessage { text } => Response::UserMessage { text: text.clone() },
            Response::AgentDone => Response::AgentDone,
            Response::Cancelled => Response::Cancelled,
            Response::Ack => Response::Ack,
            Response::Error { kind, message } => Response::Error { kind: *kind, message: message.clone() },
        }
    }
}

impl ChatAttachment {
    /// Convert this attachment into a `UserContent` block.
    ///
    /// Pure structural mapping; validation (decoded byte length, allowed MIME) belongs to the
    /// caller.
    pub fn to_user_content(&self) -> (r: UserContent)
        ensures
            r@ == (match self@ {
                ChatAttachmentView::Image { data, mime_type } => UserContentView::Image(
                    ImageContentView { data, mime_type },
                ),
            }),
    {
        match self {
            ChatAttachment::Image { data, mime_type } => UserContent::Image(
                ImageContent { data: data.clone(), mime_type: mime_type.clone() },
            ),
        }
    }
}

/// The wire class of an error.
pub open spec fn kind_of(e: ErrorView) -> ErrorKind {
    match e {
        ErrorView::NoProvider(_) => ErrorKind::NoProvider,
        ErrorView::NoApiKey(_) => ErrorKind::NoApiKey,
        ErrorView::Http { status, .. } => ErrorKind::Http { status },
        ErrorView::RateLimited { retry_after, .. } => ErrorKind::RateLimited { retry_after },
        ErrorView::Timeout(_) => ErrorKind::Timeout,
        ErrorView::Auth(_) => ErrorKind::Auth,
        ErrorView::ContextOverflow => ErrorKind::ContextOverflow,
        ErrorView::Cancelled => ErrorKind::Cancelled,
        ErrorView::Parse(_) => ErrorKind::Parse,
        ErrorView::ChannelClosed => ErrorKind::ChannelClosed,
        ErrorView::Io(_) => ErrorKind::Internal,
        ErrorView::Json(_) => ErrorKind::Internal,
        ErrorView::Internal(_) => ErrorKind::Internal,
    }
}

impl ErrorKind {
    /// Best-effort classification of an [`Error`] into a wire class.
    pub fn from_error(err: &Error) -> (r: Self)
        ensures
            r == kind_of(err@),
    {
        match err {
            Error::NoProvider(_) => ErrorKind::NoProvider,
            Error::NoApiKey(_) => ErrorKind::NoApiKey,
            Error::Http { status, .. } => ErrorKind::Http { status: *status },
            Error::RateLimited { retry_after, .. } => ErrorKind::RateLimited {
                retry_after: *retry_after,
            },
            Error::Timeout(_) => ErrorKind::Timeout,
            Error::Auth(_) => ErrorKind::Auth,
            Error::ContextOverflow => ErrorKind::ContextOverflow,
            Error::Cancelled => ErrorKind::Cancelled,
            Error::Parse(_) => ErrorKind::Parse,
            Error::ChannelClosed => ErrorKind::ChannelClosed,
            Error::Io(_) => ErrorKind::Internal,
            Error::Json(_) => ErrorKind::Internal,
            Error::Internal(_) => ErrorKind::Internal,
        }
    }
}

/// A JSON object as one line of the protocol.
pub fn json_line(json: String) -> (r: String)
    ensures
        r@ == json@.push('\n'),
{
    let mut line = json;
    line.push('\n');
    line
}

/// What a client is told of an error is of the error's kind, with its status or the time to wait; what has
/// no kind of its own is internal.
pub proof fn law_kind_of_an_error(e: ErrorView)
    ensures
        e matches ErrorView::Http { status, .. } ==> kind_of(e) == (ErrorKind::Http { status }),
        e matches ErrorView::RateLimited { retry_after, .. } ==> kind_of(e)
            == (ErrorKind::RateLimited { retry_after }),
        kind_of(e) is Timeout <==> e is Timeout,
        kind_of(e) is Auth <==> e is Auth,
        kind_of(e) is NoProvider <==> e is NoProvider,
        kind_of(e) is NoApiKey <==> e is NoApiKey,
        kind_of(e) is ContextOverflow <==> e is ContextOverflow,
        kind_of(e) is Cancelled <==> e is Cancelled,
        kind_of(e) is Parse <==> e is Parse,
        kind_of(e) is ChannelClosed <==> e is ChannelClosed,
        kind_of(e) is Internal <==> e is Io || e is Json || e is Internal,
{
}

} // verus!
