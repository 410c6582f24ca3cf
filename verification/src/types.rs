//! Core data types: what a conversation looks like as data, what tools are,
//! what the agent sends to the model and how model output is streamed back.
//!
//! Each type that holds text has a view, a specification type of the same
//! shape over sequences of characters, and a `clone` that keeps the view.

use vstd::prelude::*;

use crate::json::JsonView;
use crate::time::timestamp_ms;

verus! {

// ---------------------------------------------------------------------------
// Small enumerations
// ---------------------------------------------------------------------------

/// Why the model stopped.
#[derive(Debug, Clone, Copy, PartialEq, Eq, Structural)]
pub enum StopReason {
    /// Model finished normally (end_turn / stop_sequence).
    Stop,
    /// Model hit the max-tokens limit.
    Length,
    /// Model emitted tool calls; the loop should dispatch them.
    ToolUse,
    /// The stream failed; `AssistantMessage::error_message` carries details.
    Error,
    /// The run was aborted (cancelled).
    Aborted,
}

/// How a model supports extended thinking/reasoning.
#[derive(Debug, Clone, Copy, PartialEq, Eq, Structural)]
pub enum ThinkingStyle {
    /// No thinking support.
    Off,
    /// Anthropic: budget_tokens or adaptive thinking.
    Anthropic,
    /// OpenAI: `reasoning_effort` parameter.
    OpenAi,
    /// Qwen (OpenAI-compatible): `enable_thinking: bool`.
    Qwen,
}

impl Default for ThinkingStyle {
    fn default() -> (r: Self)
        ensures
            r == ThinkingStyle::Off,
    {
        ThinkingStyle::Off
    }
}

/// Effort level for adaptive thinking.
#[derive(Debug, Clone, Copy, PartialEq, Eq, Structural)]
pub enum ThinkingEffort {
    Low,
    Medium,
    High,
    XHigh,
    Max,
}

/// How thinking content is returned in the response.
#[derive(Debug, Clone, Copy, PartialEq, Eq, Structural)]
pub enum ThinkingDisplay {
    /// Thinking blocks contain summarized thinking text.
    Summarized,
    /// Thinking blocks return an empty `thinking` field; the signature still
    /// travels back for multi-turn continuity.
    Omitted,
}

/// Prompt-cache retention hint.
#[derive(Debug, Clone, Copy, PartialEq, Eq, Structural)]
pub enum CacheRetention {
    /// No provider-side prompt caching.
    Off,
    Short,
    Long,
}

impl Default for CacheRetention {
    fn default() -> (r: Self)
        ensures
            r == CacheRetention::Short,
    {
        CacheRetention::Short
    }
}

impl CacheRetention {
    /// Resolve an optional retention hint into a concrete value.
    /// `None` falls back to `Short`.
    pub fn resolve(opt: Option<Self>) -> (r: Self)
        ensures
            r == match opt {
                Some(x) => x,
                None => CacheRetention::Short,
            },
    {
        match opt {
            Some(x) => x,
            None => CacheRetention::default(),
        }
    }
}

/// Current phase of the agent loop, broadcast to subscribers for UI display.
#[derive(Debug, Clone, Copy, PartialEq, Eq, Structural)]
pub enum AgentPhase {
    /// No agent turn running.
    Idle,
    /// Blocked waiting for the session lock (another turn in progress).
    Waiting,
    /// Loading the session, spawning plugins, running hooks.
    Preparing,
    /// HTTP request sent, waiting for the first byte from the provider.
    Connecting,
    /// Receiving thinking tokens from the model.
    Thinking,
    /// Streaming text/tool-call tokens from the model.
    Responding,
    /// Executing tool calls.
    ToolExec,
    /// Running context compaction.
    Compacting,
    /// Waiting for rate limit / retry backoff.
    RateLimited,
}

impl Default for AgentPhase {
    fn default() -> (r: Self)
        ensures
            r == AgentPhase::Idle,
    {
        AgentPhase::Idle
    }
}

impl AgentPhase {
    /// Human-readable label for a status line.
    pub fn label(&self) -> (r: &'static str)
        ensures
            r@ == match *self {
                AgentPhase::Idle => "idle"@,
                AgentPhase::Waiting => "waiting..."@,
                AgentPhase::Preparing => "preparing..."@,
                AgentPhase::Connecting => "sending request..."@,
                AgentPhase::Thinking => "thinking..."@,
                AgentPhase::Responding => "working..."@,
                AgentPhase::ToolExec => "running tools..."@,
                AgentPhase::Compacting => "compacting..."@,
                AgentPhase::RateLimited => "rate limited..."@,
            },
    {
        match self {
            AgentPhase::Idle => "idle",
            AgentPhase::Waiting => "waiting...",
            AgentPhase::Preparing => "preparing...",
            AgentPhase::Connecting => "sending request...",
            AgentPhase::Thinking => "thinking...",
            AgentPhase::Responding => "working...",
            AgentPhase::ToolExec => "running tools...",
            AgentPhase::Compacting => "compacting...",
            AgentPhase::RateLimited => "rate limited...",
        }
    }
}

/// What the server does after the calling session's lock is released.
#[derive(Debug, Clone, Copy, PartialEq, Eq, Structural)]
pub enum PostIdleAction {
    /// Archive all archivable sessions for a task.
    ArchiveTaskSessions { task_id: i64 },
}

// ---------------------------------------------------------------------------
// Usage & price
// ---------------------------------------------------------------------------

/// Token counts as reported by the provider.
#[derive(Debug, Clone, Copy, PartialEq, Eq, Structural)]
pub struct Usage {
    pub input: u64,
    pub output: u64,
    pub cache_read: u64,
    pub cache_write: u64,
    pub total_tokens: u64,
}

impl Default for Usage {
    fn default() -> (r: Self)
        ensures
            r == (Usage { input: 0, output: 0, cache_read: 0, cache_write: 0, total_tokens: 0 }),
    {
        Usage { input: 0, output: 0, cache_read: 0, cache_write: 0, total_tokens: 0 }
    }
}

impl Usage {
    /// The sum of the four token counters.
    pub open spec fn sum(self) -> int {
        self.input + self.output + self.cache_read + self.cache_write
    }

    /// Recompute `total_tokens` as the sum of the four token counters.
    pub fn recompute_total(&mut self)
        requires
            old(self).sum() <= u64::MAX,
        ensures
            *final(self) == (Usage { total_tokens: old(self).sum() as u64, ..*old(self) }),
    {
        self.total_tokens = self.input + self.output + self.cache_read + self.cache_write;
    }
}

/// Prices in millionths of a US dollar per million tokens.
#[derive(Debug, Clone, Copy, PartialEq, Eq, Structural)]
pub struct ModelCost {
    pub input: u64,
    pub output: u64,
    pub cache_read: u64,
    pub cache_write: u64,
}

impl Default for ModelCost {
    fn default() -> (r: Self)
        ensures
            r == (ModelCost { input: 0, output: 0, cache_read: 0, cache_write: 0 }),
    {
        ModelCost { input: 0, output: 0, cache_read: 0, cache_write: 0 }
    }
}

// ---------------------------------------------------------------------------
// Content blocks, messages, models, events
// ---------------------------------------------------------------------------

/// A block of text.
#[derive(Debug, PartialEq)]
pub struct TextContent {
    pub text: String,
    pub text_signature: Option<String>,
}

/// What a [`TextContent`] holds.
#[verifier::ext_equal]
pub struct TextContentView {
    pub text: Seq<char>,
    pub text_signature: Option<Seq<char>>,
}

impl View for TextContent {
    type V = TextContentView;

    open spec fn view(&self) -> TextContentView {
        TextContentView {
            text: self.text@,
            text_signature: self.text_signature.deep_view(),
        }
    }
}

impl DeepView for TextContent {
    type V = TextContentView;

    open spec fn deep_view(&self) -> TextContentView {
        self@
    }
}

impl Clone for TextContent {
    fn clone(&self) -> (r: Self)
        ensures
            r@ == self@,
    {
        let r = TextContent {
            text: self.text.clone(),
            text_signature: self.text_signature.clone(),
        };
        r
    }
}

/// A block of model reasoning.
#[derive(Debug, PartialEq)]
pub struct ThinkingContent {
    pub thinking: String,
    pub thinking_signature: Option<String>,
    pub redacted: bool,
}

/// What a [`ThinkingContent`] holds.
#[verifier::ext_equal]
pub struct ThinkingContentView {
    pub thinking: Seq<char>,
    pub thinking_signature: Option<Seq<char>>,
    pub redacted: bool,
}

impl View for ThinkingContent {
    type V = ThinkingContentView;

    open spec fn view(&self) -> ThinkingContentView {
        ThinkingContentView {
            thinking: self.thinking@,
            thinking_signature: self.thinking_signature.deep_view(),
            redacted: self.redacted,
        }
    }
}

impl DeepView for ThinkingContent {
    type V = ThinkingContentView;

    open spec fn deep_view(&self) -> ThinkingContentView {
        self@
    }
}

impl Clone for ThinkingContent {
    fn clone(&self) -> (r: Self)
        ensures
            r@ == self@,
    {
        let r = ThinkingContent {
            thinking: self.thinking.clone(),
            thinking_signature: self.thinking_signature.clone(),
            redacted: self.redacted,
        };
        r
    }
}

/// An image.
#[derive(Debug, PartialEq)]
pub struct ImageContent {
    /// Base64-encoded bytes.
    pub data: String,
    pub mime_type: String,
}

/// What a [`ImageContent`] holds.
#[verifier::ext_equal]
pub struct ImageContentView {
    pub data: Seq<char>,
    pub mime_type: Seq<char>,
}

impl View for ImageContent {
    type V = ImageContentView;

    open spec fn view(&self) -> ImageContentView {
        ImageContentView {
            data: self.data@,
            mime_type: self.mime_type@,
        }
    }
}

impl DeepView for ImageContent {
    type V = ImageContentView;

    open spec fn deep_view(&self) -> ImageContentView {
        self@
    }
}

impl Clone for ImageContent {
    fn clone(&self) -> (r: Self)
        ensures
            r@ == self@,
    {
        let r = ImageContent {
            data: self.data.clone(),
            mime_type: self.mime_type.clone(),
        };
        r
    }
}

/// A call of a tool, as the model asked for it.
#[derive(Debug, PartialEq)]
pub struct ToolCall {
    pub id: String,
    pub name: String,
    /// JSON arguments matching the tool's `parameters` schema.
    pub arguments: serde_json::Value,
}

/// What a [`ToolCall`] holds.
#[verifier::ext_equal]
pub struct ToolCallView {
    pub id: Seq<char>,
    pub name: Seq<char>,
    pub arguments: JsonView,
}

impl View for ToolCall {
    type V = ToolCallView;

    open spec fn view(&self) -> ToolCallView {
        ToolCallView {
            id: self.id@,
            name: self.name@,
            arguments: crate::json::jv(self.arguments),
        }
    }
}

impl DeepView for ToolCall {
    type V = ToolCallView;

    open spec fn deep_view(&self) -> ToolCallView {
        self@
    }
}

impl Clone for ToolCall {
    fn clone(&self) -> (r: Self)
        ensures
            r@ == self@,
    {
        let r = ToolCall {
            id: self.id.clone(),
            name: self.name.clone(),
            arguments: self.arguments.clone(),
        };
        r
    }
}

/// A block of a user message.
#[derive(Debug, PartialEq)]
pub enum UserContent {
    Text(TextContent),
    Image(ImageContent),
}

/// What a [`UserContent`] holds.
#[verifier::ext_equal]
pub enum UserContentView {
    Text(TextContentView),
    Image(ImageContentView),
}

impl View for UserContent {
    type V = UserContentView;

    open spec fn view(&self) -> UserContentView {
        match *self {
            UserContent::Text(x) => UserContentView::Text(x@),
            UserContent::Image(x) => UserContentView::Image(x@),
        }
    }
}

impl DeepView for UserContent {
    type V = UserContentView;

    open spec fn deep_view(&self) -> UserContentView {
        self@
    }
}

impl Clone for UserContent {
    fn clone(&self) -> (r: Self)
        ensures
            r@ == self@,
    {
        match self {
            UserContent::Text(x) => UserContent::Text(x.clone()),
            UserContent::Image(x) => UserContent::Image(x.clone()),
        }
    }
}

/// A block of an assistant message.
#[derive(Debug, PartialEq)]
pub enum AssistantContent {
    Text(TextContent),
    Thinking(ThinkingContent),
    ToolCall(ToolCall),
}

/// What a [`AssistantContent`] holds.
#[verifier::ext_equal]
pub enum AssistantContentView {
    Text(TextContentView),
    Thinking(ThinkingContentView),
    ToolCall(ToolCallView),
}

impl View for AssistantContent {
    type V = AssistantContentView;

    open spec fn view(&self) -> AssistantContentView {
        match *self {
            AssistantContent::Text(x) => AssistantContentView::Text(x@),
            AssistantContent::Thinking(x) => AssistantContentView::Thinking(x@),
            AssistantContent::ToolCall(x) => AssistantContentView::ToolCall(x@),
        }
    }
}

impl DeepView for AssistantContent {
    type V = AssistantContentView;

    open spec fn deep_view(&self) -> AssistantContentView {
        self@
    }
}

impl Clone for AssistantContent {
    fn clone(&self) -> (r: Self)
        ensures
            r@ == self@,
    {
        match self {
            AssistantContent::Text(x) => AssistantContent::Text(x.clone()),
            AssistantContent::Thinking(x) => AssistantContent::Thinking(x.clone()),
            AssistantContent::ToolCall(x) => AssistantContent::ToolCall(x.clone()),
        }
    }
}

/// A block of a tool result.
#[derive(Debug, PartialEq)]
pub enum ToolResultContent {
    Text(TextContent),
    Image(ImageContent),
}

/// What a [`ToolResultContent`] holds.
#[verifier::ext_equal]
pub enum ToolResultContentView {
    Text(TextContentView),
    Image(ImageContentView),
}

impl View for ToolResultContent {
    type V = ToolResultContentView;

    open spec fn view(&self) -> ToolResultContentView {
        match *self {
            ToolResultContent::Text(x) => ToolResultContentView::Text(x@),
            ToolResultContent::Image(x) => ToolResultContentView::Image(x@),
        }
    }
}

impl DeepView for ToolResultContent {
    type V = ToolResultContentView;

    open spec fn deep_view(&self) -> ToolResultContentView {
        self@
    }
}

impl Clone for ToolResultContent {
    fn clone(&self) -> (r: Self)
        ensures
            r@ == self@,
    {
        match self {
            ToolResultContent::Text(x) => ToolResultContent::Text(x.clone()),
            ToolResultContent::Image(x) => ToolResultContent::Image(x.clone()),
        }
    }
}

/// A message of the user.
#[derive(Debug, PartialEq)]
pub struct UserMessage {
    pub content: Vec<UserContent>,
    pub timestamp: u64,
}

/// What a [`UserMessage`] holds.
#[verifier::ext_equal]
pub struct UserMessageView {
    pub content: Seq<UserContentView>,
    pub timestamp: u64,
}

impl View for UserMessage {
    type V = UserMessageView;

    open spec fn view(&self) -> UserMessageView {
        UserMessageView {
            content: self.content.deep_view(),
            timestamp: self.timestamp,
        }
    }
}

impl DeepView for UserMessage {
    type V = UserMessageView;

    open spec fn deep_view(&self) -> UserMessageView {
        self@
    }
}

impl Clone for UserMessage {
    fn clone(&self) -> (r: Self)
        ensures
            r@ == self@,
    {
        let r = UserMessage {
            content: self.content.clone(),
            timestamp: self.timestamp,
        };
        assert(r.content.deep_view() =~= self.content.deep_view());
        r
    }
}

/// A message of the model.
#[derive(Debug, PartialEq)]
pub struct AssistantMessage {
    pub content: Vec<AssistantContent>,
    /// Provider api id this message came from.
    pub api: String,
    pub provider: String,
    pub model: String,
    pub response_id: Option<String>,
    pub usage: Usage,
    pub stop_reason: StopReason,
    pub error_message: Option<String>,
    pub timestamp: u64,
}

/// What a [`AssistantMessage`] holds.
#[verifier::ext_equal]
pub struct AssistantMessageView {
    pub content: Seq<AssistantContentView>,
    pub api: Seq<char>,
    pub provider: Seq<char>,
    pub model: Seq<char>,
    pub response_id: Option<Seq<char>>,
    pub usage: Usage,
    pub stop_reason: StopReason,
    pub error_message: Option<Seq<char>>,
    pub timestamp: u64,
}

impl View for AssistantMessage {
    type V = AssistantMessageView;

    open spec fn view(&self) -> AssistantMessageView {
        AssistantMessageView {
            content: self.content.deep_view(),
            api: self.api@,
            provider: self.provider@,
            model: self.model@,
            response_id: self.response_id.deep_view(),
            usage: self.usage,
            stop_reason: self.stop_reason,
            error_message: self.error_message.deep_view(),
            timestamp: self.timestamp,
        }
    }
}

impl DeepView for AssistantMessage {
    type V = AssistantMessageView;

    open spec fn deep_view(&self) -> AssistantMessageView {
        self@
    }
}

impl Clone for AssistantMessage {
    fn clone(&self) -> (r: Self)
        ensures
            r@ == self@,
    {
        let r = AssistantMessage {
            content: self.content.clone(),
            api: self.api.clone(),
            provider: self.provider.clone(),
            model: self.model.clone(),
            response_id: self.response_id.clone(),
            usage: self.usage,
            stop_reason: self.stop_reason,
            error_message: self.error_message.clone(),
            timestamp: self.timestamp,
        };
        assert(r.content.deep_view() =~= self.content.deep_view());
        r
    }
}

/// What the server does after it has persisted a tool result, still inside the turn.
#[derive(Debug, PartialEq)]
pub enum PostPersistAction {
    /// Append an info message to a session's history.
    EmitInfoMessage { target_session_id: String, text: String },
    /// End the current agent turn cleanly.
    StopAgentLoop { reason: String },
}

/// What a [`PostPersistAction`] holds.
#[verifier::ext_equal]
pub enum PostPersistActionView {
    EmitInfoMessage { target_session_id: Seq<char>, text: Seq<char> },
    StopAgentLoop { reason: Seq<char> },
}

impl View for PostPersistAction {
    type V = PostPersistActionView;

    open spec fn view(&self) -> PostPersistActionView {
        match *self {
            PostPersistAction::EmitInfoMessage { target_session_id, text } => PostPersistActionView::EmitInfoMessage { target_session_id: target_session_id@, text: text@ },
            PostPersistAction::StopAgentLoop { reason } => PostPersistActionView::StopAgentLoop { reason: reason@ },
        }
    }
}

impl DeepView for PostPersistAction {
    type V = PostPersistActionView;

    open spec fn deep_view(&self) -> PostPersistActionView {
        self@
    }
}

impl Clone for PostPersistAction {
    fn clone(&self) -> (r: Self)
        ensures
            r@ == self@,
    {
        match self {
            PostPersistAction::EmitInfoMessage { target_session_id, text } => PostPersistAction::EmitInfoMessage { target_session_id: target_session_id.clone(), text: text.clone() },
            PostPersistAction::StopAgentLoop { reason } => PostPersistAction::StopAgentLoop { reason: reason.clone() },
        }
    }
}

/// The result of a tool call.
#[derive(Debug, PartialEq)]
pub struct ToolResultMessage {
    /// The id of the `ToolCall` this result answers.
    pub tool_call_id: String,
    pub tool_name: String,
    pub content: Vec<ToolResultContent>,
    pub details: Option<serde_json::Value>,
    /// True when the tool failed; the model sees the error and can retry.
    pub is_error: bool,
    pub timestamp: u64,
    pub duration_ms: Option<u64>,
    /// Short human description of what the tool did.
    pub summary: Option<String>,
    pub post_persist_actions: Vec<PostPersistAction>,
}

/// What a [`ToolResultMessage`] holds.
#[verifier::ext_equal]
pub struct ToolResultMessageView {
    pub tool_call_id: Seq<char>,
    pub tool_name: Seq<char>,
    pub content: Seq<ToolResultContentView>,
    pub details: Option<JsonView>,
    pub is_error: bool,
    pub timestamp: u64,
    pub duration_ms: Option<u64>,
    pub summary: Option<Seq<char>>,
    pub post_persist_actions: Seq<PostPersistActionView>,
}

impl View for ToolResultMessage {
    type V = ToolResultMessageView;

    open spec fn view(&self) -> ToolResultMessageView {
        ToolResultMessageView {
            tool_call_id: self.tool_call_id@,
            tool_name: self.tool_name@,
            content: self.content.deep_view(),
            details: crate::json::jv_opt(self.details),
            is_error: self.is_error,
            timestamp: self.timestamp,
            duration_ms: self.duration_ms,
            summary: self.summary.deep_view(),
            post_persist_actions: self.post_persist_actions.deep_view(),
        }
    }
}

impl DeepView for ToolResultMessage {
    type V = ToolResultMessageView;

    open spec fn deep_view(&self) -> ToolResultMessageView {
        self@
    }
}

impl Clone for ToolResultMessage {
    fn clone(&self) -> (r: Self)
        ensures
            r@ == self@,
    {
        let r = ToolResultMessage {
            tool_call_id: self.tool_call_id.clone(),
            tool_name: self.tool_name.clone(),
            content: self.content.clone(),
            details: self.details.clone(),
            is_error: self.is_error,
            timestamp: self.timestamp,
            duration_ms: self.duration_ms,
            summary: self.summary.clone(),
            post_persist_actions: self.post_persist_actions.clone(),
        };
        assert(r.content.deep_view() =~= self.content.deep_view());
        assert(r.post_persist_actions.deep_view() =~= self.post_persist_actions.deep_view());
        r
    }
}

/// The summary that stands for compacted messages.
#[derive(Debug, PartialEq)]
pub struct CompactionSummaryMessage {
    pub summary: String,
    /// How many tokens the context had before compaction.
    pub tokens_before: u64,
    pub timestamp: u64,
}

/// What a [`CompactionSummaryMessage`] holds.
#[verifier::ext_equal]
pub struct CompactionSummaryMessageView {
    pub summary: Seq<char>,
    pub tokens_before: u64,
    pub timestamp: u64,
}

impl View for CompactionSummaryMessage {
    type V = CompactionSummaryMessageView;

    open spec fn view(&self) -> CompactionSummaryMessageView {
        CompactionSummaryMessageView {
            summary: self.summary@,
            tokens_before: self.tokens_before,
            timestamp: self.timestamp,
        }
    }
}

impl DeepView for CompactionSummaryMessage {
    type V = CompactionSummaryMessageView;

    open spec fn deep_view(&self) -> CompactionSummaryMessageView {
        self@
    }
}

impl Clone for CompactionSummaryMessage {
    fn clone(&self) -> (r: Self)
        ensures
            r@ == self@,
    {
        let r = CompactionSummaryMessage {
            summary: self.summary.clone(),
            tokens_before: self.tokens_before,
            timestamp: self.timestamp,
        };
        r
    }
}

/// A note for the user.
#[derive(Debug, PartialEq)]
pub struct InfoMessage {
    pub text: String,
    pub timestamp: u64,
}

/// What a [`InfoMessage`] holds.
#[verifier::ext_equal]
pub struct InfoMessageView {
    pub text: Seq<char>,
    pub timestamp: u64,
}

impl View for InfoMessage {
    type V = InfoMessageView;

    open spec fn view(&self) -> InfoMessageView {
        InfoMessageView {
            text: self.text@,
            timestamp: self.timestamp,
        }
    }
}

impl DeepView for InfoMessage {
    type V = InfoMessageView;

    open spec fn deep_view(&self) -> InfoMessageView {
        self@
    }
}

impl Clone for InfoMessage {
    fn clone(&self) -> (r: Self)
        ensures
            r@ == self@,
    {
        let r = InfoMessage {
            text: self.text.clone(),
            timestamp: self.timestamp,
        };
        r
    }
}

/// A single message of the conversation history.
#[derive(Debug, PartialEq)]
pub enum Message {
    User(UserMessage),
    Assistant(AssistantMessage),
    ToolResult(ToolResultMessage),
    CompactionSummary(CompactionSummaryMessage),
    Info(InfoMessage),
}

/// What a [`Message`] holds.
#[verifier::ext_equal]
pub enum MessageView {
    User(UserMessageView),
    Assistant(AssistantMessageView),
    ToolResult(ToolResultMessageView),
    CompactionSummary(CompactionSummaryMessageView),
    Info(InfoMessageView),
}

impl View for Message {
    type V = MessageView;

    open spec fn view(&self) -> MessageView {
        match *self {
            Message::User(x) => MessageView::User(x@),
            Message::Assistant(x) => MessageView::Assistant(x@),
            Message::ToolResult(x) => MessageView::ToolResult(x@),
            Message::CompactionSummary(x) => MessageView::CompactionSummary(x@),
            Message::Info(x) => MessageView::Info(x@),
        }
    }
}

impl DeepView for Message {
    type V = MessageView;

    open spec fn deep_view(&self) -> MessageView {
        self@
    }
}

impl Clone for Message {
    fn clone(&self) -> (r: Self)
        ensures
            r@ == self@,
    {
        match self {
            Message::User(x) => Message::User(x.clone()),
            Message::Assistant(x) => Message::Assistant(x.clone()),
            Message::ToolResult(x) => Message::ToolResult(x.clone()),
            Message::CompactionSummary(x) => Message::CompactionSummary(x.clone()),
            Message::Info(x) => Message::Info(x.clone()),
        }
    }
}

/// An HTTP header.
#[derive(Debug, PartialEq)]
pub struct Header {
    pub name: String,
    pub value: String,
}

/// What a [`Header`] holds.
#[verifier::ext_equal]
pub struct HeaderView {
    pub name: Seq<char>,
    pub value: Seq<char>,
}

impl View for Header {
    type V = HeaderView;

    open spec fn view(&self) -> HeaderView {
        HeaderView {
            name: self.name@,
            value: self.value@,
        }
    }
}

impl DeepView for Header {
    type V = HeaderView;

    open spec fn deep_view(&self) -> HeaderView {
        self@
    }
}

impl Clone for Header {
    fn clone(&self) -> (r: Self)
        ensures
            r@ == self@,
    {
        let r = Header {
            name: self.name.clone(),
            value: self.value.clone(),
        };
        r
    }
}

/// A model and where it runs.
#[derive(Debug, PartialEq)]
pub struct Model {
    pub id: String,
    pub name: String,
    /// Provider api id this model runs on.
    pub api: String,
    pub provider: String,
    pub base_url: String,
    pub thinking: ThinkingStyle,
    pub cost: ModelCost,
    pub context_window: u64,
    pub max_tokens: u64,
    pub headers: Vec<Header>,
}

/// What a [`Model`] holds.
#[verifier::ext_equal]
pub struct ModelView {
    pub id: Seq<char>,
    pub name: Seq<char>,
    pub api: Seq<char>,
    pub provider: Seq<char>,
    pub base_url: Seq<char>,
    pub thinking: ThinkingStyle,
    pub cost: ModelCost,
    pub context_window: u64,
    pub max_tokens: u64,
    pub headers: Seq<HeaderView>,
}

impl View for Model {
    type V = ModelView;

    open spec fn view(&self) -> ModelView {
        ModelView {
            id: self.id@,
            name: self.name@,
            api: self.api@,
            provider: self.provider@,
            base_url: self.base_url@,
            thinking: self.thinking,
            cost: self.cost,
            context_window: self.context_window,
            max_tokens: self.max_tokens,
            headers: self.headers.deep_view(),
        }
    }
}

impl DeepView for Model {
    type V = ModelView;

    open spec fn deep_view(&self) -> ModelView {
        self@
    }
}

impl Clone for Model {
    fn clone(&self) -> (r: Self)
        ensures
            r@ == self@,
    {
        let r = Model {
            id: self.id.clone(),
            name: self.name.clone(),
            api: self.api.clone(),
            provider: self.provider.clone(),
            base_url: self.base_url.clone(),
            thinking: self.thinking,
            cost: self.cost,
            context_window: self.context_window,
            max_tokens: self.max_tokens,
            headers: self.headers.clone(),
        };
        assert(r.headers.deep_view() =~= self.headers.deep_view());
        r
    }
}

/// The description of a callable tool, for the model.
#[derive(Debug, PartialEq)]
pub struct Tool {
    pub name: String,
    pub description: String,
    /// JSON Schema of `ToolCall::arguments`.
    pub parameters: serde_json::Value,
}

/// What a [`Tool`] holds.
#[verifier::ext_equal]
pub struct ToolView {
    pub name: Seq<char>,
    pub description: Seq<char>,
    pub parameters: JsonView,
}

impl View for Tool {
    type V = ToolView;

    open spec fn view(&self) -> ToolView {
        ToolView {
            name: self.name@,
            description: self.description@,
            parameters: crate::json::jv(self.parameters),
        }
    }
}

impl DeepView for Tool {
    type V = ToolView;

    open spec fn deep_view(&self) -> ToolView {
        self@
    }
}

impl Clone for Tool {
    fn clone(&self) -> (r: Self)
        ensures
            r@ == self@,
    {
        let r = Tool {
            name: self.name.clone(),
            description: self.description.clone(),
            parameters: self.parameters.clone(),
        };
        r
    }
}

/// What is sent to the model.
#[derive(Debug, PartialEq)]
pub struct Context {
    pub system_prompt: Option<String>,
    pub messages: Vec<Message>,
    pub tools: Vec<Tool>,
}

/// What a [`Context`] holds.
#[verifier::ext_equal]
pub struct ContextView {
    pub system_prompt: Option<Seq<char>>,
    pub messages: Seq<MessageView>,
    pub tools: Seq<ToolView>,
}

impl View for Context {
    type V = ContextView;

    open spec fn view(&self) -> ContextView {
        ContextView {
            system_prompt: self.system_prompt.deep_view(),
            messages: self.messages.deep_view(),
            tools: self.tools.deep_view(),
        }
    }
}

impl DeepView for Context {
    type V = ContextView;

    open spec fn deep_view(&self) -> ContextView {
        self@
    }
}

impl Clone for Context {
    fn clone(&self) -> (r: Self)
        ensures
            r@ == self@,
    {
        let r = Context {
            system_prompt: self.system_prompt.clone(),
            messages: self.messages.clone(),
            tools: self.tools.clone(),
        };
        assert(r.messages.deep_view() =~= self.messages.deep_view());
        assert(r.tools.deep_view() =~= self.tools.deep_view());
        r
    }
}

/// Per-call options forwarded to the provider.
#[derive(Debug, PartialEq)]
pub struct StreamOptions {
    pub max_tokens: Option<u64>,
    pub api_key: Option<String>,
    pub headers: Vec<Header>,
    /// Extended-thinking budget for the non-adaptive path.
    pub thinking_budget: Option<u64>,
    /// Explicit on/off for extended thinking.
    pub thinking_enabled: Option<bool>,
    /// Effort level for adaptive thinking.
    pub thinking_effort: Option<ThinkingEffort>,
    /// How thinking content is returned.
    pub thinking_display: Option<ThinkingDisplay>,
    /// Session identifier for prompt-cache affinity.
    pub session_id: Option<String>,
    /// Prompt-cache retention hint.
    pub cache_retention: Option<CacheRetention>,
}

/// What a [`StreamOptions`] holds.
#[verifier::ext_equal]
pub struct StreamOptionsView {
    pub max_tokens: Option<u64>,
    pub api_key: Option<Seq<char>>,
    pub headers: Seq<HeaderView>,
    pub thinking_budget: Option<u64>,
    pub thinking_enabled: Option<bool>,
    pub thinking_effort: Option<ThinkingEffort>,
    pub thinking_display: Option<ThinkingDisplay>,
    pub session_id: Option<Seq<char>>,
    pub cache_retention: Option<CacheRetention>,
}

impl View for StreamOptions {
    type V = StreamOptionsView;

    open spec fn view(&self) -> StreamOptionsView {
        StreamOptionsView {
            max_tokens: self.max_tokens,
            api_key: self.api_key.deep_view(),
            headers: self.headers.deep_view(),
            thinking_budget: self.thinking_budget,
            thinking_enabled: self.thinking_enabled,
            thinking_effort: self.thinking_effort,
            thinking_display: self.thinking_display,
            session_id: self.session_id.deep_view(),
            cache_retention: self.cache_retention,
        }
    }
}

impl DeepView for StreamOptions {
    type V = StreamOptionsView;

    open spec fn deep_view(&self) -> StreamOptionsView {
        self@
    }
}

impl Clone for StreamOptions {
    fn clone(&self) -> (r: Self)
        ensures
            r@ == self@,
    {
        let r = StreamOptions {
            max_tokens: self.max_tokens,
            api_key: self.api_key.clone(),
            headers: self.headers.clone(),
            thinking_budget: self.thinking_budget,
            thinking_enabled: self.thinking_enabled,
            thinking_effort: self.thinking_effort,
            thinking_display: self.thinking_display,
            session_id: self.session_id.clone(),
            cache_retention: self.cache_retention,
        };
        assert(r.headers.deep_view() =~= self.headers.deep_view());
        r
    }
}

/// Events emitted while the model streams a response. `partial` is a snapshot of the message being assembled.
#[derive(Debug, PartialEq)]
pub enum StreamEvent {
    Start { partial: AssistantMessage },
    TextStart { content_index: usize, partial: AssistantMessage },
    TextDelta { content_index: usize, delta: String, partial: AssistantMessage },
    TextEnd { content_index: usize, content: String, partial: AssistantMessage },
    ThinkingStart { content_index: usize, partial: AssistantMessage },
    ThinkingDelta { content_index: usize, delta: String, partial: AssistantMessage },
    ThinkingEnd { content_index: usize, content: String, partial: AssistantMessage },
    ToolcallStart { content_index: usize, partial: AssistantMessage },
    /// One fragment of JSON arguments for the tool call at `content_index`.
    ToolcallDelta { content_index: usize, delta: String, partial: AssistantMessage },
    ToolcallEnd { content_index: usize, tool_call: ToolCall, partial: AssistantMessage },
    /// Incremental tool output.
    ToolOutputDelta { tool_call_id: String, delta: String },
    /// Tool execution completed.
    ToolResult { tool_call_id: String, tool_name: String, is_error: bool, content: String, summary: Option<String> },
    /// Stream finished naturally.
    Done { reason: StopReason, message: AssistantMessage },
    /// Stream failed.
    Error { reason: StopReason, error: AssistantMessage },
    /// A steering message was injected mid-loop.
    SteerMessage { message: UserMessage },
    /// Agent phase transition.
    Phase { phase: AgentPhase, turn_started_at_ms: Option<u64>, phase_started_at_ms: Option<u64> },
    /// Informational status message.
    Status { message: String },
}

/// What a [`StreamEvent`] holds.
#[verifier::ext_equal]
pub enum StreamEventView {
    Start { partial: AssistantMessageView },
    TextStart { content_index: usize, partial: AssistantMessageView },
    TextDelta { content_index: usize, delta: Seq<char>, partial: AssistantMessageView },
    TextEnd { content_index: usize, content: Seq<char>, partial: AssistantMessageView },
    ThinkingStart { content_index: usize, partial: AssistantMessageView },
    ThinkingDelta { content_index: usize, delta: Seq<char>, partial: AssistantMessageView },
    ThinkingEnd { content_index: usize, content: Seq<char>, partial: AssistantMessageView },
    ToolcallStart { content_index: usize, partial: AssistantMessageView },
    ToolcallDelta { content_index: usize, delta: Seq<char>, partial: AssistantMessageView },
    ToolcallEnd { content_index: usize, tool_call: ToolCallView, partial: AssistantMessageView },
    ToolOutputDelta { tool_call_id: Seq<char>, delta: Seq<char> },
    ToolResult { tool_call_id: Seq<char>, tool_name: Seq<char>, is_error: bool, content: Seq<char>, summary: Option<Seq<char>> },
    Done { reason: StopReason, message: AssistantMessageView },
    Error { reason: StopReason, error: AssistantMessageView },
    SteerMessage { message: UserMessageView },
    Phase { phase: AgentPhase, turn_started_at_ms: Option<u64>, phase_started_at_ms: Option<u64> },
    Status { message: Seq<char> },
}

impl View for StreamEvent {
    type V = StreamEventView;

    open spec fn view(&self) -> StreamEventView {
        match *self {
            StreamEvent::Start { partial } => StreamEventView::Start { partial: partial@ },
            StreamEvent::TextStart { content_index, partial } => StreamEventView::TextStart { content_index: content_index, partial: partial@ },
            StreamEvent::TextDelta { content_index, delta, partial } => StreamEventView::TextDelta { content_index: content_index, delta: delta@, partial: partial@ },
            StreamEvent::TextEnd { content_index, content, partial } => StreamEventView::TextEnd { content_index: content_index, content: content@, partial: partial@ },
            StreamEvent::ThinkingStart { content_index, partial } => StreamEventView::ThinkingStart { content_index: content_index, partial: partial@ },
            StreamEvent::ThinkingDelta { content_index, delta, partial } => StreamEventView::ThinkingDelta { content_index: content_index, delta: delta@, partial: partial@ },
            StreamEvent::ThinkingEnd { content_index, content, partial } => StreamEventView::ThinkingEnd { content_index: content_index, content: content@, partial: partial@ },
            StreamEvent::ToolcallStart { content_index, partial } => StreamEventView::ToolcallStart { content_index: content_index, partial: partial@ },
            StreamEvent::ToolcallDelta { content_index, delta, partial } => StreamEventView::ToolcallDelta { content_index: content_index, delta: delta@, partial: partial@ },
            StreamEvent::ToolcallEnd { content_index, tool_call, partial } => StreamEventView::ToolcallEnd { content_index: content_index, tool_call: tool_call@, partial: partial@ },
            StreamEvent::ToolOutputDelta { tool_call_id, delta } => StreamEventView::ToolOutputDelta { tool_call_id: tool_call_id@, delta: delta@ },
            StreamEvent::ToolResult { tool_call_id, tool_name, is_error, content, summary } => StreamEventView::ToolResult { tool_call_id: tool_call_id@, tool_name: tool_name@, is_error: is_error, content: content@, summary: summary.deep_view() },
            StreamEvent::Done { reason, message } => StreamEventView::Done { reason: reason, message: message@ },
            StreamEvent::Error { reason, error } => StreamEventView::Error { reason: reason, error: error@ },
            StreamEvent::SteerMessage { message } => StreamEventView::SteerMessage { message: message@ },
            StreamEvent::Phase { phase, turn_started_at_ms, phase_started_at_ms } => StreamEventView::Phase { phase: phase, turn_started_at_ms: turn_started_at_ms, phase_started_at_ms: phase_started_at_ms },
            StreamEvent::Status { message } => StreamEventView::Status { message: message@ },
        }
    }
}

impl DeepView for StreamEvent {
    type V = StreamEventView;

    open spec fn deep_view(&self) -> StreamEventView {
        self@
    }
}

impl Clone for StreamEvent {
    fn clone(&self) -> (r: Self)
        ensures
            r@ == self@,
    {
        match self {
            StreamEvent::Start { partial } => StreamEvent::Start { partial: partial.clone() },
            StreamEvent::TextStart { content_index, partial } => StreamEvent::TextStart { content_index: *content_index, partial: partial.clone() },
            StreamEvent::TextDelta { content_index, delta, partial } => StreamEvent::TextDelta { content_index: *content_index, delta: delta.clone(), partial: partial.clone() },
            StreamEvent::TextEnd { content_index, content, partial } => StreamEvent::TextEnd { content_index: *content_index, content: content.clone(), partial: partial.clone() },
            StreamEvent::ThinkingStart { content_index, partial } => StreamEvent::ThinkingStart { content_index: *content_index, partial: partial.clone() },
            StreamEvent::ThinkingDelta { content_index, delta, partial } => StreamEvent::ThinkingDelta { content_index: *content_index, delta: delta.clone(), partial: partial.clone() },
            StreamEvent::ThinkingEnd { content_index, content, partial } => StreamEvent::ThinkingEnd { content_index: *content_index, content: content.clone(), partial: partial.clone() },
            StreamEvent::ToolcallStart { content_index, partial } => StreamEvent::ToolcallStart { content_index: *content_index, partial: partial.clone() },
            StreamEvent::ToolcallDelta { content_index, delta, partial } => StreamEvent::ToolcallDelta { content_index: *content_index, delta: delta.clone(), partial: partial.clone() },
            StreamEvent::ToolcallEnd { content_index, tool_call, partial } => StreamEvent::ToolcallEnd { content_index: *content_index, tool_call: tool_call.clone(), partial: partial.clone() },
            StreamEvent::ToolOutputDelta { tool_call_id, delta } => StreamEvent::ToolOutputDelta { tool_call_id: tool_call_id.clone(), delta: delta.clone() },
            StreamEvent::ToolResult { tool_call_id, tool_name, is_error, content, summary } => StreamEvent::ToolResult { tool_call_id: tool_call_id.clone(), tool_name: tool_name.clone(), is_error: *is_error, content: content.clone(), summary: summary.clone() },
            StreamEvent::Done { reason, message } => StreamEvent::Done { reason: *reason, message: message.clone() },
            StreamEvent::Error { reason, error } => StreamEvent::Error { reason: *reason, error: error.clone() },
            StreamEvent::SteerMessage { message } => StreamEvent::SteerMessage { message: message.clone() },
            StreamEvent::Phase { phase, turn_started_at_ms, phase_started_at_ms } => StreamEvent::Phase { phase: *phase, turn_started_at_ms: *turn_started_at_ms, phase_started_at_ms: *phase_started_at_ms },
            StreamEvent::Status { message } => StreamEvent::Status { message: message.clone() },
        }
    }
}

// ---------------------------------------------------------------------------
// Constructors and readers
// ---------------------------------------------------------------------------

/// A text block without a signature.
pub open spec fn plain_text(text: Seq<char>) -> TextContentView {
    TextContentView { text, text_signature: None }
}

impl TextContent {
    /// A text block without a signature.
    pub fn plain(text: String) -> (r: Self)
        ensures
            r@ == plain_text(text@),
    {
        TextContent { text, text_signature: None }
    }
}

impl ToolResultContentView {
    /// The text of a text block, nothing for an image.
    pub open spec fn text(self) -> Seq<char> {
        match self {
            ToolResultContentView::Text(t) => t.text,
            ToolResultContentView::Image(_) => seq![],
        }
    }
}

impl ToolResultContent {
    /// Return the text if this is a Text variant, empty string otherwise.
    pub fn text(&self) -> (r: &str)
        ensures
            r@ == self@.text(),
    {
        match self {
            ToolResultContent::Text(t) => t.text.as_str(),
            ToolResultContent::Image(_) => {
                proof {
                    reveal_strlit("");
                }
                assert(""@ =~= Seq::<char>::empty());
                ""
            },
        }
    }
}

impl UserMessage {
    /// A message of one text block, stamped with the current time.
    pub fn text(text: &str) -> (r: Self)
        ensures
            r@.content == seq![UserContentView::Text(plain_text(text@))],
    {
        let content: Vec<UserContent> = vec![UserContent::Text(TextContent::plain(text.to_owned()))];
        let r = UserMessage { content, timestamp: timestamp_ms() };
        assert(r@.content =~= seq![UserContentView::Text(plain_text(text@))]);
        r
    }
}

/// The text of an assistant block, nothing for another kind of block.
pub open spec fn block_text(c: AssistantContentView) -> Seq<char> {
    match c {
        AssistantContentView::Text(t) => t.text,
        _ => seq![],
    }
}

/// The text blocks of an assistant message, one after the other.
pub open spec fn assistant_text(content: Seq<AssistantContentView>) -> Seq<char> {
    crate::text::concat(Seq::new(content.len(), |i: int| block_text(content[i])))
}

impl AssistantMessageView {
    /// A message without content, with no usage and a normal stop.
    pub open spec fn is_empty_of(self, api: Seq<char>, provider: Seq<char>, model: Seq<char>) -> bool {
        self == (AssistantMessageView {
            content: seq![],
            api,
            provider,
            model,
            response_id: None,
            usage: Usage { input: 0, output: 0, cache_read: 0, cache_write: 0, total_tokens: 0 },
            stop_reason: StopReason::Stop,
            error_message: None,
            timestamp: self.timestamp,
        })
    }

    /// The text blocks, one after the other.
    pub open spec fn text(self) -> Seq<char> {
        assistant_text(self.content)
    }
}

impl AssistantMessage {
    /// A message without content, stamped with the current time.
    pub fn empty(api: &str, provider: &str, model: &str) -> (r: Self)
        ensures
            r@.is_empty_of(api@, provider@, model@),
    {
        let r = AssistantMessage {
            content: Vec::new(),
            api: api.to_owned(),
            provider: provider.to_owned(),
            model: model.to_owned(),
            response_id: None,
            usage: Usage::default(),
            stop_reason: StopReason::Stop,
            error_message: None,
            timestamp: timestamp_ms(),
        };
        assert(r@.content =~= seq![]);
        r
    }

    /// Concatenate all text content blocks.
    pub fn text(&self) -> (r: String)
        ensures
            r@ == self@.text(),
    {
        let mut out: String = String::new();
        let mut i: usize = 0;
        let ghost parts = Seq::new(
            self@.content.len(),
            |i: int| block_text(self@.content[i]),
        );
        assert(parts.subrange(0, 0) =~= seq![]);
        while i < self.content.len()
            invariant
                i <= self.content.len(),
                parts == Seq::new(self@.content.len(), |i: int| block_text(self@.content[i])),
                out@ == crate::text::concat(parts.subrange(0, i as int)),
            decreases self.content.len() - i,
        {
            let ghost p = parts.subrange(0, i + 1);
            assert(p.subrange(0, p.len() - 1) =~= parts.subrange(0, i as int));
            assert(p[i as int] == block_text(self.content[i as int]@));
            match &self.content[i] {
                AssistantContent::Text(t) => {
                    out.append(t.text.as_str());
                },
                _ => {
                    assert(out@ + Seq::<char>::empty() =~= out@);
                },
            }
            i = i + 1;
        }
        assert(parts.subrange(0, i as int) =~= parts);
        out
    }
}

/// The text blocks of a tool result, one after the other.
pub open spec fn result_text(content: Seq<ToolResultContentView>) -> Seq<char> {
    crate::text::concat(Seq::new(content.len(), |i: int| content[i].text()))
}

impl ToolResultMessageView {
    /// A result of one text block that answers the call `id` of the tool `name`.
    pub open spec fn is_plain(
        self,
        id: Seq<char>,
        name: Seq<char>,
        text: Seq<char>,
        is_error: bool,
    ) -> bool {
        self == (ToolResultMessageView {
            tool_call_id: id,
            tool_name: name,
            content: seq![ToolResultContentView::Text(plain_text(text))],
            details: None,
            is_error,
            timestamp: self.timestamp,
            duration_ms: None,
            summary: None,
            post_persist_actions: seq![],
        })
    }

    /// The text blocks, one after the other.
    pub open spec fn text(self) -> Seq<char> {
        result_text(self.content)
    }
}

impl ToolResultMessage {
    /// A result of one text block, stamped with the current time.
    fn plain(id: &str, name: &str, text: &str, is_error: bool) -> (r: Self)
        ensures
            r@.is_plain(id@, name@, text@, is_error),
    {
        let content: Vec<ToolResultContent> = vec![
            ToolResultContent::Text(TextContent::plain(text.to_owned())),
        ];
        let r = ToolResultMessage {
            tool_call_id: id.to_owned(),
            tool_name: name.to_owned(),
            content,
            details: None,
            is_error,
            timestamp: timestamp_ms(),
            duration_ms: None,
            summary: None,
            post_persist_actions: Vec::new(),
        };
        assert(r@.content =~= seq![ToolResultContentView::Text(plain_text(text@))]);
        assert(r@.post_persist_actions =~= seq![]);
        r
    }

    /// The result of a call that succeeded.
    pub fn success(id: &str, name: &str, text: &str) -> (r: Self)
        ensures
            r@.is_plain(id@, name@, text@, false),
    {
        ToolResultMessage::plain(id, name, text, false)
    }

    /// The result of a call that failed.
    pub fn error(id: &str, name: &str, text: &str) -> (r: Self)
        ensures
            r@.is_plain(id@, name@, text@, true),
    {
        ToolResultMessage::plain(id, name, text, true)
    }

    /// Concatenate all text content blocks.
    pub fn text(&self) -> (r: String)
        ensures
            r@ == self@.text(),
    {
        let mut out: String = String::new();
        let mut i: usize = 0;
        let ghost parts = Seq::new(self@.content.len(), |i: int| self@.content[i].text());
        assert(parts.subrange(0, 0) =~= seq![]);
        while i < self.content.len()
            invariant
                i <= self.content.len(),
                parts == Seq::new(self@.content.len(), |i: int| self@.content[i].text()),
                out@ == crate::text::concat(parts.subrange(0, i as int)),
            decreases self.content.len() - i,
        {
            let ghost p = parts.subrange(0, i + 1);
            assert(p.subrange(0, p.len() - 1) =~= parts.subrange(0, i as int));
            assert(p[i as int] == self.content[i as int]@.text());
            out.append(self.content[i].text());
            i = i + 1;
        }
        assert(parts.subrange(0, i as int) =~= parts);
        out
    }
}

impl InfoMessage {
    /// A note stamped with the current time.
    pub fn new(text: &str) -> (r: Self)
        ensures
            r@.text == text@,
    {
        InfoMessage { text: text.to_owned(), timestamp: timestamp_ms() }
    }
}

impl Default for Context {
    fn default() -> (r: Self)
        ensures
            r@ == (ContextView { system_prompt: None, messages: seq![], tools: seq![] }),
    {
        let r = Context { system_prompt: None, messages: Vec::new(), tools: Vec::new() };
        assert(r@.messages =~= seq![]);
        assert(r@.tools =~= seq![]);
        r
    }
}

impl Default for StreamOptions {
    fn default() -> (r: Self)
        ensures
            r@ == (StreamOptionsView {
                max_tokens: None,
                api_key: None,
                headers: seq![],
                thinking_budget: None,
                thinking_enabled: None,
                thinking_effort: None,
                thinking_display: None,
                session_id: None,
                cache_retention: None,
            }),
    {
        let r = StreamOptions {
            max_tokens: None,
            api_key: None,
            headers: Vec::new(),
            thinking_budget: None,
            thinking_enabled: None,
            thinking_effort: None,
            thinking_display: None,
            session_id: None,
            cache_retention: None,
        };
        assert(r@.headers =~= seq![]);
        r
    }
}

/// The snapshot that an event carries.
pub open spec fn snapshot(e: StreamEventView) -> Option<AssistantMessageView> {
    match e {
        StreamEventView::Start { partial } => Some(partial),
        StreamEventView::TextStart { partial, .. } => Some(partial),
        StreamEventView::TextDelta { partial, .. } => Some(partial),
        StreamEventView::TextEnd { partial, .. } => Some(partial),
        StreamEventView::ThinkingStart { partial, .. } => Some(partial),
        StreamEventView::ThinkingDelta { partial, .. } => Some(partial),
        StreamEventView::ThinkingEnd { partial, .. } => Some(partial),
        StreamEventView::ToolcallStart { partial, .. } => Some(partial),
        StreamEventView::ToolcallDelta { partial, .. } => Some(partial),
        StreamEventView::ToolcallEnd { partial, .. } => Some(partial),
        StreamEventView::Done { message, .. } => Some(message),
        StreamEventView::Error { error, .. } => Some(error),
        _ => None,
    }
}

/// Whether an event ends a stream.
pub open spec fn is_terminal(e: StreamEventView) -> bool {
    e is Done || e is Error
}

/// Recomputing the total of a usage twice is the same as doing it once.
pub proof fn law_recompute_idempotent(u: Usage)
    requires
        u.sum() <= u64::MAX,
    ensures
        ({
            let once = Usage { total_tokens: u.sum() as u64, ..u };
            once.sum() == u.sum() && (Usage { total_tokens: once.sum() as u64, ..once }) == once
        }),
{
}

/// The text of an assistant message is its text blocks, in order and nothing between them; thoughts
/// and tool calls are not part of it.
pub proof fn law_assistant_text(content: Seq<AssistantContentView>)
    ensures
        assistant_text(content) == crate::text::concat(
            content.filter(|c: AssistantContentView| c is Text).map_values(
                |c: AssistantContentView| c->Text_0.text,
            ),
        ),
    decreases content.len(),
{
    reveal(Seq::filter);
    let is = |c: AssistantContentView| c is Text;
    let get = |c: AssistantContentView| c->Text_0.text;
    let kept = content.filter(is).map_values(get);
    let parts = Seq::new(content.len(), |i: int| block_text(content[i]));
    if content.len() > 0 {
        let init = content.drop_last();
        law_assistant_text(init);
        let earlier = init.filter(is).map_values(get);
        assert(parts.subrange(0, parts.len() - 1) =~= Seq::new(
            init.len(),
            |i: int| block_text(init[i]),
        ));
        if content.last() is Text {
            assert(kept =~= earlier.push(content.last()->Text_0.text));
            assert(kept.subrange(0, kept.len() - 1) =~= earlier);
        } else {
            assert(kept =~= earlier);
            assert(assistant_text(content) =~= assistant_text(init));
        }
    }
}

/// The text of a tool result is its text blocks, in order and nothing between them.
pub proof fn law_result_text(content: Seq<ToolResultContentView>)
    ensures
        result_text(content) == crate::text::concat(
            content.filter(|c: ToolResultContentView| c is Text).map_values(
                |c: ToolResultContentView| c->Text_0.text,
            ),
        ),
    decreases content.len(),
{
    reveal(Seq::filter);
    let is = |c: ToolResultContentView| c is Text;
    let get = |c: ToolResultContentView| c->Text_0.text;
    let kept = content.filter(is).map_values(get);
    let parts = Seq::new(content.len(), |i: int| content[i].text());
    if content.len() > 0 {
        let init = content.drop_last();
        law_result_text(init);
        let earlier = init.filter(is).map_values(get);
        assert(parts.subrange(0, parts.len() - 1) =~= Seq::new(
            init.len(),
            |i: int| init[i].text(),
        ));
        if content.last() is Text {
            assert(kept =~= earlier.push(content.last()->Text_0.text));
            assert(kept.subrange(0, kept.len() - 1) =~= earlier);
        } else {
            assert(kept =~= earlier);
            assert(result_text(content) =~= result_text(init));
        }
    }
}

/// Which events end a stream: one that says that the message is done, and one that says that it failed.
/// Each event that is part of a message carries the message as it is by then.
pub proof fn law_ends_and_snapshots(e: StreamEventView)
    ensures
        is_terminal(e) <==> e is Done || e is Error,
        e matches StreamEventView::Done { message, .. } ==> snapshot(e) == Some(message),
        e matches StreamEventView::Error { error, .. } ==> snapshot(e) == Some(error),
        e matches StreamEventView::TextDelta { partial, .. } ==> snapshot(e) == Some(partial),
        e is ToolResult || e is Status || e is Phase ==> snapshot(e) is None,
{
}

} // verus!
