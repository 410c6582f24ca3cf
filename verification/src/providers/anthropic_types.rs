//! Types of the Anthropic Messages wire format.

use vstd::prelude::*;

use crate::json::{Json, JsonView};
use crate::types::Usage;

verus! {

/// A cache breakpoint.
#[derive(Debug, PartialEq)]
pub struct CacheControl {
    pub cache_type: &'static str,
}

/// What a [`CacheControl`] holds.
#[verifier::ext_equal]
pub struct CacheControlView {
    pub cache_type: Seq<char>,
}

impl View for CacheControl {
    type V = CacheControlView;

    open spec fn view(&self) -> CacheControlView {
        CacheControlView {
            cache_type: self.cache_type@,
        }
    }
}

impl DeepView for CacheControl {
    type V = CacheControlView;

    open spec fn deep_view(&self) -> CacheControlView {
        self@
    }
}

impl Clone for CacheControl {
    fn clone(&self) -> (r: Self)
        ensures
            r@ == self@,
    {
        let r = CacheControl {
            cache_type: self.cache_type,
        };
        r
    }
}

impl CacheControl {
    /// A breakpoint of the short-lived cache.
    pub fn ephemeral() -> (r: Self)
        ensures
            r@ == ephemeral(),
    {
        CacheControl { cache_type: "ephemeral" }
    }
}

/// A breakpoint of the short-lived cache.
pub open spec fn ephemeral() -> CacheControlView {
    CacheControlView { cache_type: "ephemeral"@ }
}

/// A block of the system prompt.
#[derive(Debug, PartialEq)]
pub struct SystemBlock {
    pub block_type: &'static str,
    pub text: String,
    pub cache_control: Option<CacheControl>,
}

/// What a [`SystemBlock`] holds.
#[verifier::ext_equal]
pub struct SystemBlockView {
    pub block_type: Seq<char>,
    pub text: Seq<char>,
    pub cache_control: Option<CacheControlView>,
}

impl View for SystemBlock {
    type V = SystemBlockView;

    open spec fn view(&self) -> SystemBlockView {
        SystemBlockView {
            block_type: self.block_type@,
            text: self.text@,
            cache_control: self.cache_control.deep_view(),
        }
    }
}

impl DeepView for SystemBlock {
    type V = SystemBlockView;

    open spec fn deep_view(&self) -> SystemBlockView {
        self@
    }
}

/// A message on the wire.
#[derive(Debug, PartialEq)]
pub struct ApiMessage {
    pub role: &'static str,
    pub content: serde_json::Value,
}

/// What a [`ApiMessage`] holds.
#[verifier::ext_equal]
pub struct ApiMessageView {
    pub role: Seq<char>,
    pub content: Json,
}

impl View for ApiMessage {
    type V = ApiMessageView;

    open spec fn view(&self) -> ApiMessageView {
        ApiMessageView {
            role: self.role@,
            content: crate::json::json_of(self.content),
        }
    }
}

impl DeepView for ApiMessage {
    type V = ApiMessageView;

    open spec fn deep_view(&self) -> ApiMessageView {
        self@
    }
}

/// A tool on the wire.
#[derive(Debug, PartialEq)]
pub struct ToolDef {
    pub name: String,
    pub description: String,
    pub input_schema: serde_json::Value,
    pub eager_input_streaming: bool,
    pub cache_control: Option<CacheControl>,
}

/// What a [`ToolDef`] holds.
#[verifier::ext_equal]
pub struct ToolDefView {
    pub name: Seq<char>,
    pub description: Seq<char>,
    pub input_schema: Json,
    pub eager_input_streaming: bool,
    pub cache_control: Option<CacheControlView>,
}

impl View for ToolDef {
    type V = ToolDefView;

    open spec fn view(&self) -> ToolDefView {
        ToolDefView {
            name: self.name@,
            description: self.description@,
            input_schema: crate::json::json_of(self.input_schema),
            eager_input_streaming: self.eager_input_streaming,
            cache_control: self.cache_control.deep_view(),
        }
    }
}

impl DeepView for ToolDef {
    type V = ToolDefView;

    open spec fn deep_view(&self) -> ToolDefView {
        self@
    }
}

/// How the model is asked to think.
#[derive(Debug, PartialEq)]
pub struct ThinkingConfig {
    pub thinking_type: &'static str,
    pub budget_tokens: Option<u64>,
    pub display: Option<&'static str>,
}

/// What a [`ThinkingConfig`] holds.
#[verifier::ext_equal]
pub struct ThinkingConfigView {
    pub thinking_type: Seq<char>,
    pub budget_tokens: Option<u64>,
    pub display: Option<Seq<char>>,
}

impl View for ThinkingConfig {
    type V = ThinkingConfigView;

    open spec fn view(&self) -> ThinkingConfigView {
        ThinkingConfigView {
            thinking_type: self.thinking_type@,
            budget_tokens: self.budget_tokens,
            display: self.display.deep_view(),
        }
    }
}

impl DeepView for ThinkingConfig {
    type V = ThinkingConfigView;

    open spec fn deep_view(&self) -> ThinkingConfigView {
        self@
    }
}

/// How much effort the model is asked for.
#[derive(Debug, PartialEq)]
pub struct OutputConfig {
    pub effort: &'static str,
}

/// What a [`OutputConfig`] holds.
#[verifier::ext_equal]
pub struct OutputConfigView {
    pub effort: Seq<char>,
}

impl View for OutputConfig {
    type V = OutputConfigView;

    open spec fn view(&self) -> OutputConfigView {
        OutputConfigView {
            effort: self.effort@,
        }
    }
}

impl DeepView for OutputConfig {
    type V = OutputConfigView;

    open spec fn deep_view(&self) -> OutputConfigView {
        self@
    }
}

/// A request, but for the sampling temperature, which the transport adds.
#[derive(Debug, PartialEq)]
pub struct MessagesRequest {
    pub model: String,
    pub messages: Vec<ApiMessage>,
    pub max_tokens: u64,
    pub stream: bool,
    pub system: Option<Vec<SystemBlock>>,
    pub tools: Option<Vec<ToolDef>>,
    pub thinking: Option<ThinkingConfig>,
    pub output_config: Option<OutputConfig>,
}

/// What a [`MessagesRequest`] holds.
#[verifier::ext_equal]
pub struct MessagesRequestView {
    pub model: Seq<char>,
    pub messages: Seq<ApiMessageView>,
    pub max_tokens: u64,
    pub stream: bool,
    pub system: Option<Seq<SystemBlockView>>,
    pub tools: Option<Seq<ToolDefView>>,
    pub thinking: Option<ThinkingConfigView>,
    pub output_config: Option<OutputConfigView>,
}

impl View for MessagesRequest {
    type V = MessagesRequestView;

    open spec fn view(&self) -> MessagesRequestView {
        MessagesRequestView {
            model: self.model@,
            messages: self.messages.deep_view(),
            max_tokens: self.max_tokens,
            stream: self.stream,
            system: self.system.deep_view(),
            tools: self.tools.deep_view(),
            thinking: self.thinking.deep_view(),
            output_config: self.output_config.deep_view(),
        }
    }
}

impl DeepView for MessagesRequest {
    type V = MessagesRequestView;

    open spec fn deep_view(&self) -> MessagesRequestView {
        self@
    }
}

// ---------------------------------------------------------------------------
// Server-sent events
// ---------------------------------------------------------------------------

/// Token counts of an event; absent counts keep their value.
#[derive(Debug, Clone, Copy, PartialEq, Eq, Structural)]
pub struct ApiUsage {
    pub input_tokens: Option<u64>,
    pub output_tokens: Option<u64>,
    pub cache_read_input_tokens: Option<u64>,
    pub cache_creation_input_tokens: Option<u64>,
}

/// `new` if there is one, else `old_value`.
pub open spec fn or_keep(new: Option<u64>, old_value: u64) -> u64 {
    match new {
        Some(n) => n,
        None => old_value,
    }
}

impl ApiUsage {
    /// The counters after these counts have been taken over, the total not yet recomputed.
    pub open spec fn over(self, usage: Usage) -> Usage {
        Usage {
            input: or_keep(self.input_tokens, usage.input),
            output: or_keep(self.output_tokens, usage.output),
            cache_read: or_keep(self.cache_read_input_tokens, usage.cache_read),
            cache_write: or_keep(self.cache_creation_input_tokens, usage.cache_write),
            total_tokens: usage.total_tokens,
        }
    }

    /// The usage after these counts have been taken over.
    pub open spec fn applied(self, usage: Usage) -> Usage {
        Usage { total_tokens: self.over(usage).sum() as u64, ..self.over(usage) }
    }

    /// The total of the counters fits in 64 bits.
    pub open spec fn fits_spec(self, usage: Usage) -> bool {
        self.over(usage).sum() <= u64::MAX
    }

    /// Whether the total of the counters would fit in 64 bits.
    pub fn fits(&self, usage: &Usage) -> (r: bool)
        ensures
            r == self.fits_spec(*usage),
    {
        let a: u64 = match self.input_tokens {
            Some(n) => n,
            None => usage.input,
        };
        let b: u64 = match self.output_tokens {
            Some(n) => n,
            None => usage.output,
        };
        let c: u64 = match self.cache_read_input_tokens {
            Some(n) => n,
            None => usage.cache_read,
        };
        let d: u64 = match self.cache_creation_input_tokens {
            Some(n) => n,
            None => usage.cache_write,
        };
        let total: u128 = a as u128 + b as u128 + c as u128 + d as u128;
        total <= u64::MAX as u128
    }

    /// Take the counts over into `usage` and recompute its total.
    pub fn apply_to(&self, usage: &mut Usage)
        requires
            self.fits_spec(*old(usage)),
        ensures
            *final(usage) == self.applied(*old(usage)),
    {
        if let Some(n) = self.input_tokens {
            usage.input = n;
        }
        if let Some(n) = self.output_tokens {
            usage.output = n;
        }
        if let Some(n) = self.cache_read_input_tokens {
            usage.cache_read = n;
        }
        if let Some(n) = self.cache_creation_input_tokens {
            usage.cache_write = n;
        }
        usage.recompute_total();
    }
}

/// The message that begins.
#[derive(Debug, PartialEq)]
pub struct MessageStartMessage {
    pub id: String,
    pub usage: Option<ApiUsage>,
}

/// What a [`MessageStartMessage`] holds.
#[verifier::ext_equal]
pub struct MessageStartMessageView {
    pub id: Seq<char>,
    pub usage: Option<ApiUsage>,
}

impl View for MessageStartMessage {
    type V = MessageStartMessageView;

    open spec fn view(&self) -> MessageStartMessageView {
        MessageStartMessageView {
            id: self.id@,
            usage: self.usage,
        }
    }
}

impl DeepView for MessageStartMessage {
    type V = MessageStartMessageView;

    open spec fn deep_view(&self) -> MessageStartMessageView {
        self@
    }
}

/// A message begins.
#[derive(Debug, PartialEq)]
pub struct MessageStartEvent {
    pub message: MessageStartMessage,
}

/// What a [`MessageStartEvent`] holds.
#[verifier::ext_equal]
pub struct MessageStartEventView {
    pub message: MessageStartMessageView,
}

impl View for MessageStartEvent {
    type V = MessageStartEventView;

    open spec fn view(&self) -> MessageStartEventView {
        MessageStartEventView {
            message: self.message@,
        }
    }
}

impl DeepView for MessageStartEvent {
    type V = MessageStartEventView;

    open spec fn deep_view(&self) -> MessageStartEventView {
        self@
    }
}

/// A content block that begins.
#[derive(Debug, PartialEq)]
pub enum ContentBlock {
    Text { text: String },
    Thinking { thinking: String },
    RedactedThinking { data: String },
    ToolUse { id: String, name: String, input: serde_json::Value },
}

/// What a [`ContentBlock`] holds.
#[verifier::ext_equal]
pub enum ContentBlockView {
    Text { text: Seq<char> },
    Thinking { thinking: Seq<char> },
    RedactedThinking { data: Seq<char> },
    ToolUse { id: Seq<char>, name: Seq<char>, input: JsonView },
}

impl View for ContentBlock {
    type V = ContentBlockView;

    open spec fn view(&self) -> ContentBlockView {
        match *self {
            ContentBlock::Text { text } => ContentBlockView::Text { text: text@ },
            ContentBlock::Thinking { thinking } => ContentBlockView::Thinking { thinking: thinking@ },
            ContentBlock::RedactedThinking { data } => ContentBlockView::RedactedThinking { data: data@ },
            ContentBlock::ToolUse { id, name, input } => ContentBlockView::ToolUse { id: id@, name: name@, input: crate::json::jv(input) },
        }
    }
}

impl DeepView for ContentBlock {
    type V = ContentBlockView;

    open spec fn deep_view(&self) -> ContentBlockView {
        self@
    }
}

/// A content block begins.
#[derive(Debug, PartialEq)]
pub struct ContentBlockStartEvent {
    pub index: u64,
    pub content_block: ContentBlock,
}

/// What a [`ContentBlockStartEvent`] holds.
#[verifier::ext_equal]
pub struct ContentBlockStartEventView {
    pub index: u64,
    pub content_block: ContentBlockView,
}

impl View for ContentBlockStartEvent {
    type V = ContentBlockStartEventView;

    open spec fn view(&self) -> ContentBlockStartEventView {
        ContentBlockStartEventView {
            index: self.index,
            content_block: self.content_block@,
        }
    }
}

impl DeepView for ContentBlockStartEvent {
    type V = ContentBlockStartEventView;

    open spec fn deep_view(&self) -> ContentBlockStartEventView {
        self@
    }
}

/// A fragment of a content block.
#[derive(Debug, PartialEq)]
pub enum Delta {
    TextDelta { text: String },
    ThinkingDelta { thinking: String },
    InputJsonDelta { partial_json: String },
    SignatureDelta { signature: String },
}

/// What a [`Delta`] holds.
#[verifier::ext_equal]
pub enum DeltaView {
    TextDelta { text: Seq<char> },
    ThinkingDelta { thinking: Seq<char> },
    InputJsonDelta { partial_json: Seq<char> },
    SignatureDelta { signature: Seq<char> },
}

impl View for Delta {
    type V = DeltaView;

    open spec fn view(&self) -> DeltaView {
        match *self {
            Delta::TextDelta { text } => DeltaView::TextDelta { text: text@ },
            Delta::ThinkingDelta { thinking } => DeltaView::ThinkingDelta { thinking: thinking@ },
            Delta::InputJsonDelta { partial_json } => DeltaView::InputJsonDelta { partial_json: partial_json@ },
            Delta::SignatureDelta { signature } => DeltaView::SignatureDelta { signature: signature@ },
        }
    }
}

impl DeepView for Delta {
    type V = DeltaView;

    open spec fn deep_view(&self) -> DeltaView {
        self@
    }
}

/// A content block grows.
#[derive(Debug, PartialEq)]
pub struct ContentBlockDeltaEvent {
    pub index: u64,
    pub delta: Delta,
}

/// What a [`ContentBlockDeltaEvent`] holds.
#[verifier::ext_equal]
pub struct ContentBlockDeltaEventView {
    pub index: u64,
    pub delta: DeltaView,
}

impl View for ContentBlockDeltaEvent {
    type V = ContentBlockDeltaEventView;

    open spec fn view(&self) -> ContentBlockDeltaEventView {
        ContentBlockDeltaEventView {
            index: self.index,
            delta: self.delta@,
        }
    }
}

impl DeepView for ContentBlockDeltaEvent {
    type V = ContentBlockDeltaEventView;

    open spec fn deep_view(&self) -> ContentBlockDeltaEventView {
        self@
    }
}

/// A content block ends.
#[derive(Debug, Clone, Copy, PartialEq, Eq, Structural)]
pub struct ContentBlockStopEvent {
    pub index: u64,
}

/// What a message delta changes.
#[derive(Debug, PartialEq)]
pub struct MessageDelta {
    pub stop_reason: Option<String>,
}

/// What a [`MessageDelta`] holds.
#[verifier::ext_equal]
pub struct MessageDeltaView {
    pub stop_reason: Option<Seq<char>>,
}

impl View for MessageDelta {
    type V = MessageDeltaView;

    open spec fn view(&self) -> MessageDeltaView {
        MessageDeltaView {
            stop_reason: self.stop_reason.deep_view(),
        }
    }
}

impl DeepView for MessageDelta {
    type V = MessageDeltaView;

    open spec fn deep_view(&self) -> MessageDeltaView {
        self@
    }
}

/// The message as a whole changes.
#[derive(Debug, PartialEq)]
pub struct MessageDeltaEvent {
    pub delta: Option<MessageDelta>,
    pub usage: Option<ApiUsage>,
}

/// What a [`MessageDeltaEvent`] holds.
#[verifier::ext_equal]
pub struct MessageDeltaEventView {
    pub delta: Option<MessageDeltaView>,
    pub usage: Option<ApiUsage>,
}

impl View for MessageDeltaEvent {
    type V = MessageDeltaEventView;

    open spec fn view(&self) -> MessageDeltaEventView {
        MessageDeltaEventView {
            delta: self.delta.deep_view(),
            usage: self.usage,
        }
    }
}

impl DeepView for MessageDeltaEvent {
    type V = MessageDeltaEventView;

    open spec fn deep_view(&self) -> MessageDeltaEventView {
        self@
    }
}

/// A decoded event.
#[derive(Debug, PartialEq)]
pub enum WireEvent {
    MessageStart(MessageStartEvent),
    ContentBlockStart(ContentBlockStartEvent),
    ContentBlockDelta(ContentBlockDeltaEvent),
    ContentBlockStop(ContentBlockStopEvent),
    MessageDelta(MessageDeltaEvent),
    MessageStop,
    /// The stream reports an error; `data` is its text.
    Error { data: String },
    /// An event of a kind that carries nothing for the message.
    Other,
}

/// What a [`WireEvent`] holds.
#[verifier::ext_equal]
pub enum WireEventView {
    MessageStart(MessageStartEventView),
    ContentBlockStart(ContentBlockStartEventView),
    ContentBlockDelta(ContentBlockDeltaEventView),
    ContentBlockStop(ContentBlockStopEvent),
    MessageDelta(MessageDeltaEventView),
    MessageStop,
    Error { data: Seq<char> },
    Other,
}

impl View for WireEvent {
    type V = WireEventView;

    open spec fn view(&self) -> WireEventView {
        match *self {
            WireEvent::MessageStart(x) => WireEventView::MessageStart(x@),
            WireEvent::ContentBlockStart(x) => WireEventView::ContentBlockStart(x@),
            WireEvent::ContentBlockDelta(x) => WireEventView::ContentBlockDelta(x@),
            WireEvent::ContentBlockStop(x) => WireEventView::ContentBlockStop(x),
            WireEvent::MessageDelta(x) => WireEventView::MessageDelta(x@),
            WireEvent::MessageStop => WireEventView::MessageStop,
            WireEvent::Error { data } => WireEventView::Error { data: data@ },
            WireEvent::Other => WireEventView::Other,
        }
    }
}

impl DeepView for WireEvent {
    type V = WireEventView;

    open spec fn deep_view(&self) -> WireEventView {
        self@
    }
}

} // verus!
