//! Types of the Chat Completions wire format.

use vstd::prelude::*;

use crate::json::Json;
use crate::types::Usage;

verus! {

/// The function that a tool offers.
#[derive(Debug, PartialEq)]
pub struct ToolDefFunction {
    pub name: String,
    pub description: String,
    pub parameters: serde_json::Value,
}

/// What a [`ToolDefFunction`] holds.
#[verifier::ext_equal]
pub struct ToolDefFunctionView {
    pub name: Seq<char>,
    pub description: Seq<char>,
    pub parameters: Json,
}

impl View for ToolDefFunction {
    type V = ToolDefFunctionView;

    open spec fn view(&self) -> ToolDefFunctionView {
        ToolDefFunctionView {
            name: self.name@,
            description: self.description@,
            parameters: crate::json::json_of(self.parameters),
        }
    }
}

impl DeepView for ToolDefFunction {
    type V = ToolDefFunctionView;

    open spec fn deep_view(&self) -> ToolDefFunctionView {
        self@
    }
}

/// A tool on the wire.
#[derive(Debug, PartialEq)]
pub struct ToolDef {
    pub tool_type: &'static str,
    pub function: ToolDefFunction,
}

/// What a [`ToolDef`] holds.
#[verifier::ext_equal]
pub struct ToolDefView {
    pub tool_type: Seq<char>,
    pub function: ToolDefFunctionView,
}

impl View for ToolDef {
    type V = ToolDefView;

    open spec fn view(&self) -> ToolDefView {
        ToolDefView {
            tool_type: self.tool_type@,
            function: self.function@,
        }
    }
}

impl DeepView for ToolDef {
    type V = ToolDefView;

    open spec fn deep_view(&self) -> ToolDefView {
        self@
    }
}

/// The function of a tool call, its arguments as JSON text.
#[derive(Debug, PartialEq)]
pub struct ToolCallFunction {
    pub name: String,
    pub arguments: String,
}

/// What a [`ToolCallFunction`] holds.
#[verifier::ext_equal]
pub struct ToolCallFunctionView {
    pub name: Seq<char>,
    pub arguments: Seq<char>,
}

impl View for ToolCallFunction {
    type V = ToolCallFunctionView;

    open spec fn view(&self) -> ToolCallFunctionView {
        ToolCallFunctionView {
            name: self.name@,
            arguments: self.arguments@,
        }
    }
}

impl DeepView for ToolCallFunction {
    type V = ToolCallFunctionView;

    open spec fn deep_view(&self) -> ToolCallFunctionView {
        self@
    }
}

/// A tool call of an assistant message.
#[derive(Debug, PartialEq)]
pub struct ToolCallMessage {
    pub id: String,
    pub call_type: String,
    pub function: ToolCallFunction,
}

/// What a [`ToolCallMessage`] holds.
#[verifier::ext_equal]
pub struct ToolCallMessageView {
    pub id: Seq<char>,
    pub call_type: Seq<char>,
    pub function: ToolCallFunctionView,
}

impl View for ToolCallMessage {
    type V = ToolCallMessageView;

    open spec fn view(&self) -> ToolCallMessageView {
        ToolCallMessageView {
            id: self.id@,
            call_type: self.call_type@,
            function: self.function@,
        }
    }
}

impl DeepView for ToolCallMessage {
    type V = ToolCallMessageView;

    open spec fn deep_view(&self) -> ToolCallMessageView {
        self@
    }
}

/// A message on the wire.
#[derive(Debug, PartialEq)]
pub struct ChatMessage {
    pub role: String,
    pub content: Option<serde_json::Value>,
    pub tool_calls: Option<Vec<ToolCallMessage>>,
    pub tool_call_id: Option<String>,
    pub name: Option<String>,
}

/// What a [`ChatMessage`] holds.
#[verifier::ext_equal]
pub struct ChatMessageView {
    pub role: Seq<char>,
    pub content: Option<Json>,
    pub tool_calls: Option<Seq<ToolCallMessageView>>,
    pub tool_call_id: Option<Seq<char>>,
    pub name: Option<Seq<char>>,
}

impl View for ChatMessage {
    type V = ChatMessageView;

    open spec fn view(&self) -> ChatMessageView {
        ChatMessageView {
            role: self.role@,
            content: match self.content {
                Some(v) => Some(crate::json::json_of(v)),
                None => None,
            },
            tool_calls: self.tool_calls.deep_view(),
            tool_call_id: self.tool_call_id.deep_view(),
            name: self.name.deep_view(),
        }
    }
}

impl DeepView for ChatMessage {
    type V = ChatMessageView;

    open spec fn deep_view(&self) -> ChatMessageView {
        self@
    }
}

/// What the stream is to report besides the message.
#[derive(Debug, Clone, Copy, PartialEq, Eq, Structural)]
pub struct StreamOptions {
    pub include_usage: bool,
}

/// A request, but for the sampling temperature, which the transport adds.
#[derive(Debug, PartialEq)]
pub struct ChatCompletionRequest {
    pub model: String,
    pub messages: Vec<ChatMessage>,
    pub max_completion_tokens: Option<u64>,
    pub tools: Option<Vec<ToolDef>>,
    pub stream: bool,
    pub stream_options: Option<StreamOptions>,
    pub reasoning_effort: Option<String>,
    pub enable_thinking: Option<bool>,
    pub prompt_cache_key: Option<String>,
    pub prompt_cache_retention: Option<&'static str>,
}

/// What a [`ChatCompletionRequest`] holds.
#[verifier::ext_equal]
pub struct ChatCompletionRequestView {
    pub model: Seq<char>,
    pub messages: Seq<ChatMessageView>,
    pub max_completion_tokens: Option<u64>,
    pub tools: Option<Seq<ToolDefView>>,
    pub stream: bool,
    pub stream_options: Option<StreamOptions>,
    pub reasoning_effort: Option<Seq<char>>,
    pub enable_thinking: Option<bool>,
    pub prompt_cache_key: Option<Seq<char>>,
    pub prompt_cache_retention: Option<Seq<char>>,
}

impl View for ChatCompletionRequest {
    type V = ChatCompletionRequestView;

    open spec fn view(&self) -> ChatCompletionRequestView {
        ChatCompletionRequestView {
            model: self.model@,
            messages: self.messages.deep_view(),
            max_completion_tokens: self.max_completion_tokens,
            tools: self.tools.deep_view(),
            stream: self.stream,
            stream_options: self.stream_options,
            reasoning_effort: self.reasoning_effort.deep_view(),
            enable_thinking: self.enable_thinking,
            prompt_cache_key: self.prompt_cache_key.deep_view(),
            prompt_cache_retention: self.prompt_cache_retention.deep_view(),
        }
    }
}

impl DeepView for ChatCompletionRequest {
    type V = ChatCompletionRequestView;

    open spec fn deep_view(&self) -> ChatCompletionRequestView {
        self@
    }
}

// ---------------------------------------------------------------------------
// Chunks
// ---------------------------------------------------------------------------

/// Token counts of a chunk.
#[derive(Debug, Clone, Copy, PartialEq, Eq, Structural)]
pub struct ChatUsage {
    pub prompt_tokens: u64,
    pub completion_tokens: u64,
    /// Prompt tokens that came from the cache.
    pub cached_tokens: u64,
    /// Tokens spent on reasoning, which `completion_tokens` leaves out.
    pub reasoning_tokens: u64,
}

impl ChatUsage {
    /// Prompt tokens that did not come from the cache.
    pub open spec fn fresh(self) -> u64 {
        if self.prompt_tokens >= self.cached_tokens {
            (self.prompt_tokens - self.cached_tokens) as u64
        } else {
            0
        }
    }

    /// The total of the counters fits in 64 bits.
    pub open spec fn fits_spec(self, usage: Usage) -> bool {
        self.fresh() + self.completion_tokens + self.reasoning_tokens + self.cached_tokens
            + usage.cache_write <= u64::MAX
    }

    /// The usage after these counts have been taken over.
    pub open spec fn applied(self, usage: Usage) -> Usage {
        Usage {
            input: self.fresh(),
            output: (self.completion_tokens + self.reasoning_tokens) as u64,
            cache_read: self.cached_tokens,
            cache_write: usage.cache_write,
            total_tokens: (self.fresh() + self.completion_tokens + self.reasoning_tokens
                + self.cached_tokens + usage.cache_write) as u64,
        }
    }

    /// Whether the total of the counters would fit in 64 bits.
    pub fn fits(&self, usage: &Usage) -> (r: bool)
        ensures
            r == self.fits_spec(*usage),
    {
        let fresh: u64 = self.prompt_tokens.saturating_sub(self.cached_tokens);
        let total: u128 = fresh as u128 + self.completion_tokens as u128
            + self.reasoning_tokens as u128 + self.cached_tokens as u128
            + usage.cache_write as u128;
        total <= u64::MAX as u128
    }

    /// Take the counts over into `usage` and recompute its total.
    pub fn apply_to(&self, usage: &mut Usage)
        requires
            self.fits_spec(*old(usage)),
        ensures
            *final(usage) == self.applied(*old(usage)),
    {
        usage.input = self.prompt_tokens.saturating_sub(self.cached_tokens);
        usage.output = self.completion_tokens + self.reasoning_tokens;
        usage.cache_read = self.cached_tokens;
        usage.recompute_total();
    }
}

/// A fragment of the function of a tool call.
#[derive(Debug, PartialEq)]
pub struct FunctionDelta {
    pub name: Option<String>,
    pub arguments: Option<String>,
}

/// What a [`FunctionDelta`] holds.
#[verifier::ext_equal]
pub struct FunctionDeltaView {
    pub name: Option<Seq<char>>,
    pub arguments: Option<Seq<char>>,
}

impl View for FunctionDelta {
    type V = FunctionDeltaView;

    open spec fn view(&self) -> FunctionDeltaView {
        FunctionDeltaView {
            name: self.name.deep_view(),
            arguments: self.arguments.deep_view(),
        }
    }
}

impl DeepView for FunctionDelta {
    type V = FunctionDeltaView;

    open spec fn deep_view(&self) -> FunctionDeltaView {
        self@
    }
}

/// A fragment of a tool call.
#[derive(Debug, PartialEq)]
pub struct ToolCallDelta {
    pub index: usize,
    pub id: Option<String>,
    pub function: Option<FunctionDelta>,
}

/// What a [`ToolCallDelta`] holds.
#[verifier::ext_equal]
pub struct ToolCallDeltaView {
    pub index: usize,
    pub id: Option<Seq<char>>,
    pub function: Option<FunctionDeltaView>,
}

impl View for ToolCallDelta {
    type V = ToolCallDeltaView;

    open spec fn view(&self) -> ToolCallDeltaView {
        ToolCallDeltaView {
            index: self.index,
            id: self.id.deep_view(),
            function: self.function.deep_view(),
        }
    }
}

impl DeepView for ToolCallDelta {
    type V = ToolCallDeltaView;

    open spec fn deep_view(&self) -> ToolCallDeltaView {
        self@
    }
}

/// A fragment of the message.
#[derive(Debug, PartialEq)]
pub struct ChatDelta {
    pub reasoning_content: Option<String>,
    pub content: Option<String>,
    pub tool_calls: Option<Vec<ToolCallDelta>>,
}

/// What a [`ChatDelta`] holds.
#[verifier::ext_equal]
pub struct ChatDeltaView {
    pub reasoning_content: Option<Seq<char>>,
    pub content: Option<Seq<char>>,
    pub tool_calls: Option<Seq<ToolCallDeltaView>>,
}

impl View for ChatDelta {
    type V = ChatDeltaView;

    open spec fn view(&self) -> ChatDeltaView {
        ChatDeltaView {
            reasoning_content: self.reasoning_content.deep_view(),
            content: self.content.deep_view(),
            tool_calls: self.tool_calls.deep_view(),
        }
    }
}

impl DeepView for ChatDelta {
    type V = ChatDeltaView;

    open spec fn deep_view(&self) -> ChatDeltaView {
        self@
    }
}

/// One of the alternatives of a chunk.
#[derive(Debug, PartialEq)]
pub struct ChatChoice {
    pub finish_reason: Option<String>,
    pub delta: ChatDelta,
}

/// What a [`ChatChoice`] holds.
#[verifier::ext_equal]
pub struct ChatChoiceView {
    pub finish_reason: Option<Seq<char>>,
    pub delta: ChatDeltaView,
}

impl View for ChatChoice {
    type V = ChatChoiceView;

    open spec fn view(&self) -> ChatChoiceView {
        ChatChoiceView {
            finish_reason: self.finish_reason.deep_view(),
            delta: self.delta@,
        }
    }
}

impl DeepView for ChatChoice {
    type V = ChatChoiceView;

    open spec fn deep_view(&self) -> ChatChoiceView {
        self@
    }
}

/// A decoded chunk.
#[derive(Debug, PartialEq)]
pub struct ChatCompletionChunk {
    pub id: Option<String>,
    pub usage: Option<ChatUsage>,
    pub choices: Vec<ChatChoice>,
}

/// What a [`ChatCompletionChunk`] holds.
#[verifier::ext_equal]
pub struct ChatCompletionChunkView {
    pub id: Option<Seq<char>>,
    pub usage: Option<ChatUsage>,
    pub choices: Seq<ChatChoiceView>,
}

impl View for ChatCompletionChunk {
    type V = ChatCompletionChunkView;

    open spec fn view(&self) -> ChatCompletionChunkView {
        ChatCompletionChunkView {
            id: self.id.deep_view(),
            usage: self.usage,
            choices: self.choices.deep_view(),
        }
    }
}

impl DeepView for ChatCompletionChunk {
    type V = ChatCompletionChunkView;

    open spec fn deep_view(&self) -> ChatCompletionChunkView {
        self@
    }
}

} // verus!
