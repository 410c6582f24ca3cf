//! Chat Completions API: building the request.

use vstd::prelude::*;

use crate::error::Result;
use crate::json::{
    array_value, bool_value, empty_object_value, put_opt, string_value, u64_value, value_text,
    with_entry, with_str, Json,
};
use crate::providers::openai_types::{
    ChatCompletionRequest, ChatCompletionRequestView, ChatMessage, ChatMessageView,
    StreamOptions as WireStreamOptions, ToolCallFunction, ToolCallFunctionView, ToolCallMessage,
    ToolCallMessageView, ToolDef, ToolDefFunction, ToolDefFunctionView, ToolDefView,
};
use crate::text::{str_concat, str_contains, str_join, u64_text};
use crate::types::{
    AssistantContent, AssistantContentView, AssistantMessage, CacheRetention, Context, ContextView,
    Message, MessageView, Model, ModelView, StreamOptions, StreamOptionsView, ThinkingStyle, Tool,
    ToolResultContent, ToolResultContentView, ToolView, UserContent, UserContentView,
};

verus! {

// ---------------------------------------------------------------------------
// Specification
// ---------------------------------------------------------------------------

/// A part of user content.
pub open spec fn user_part(c: UserContentView) -> Json {
    match c {
        UserContentView::Text(t) => Json::Obj(
            map!["type"@ => Json::Str("text"@), "text"@ => Json::Str(t.text)],
        ),
        UserContentView::Image(img) => Json::Obj(
            map![
                "type"@ => Json::Str("image_url"@),
                "image_url"@ => Json::Obj(map![
                    "url"@ => Json::Str("data:"@ + img.mime_type + ";base64,"@ + img.data),
                ]),
            ],
        ),
    }
}

/// User content: the bare text of a single text block, else a list of parts.
pub open spec fn user_json(content: Seq<UserContentView>) -> Json {
    if content.len() == 1 && content[0] is Text {
        Json::Str(content[0]->Text_0.text)
    } else {
        Json::Arr(Seq::new(content.len(), |i: int| user_part(content[i])))
    }
}

/// The text that a block contributes to an assistant message.
pub open spec fn spoken(c: AssistantContentView) -> Option<Seq<char>> {
    match c {
        AssistantContentView::Text(t) => if t.text.len() > 0 {
            Some(t.text)
        } else {
            None
        },
        AssistantContentView::Thinking(t) => if t.thinking.len() > 0 {
            Some(t.thinking)
        } else {
            None
        },
        AssistantContentView::ToolCall(_) => None,
    }
}

/// The texts of an assistant message.
pub open spec fn spoken_parts(content: Seq<AssistantContentView>) -> Seq<Seq<char>>
    decreases content.len(),
{
    if content.len() == 0 {
        seq![]
    } else {
        let init = spoken_parts(content.subrange(0, content.len() - 1));
        match spoken(content[content.len() - 1]) {
            Some(t) => init.push(t),
            None => init,
        }
    }
}

/// The tool calls of an assistant message.
pub open spec fn wire_calls(content: Seq<AssistantContentView>) -> Seq<ToolCallMessageView>
    decreases content.len(),
{
    if content.len() == 0 {
        seq![]
    } else {
        let init = wire_calls(content.subrange(0, content.len() - 1));
        match content[content.len() - 1] {
            AssistantContentView::ToolCall(tc) => init.push(
                ToolCallMessageView {
                    id: tc.id,
                    call_type: "function"@,
                    function: ToolCallFunctionView {
                        name: tc.name,
                        arguments: tc.arguments.text,
                    },
                },
            ),
            _ => init,
        }
    }
}

/// The text blocks of a tool result.
pub open spec fn result_parts(content: Seq<ToolResultContentView>) -> Seq<Seq<char>>
    decreases content.len(),
{
    if content.len() == 0 {
        seq![]
    } else {
        let init = result_parts(content.subrange(0, content.len() - 1));
        match content[content.len() - 1] {
            ToolResultContentView::Text(t) => init.push(t.text),
            ToolResultContentView::Image(_) => init,
        }
    }
}

/// A message that only has a role and content.
pub open spec fn plain_message(role: Seq<char>, content: Json) -> ChatMessageView {
    ChatMessageView {
        role,
        content: Some(content),
        tool_calls: None,
        tool_call_id: None,
        name: None,
    }
}

/// A message on the wire, if it travels at all.
pub open spec fn chat_message(m: MessageView) -> Option<ChatMessageView> {
    match m {
        MessageView::User(u) => Some(plain_message("user"@, user_json(u.content))),
        MessageView::Assistant(a) => Some(
            ChatMessageView {
                role: "assistant"@,
                content: if spoken_parts(a.content).len() == 0 {
                    None
                } else {
                    Some(Json::Str(crate::text::concat(spoken_parts(a.content))))
                },
                tool_calls: if wire_calls(a.content).len() == 0 {
                    None
                } else {
                    Some(wire_calls(a.content))
                },
                tool_call_id: None,
                name: None,
            },
        ),
        MessageView::ToolResult(tr) => Some(
            ChatMessageView {
                role: "tool"@,
                content: Some(
                    Json::Str(crate::text::join(result_parts(tr.content), "\n"@)),
                ),
                tool_calls: None,
                tool_call_id: Some(tr.tool_call_id),
                name: Some(tr.tool_name),
            },
        ),
        MessageView::CompactionSummary(cs) => Some(
            plain_message(
                "user"@,
                Json::Str(
                    crate::providers::anthropic_request::compacted_text(
                        cs.tokens_before,
                        cs.summary,
                    ),
                ),
            ),
        ),
        MessageView::Info(_) => None,
    }
}

/// The messages of a history on the wire.
pub open spec fn history(messages: Seq<MessageView>) -> Seq<ChatMessageView>
    decreases messages.len(),
{
    if messages.len() == 0 {
        seq![]
    } else {
        let init = history(messages.subrange(0, messages.len() - 1));
        match chat_message(messages[messages.len() - 1]) {
            Some(m) => init.push(m),
            None => init,
        }
    }
}

/// The messages on the wire: the system prompt, then the history.
pub open spec fn chat_messages(context: ContextView) -> Seq<ChatMessageView> {
    match context.system_prompt {
        Some(prompt) => seq![plain_message("system"@, Json::Str(prompt))] + history(
            context.messages,
        ),
        None => history(context.messages),
    }
}

/// The tools on the wire.
pub open spec fn tool_defs(tools: Seq<ToolView>) -> Seq<ToolDefView> {
    Seq::new(
        tools.len(),
        |i: int|
            ToolDefView {
                tool_type: "function"@,
                function: ToolDefFunctionView {
                    name: tools[i].name,
                    description: tools[i].description,
                    parameters: tools[i].parameters.value,
                },
            },
    )
}

/// The retention in force.
pub open spec fn retention_of(options: StreamOptionsView) -> CacheRetention {
    match options.cache_retention {
        Some(r) => r,
        None => CacheRetention::Short,
    }
}

/// The request for a context. Cache hints go to api.openai.com only.
pub open spec fn request_of(
    model: ModelView,
    context: ContextView,
    options: StreamOptionsView,
) -> ChatCompletionRequestView {
    let official = crate::text::contains(model.base_url, "api.openai.com"@);
    ChatCompletionRequestView {
        model: model.id,
        messages: chat_messages(context),
        max_completion_tokens: Some(
            crate::providers::anthropic_request::output_limit(model, options),
        ),
        tools: if context.tools.len() == 0 {
            None
        } else {
            Some(tool_defs(context.tools))
        },
        stream: true,
        stream_options: Some(WireStreamOptions { include_usage: true }),
        reasoning_effort: if model.thinking == ThinkingStyle::OpenAi {
            Some("medium"@)
        } else {
            None
        },
        enable_thinking: if model.thinking == ThinkingStyle::Qwen {
            Some(true)
        } else {
            None
        },
        prompt_cache_key: if official && retention_of(options) != CacheRetention::Off {
            options.session_id
        } else {
            None
        },
        prompt_cache_retention: if official && retention_of(options) == CacheRetention::Long {
            Some("24h"@)
        } else {
            None
        },
    }
}

/// A backend other than api.openai.com never sees cache hints.
pub proof fn law_no_cache_hints_elsewhere(
    model: ModelView,
    context: ContextView,
    options: StreamOptionsView,
)
    requires
        !crate::text::contains(model.base_url, "api.openai.com"@),
    ensures
        request_of(model, context, options).prompt_cache_key is None,
        request_of(model, context, options).prompt_cache_retention is None,
{
}

// ---------------------------------------------------------------------------
// Code
// ---------------------------------------------------------------------------

/// User content on the wire.
pub fn convert_user_content(content: &Vec<UserContent>) -> (r: serde_json::Value)
    ensures
        crate::json::json_of(r) == user_json(content.deep_view()),
{
    if content.len() == 1 {
        assert(content.deep_view()[0] == content[0]@);
        if let UserContent::Text(t) = &content[0] {
            return string_value(t.text.clone());
        }
    }
    let mut parts: Vec<serde_json::Value> = Vec::new();
    let mut i: usize = 0;
    while i < content.len()
        invariant
            i <= content.len(),
            parts.len() == i,
            forall|j: int|
                0 <= j < i ==> crate::json::json_of(#[trigger] parts@[j]) == user_part(content@[j]@),
        decreases content.len() - i,
    {
        let b = match &content[i] {
            UserContent::Text(t) => with_str(
                with_str(empty_object_value(), "type", "text"),
                "text",
                t.text.as_str(),
            ),
            UserContent::Image(img) => {
                let mut url: String = "data:".to_owned();
                url.append(img.mime_type.as_str());
                url.append(";base64,");
                url.append(img.data.as_str());
                let inner = with_str(empty_object_value(), "url", url.as_str());
                with_entry(
                    with_str(empty_object_value(), "type", "image_url"),
                    "image_url".to_owned(),
                    inner,
                )
            },
        };
        parts.push(b);
        i = i + 1;
    }
    assert(crate::json::jsons(parts@) =~= Seq::new(
        content.deep_view().len(),
        |i: int| user_part(content.deep_view()[i]),
    ));
    array_value(parts)
}

/// The text and the tool calls of an assistant message.
pub fn convert_assistant_to_openai(a: &AssistantMessage) -> (r: (
    Option<serde_json::Value>,
    Option<Vec<ToolCallMessage>>,
))
    ensures
        crate::json::json_opt(r.0) == (if spoken_parts(a@.content).len() == 0 {
            None::<Json>
        } else {
            Some(Json::Str(crate::text::concat(spoken_parts(a@.content))))
        }),
        r.1.deep_view() == (if wire_calls(a@.content).len() == 0 {
            None::<Seq<ToolCallMessageView>>
        } else {
            Some(wire_calls(a@.content))
        }),
{
    let mut text_parts: Vec<String> = Vec::new();
    let mut tool_calls: Vec<ToolCallMessage> = Vec::new();
    let ghost all = a@.content;
    let mut i: usize = 0;
    assert(all.subrange(0, 0) =~= seq![]);
    assert(text_parts.deep_view() =~= seq![]);
    assert(tool_calls.deep_view() =~= seq![]);
    while i < a.content.len()
        invariant
            i <= a.content.len(),
            all == a.content.deep_view(),
            text_parts.deep_view() == spoken_parts(all.subrange(0, i as int)),
            tool_calls.deep_view() == wire_calls(all.subrange(0, i as int)),
        decreases a.content.len() - i,
    {
        let ghost p = all.subrange(0, i + 1);
        assert(p.subrange(0, p.len() - 1) =~= all.subrange(0, i as int));
        assert(p[i as int] == a.content[i as int]@);
        let ghost texts = text_parts.deep_view();
        let ghost calls = tool_calls.deep_view();
        match &a.content[i] {
            AssistantContent::Text(t) => {
                if !t.text.as_str().is_empty() {
                    text_parts.push(t.text.clone());
                    assert(text_parts.deep_view() =~= texts.push(t.text@));
                }
            },
            AssistantContent::Thinking(t) => {
                if !t.thinking.as_str().is_empty() {
                    text_parts.push(t.thinking.clone());
                    assert(text_parts.deep_view() =~= texts.push(t.thinking@));
                }
            },
            AssistantContent::ToolCall(tc) => {
                let m = ToolCallMessage {
                    id: tc.id.clone(),
                    call_type: "function".to_owned(),
                    function: ToolCallFunction {
                        name: tc.name.clone(),
                        arguments: value_text(&tc.arguments),
                    },
                };
                tool_calls.push(m);
                assert(tool_calls.deep_view() =~= calls.push(m@));
            },
        }
        i = i + 1;
    }
    assert(all.subrange(0, i as int) =~= all);
    assert(text_parts.deep_view().len() == text_parts.len());
    assert(tool_calls.deep_view().len() == tool_calls.len());
    let content: Option<serde_json::Value> = if text_parts.len() == 0 {
        None
    } else {
        Some(string_value(str_concat(&text_parts)))
    };
    let calls: Option<Vec<ToolCallMessage>> = if tool_calls.len() == 0 {
        None
    } else {
        Some(tool_calls)
    };
    (content, calls)
}

/// The text blocks of a tool result, each on a line of its own.
fn result_lines(content: &Vec<ToolResultContent>) -> (r: String)
    ensures
        r@ == crate::text::join(result_parts(content.deep_view()), "\n"@),
{
    let mut parts: Vec<String> = Vec::new();
    let ghost all = content.deep_view();
    let mut i: usize = 0;
    assert(all.subrange(0, 0) =~= seq![]);
    assert(parts.deep_view() =~= seq![]);
    while i < content.len()
        invariant
            i <= content.len(),
            all == content.deep_view(),
            parts.deep_view() == result_parts(all.subrange(0, i as int)),
        decreases content.len() - i,
    {
        let ghost p = all.subrange(0, i + 1);
        assert(p.subrange(0, p.len() - 1) =~= all.subrange(0, i as int));
        assert(p[i as int] == content[i as int]@);
        let ghost before = parts.deep_view();
        if let ToolResultContent::Text(t) = &content[i] {
            parts.push(t.text.clone());
            assert(parts.deep_view() =~= before.push(t.text@));
        }
        i = i + 1;
    }
    assert(all.subrange(0, i as int) =~= all);
    str_join(&parts, "\n")
}

/// A message that only has a role and content.
fn new_message(role: &str, content: serde_json::Value) -> (r: ChatMessage)
    ensures
        r@ == plain_message(role@, crate::json::json_of(content)),
{
    ChatMessage {
        role: role.to_owned(),
        content: Some(content),
        tool_calls: None,
        tool_call_id: None,
        name: None,
    }
}

/// A message on the wire, if it travels at all.
fn convert_message(m: &Message) -> (r: Option<ChatMessage>)
    ensures
        r.deep_view() == chat_message(m@),
{
    match m {
        Message::User(u) => Some(new_message("user", convert_user_content(&u.content))),
        Message::Assistant(a) => {
            let (content, tool_calls) = convert_assistant_to_openai(a);
            Some(
                ChatMessage {
                    role: "assistant".to_owned(),
                    content,
                    tool_calls,
                    tool_call_id: None,
                    name: None,
                },
            )
        },
        Message::ToolResult(tr) => Some(
            ChatMessage {
                role: "tool".to_owned(),
                content: Some(string_value(result_lines(&tr.content))),
                tool_calls: None,
                tool_call_id: Some(tr.tool_call_id.clone()),
                name: Some(tr.tool_name.clone()),
            },
        ),
        Message::CompactionSummary(cs) => {
            let mut text: String = "[Context compacted — ".to_owned();
            text.append(u64_text(cs.tokens_before).as_str());
            text.append(" tokens before compaction]\n\n");
            text.append(cs.summary.as_str());
            Some(new_message("user", string_value(text)))
        },
        Message::Info(_) => None,
    }
}

/// The tools on the wire.
fn convert_tools(tools: &Vec<Tool>) -> (r: Vec<ToolDef>)
    ensures
        r.deep_view() == tool_defs(tools.deep_view()),
{
    let mut defs: Vec<ToolDef> = Vec::new();
    let mut i: usize = 0;
    while i < tools.len()
        invariant
            i <= tools.len(),
            defs.len() == i,
            forall|j: int|
                0 <= j < i ==> (#[trigger] defs@[j])@ == tool_defs(tools.deep_view())[j],
        decreases tools.len() - i,
    {
        let t = &tools[i];
        defs.push(
            ToolDef {
                tool_type: "function",
                function: ToolDefFunction {
                    name: t.name.clone(),
                    description: t.description.clone(),
                    parameters: t.parameters.clone(),
                },
            },
        );
        i = i + 1;
    }
    assert(defs.deep_view() =~= tool_defs(tools.deep_view()));
    defs
}

/// The request for a context. It never fails.
pub fn build_request_body(model: &Model, context: &Context, options: &StreamOptions) -> (r: Result<
    ChatCompletionRequest,
>)
    ensures
        r matches Ok(req) && req@ == request_of(model@, context@, options@),
{
    let mut messages: Vec<ChatMessage> = Vec::new();
    let ghost all = context@.messages;
    if let Some(prompt) = &context.system_prompt {
        messages.push(new_message("system", string_value(prompt.clone())));
    }
    let ghost first = messages.deep_view();
    let mut i: usize = 0;
    assert(all.subrange(0, 0) =~= seq![]);
    assert(first + history(all.subrange(0, 0)) =~= first);
    while i < context.messages.len()
        invariant
            i <= context.messages.len(),
            all == context.messages.deep_view(),
            messages.deep_view() == first + history(all.subrange(0, i as int)),
        decreases context.messages.len() - i,
    {
        let ghost p = all.subrange(0, i + 1);
        assert(p.subrange(0, p.len() - 1) =~= all.subrange(0, i as int));
        assert(p[i as int] == context.messages[i as int]@);
        let ghost before = messages.deep_view();
        match convert_message(&context.messages[i]) {
            Some(m) => {
                messages.push(m);
                assert(messages.deep_view() =~= before.push(m@));
                assert(messages.deep_view() =~= first + history(p));
            },
            None => {},
        }
        i = i + 1;
    }
    assert(all.subrange(0, i as int) =~= all);
    assert(messages.deep_view() =~= chat_messages(context@));
    let max_tokens: u64 = match options.max_tokens {
        Some(n) => n,
        None => {
            let third: u64 = model.max_tokens / 3;
            if third >= 1024 {
                third
            } else {
                1024
            }
        },
    };
    let tools: Option<Vec<ToolDef>> = if context.tools.len() == 0 {
        None
    } else {
        Some(convert_tools(&context.tools))
    };
    let reasoning_effort: Option<String> = if model.thinking == ThinkingStyle::OpenAi {
        Some("medium".to_owned())
    } else {
        None
    };
    let enable_thinking: Option<bool> = if model.thinking == ThinkingStyle::Qwen {
        Some(true)
    } else {
        None
    };
    let official = str_contains(model.base_url.as_str(), "api.openai.com");
    let retention = CacheRetention::resolve(options.cache_retention);
    let prompt_cache_key: Option<String> = if official && retention != CacheRetention::Off {
        options.session_id.clone()
    } else {
        None
    };
    let prompt_cache_retention: Option<&'static str> = if official && retention
        == CacheRetention::Long {
        Some("24h")
    } else {
        None
    };
    Ok(
        ChatCompletionRequest {
            model: model.id.clone(),
            messages,
            max_completion_tokens: Some(max_tokens),
            tools,
            stream: true,
            stream_options: Some(WireStreamOptions { include_usage: true }),
            reasoning_effort,
            enable_thinking,
            prompt_cache_key,
            prompt_cache_retention,
        },
    )
}

// ---------------------------------------------------------------------------
// The request as JSON
// ---------------------------------------------------------------------------

/// An optional text as JSON.
pub open spec fn text_opt(t: Option<Seq<char>>) -> Option<Json> {
    match t {
        Some(s) => Some(Json::Str(s)),
        None => None,
    }
}

/// A tool call as JSON.
pub open spec fn call_json(c: ToolCallMessageView) -> Json {
    Json::Obj(
        map![
            "id"@ => Json::Str(c.id),
            "type"@ => Json::Str(c.call_type),
            "function"@ => Json::Obj(map![
                "name"@ => Json::Str(c.function.name),
                "arguments"@ => Json::Str(c.function.arguments),
            ]),
        ],
    )
}

/// A message as JSON; what it does not have is left out.
pub open spec fn message_json(m: ChatMessageView) -> Json {
    let a = crate::json::put(
        Json::Obj(map!["role"@ => Json::Str(m.role)]),
        "content"@,
        m.content,
    );
    let b = crate::json::put(
        a,
        "tool_calls"@,
        match m.tool_calls {
            Some(cs) => Some(Json::Arr(Seq::new(cs.len(), |i: int| call_json(cs[i])))),
            None => None,
        },
    );
    crate::json::put(
        crate::json::put(b, "tool_call_id"@, text_opt(m.tool_call_id)),
        "name"@,
        text_opt(m.name),
    )
}

/// A tool as JSON.
pub open spec fn tool_json(t: ToolDefView) -> Json {
    Json::Obj(
        map![
            "type"@ => Json::Str(t.tool_type),
            "function"@ => Json::Obj(map![
                "name"@ => Json::Str(t.function.name),
                "description"@ => Json::Str(t.function.description),
                "parameters"@ => t.function.parameters,
            ]),
        ],
    )
}

/// The request as JSON; what it does not have is left out.
pub open spec fn request_json(r: ChatCompletionRequestView) -> Json {
    let base = Json::Obj(
        map![
            "model"@ => Json::Str(r.model),
            "messages"@ => Json::Arr(
                Seq::new(r.messages.len(), |i: int| message_json(r.messages[i])),
            ),
            "stream"@ => Json::Bool(r.stream),
        ],
    );
    let a = crate::json::put(
        base,
        "max_completion_tokens"@,
        match r.max_completion_tokens {
            Some(n) => Some(Json::Int(n as int)),
            None => None,
        },
    );
    let b = crate::json::put(
        a,
        "tools"@,
        match r.tools {
            Some(ts) => Some(Json::Arr(Seq::new(ts.len(), |i: int| tool_json(ts[i])))),
            None => None,
        },
    );
    let c = crate::json::put(
        b,
        "stream_options"@,
        match r.stream_options {
            Some(o) => Some(Json::Obj(map!["include_usage"@ => Json::Bool(o.include_usage)])),
            None => None,
        },
    );
    let d = crate::json::put(c, "reasoning_effort"@, text_opt(r.reasoning_effort));
    let e = crate::json::put(
        d,
        "enable_thinking"@,
        match r.enable_thinking {
            Some(x) => Some(Json::Bool(x)),
            None => None,
        },
    );
    crate::json::put(
        crate::json::put(e, "prompt_cache_key"@, text_opt(r.prompt_cache_key)),
        "prompt_cache_retention"@,
        text_opt(r.prompt_cache_retention),
    )
}

/// An optional text as JSON.
fn text_value_opt(t: &Option<String>) -> (r: Option<serde_json::Value>)
    ensures
        crate::json::json_opt(r) == text_opt(t.deep_view()),
{
    match t {
        Some(s) => Some(string_value(s.clone())),
        None => None,
    }
}

/// Tool calls as JSON.
fn call_values(cs: &Vec<ToolCallMessage>) -> (r: Vec<serde_json::Value>)
    ensures
        crate::json::jsons(r@) == Seq::new(
            cs.deep_view().len(),
            |i: int| call_json(cs.deep_view()[i]),
        ),
{
    let mut out: Vec<serde_json::Value> = Vec::new();
    let mut i: usize = 0;
    while i < cs.len()
        invariant
            i <= cs.len(),
            out.len() == i,
            forall|j: int|
                0 <= j < i ==> crate::json::json_of(#[trigger] out@[j]) == call_json(cs@[j]@),
        decreases cs.len() - i,
    {
        let f = with_str(empty_object_value(), "name", cs[i].function.name.as_str());
        let f = with_str(f, "arguments", cs[i].function.arguments.as_str());
        let v = with_str(empty_object_value(), "id", cs[i].id.as_str());
        let v = with_str(v, "type", cs[i].call_type.as_str());
        out.push(with_entry(v, "function".to_owned(), f));
        i = i + 1;
    }
    assert(crate::json::jsons(out@) =~= Seq::new(
        cs.deep_view().len(),
        |i: int| call_json(cs.deep_view()[i]),
    ));
    out
}

/// A message as JSON.
fn message_value(m: &ChatMessage) -> (r: serde_json::Value)
    ensures
        crate::json::json_of(r) == message_json(m@),
{
    let v = with_str(empty_object_value(), "role", m.role.as_str());
    let content: Option<serde_json::Value> = match &m.content {
        Some(c) => Some(c.clone()),
        None => None,
    };
    let calls: Option<serde_json::Value> = match &m.tool_calls {
        Some(cs) => Some(array_value(call_values(cs))),
        None => None,
    };
    let v = put_opt(v, "content", content);
    let v = put_opt(v, "tool_calls", calls);
    let v = put_opt(v, "tool_call_id", text_value_opt(&m.tool_call_id));
    put_opt(v, "name", text_value_opt(&m.name))
}

/// The messages as JSON.
fn message_values(ms: &Vec<ChatMessage>) -> (r: Vec<serde_json::Value>)
    ensures
        crate::json::jsons(r@) == Seq::new(
            ms.deep_view().len(),
            |i: int| message_json(ms.deep_view()[i]),
        ),
{
    let mut out: Vec<serde_json::Value> = Vec::new();
    let mut i: usize = 0;
    while i < ms.len()
        invariant
            i <= ms.len(),
            out.len() == i,
            forall|j: int|
                0 <= j < i ==> crate::json::json_of(#[trigger] out@[j]) == message_json(ms@[j]@),
        decreases ms.len() - i,
    {
        out.push(message_value(&ms[i]));
        i = i + 1;
    }
    assert(crate::json::jsons(out@) =~= Seq::new(
        ms.deep_view().len(),
        |i: int| message_json(ms.deep_view()[i]),
    ));
    out
}

/// The tools as JSON.
fn tool_values(ts: &Vec<ToolDef>) -> (r: Vec<serde_json::Value>)
    ensures
        crate::json::jsons(r@) == Seq::new(
            ts.deep_view().len(),
            |i: int| tool_json(ts.deep_view()[i]),
        ),
{
    let mut out: Vec<serde_json::Value> = Vec::new();
    let mut i: usize = 0;
    while i < ts.len()
        invariant
            i <= ts.len(),
            out.len() == i,
            forall|j: int|
                0 <= j < i ==> crate::json::json_of(#[trigger] out@[j]) == tool_json(ts@[j]@),
        decreases ts.len() - i,
    {
        let f = with_str(empty_object_value(), "name", ts[i].function.name.as_str());
        let f = with_str(f, "description", ts[i].function.description.as_str());
        let f = with_entry(f, "parameters".to_owned(), ts[i].function.parameters.clone());
        let v = with_str(empty_object_value(), "type", ts[i].tool_type);
        out.push(with_entry(v, "function".to_owned(), f));
        i = i + 1;
    }
    assert(crate::json::jsons(out@) =~= Seq::new(
        ts.deep_view().len(),
        |i: int| tool_json(ts.deep_view()[i]),
    ));
    out
}

impl ChatCompletionRequest {
    /// The request as JSON.
    pub fn to_value(&self) -> (r: serde_json::Value)
        ensures
            crate::json::json_of(r) == request_json(self@),
    {
        let v = with_str(empty_object_value(), "model", self.model.as_str());
        let v = with_entry(v, "messages".to_owned(), array_value(message_values(&self.messages)));
        let v = with_entry(v, "stream".to_owned(), bool_value(self.stream));
        let limit: Option<serde_json::Value> = match self.max_completion_tokens {
            Some(n) => Some(u64_value(n)),
            None => None,
        };
        let tools: Option<serde_json::Value> = match &self.tools {
            Some(ts) => Some(array_value(tool_values(ts))),
            None => None,
        };
        let stream_options: Option<serde_json::Value> = match self.stream_options {
            Some(o) => Some(
                with_entry(
                    empty_object_value(),
                    "include_usage".to_owned(),
                    bool_value(o.include_usage),
                ),
            ),
            None => None,
        };
        let thinking: Option<serde_json::Value> = match self.enable_thinking {
            Some(x) => Some(bool_value(x)),
            None => None,
        };
        let retention: Option<serde_json::Value> = match self.prompt_cache_retention {
            Some(x) => Some(string_value(x.to_owned())),
            None => None,
        };
        let v = put_opt(v, "max_completion_tokens", limit);
        let v = put_opt(v, "tools", tools);
        let v = put_opt(v, "stream_options", stream_options);
        let v = put_opt(v, "reasoning_effort", text_value_opt(&self.reasoning_effort));
        let v = put_opt(v, "enable_thinking", thinking);
        let v = put_opt(v, "prompt_cache_key", text_value_opt(&self.prompt_cache_key));
        put_opt(v, "prompt_cache_retention", retention)
    }
}

// ---------------------------------------------------------------------------
// What a request says
// ---------------------------------------------------------------------------

proof fn lemma_history_add(a: Seq<MessageView>, b: Seq<MessageView>)
    ensures
        history(a + b) == history(a) + history(b),
    decreases b.len(),
{
    let all = a + b;
    if b.len() == 0 {
        assert(all =~= a);
        assert(history(a) + history(b) =~= history(a));
    } else {
        let init = b.subrange(0, b.len() - 1);
        assert(all.subrange(0, all.len() - 1) =~= a + init);
        lemma_history_add(a, init);
        assert(history(all) =~= history(a) + history(b));
    }
}

proof fn lemma_history_each(messages: Seq<MessageView>)
    requires
        forall|i: int| 0 <= i < messages.len() ==> !(#[trigger] messages[i] is Info),
    ensures
        history(messages).len() == messages.len(),
        forall|i: int|
            0 <= i < messages.len() ==> chat_message(#[trigger] messages[i]) == Some(
                history(messages)[i],
            ),
    decreases messages.len(),
{
    if messages.len() > 0 {
        let init = messages.subrange(0, messages.len() - 1);
        assert forall|i: int| 0 <= i < init.len() implies !(#[trigger] init[i] is Info) by {
            assert(init[i] == messages[i]);
        }
        lemma_history_each(init);
        let last = messages[messages.len() - 1];
        assert forall|i: int| 0 <= i < messages.len() implies chat_message(#[trigger] messages[i])
            == Some(history(messages)[i]) by {
            if i < init.len() {
                assert(init[i] == messages[i]);
            }
        }
    }
}

/// An info message is for people only: the request is the one without it.
pub proof fn law_info_does_not_travel(
    model: ModelView,
    context: ContextView,
    options: StreamOptionsView,
    at: int,
)
    requires
        0 <= at < context.messages.len(),
        context.messages[at] is Info,
    ensures
        request_of(model, context, options) == request_of(
            model,
            (ContextView { messages: context.messages.remove(at), ..context }),
            options,
        ),
{
    let all = context.messages;
    let a = all.subrange(0, at);
    let m = all[at];
    let b = all.subrange(at + 1, all.len() as int);
    assert(all =~= a + seq![m] + b);
    assert(all.remove(at) =~= a + b);
    lemma_history_add(a + seq![m], b);
    lemma_history_add(a, seq![m]);
    lemma_history_add(a, b);
    assert(seq![m].subrange(0, 0) =~= Seq::empty());
    assert(history(Seq::<MessageView>::empty()) =~= Seq::empty());
    assert(history(seq![m]) =~= Seq::empty());
    assert(history(a) + Seq::<ChatMessageView>::empty() =~= history(a));
}

/// What an assistant says in a block: a text or a thought.
pub open spec fn said(c: AssistantContentView) -> Seq<char> {
    match c {
        AssistantContentView::Text(t) => t.text,
        AssistantContentView::Thinking(t) => t.thinking,
        AssistantContentView::ToolCall(_) => seq![],
    }
}

proof fn lemma_said(content: Seq<AssistantContentView>)
    ensures
        crate::text::concat(spoken_parts(content)) == crate::text::concat(
            content.map_values(|c: AssistantContentView| said(c)),
        ),
        spoken_parts(content).len() == 0 <==> crate::text::concat(
            content.map_values(|c: AssistantContentView| said(c)),
        ).len() == 0,
    decreases content.len(),
{
    let get = |c: AssistantContentView| said(c);
    let all = content.map_values(get);
    if content.len() > 0 {
        let init = content.subrange(0, content.len() - 1);
        lemma_said(init);
        assert(all.subrange(0, all.len() - 1) =~= init.map_values(get));
        let last = content[content.len() - 1];
        match spoken(last) {
            Some(t) => {
                let parts = spoken_parts(content);
                assert(parts.subrange(0, parts.len() - 1) =~= spoken_parts(init));
            },
            None => {
                assert(crate::text::concat(all) =~= crate::text::concat(init.map_values(get)));
            },
        }
    }
}

proof fn lemma_wire_calls(content: Seq<AssistantContentView>)
    ensures
        ({
            let calls = content.filter(|c: AssistantContentView| c is ToolCall).map_values(
                |c: AssistantContentView| c->ToolCall_0,
            );
            &&& wire_calls(content).len() == calls.len()
            &&& forall|i: int|
                0 <= i < calls.len() ==> {
                    let w = #[trigger] wire_calls(content)[i];
                    &&& w.id == calls[i].id
                    &&& w.call_type == "function"@
                    &&& w.function.name == calls[i].name
                    &&& w.function.arguments == calls[i].arguments.text
                }
        }),
    decreases content.len(),
{
    reveal(Seq::filter);
    let is = |c: AssistantContentView| c is ToolCall;
    let get = |c: AssistantContentView| c->ToolCall_0;
    let calls = content.filter(is).map_values(get);
    if content.len() > 0 {
        let init = content.drop_last();
        assert(content.subrange(0, content.len() - 1) =~= init);
        lemma_wire_calls(init);
        let earlier = init.filter(is).map_values(get);
        if content.last() is ToolCall {
            assert(calls =~= earlier.push(content.last()->ToolCall_0));
        } else {
            assert(calls =~= earlier);
        }
    }
}

proof fn lemma_result_parts(content: Seq<ToolResultContentView>)
    ensures
        result_parts(content) == content.filter(
            |c: ToolResultContentView| c is Text,
        ).map_values(|c: ToolResultContentView| c->Text_0.text),
    decreases content.len(),
{
    reveal(Seq::filter);
    let is = |c: ToolResultContentView| c is Text;
    let get = |c: ToolResultContentView| c->Text_0.text;
    let kept = content.filter(is).map_values(get);
    if content.len() > 0 {
        let init = content.drop_last();
        assert(content.subrange(0, content.len() - 1) =~= init);
        lemma_result_parts(init);
        let earlier = init.filter(is).map_values(get);
        if content.last() is Text {
            assert(kept =~= earlier.push(content.last()->Text_0.text));
        } else {
            assert(kept =~= earlier);
        }
    } else {
        assert(kept =~= seq![]);
    }
}

/// The entries of a message on the wire.
proof fn lemma_message_fields(m: ChatMessageView)
    ensures
        crate::json::field(message_json(m), "role"@) == Some(Json::Str(m.role)),
        crate::json::field(message_json(m), "content"@) == m.content,
        crate::json::field(message_json(m), "tool_call_id"@) == text_opt(m.tool_call_id),
        crate::json::field(message_json(m), "name"@) == text_opt(m.name),
        crate::json::field(message_json(m), "tool_calls"@) == match m.tool_calls {
            Some(cs) => Some(Json::Arr(Seq::new(cs.len(), |i: int| call_json(cs[i])))),
            None => None,
        },
{
    reveal_strlit("role");
    reveal_strlit("content");
    reveal_strlit("tool_calls");
    reveal_strlit("tool_call_id");
    reveal_strlit("name");
    assert("role"@.len() == 4 && "name"@.len() == 4 && "role"@[0] != "name"@[0]);
    assert("content"@.len() == 7 && "tool_calls"@.len() == 10 && "tool_call_id"@.len() == 12);
}

/// The entries of a tool call on the wire.
proof fn lemma_call_fields(c: ToolCallMessageView)
    ensures
        crate::json::field(call_json(c), "id"@) == Some(Json::Str(c.id)),
        crate::json::field(call_json(c), "type"@) == Some(Json::Str(c.call_type)),
        crate::json::field(call_json(c), "function"@) matches Some(f) && crate::json::field(
            f,
            "name"@,
        ) == Some(Json::Str(c.function.name)) && crate::json::field(f, "arguments"@) == Some(
            Json::Str(c.function.arguments),
        ),
{
    reveal_strlit("id");
    reveal_strlit("type");
    reveal_strlit("function");
    reveal_strlit("name");
    reveal_strlit("arguments");
    assert("id"@.len() == 2 && "type"@.len() == 4 && "function"@.len() == 8);
    assert("name"@.len() == 4 && "arguments"@.len() == 9);
}

/// Whether an object has a text under a key.
pub open spec fn has_text(j: Json, key: Seq<char>, text: Seq<char>) -> bool {
    crate::json::field(j, key) == Some(Json::Str(text))
}

/// The system prompt comes first, as the system's. Then the history follows, one message for each: what
/// the assistant said is sent as the assistant's, a tool result as the tool's, and what the user said
/// or a summary stands for as the user's.
pub proof fn law_roles(
    model: ModelView,
    context: ContextView,
    options: StreamOptionsView,
    sent: Seq<Json>,
)
    requires
        forall|i: int|
            0 <= i < context.messages.len() ==> !(#[trigger] context.messages[i] is Info),
        crate::json::field(request_json(request_of(model, context, options)), "messages"@) == Some(
            Json::Arr(sent),
        ),
    ensures
        ({
            let first = if context.system_prompt is Some {
                1int
            } else {
                0int
            };
            &&& sent.len() == first + context.messages.len()
            &&& context.system_prompt matches Some(prompt) ==> has_text(
                sent[0],
                "role"@,
                "system"@,
            ) && has_text(sent[0], "content"@, prompt)
            &&& forall|i: int|
                0 <= i < context.messages.len() ==> {
                    let m = #[trigger] context.messages[i];
                    &&& m is Assistant <==> has_text(sent[first + i], "role"@, "assistant"@)
                    &&& m is ToolResult <==> has_text(sent[first + i], "role"@, "tool"@)
                    &&& m is User || m is CompactionSummary <==> has_text(
                        sent[first + i],
                        "role"@,
                        "user"@,
                    )
                }
        }),
{
    lemma_sent(model, context, options, sent);
    lemma_history_each(context.messages);
    reveal_strlit("assistant");
    reveal_strlit("tool");
    reveal_strlit("user");
    assert("assistant"@.len() == 9 && "tool"@.len() == 4 && "user"@.len() == 4 && "tool"@[0]
        != "user"@[0]);
    let first = if context.system_prompt is Some {
        1int
    } else {
        0int
    };
    let wire = chat_messages(context);
    if let Some(prompt) = context.system_prompt {
        lemma_message_fields(wire[0]);
    }
    assert forall|i: int| 0 <= i < context.messages.len() implies {
        let m = #[trigger] context.messages[i];
        &&& m is Assistant <==> has_text(sent[first + i], "role"@, "assistant"@)
        &&& m is ToolResult <==> has_text(sent[first + i], "role"@, "tool"@)
        &&& m is User || m is CompactionSummary <==> has_text(sent[first + i], "role"@, "user"@)
    } by {
        let m = context.messages[i];
        assert(wire[first + i] == history(context.messages)[i]);
        lemma_message_fields(wire[first + i]);
        assert(chat_message(m) == Some(wire[first + i]));
    }
}

proof fn lemma_sent(
    model: ModelView,
    context: ContextView,
    options: StreamOptionsView,
    sent: Seq<Json>,
)
    requires
        crate::json::field(request_json(request_of(model, context, options)), "messages"@) == Some(
            Json::Arr(sent),
        ),
    ensures
        sent.len() == chat_messages(context).len(),
        forall|i: int|
            0 <= i < sent.len() ==> #[trigger] sent[i] == message_json(chat_messages(context)[i]),
{
    lemma_request_fields(request_of(model, context, options));
}

/// The entries of a request on the wire.
proof fn lemma_request_fields(r: ChatCompletionRequestView)
    ensures
        crate::json::field(request_json(r), "model"@) == Some(Json::Str(r.model)),
        crate::json::field(request_json(r), "messages"@) == Some(
            Json::Arr(Seq::new(r.messages.len(), |i: int| message_json(r.messages[i]))),
        ),
        crate::json::field(request_json(r), "stream"@) == Some(Json::Bool(r.stream)),
        crate::json::field(request_json(r), "max_completion_tokens"@)
            == match r.max_completion_tokens {
            Some(n) => Some(Json::Int(n as int)),
            None => None,
        },
        crate::json::field(request_json(r), "tools"@) == match r.tools {
            Some(ts) => Some(Json::Arr(Seq::new(ts.len(), |i: int| tool_json(ts[i])))),
            None => None,
        },
        crate::json::field(request_json(r), "stream_options"@) == match r.stream_options {
            Some(o) => Some(Json::Obj(map!["include_usage"@ => Json::Bool(o.include_usage)])),
            None => None,
        },
        crate::json::field(request_json(r), "reasoning_effort"@) == text_opt(r.reasoning_effort),
        crate::json::field(request_json(r), "enable_thinking"@) == match r.enable_thinking {
            Some(x) => Some(Json::Bool(x)),
            None => None,
        },
        crate::json::field(request_json(r), "prompt_cache_key"@) == text_opt(r.prompt_cache_key),
        crate::json::field(request_json(r), "prompt_cache_retention"@) == text_opt(
            r.prompt_cache_retention,
        ),
{
    reveal_strlit("model");
    reveal_strlit("messages");
    reveal_strlit("stream");
    reveal_strlit("max_completion_tokens");
    reveal_strlit("tools");
    reveal_strlit("stream_options");
    reveal_strlit("reasoning_effort");
    reveal_strlit("enable_thinking");
    reveal_strlit("prompt_cache_key");
    reveal_strlit("prompt_cache_retention");
    assert("model"@.len() == 5 && "tools"@.len() == 5 && "model"@[0] != "tools"@[0]);
    assert("messages"@.len() == 8 && "stream"@.len() == 6);
    assert("max_completion_tokens"@.len() == 21 && "stream_options"@.len() == 14);
    assert("reasoning_effort"@.len() == 16 && "prompt_cache_key"@.len() == 16
        && "reasoning_effort"@[0] != "prompt_cache_key"@[0]);
    assert("enable_thinking"@.len() == 15 && "prompt_cache_retention"@.len() == 22);
}

/// What each message says. A user message is its text, or its parts one by one. Of an assistant
/// message all texts and thoughts are sent in order, and each tool call under its id with its name
/// and arguments. A tool result is the lines of its texts, under the id of the call that it
/// answers. A summary is sent whole.
pub proof fn law_contents(
    model: ModelView,
    context: ContextView,
    options: StreamOptionsView,
    sent: Seq<Json>,
    i: int,
)
    requires
        forall|k: int|
            0 <= k < context.messages.len() ==> !(#[trigger] context.messages[k] is Info),
        crate::json::field(request_json(request_of(model, context, options)), "messages"@) == Some(
            Json::Arr(sent),
        ),
        0 <= i < context.messages.len(),
    ensures
        ({
            let j = sent[if context.system_prompt is Some {
                i + 1
            } else {
                i
            }];
            match context.messages[i] {
                MessageView::User(u) => {
                    &&& u.content.len() == 1 && u.content[0] is Text ==> has_text(
                        j,
                        "content"@,
                        u.content[0]->Text_0.text,
                    )
                    &&& u.content.len() != 1 || u.content[0] is Image ==> {
                        &&& crate::json::field(j, "content"@) matches Some(Json::Arr(parts))
                        &&& parts.len() == u.content.len()
                        &&& forall|k: int|
                            0 <= k < parts.len() ==> match u.content[k] {
                                UserContentView::Text(t) => has_text(
                                    #[trigger] parts[k],
                                    "type"@,
                                    "text"@,
                                ) && has_text(parts[k], "text"@, t.text),
                                UserContentView::Image(img) => has_text(
                                    parts[k],
                                    "type"@,
                                    "image_url"@,
                                ) && (crate::json::field(parts[k], "image_url"@) matches Some(url)
                                    && has_text(
                                    url,
                                    "url"@,
                                    "data:"@ + img.mime_type + ";base64,"@ + img.data,
                                )),
                            }
                    }
                },
                MessageView::Assistant(a) => {
                    let words = crate::text::concat(
                        a.content.map_values(|c: AssistantContentView| said(c)),
                    );
                    let calls = a.content.filter(
                        |c: AssistantContentView| c is ToolCall,
                    ).map_values(|c: AssistantContentView| c->ToolCall_0);
                    &&& if words.len() > 0 {
                        has_text(j, "content"@, words)
                    } else {
                        crate::json::field(j, "content"@) is None
                    }
                    &&& if calls.len() > 0 {
                        &&& crate::json::field(j, "tool_calls"@) matches Some(Json::Arr(cs))
                        &&& cs.len() == calls.len()
                        &&& forall|k: int|
                            0 <= k < cs.len() ==> {
                                &&& has_text(#[trigger] cs[k], "id"@, calls[k].id)
                                &&& has_text(cs[k], "type"@, "function"@)
                                &&& crate::json::field(cs[k], "function"@) matches Some(f)
                                &&& has_text(f, "name"@, calls[k].name)
                                &&& has_text(f, "arguments"@, calls[k].arguments.text)
                            }
                    } else {
                        crate::json::field(j, "tool_calls"@) is None
                    }
                },
                MessageView::ToolResult(tr) => {
                    let texts = tr.content.filter(
                        |c: ToolResultContentView| c is Text,
                    ).map_values(|c: ToolResultContentView| c->Text_0.text);
                    &&& has_text(j, "tool_call_id"@, tr.tool_call_id)
                    &&& has_text(j, "name"@, tr.tool_name)
                    &&& has_text(j, "content"@, crate::text::join(texts, "\n"@))
                },
                MessageView::CompactionSummary(cs) => has_text(
                    j,
                    "content"@,
                    "[Context compacted — "@ + crate::text::decimal(cs.tokens_before as nat)
                        + " tokens before compaction]\n\n"@ + cs.summary,
                ),
                MessageView::Info(_) => true,
            }
        }),
{
    lemma_sent(model, context, options, sent);
    lemma_history_each(context.messages);
    let at = if context.system_prompt is Some {
        i + 1
    } else {
        i
    };
    let wire = chat_messages(context);
    assert(wire[at] == history(context.messages)[i]);
    let w = wire[at];
    lemma_message_fields(w);
    let j = sent[at];
    match context.messages[i] {
        MessageView::User(u) => {
            if u.content.len() != 1 || u.content[0] is Image {
                let parts = Seq::new(u.content.len(), |i: int| user_part(u.content[i]));
                assert(crate::json::field(j, "content"@) == Some(Json::Arr(parts)));
                assert forall|k: int| 0 <= k < parts.len() implies match u.content[k] {
                    UserContentView::Text(t) => has_text(#[trigger] parts[k], "type"@, "text"@)
                        && has_text(parts[k], "text"@, t.text),
                    UserContentView::Image(img) => has_text(parts[k], "type"@, "image_url"@) && (
                    crate::json::field(parts[k], "image_url"@) matches Some(url) && has_text(
                        url,
                        "url"@,
                        "data:"@ + img.mime_type + ";base64,"@ + img.data,
                    )),
                } by {
                    lemma_part_fields(u.content[k]);
                }
            }
        },
        MessageView::Assistant(a) => {
            lemma_said(a.content);
            lemma_wire_calls(a.content);
            let calls = wire_calls(a.content);
            if calls.len() > 0 {
                let cs = Seq::new(calls.len(), |i: int| call_json(calls[i]));
                assert(crate::json::field(j, "tool_calls"@) == Some(Json::Arr(cs)));
                assert forall|k: int| 0 <= k < cs.len() implies {
                    let asked = a.content.filter(
                        |c: AssistantContentView| c is ToolCall,
                    ).map_values(|c: AssistantContentView| c->ToolCall_0);
                    &&& has_text(#[trigger] cs[k], "id"@, asked[k].id)
                    &&& has_text(cs[k], "type"@, "function"@)
                    &&& crate::json::field(cs[k], "function"@) matches Some(f)
                    &&& has_text(f, "name"@, asked[k].name)
                    &&& has_text(f, "arguments"@, asked[k].arguments.text)
                } by {
                    lemma_call_fields(calls[k]);
                }
            }
        },
        MessageView::ToolResult(tr) => {
            lemma_result_parts(tr.content);
        },
        _ => {},
    }
}

proof fn lemma_part_fields(c: UserContentView)
    ensures
        match c {
            UserContentView::Text(t) => has_text(user_part(c), "type"@, "text"@) && has_text(
                user_part(c),
                "text"@,
                t.text,
            ),
            UserContentView::Image(img) => has_text(user_part(c), "type"@, "image_url"@) && (
            crate::json::field(user_part(c), "image_url"@) matches Some(url) && has_text(
                url,
                "url"@,
                "data:"@ + img.mime_type + ";base64,"@ + img.data,
            )),
        },
{
    reveal_strlit("type");
    reveal_strlit("text");
    reveal_strlit("image_url");
    assert("type"@.len() == 4 && "text"@.len() == 4 && "type"@[1] != "text"@[1]);
    assert("image_url"@.len() == 9);
}

/// The request names the model, asks for a stream with a report of the usage, and limits the answer
/// to what the options say, or else to a third of what the model can give but no less than 1024. Each
/// tool is offered as it is described. How to think is said as the model expects it, and hints for
/// the cache go to the official service only.
pub proof fn law_settings(model: ModelView, context: ContextView, options: StreamOptionsView)
    ensures
        ({
            let j = request_json(request_of(model, context, options));
            let official = crate::text::contains(model.base_url, "api.openai.com"@);
            &&& has_text(j, "model"@, model.id)
            &&& crate::json::field(j, "stream"@) == Some(Json::Bool(true))
            &&& crate::json::field(j, "stream_options"@) matches Some(o) && crate::json::field(
                o,
                "include_usage"@,
            ) == Some(Json::Bool(true))
            &&& crate::json::field(j, "max_completion_tokens"@) matches Some(Json::Int(n)) && match options.max_tokens {
                Some(limit) => n == limit,
                None => n >= 1024 && 3 * n <= (if model.max_tokens >= 3072 {
                    model.max_tokens as int
                } else {
                    3072int
                }) < 3 * (n + 1),
            }
            &&& if context.tools.len() == 0 {
                crate::json::field(j, "tools"@) is None
            } else {
                &&& crate::json::field(j, "tools"@) matches Some(Json::Arr(ts))
                &&& ts.len() == context.tools.len()
                &&& forall|k: int|
                    0 <= k < ts.len() ==> {
                        &&& has_text(#[trigger] ts[k], "type"@, "function"@)
                        &&& crate::json::field(ts[k], "function"@) matches Some(f)
                        &&& has_text(f, "name"@, context.tools[k].name)
                        &&& has_text(f, "description"@, context.tools[k].description)
                        &&& crate::json::field(f, "parameters"@) == Some(
                            context.tools[k].parameters.value,
                        )
                    }
            }
            &&& if model.thinking == ThinkingStyle::OpenAi {
                has_text(j, "reasoning_effort"@, "medium"@)
            } else {
                crate::json::field(j, "reasoning_effort"@) is None
            }
            &&& if model.thinking == ThinkingStyle::Qwen {
                crate::json::field(j, "enable_thinking"@) == Some(Json::Bool(true))
            } else {
                crate::json::field(j, "enable_thinking"@) is None
            }
            &&& official && options.cache_retention != Some(CacheRetention::Off) ==> match options.session_id {
                Some(id) => has_text(j, "prompt_cache_key"@, id),
                None => crate::json::field(j, "prompt_cache_key"@) is None,
            }
            &&& !official || options.cache_retention == Some(CacheRetention::Off)
                ==> crate::json::field(j, "prompt_cache_key"@) is None
            &&& if official && options.cache_retention == Some(CacheRetention::Long) {
                has_text(j, "prompt_cache_retention"@, "24h"@)
            } else {
                crate::json::field(j, "prompt_cache_retention"@) is None
            }
        }),
{
    let r = request_of(model, context, options);
    let j = request_json(r);
    lemma_request_fields(r);
    if context.tools.len() > 0 {
        let defs = tool_defs(context.tools);
        let ts = Seq::new(defs.len(), |i: int| tool_json(defs[i]));
        assert(crate::json::field(j, "tools"@) == Some(Json::Arr(ts)));
        assert forall|k: int| 0 <= k < ts.len() implies {
            &&& has_text(#[trigger] ts[k], "type"@, "function"@)
            &&& crate::json::field(ts[k], "function"@) matches Some(f)
            &&& has_text(f, "name"@, context.tools[k].name)
            &&& has_text(f, "description"@, context.tools[k].description)
            &&& crate::json::field(f, "parameters"@) == Some(context.tools[k].parameters.value)
        } by {
            lemma_tool_fields(defs[k]);
        }
    }
}

proof fn lemma_tool_fields(t: ToolDefView)
    ensures
        has_text(tool_json(t), "type"@, t.tool_type),
        crate::json::field(tool_json(t), "function"@) matches Some(f) && has_text(
            f,
            "name"@,
            t.function.name,
        ) && has_text(f, "description"@, t.function.description) && crate::json::field(
            f,
            "parameters"@,
        ) == Some(t.function.parameters),
{
    reveal_strlit("type");
    reveal_strlit("function");
    reveal_strlit("name");
    reveal_strlit("description");
    reveal_strlit("parameters");
    assert("type"@.len() == 4 && "function"@.len() == 8);
    assert("name"@.len() == 4 && "description"@.len() == 11 && "parameters"@.len() == 10);
}

/// The wire names of a request.
proof fn lemma_wire_names()
    ensures
        "model"@ != "tools"@,
        "role"@ != "name"@,
        "reasoning_effort"@ != "prompt_cache_key"@,
        "model"@.len() == 5,
        "tools"@.len() == 5,
        "messages"@.len() == 8,
        "stream"@.len() == 6,
        "max_completion_tokens"@.len() == 21,
        "stream_options"@.len() == 14,
        "reasoning_effort"@.len() == 16,
        "enable_thinking"@.len() == 15,
        "prompt_cache_key"@.len() == 16,
        "prompt_cache_retention"@.len() == 22,
        "role"@.len() == 4,
        "name"@.len() == 4,
        "content"@.len() == 7,
        "tool_calls"@.len() == 10,
        "tool_call_id"@.len() == 12,
        "id"@.len() == 2,
        "type"@.len() == 4,
        "function"@.len() == 8,
        "arguments"@.len() == 9,
        "description"@.len() == 11,
        "parameters"@.len() == 10,
{
    reveal_strlit("model");
    reveal_strlit("tools");
    reveal_strlit("messages");
    reveal_strlit("stream");
    reveal_strlit("max_completion_tokens");
    reveal_strlit("stream_options");
    reveal_strlit("reasoning_effort");
    reveal_strlit("enable_thinking");
    reveal_strlit("prompt_cache_key");
    reveal_strlit("prompt_cache_retention");
    reveal_strlit("role");
    reveal_strlit("name");
    reveal_strlit("content");
    reveal_strlit("tool_calls");
    reveal_strlit("tool_call_id");
    reveal_strlit("id");
    reveal_strlit("type");
    reveal_strlit("function");
    reveal_strlit("arguments");
    reveal_strlit("description");
    reveal_strlit("parameters");
    assert("model"@[0] != "tools"@[0]);
    assert("role"@[0] != "name"@[0]);
    assert("reasoning_effort"@[0] != "prompt_cache_key"@[0]);
}

/// A message goes over the wire with its role and with what it holds, each under its own name; what it
/// does not hold is left out.
pub proof fn law_message_on_the_wire(m: ChatMessageView)
    ensures
        ({
            let j = message_json(m);
            &&& crate::json::field(j, "role"@) == Some(Json::Str(m.role))
            &&& crate::json::field(j, "content"@) == m.content
            &&& m.tool_call_id matches Some(id) ==> crate::json::field(j, "tool_call_id"@) == Some(
                Json::Str(id),
            )
            &&& m.tool_call_id is None ==> crate::json::field(j, "tool_call_id"@) is None
            &&& m.tool_calls is None ==> crate::json::field(j, "tool_calls"@) is None
            &&& m.tool_calls matches Some(cs) ==> (crate::json::field(j, "tool_calls"@)
                matches Some(Json::Arr(js)) && js.len() == cs.len() && forall|i: int|
                0 <= i < js.len() ==> {
                    let f = crate::json::field(#[trigger] js[i], "function"@);
                    &&& crate::json::field(js[i], "id"@) == Some(Json::Str(cs[i].id))
                    &&& f is Some
                    &&& crate::json::field(f->0, "name"@) == Some(Json::Str(cs[i].function.name))
                    &&& crate::json::field(f->0, "arguments"@) == Some(
                        Json::Str(cs[i].function.arguments),
                    )
                })
        }),
{
    lemma_wire_names();
}

/// Everything that a request holds goes over the wire under its own name, and what it does not hold is
/// left out.
pub proof fn law_request_on_the_wire(r: ChatCompletionRequestView)
    ensures
        ({
            let j = request_json(r);
            &&& crate::json::field(j, "model"@) == Some(Json::Str(r.model))
            &&& crate::json::field(j, "stream"@) == Some(Json::Bool(r.stream))
            &&& crate::json::field(j, "messages"@) matches Some(Json::Arr(ms)) && ms.len()
                == r.messages.len() && forall|i: int|
                0 <= i < ms.len() ==> #[trigger] ms[i] == message_json(r.messages[i])
            &&& r.max_completion_tokens matches Some(n) ==> crate::json::field(
                j,
                "max_completion_tokens"@,
            ) == Some(Json::Int(n as int))
            &&& r.max_completion_tokens is None ==> crate::json::field(j, "max_completion_tokens"@)
                is None
            &&& r.tools is None ==> crate::json::field(j, "tools"@) is None
            &&& r.tools matches Some(ts) ==> (crate::json::field(j, "tools"@) matches Some(
                Json::Arr(js),
            ) && js.len() == ts.len() && forall|i: int|
                0 <= i < js.len() ==> {
                    let f = crate::json::field(#[trigger] js[i], "function"@);
                    &&& f is Some
                    &&& crate::json::field(f->0, "name"@) == Some(Json::Str(ts[i].function.name))
                    &&& crate::json::field(f->0, "description"@) == Some(
                        Json::Str(ts[i].function.description),
                    )
                    &&& crate::json::field(f->0, "parameters"@) == Some(ts[i].function.parameters)
                })
            &&& r.reasoning_effort matches Some(e) ==> crate::json::field(j, "reasoning_effort"@)
                == Some(Json::Str(e))
            &&& r.reasoning_effort is None ==> crate::json::field(j, "reasoning_effort"@) is None
            &&& r.enable_thinking matches Some(b) ==> crate::json::field(j, "enable_thinking"@)
                == Some(Json::Bool(b))
            &&& r.enable_thinking is None ==> crate::json::field(j, "enable_thinking"@) is None
            &&& r.prompt_cache_key matches Some(k) ==> crate::json::field(j, "prompt_cache_key"@)
                == Some(Json::Str(k))
            &&& r.prompt_cache_key is None ==> crate::json::field(j, "prompt_cache_key"@) is None
        }),
{
    lemma_wire_names();
}

/// Every tool is offered as it is described, in order.
pub proof fn law_tools_travel(tools: Seq<ToolView>, i: int)
    requires
        0 <= i < tools.len(),
    ensures
        tool_defs(tools).len() == tools.len(),
        tool_defs(tools)[i].function.name == tools[i].name,
        tool_defs(tools)[i].function.description == tools[i].description,
        tool_defs(tools)[i].function.parameters == tools[i].parameters.value,
{
}

} // verus!
