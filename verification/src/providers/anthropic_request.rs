//! Anthropic Messages API: building the request.

use vstd::prelude::*;

use crate::error::Result;
use crate::json::{
    array_value, as_array, as_str, bool_value, empty_object_value, put_opt, string_value, u64_value,
    with_entry, with_str, Json,
};
use crate::providers::anthropic_types::{
    ApiMessage, ApiMessageView, CacheControl, CacheControlView, MessagesRequest, MessagesRequestView, OutputConfig, OutputConfigView, SystemBlock, SystemBlockView,
    ThinkingConfig, ThinkingConfigView, ToolDef, ToolDefView,
};
use crate::text::{str_contains, str_eq, u64_text};
use crate::types::{
    AssistantContent, AssistantContentView, Context, ContextView, ImageContent, Message,
    MessageView, Model, ModelCost, ModelView, StreamOptions, StreamOptionsView, ThinkingDisplay,
    ThinkingEffort, ThinkingStyle, Tool, ToolResultContent, ToolResultContentView, ToolView,
    UserContent, UserContentView,
};

verus! {

// ---------------------------------------------------------------------------
// Blocks
// ---------------------------------------------------------------------------

/// A text block.
pub open spec fn text_block(text: Seq<char>) -> Json {
    Json::Obj(map!["type"@ => Json::Str("text"@), "text"@ => Json::Str(text)])
}

/// An image block.
pub open spec fn image_block(mime_type: Seq<char>, data: Seq<char>) -> Json {
    Json::Obj(
        map![
            "type"@ => Json::Str("image"@),
            "source"@ => Json::Obj(map![
                "type"@ => Json::Str("base64"@),
                "media_type"@ => Json::Str(mime_type),
                "data"@ => Json::Str(data),
            ]),
        ],
    )
}

/// A block of user content.
pub open spec fn user_block(c: UserContentView) -> Json {
    match c {
        UserContentView::Text(t) => text_block(t.text),
        UserContentView::Image(img) => image_block(img.mime_type, img.data),
    }
}

/// A block of a tool result.
pub open spec fn result_block(c: ToolResultContentView) -> Json {
    match c {
        ToolResultContentView::Text(t) => text_block(t.text),
        ToolResultContentView::Image(img) => image_block(img.mime_type, img.data),
    }
}

/// User content: the bare text of a single text block, else a list of blocks.
pub open spec fn user_json(content: Seq<UserContentView>) -> Json {
    if content.len() == 1 && content[0] is Text {
        Json::Str(content[0]->Text_0.text)
    } else {
        Json::Arr(Seq::new(content.len(), |i: int| user_block(content[i])))
    }
}

/// Tool result content: the bare text of a single text block, else a list of blocks.
pub open spec fn result_json(content: Seq<ToolResultContentView>) -> Json {
    if content.len() == 1 && content[0] is Text {
        Json::Str(content[0]->Text_0.text)
    } else {
        Json::Arr(Seq::new(content.len(), |i: int| result_block(content[i])))
    }
}

/// A block of assistant content. Empty text and empty thinking are left out;
/// thinking without a signature travels as text.
pub open spec fn assistant_block(c: AssistantContentView) -> Option<Json> {
    match c {
        AssistantContentView::Text(t) => if t.text.len() > 0 {
            Some(text_block(t.text))
        } else {
            None
        },
        AssistantContentView::Thinking(t) => if t.redacted {
            Some(
                Json::Obj(
                    map![
                        "type"@ => Json::Str("redacted_thinking"@),
                        "data"@ => Json::Str(match t.thinking_signature {
                            Some(s) => s,
                            None => ""@,
                        }),
                    ],
                ),
            )
        } else if t.thinking.len() == 0 {
            None
        } else if t.thinking_signature is Some && t.thinking_signature->0.len() > 0 {
            Some(
                Json::Obj(
                    map![
                        "type"@ => Json::Str("thinking"@),
                        "thinking"@ => Json::Str(t.thinking),
                        "signature"@ => Json::Str(t.thinking_signature->0),
                    ],
                ),
            )
        } else {
            Some(text_block(t.thinking))
        },
        AssistantContentView::ToolCall(tc) => Some(
            Json::Obj(
                map![
                    "type"@ => Json::Str("tool_use"@),
                    "id"@ => Json::Str(tc.id),
                    "name"@ => Json::Str(tc.name),
                    "input"@ => tc.arguments.value,
                ],
            ),
        ),
    }
}

/// The blocks of assistant content that travel.
pub open spec fn assistant_blocks(content: Seq<AssistantContentView>) -> Seq<Json>
    decreases content.len(),
{
    if content.len() == 0 {
        seq![]
    } else {
        let init = assistant_blocks(content.subrange(0, content.len() - 1));
        match assistant_block(content[content.len() - 1]) {
            Some(b) => init.push(b),
            None => init,
        }
    }
}

/// The text that stands for compacted messages.
pub open spec fn compacted_text(tokens_before: u64, summary: Seq<char>) -> Seq<char> {
    "[Context compacted — "@ + crate::text::decimal(tokens_before as nat)
        + " tokens before compaction]\n\n"@ + summary
}

/// A message on the wire, if it travels at all.
pub open spec fn api_message(m: MessageView) -> Option<ApiMessageView> {
    match m {
        MessageView::User(u) => Some(
            ApiMessageView { role: "user"@, content: user_json(u.content) },
        ),
        MessageView::Assistant(a) => {
            let blocks = assistant_blocks(a.content);
            if blocks.len() > 0 {
                Some(ApiMessageView { role: "assistant"@, content: Json::Arr(blocks) })
            } else {
                None
            }
        },
        MessageView::ToolResult(tr) => Some(
            ApiMessageView {
                role: "user"@,
                content: Json::Arr(
                    seq![
                        Json::Obj(map![
                            "type"@ => Json::Str("tool_result"@),
                            "tool_use_id"@ => Json::Str(tr.tool_call_id),
                            "content"@ => result_json(tr.content),
                            "is_error"@ => Json::Bool(tr.is_error),
                        ]),
                    ],
                ),
            },
        ),
        MessageView::CompactionSummary(cs) => Some(
            ApiMessageView {
                role: "user"@,
                content: Json::Str(compacted_text(cs.tokens_before, cs.summary)),
            },
        ),
        MessageView::Info(_) => None,
    }
}

/// The messages on the wire.
pub open spec fn api_messages(messages: Seq<MessageView>) -> Seq<ApiMessageView>
    decreases messages.len(),
{
    if messages.len() == 0 {
        seq![]
    } else {
        let init = api_messages(messages.subrange(0, messages.len() - 1));
        match api_message(messages[messages.len() - 1]) {
            Some(m) => init.push(m),
            None => init,
        }
    }
}

// ---------------------------------------------------------------------------
// Cache breakpoint
// ---------------------------------------------------------------------------

/// The cache control entry.
pub open spec fn ephemeral_json() -> Json {
    Json::Obj(map!["type"@ => Json::Str("ephemeral"@)])
}

/// Content with a cache breakpoint on its last block.
pub open spec fn with_breakpoint(content: Json) -> Json {
    match content {
        Json::Str(t) => Json::Arr(
            seq![
                Json::Obj(map![
                    "type"@ => Json::Str("text"@),
                    "text"@ => Json::Str(t),
                    "cache_control"@ => ephemeral_json(),
                ]),
            ],
        ),
        Json::Arr(blocks) => if blocks.len() > 0 {
            match blocks[blocks.len() - 1] {
                Json::Obj(m) => Json::Arr(
                    blocks.update(
                        blocks.len() - 1,
                        Json::Obj(m.insert("cache_control"@, ephemeral_json())),
                    ),
                ),
                _ => content,
            }
        } else {
            content
        },
        _ => content,
    }
}

/// The position of the last message of the user, -1 if there is none.
pub open spec fn last_user(messages: Seq<ApiMessageView>) -> int
    decreases messages.len(),
{
    if messages.len() == 0 {
        -1
    } else if messages[messages.len() - 1].role == "user"@ {
        messages.len() - 1
    } else {
        last_user(messages.subrange(0, messages.len() - 1))
    }
}

/// The messages with a cache breakpoint on the last message of the user.
pub open spec fn with_last_breakpoint(messages: Seq<ApiMessageView>) -> Seq<ApiMessageView> {
    let i = last_user(messages);
    if 0 <= i < messages.len() {
        messages.update(
            i,
            ApiMessageView { content: with_breakpoint(messages[i].content), ..messages[i] },
        )
    } else {
        messages
    }
}

// ---------------------------------------------------------------------------
// Thinking
// ---------------------------------------------------------------------------

/// Models that decide themselves how much to think.
pub open spec fn adaptive(model_id: Seq<char>) -> bool {
    ||| crate::text::contains(model_id, "opus-4-6"@)
    ||| crate::text::contains(model_id, "opus-4.6"@)
    ||| crate::text::contains(model_id, "opus-4-7"@)
    ||| crate::text::contains(model_id, "opus-4.7"@)
    ||| crate::text::contains(model_id, "sonnet-4-6"@)
    ||| crate::text::contains(model_id, "sonnet-4.6"@)
}

/// The API's name of an effort level; extra high exists for some models only.
pub open spec fn effort_name(effort: ThinkingEffort, model_id: Seq<char>) -> Seq<char> {
    match effort {
        ThinkingEffort::Low => "low"@,
        ThinkingEffort::Medium => "medium"@,
        ThinkingEffort::High => "high"@,
        ThinkingEffort::Max => "max"@,
        ThinkingEffort::XHigh => if crate::text::contains(model_id, "opus-4-6"@)
            || crate::text::contains(model_id, "opus-4.6"@) {
            "max"@
        } else if crate::text::contains(model_id, "opus-4-7"@) || crate::text::contains(
            model_id,
            "opus-4.7"@,
        ) {
            "xhigh"@
        } else {
            "high"@
        },
    }
}

/// Whether thinking is asked for.
pub open spec fn wants_thinking(model: ModelView, options: StreamOptionsView) -> bool {
    model.thinking == ThinkingStyle::Anthropic && match options.thinking_enabled {
        Some(v) => v,
        None => options.thinking_budget is Some || (adaptive(model.id) && options.thinking_effort is Some),
    }
}

/// How thinking is asked for.
pub open spec fn thinking_of(model: ModelView, options: StreamOptionsView) -> (
    ThinkingConfigView,
    Option<OutputConfigView>,
) {
    let display = match options.thinking_display {
        Some(ThinkingDisplay::Omitted) => "omitted"@,
        _ => "summarized"@,
    };
    if adaptive(model.id) {
        (
            ThinkingConfigView {
                thinking_type: "adaptive"@,
                budget_tokens: None,
                display: Some(display),
            },
            match options.thinking_effort {
                Some(e) => Some(OutputConfigView { effort: effort_name(e, model.id) }),
                None => None,
            },
        )
    } else {
        (
            ThinkingConfigView {
                thinking_type: "enabled"@,
                budget_tokens: Some(
                    match options.thinking_budget {
                        Some(b) => b,
                        None => 1024,
                    },
                ),
                display: Some(display),
            },
            None,
        )
    }
}

/// The output limit: the caller's, else a third of the model's but at least 1024.
pub open spec fn output_limit(model: ModelView, options: StreamOptionsView) -> u64 {
    match options.max_tokens {
        Some(n) => n,
        None => if model.max_tokens / 3 >= 1024 {
            model.max_tokens / 3
        } else {
            1024
        },
    }
}

/// The tools on the wire; the last one carries a cache breakpoint.
pub open spec fn tool_defs(tools: Seq<ToolView>) -> Seq<ToolDefView> {
    Seq::new(
        tools.len(),
        |i: int|
            ToolDefView {
                name: tools[i].name,
                description: tools[i].description,
                input_schema: tools[i].parameters.value,
                eager_input_streaming: true,
                cache_control: if i == tools.len() - 1 {
                    Some(crate::providers::anthropic_types::ephemeral())
                } else {
                    None
                },
            },
    )
}

/// The request for a context.
pub open spec fn request_of(
    model: ModelView,
    context: ContextView,
    options: StreamOptionsView,
) -> MessagesRequestView {
    MessagesRequestView {
        model: model.id,
        messages: with_last_breakpoint(api_messages(context.messages)),
        max_tokens: output_limit(model, options),
        stream: true,
        system: match context.system_prompt {
            Some(prompt) => Some(
                seq![
                    SystemBlockView {
                        block_type: "text"@,
                        text: prompt,
                        cache_control: Some(crate::providers::anthropic_types::ephemeral()),
                    },
                ],
            ),
            None => None,
        },
        tools: if context.tools.len() == 0 {
            None
        } else {
            Some(tool_defs(context.tools))
        },
        thinking: if wants_thinking(model, options) {
            Some(thinking_of(model, options).0)
        } else {
            None
        },
        output_config: if wants_thinking(model, options) {
            thinking_of(model, options).1
        } else {
            None
        },
    }
}

// ---------------------------------------------------------------------------
// Code
// ---------------------------------------------------------------------------

/// A text block.
fn text_value(text: &str) -> (r: serde_json::Value)
    ensures
        crate::json::json_of(r) == text_block(text@),
{
    with_str(with_str(empty_object_value(), "type", "text"), "text", text)
}

/// An image block.
fn image_value(img: &ImageContent) -> (r: serde_json::Value)
    ensures
        crate::json::json_of(r) == image_block(img@.mime_type, img@.data),
{
    let source = with_str(
        with_str(with_str(empty_object_value(), "type", "base64"), "media_type", img.mime_type.as_str()),
        "data",
        img.data.as_str(),
    );
    with_entry(with_str(empty_object_value(), "type", "image"), "source".to_owned(), source)
}

/// User content on the wire.
pub fn convert_user_content(content: &Vec<UserContent>) -> (r: serde_json::Value)
    ensures
        crate::json::json_of(r) == user_json(content.deep_view()),
{
    if content.len() == 1 {
        assert(content.deep_view()[0] == content[0]@);
        if let UserContent::Text(t) = &content[0] {
            return string_value(t.text.clone());
        }
    }
    let mut blocks: Vec<serde_json::Value> = Vec::new();
    let mut i: usize = 0;
    while i < content.len()
        invariant
            i <= content.len(),
            blocks.len() == i,
            forall|j: int|
                0 <= j < i ==> crate::json::json_of(#[trigger] blocks@[j]) == user_block(content@[j]@),
        decreases content.len() - i,
    {
        let b = match &content[i] {
            UserContent::Text(t) => text_value(t.text.as_str()),
            UserContent::Image(img) => image_value(img),
        };
        blocks.push(b);
        i = i + 1;
    }
    assert(crate::json::jsons(blocks@) =~= Seq::new(
        content.deep_view().len(),
        |i: int| user_block(content.deep_view()[i]),
    ));
    array_value(blocks)
}

/// Tool result content on the wire.
pub fn convert_tool_result_content(content: &Vec<ToolResultContent>) -> (r: serde_json::Value)
    ensures
        crate::json::json_of(r) == result_json(content.deep_view()),
{
    if content.len() == 1 {
        assert(content.deep_view()[0] == content[0]@);
        if let ToolResultContent::Text(t) = &content[0] {
            return string_value(t.text.clone());
        }
    }
    let mut blocks: Vec<serde_json::Value> = Vec::new();
    let mut i: usize = 0;
    while i < content.len()
        invariant
            i <= content.len(),
            blocks.len() == i,
            forall|j: int|
                0 <= j < i ==> crate::json::json_of(#[trigger] blocks@[j]) == result_block(
                    content@[j]@,
                ),
        decreases content.len() - i,
    {
        let b = match &content[i] {
            ToolResultContent::Text(t) => text_value(t.text.as_str()),
            ToolResultContent::Image(img) => image_value(img),
        };
        blocks.push(b);
        i = i + 1;
    }
    assert(crate::json::jsons(blocks@) =~= Seq::new(
        content.deep_view().len(),
        |i: int| result_block(content.deep_view()[i]),
    ));
    array_value(blocks)
}

/// A block of assistant content on the wire.
fn convert_block(c: &AssistantContent) -> (r: Option<serde_json::Value>)
    ensures
        match r {
            Some(v) => assistant_block(c@) == Some(crate::json::json_of(v)),
            None => assistant_block(c@) is None,
        },
{
    match c {
        AssistantContent::Text(t) => {
            if t.text.as_str().is_empty() {
                None
            } else {
                Some(text_value(t.text.as_str()))
            }
        },
        AssistantContent::Thinking(t) => {
            if t.redacted {
                let v = with_str(empty_object_value(), "type", "redacted_thinking");
                let sig: &str = match &t.thinking_signature {
                    Some(s) => s.as_str(),
                    None => "",
                };
                return Some(with_str(v, "data", sig));
            }
            if t.thinking.as_str().is_empty() {
                return None;
            }
            if let Some(sig) = &t.thinking_signature {
                if !sig.as_str().is_empty() {
                    let v = with_str(empty_object_value(), "type", "thinking");
                    let v = with_str(v, "thinking", t.thinking.as_str());
                    return Some(with_str(v, "signature", sig.as_str()));
                }
            }
            Some(text_value(t.thinking.as_str()))
        },
        AssistantContent::ToolCall(tc) => {
            let v = with_str(empty_object_value(), "type", "tool_use");
            let v = with_str(v, "id", tc.id.as_str());
            let v = with_str(v, "name", tc.name.as_str());
            Some(with_entry(v, "input".to_owned(), tc.arguments.clone()))
        },
    }
}

/// Assistant content on the wire.
pub fn convert_assistant_content(content: &Vec<AssistantContent>) -> (r: Vec<serde_json::Value>)
    ensures
        crate::json::jsons(r@) == assistant_blocks(content.deep_view()),
{
    let mut blocks: Vec<serde_json::Value> = Vec::new();
    let mut i: usize = 0;
    let ghost all = content.deep_view();
    assert(all.subrange(0, 0) =~= seq![]);
    assert(crate::json::jsons(blocks@) =~= seq![]);
    while i < content.len()
        invariant
            i <= content.len(),
            all == content.deep_view(),
            crate::json::jsons(blocks@) == assistant_blocks(all.subrange(0, i as int)),
        decreases content.len() - i,
    {
        let ghost p = all.subrange(0, i + 1);
        assert(p.subrange(0, p.len() - 1) =~= all.subrange(0, i as int));
        assert(p[i as int] == content[i as int]@);
        let ghost before = crate::json::jsons(blocks@);
        match convert_block(&content[i]) {
            Some(v) => {
                blocks.push(v);
                assert(crate::json::jsons(blocks@) =~= before.push(crate::json::json_of(v)));
            },
            None => {},
        }
        i = i + 1;
    }
    assert(all.subrange(0, i as int) =~= all);
    blocks
}

/// A message on the wire, if it travels at all.
fn convert_message(m: &Message) -> (r: Option<ApiMessage>)
    ensures
        r.deep_view() == api_message(m@),
{
    match m {
        Message::User(u) => Some(
            ApiMessage { role: "user", content: convert_user_content(&u.content) },
        ),
        Message::Assistant(a) => {
            let content = convert_assistant_content(&a.content);
            assert(crate::json::jsons(content@).len() == content.len());
            if content.len() == 0 {
                None
            } else {
                Some(ApiMessage { role: "assistant", content: array_value(content) })
            }
        },
        Message::ToolResult(tr) => {
            let v = with_str(empty_object_value(), "type", "tool_result");
            let v = with_str(v, "tool_use_id", tr.tool_call_id.as_str());
            let v = with_entry(
                v,
                "content".to_owned(),
                convert_tool_result_content(&tr.content),
            );
            let v = with_entry(v, "is_error".to_owned(), bool_value(tr.is_error));
            let blocks: Vec<serde_json::Value> = vec![v];
            assert(crate::json::jsons(blocks@) =~= seq![crate::json::json_of(v)]);
            Some(ApiMessage { role: "user", content: array_value(blocks) })
        },
        Message::CompactionSummary(cs) => {
            let mut text: String = "[Context compacted — ".to_owned();
            text.append(u64_text(cs.tokens_before).as_str());
            text.append(" tokens before compaction]\n\n");
            text.append(cs.summary.as_str());
            Some(ApiMessage { role: "user", content: string_value(text) })
        },
        Message::Info(_) => None,
    }
}

/// Content with a cache breakpoint on its last block.
fn breakpoint_value(content: &serde_json::Value) -> (r: serde_json::Value)
    ensures
        crate::json::json_of(r) == with_breakpoint(crate::json::json_of(*content)),
{
    let marker = with_str(empty_object_value(), "type", "ephemeral");
    if let Some(t) = as_str(content) {
        let v = with_entry(text_value(t), "cache_control".to_owned(), marker);
        let blocks: Vec<serde_json::Value> = vec![v];
        assert(crate::json::jsons(blocks@) =~= seq![crate::json::json_of(v)]);
        return array_value(blocks);
    }
    if let Some(items) = as_array(content) {
        let mut blocks: Vec<serde_json::Value> = items.clone();
        let ghost before = crate::json::jsons(items@);
        assert(crate::json::jsons(blocks@) =~= before);
        match blocks.pop() {
            Some(last) => {
                let marked = with_entry(last, "cache_control".to_owned(), marker);
                blocks.push(marked);
                assert(crate::json::json_of(last) == before[before.len() - 1]);
                assert(crate::json::jsons(blocks@) =~= before.update(
                    before.len() - 1,
                    crate::json::json_of(marked),
                ));
                assert(before.update(before.len() - 1, before[before.len() - 1]) =~= before);
                return array_value(blocks);
            },
            None => {
                return content.clone();
            },
        }
    }
    content.clone()
}

/// Put a cache breakpoint on the last message of the user.
pub fn add_cache_breakpoint_to_last_user_message(messages: &mut Vec<ApiMessage>)
    ensures
        final(messages).deep_view() == with_last_breakpoint(old(messages).deep_view()),
{
    let ghost all = messages.deep_view();
    let mut n: usize = messages.len();
    assert(all.subrange(0, n as int) =~= all);
    while n > 0
        invariant
            n <= messages.len(),
            all == messages.deep_view(),
            all == old(messages).deep_view(),
            last_user(all) == last_user(all.subrange(0, n as int)),
        decreases n,
    {
        let ghost p = all.subrange(0, n as int);
        assert(p[n - 1] == messages[n - 1]@);
        if str_eq(messages[n - 1].role, "user") {
            let content = breakpoint_value(&messages[n - 1].content);
            let role = messages[n - 1].role;
            messages[n - 1] = ApiMessage { role, content };
            assert(messages.deep_view() =~= all.update(
                n - 1,
                ApiMessageView { content: with_breakpoint(all[n - 1].content), ..all[n - 1] },
            ));
            return ;
        }
        assert(p.subrange(0, p.len() - 1) =~= all.subrange(0, n - 1));
        n = n - 1;
    }
}

/// Whether the model decides itself how much to think.
pub fn supports_adaptive_thinking(model_id: &str) -> (r: bool)
    ensures
        r == adaptive(model_id@),
{
    str_contains(model_id, "opus-4-6") || str_contains(model_id, "opus-4.6") || str_contains(
        model_id,
        "opus-4-7",
    ) || str_contains(model_id, "opus-4.7") || str_contains(model_id, "sonnet-4-6")
        || str_contains(model_id, "sonnet-4.6")
}

/// The API's name of an effort level.
pub fn map_effort(effort: ThinkingEffort, model_id: &str) -> (r: &'static str)
    ensures
        r@ == effort_name(effort, model_id@),
{
    match effort {
        ThinkingEffort::Low => "low",
        ThinkingEffort::Medium => "medium",
        ThinkingEffort::High => "high",
        ThinkingEffort::Max => "max",
        ThinkingEffort::XHigh => {
            if str_contains(model_id, "opus-4-6") || str_contains(model_id, "opus-4.6") {
                "max"
            } else if str_contains(model_id, "opus-4-7") || str_contains(model_id, "opus-4.7") {
                "xhigh"
            } else {
                "high"
            }
        },
    }
}

/// Whether thinking is asked for.
pub fn thinking_requested(model: &Model, options: &StreamOptions) -> (r: bool)
    ensures
        r == wants_thinking(model@, options@),
{
    if model.thinking != ThinkingStyle::Anthropic {
        return false;
    }
    match options.thinking_enabled {
        Some(v) => v,
        None => options.thinking_budget.is_some() || (supports_adaptive_thinking(model.id.as_str())
            && options.thinking_effort.is_some()),
    }
}

/// How thinking is asked for.
pub fn build_thinking_config(model: &Model, options: &StreamOptions) -> (r: (
    ThinkingConfig,
    Option<OutputConfig>,
))
    ensures
        (r.0@, r.1.deep_view()) == thinking_of(model@, options@),
{
    let display: &'static str = match options.thinking_display {
        Some(ThinkingDisplay::Omitted) => "omitted",
        _ => "summarized",
    };
    if supports_adaptive_thinking(model.id.as_str()) {
        let output_config: Option<OutputConfig> = match options.thinking_effort {
            Some(e) => Some(OutputConfig { effort: map_effort(e, model.id.as_str()) }),
            None => None,
        };
        (
            ThinkingConfig {
                thinking_type: "adaptive",
                budget_tokens: None,
                display: Some(display),
            },
            output_config,
        )
    } else {
        let budget: u64 = match options.thinking_budget {
            Some(b) => b,
            None => 1024,
        };
        (
            ThinkingConfig {
                thinking_type: "enabled",
                budget_tokens: Some(budget),
                display: Some(display),
            },
            None,
        )
    }
}

/// The tools on the wire.
fn convert_tools(tools: &Vec<Tool>) -> (r: Vec<ToolDef>)
    ensures
        r.deep_view() == tool_defs(tools.deep_view()),
{
    let mut defs: Vec<ToolDef> = Vec::new();
    let mut i: usize = 0;
    while i < tools.len()
        invariant
            i <= tools.len(),
            defs.len() == i,
            forall|j: int|
                0 <= j < i ==> (#[trigger] defs@[j])@ == tool_defs(tools.deep_view())[j],
        decreases tools.len() - i,
    {
        let t = &tools[i];
        let cache_control: Option<CacheControl> = if i == tools.len() - 1 {
            Some(CacheControl::ephemeral())
        } else {
            None
        };
        defs.push(
            ToolDef {
                name: t.name.clone(),
                description: t.description.clone(),
                input_schema: t.parameters.clone(),
                eager_input_streaming: true,
                cache_control,
            },
        );
        i = i + 1;
    }
    assert(defs.deep_view() =~= tool_defs(tools.deep_view()));
    defs
}

/// The request for a context. It never fails.
pub fn build_request_body(model: &Model, context: &Context, options: &StreamOptions) -> (r: Result<
    MessagesRequest,
>)
    ensures
        r matches Ok(req) && req@ == request_of(model@, context@, options@),
{
    let mut messages: Vec<ApiMessage> = Vec::new();
    let mut i: usize = 0;
    let ghost all = context@.messages;
    assert(all.subrange(0, 0) =~= seq![]);
    assert(messages.deep_view() =~= seq![]);
    while i < context.messages.len()
        invariant
            i <= context.messages.len(),
            all == context.messages.deep_view(),
            messages.deep_view() == api_messages(all.subrange(0, i as int)),
        decreases context.messages.len() - i,
    {
        let ghost p = all.subrange(0, i + 1);
        assert(p.subrange(0, p.len() - 1) =~= all.subrange(0, i as int));
        assert(p[i as int] == context.messages[i as int]@);
        let ghost before = messages.deep_view();
        match convert_message(&context.messages[i]) {
            Some(m) => {
                messages.push(m);
                assert(messages.deep_view() =~= before.push(m@));
            },
            None => {},
        }
        i = i + 1;
    }
    assert(all.subrange(0, i as int) =~= all);
    add_cache_breakpoint_to_last_user_message(&mut messages);
    let max_tokens: u64 = match options.max_tokens {
        Some(n) => n,
        None => {
            let third: u64 = model.max_tokens / 3;
            if third >= 1024 {
                third
            } else {
                1024
            }
        },
    };
    let system: Option<Vec<SystemBlock>> = match &context.system_prompt {
        Some(prompt) => {
            let blocks: Vec<SystemBlock> = vec![
                SystemBlock {
                    block_type: "text",
                    text: prompt.clone(),
                    cache_control: Some(CacheControl::ephemeral()),
                },
            ];
            assert(blocks.deep_view() =~= seq![blocks[0]@]);
            Some(blocks)
        },
        None => None,
    };
    let tools: Option<Vec<ToolDef>> = if context.tools.len() == 0 {
        None
    } else {
        Some(convert_tools(&context.tools))
    };
    let (thinking, output_config): (Option<ThinkingConfig>, Option<OutputConfig>) =
        if thinking_requested(model, options) {
        let (t, o) = build_thinking_config(model, options);
        (Some(t), o)
    } else {
        (None, None)
    };
    Ok(
        MessagesRequest {
            model: model.id.clone(),
            messages,
            max_tokens,
            stream: true,
            system,
            tools,
            thinking,
            output_config,
        },
    )
}

// ---------------------------------------------------------------------------
// The request as JSON
// ---------------------------------------------------------------------------

/// A cache breakpoint as JSON.
pub open spec fn cache_json(c: CacheControlView) -> Json {
    Json::Obj(map!["type"@ => Json::Str(c.cache_type)])
}

/// An optional cache breakpoint as JSON.
pub open spec fn cache_json_opt(c: Option<CacheControlView>) -> Option<Json> {
    match c {
        Some(c) => Some(cache_json(c)),
        None => None,
    }
}

/// A system block as JSON.
pub open spec fn system_json(b: SystemBlockView) -> Json {
    crate::json::put(
        Json::Obj(map!["type"@ => Json::Str(b.block_type), "text"@ => Json::Str(b.text)]),
        "cache_control"@,
        cache_json_opt(b.cache_control),
    )
}

/// A message as JSON.
pub open spec fn message_json(m: ApiMessageView) -> Json {
    Json::Obj(map!["role"@ => Json::Str(m.role), "content"@ => m.content])
}

/// A tool as JSON.
pub open spec fn tool_json(t: ToolDefView) -> Json {
    crate::json::put(
        Json::Obj(
            map![
                "name"@ => Json::Str(t.name),
                "description"@ => Json::Str(t.description),
                "input_schema"@ => t.input_schema,
                "eager_input_streaming"@ => Json::Bool(t.eager_input_streaming),
            ],
        ),
        "cache_control"@,
        cache_json_opt(t.cache_control),
    )
}

/// The thinking configuration as JSON.
pub open spec fn thinking_json(t: ThinkingConfigView) -> Json {
    crate::json::put(
        crate::json::put(
            Json::Obj(map!["type"@ => Json::Str(t.thinking_type)]),
            "budget_tokens"@,
            match t.budget_tokens {
                Some(n) => Some(Json::Int(n as int)),
                None => None,
            },
        ),
        "display"@,
        match t.display {
            Some(d) => Some(Json::Str(d)),
            None => None,
        },
    )
}

/// The request as JSON.
pub open spec fn request_json(r: MessagesRequestView) -> Json {
    let base = Json::Obj(
        map![
            "model"@ => Json::Str(r.model),
            "messages"@ => Json::Arr(
                Seq::new(r.messages.len(), |i: int| message_json(r.messages[i])),
            ),
            "max_tokens"@ => Json::Int(r.max_tokens as int),
            "stream"@ => Json::Bool(r.stream),
        ],
    );
    let a = crate::json::put(
        base,
        "system"@,
        match r.system {
            Some(bs) => Some(Json::Arr(Seq::new(bs.len(), |i: int| system_json(bs[i])))),
            None => None,
        },
    );
    let b = crate::json::put(
        a,
        "tools"@,
        match r.tools {
            Some(ts) => Some(Json::Arr(Seq::new(ts.len(), |i: int| tool_json(ts[i])))),
            None => None,
        },
    );
    let c = crate::json::put(
        b,
        "thinking"@,
        match r.thinking {
            Some(t) => Some(thinking_json(t)),
            None => None,
        },
    );
    crate::json::put(
        c,
        "output_config"@,
        match r.output_config {
            Some(o) => Some(Json::Obj(map!["effort"@ => Json::Str(o.effort)])),
            None => None,
        },
    )
}

/// An optional cache breakpoint as JSON.
fn cache_value(c: &Option<CacheControl>) -> (r: Option<serde_json::Value>)
    ensures
        crate::json::json_opt(r) == cache_json_opt(c.deep_view()),
{
    match c {
        Some(c) => Some(with_str(empty_object_value(), "type", c.cache_type)),
        None => None,
    }
}

/// The thinking configuration as JSON.
fn thinking_value(t: &ThinkingConfig) -> (r: serde_json::Value)
    ensures
        crate::json::json_of(r) == thinking_json(t@),
{
    let v = with_str(empty_object_value(), "type", t.thinking_type);
    let budget: Option<serde_json::Value> = match t.budget_tokens {
        Some(n) => Some(u64_value(n)),
        None => None,
    };
    let display: Option<serde_json::Value> = match t.display {
        Some(d) => Some(string_value(d.to_owned())),
        None => None,
    };
    put_opt(put_opt(v, "budget_tokens", budget), "display", display)
}

/// The system blocks as JSON.
fn system_values(bs: &Vec<SystemBlock>) -> (r: Vec<serde_json::Value>)
    ensures
        crate::json::jsons(r@) == Seq::new(
            bs.deep_view().len(),
            |i: int| system_json(bs.deep_view()[i]),
        ),
{
    let mut out: Vec<serde_json::Value> = Vec::new();
    let mut i: usize = 0;
    while i < bs.len()
        invariant
            i <= bs.len(),
            out.len() == i,
            forall|j: int|
                0 <= j < i ==> crate::json::json_of(#[trigger] out@[j]) == system_json(bs@[j]@),
        decreases bs.len() - i,
    {
        let v = with_str(empty_object_value(), "type", bs[i].block_type);
        let v = with_str(v, "text", bs[i].text.as_str());
        out.push(put_opt(v, "cache_control", cache_value(&bs[i].cache_control)));
        i = i + 1;
    }
    assert(crate::json::jsons(out@) =~= Seq::new(
        bs.deep_view().len(),
        |i: int| system_json(bs.deep_view()[i]),
    ));
    out
}

/// The tools as JSON.
fn tool_values(ts: &Vec<ToolDef>) -> (r: Vec<serde_json::Value>)
    ensures
        crate::json::jsons(r@) == Seq::new(
            ts.deep_view().len(),
            |i: int| tool_json(ts.deep_view()[i]),
        ),
{
    let mut out: Vec<serde_json::Value> = Vec::new();
    let mut i: usize = 0;
    while i < ts.len()
        invariant
            i <= ts.len(),
            out.len() == i,
            forall|j: int|
                0 <= j < i ==> crate::json::json_of(#[trigger] out@[j]) == tool_json(ts@[j]@),
        decreases ts.len() - i,
    {
        let v = with_str(empty_object_value(), "name", ts[i].name.as_str());
        let v = with_str(v, "description", ts[i].description.as_str());
        let v = with_entry(v, "input_schema".to_owned(), ts[i].input_schema.clone());
        let v = with_entry(
            v,
            "eager_input_streaming".to_owned(),
            bool_value(ts[i].eager_input_streaming),
        );
        out.push(put_opt(v, "cache_control", cache_value(&ts[i].cache_control)));
        i = i + 1;
    }
    assert(crate::json::jsons(out@) =~= Seq::new(
        ts.deep_view().len(),
        |i: int| tool_json(ts.deep_view()[i]),
    ));
    out
}

/// The messages as JSON.
fn message_values(ms: &Vec<ApiMessage>) -> (r: Vec<serde_json::Value>)
    ensures
        crate::json::jsons(r@) == Seq::new(
            ms.deep_view().len(),
            |i: int| message_json(ms.deep_view()[i]),
        ),
{
    let mut out: Vec<serde_json::Value> = Vec::new();
    let mut i: usize = 0;
    while i < ms.len()
        invariant
            i <= ms.len(),
            out.len() == i,
            forall|j: int|
                0 <= j < i ==> crate::json::json_of(#[trigger] out@[j]) == message_json(ms@[j]@),
        decreases ms.len() - i,
    {
        let v = with_str(empty_object_value(), "role", ms[i].role);
        out.push(with_entry(v, "content".to_owned(), ms[i].content.clone()));
        i = i + 1;
    }
    assert(crate::json::jsons(out@) =~= Seq::new(
        ms.deep_view().len(),
        |i: int| message_json(ms.deep_view()[i]),
    ));
    out
}

impl MessagesRequest {
    /// The request as JSON.
    pub fn to_value(&self) -> (r: serde_json::Value)
        ensures
            crate::json::json_of(r) == request_json(self@),
    {
        let v = with_str(empty_object_value(), "model", self.model.as_str());
        let v = with_entry(v, "messages".to_owned(), array_value(message_values(&self.messages)));
        let v = with_entry(v, "max_tokens".to_owned(), u64_value(self.max_tokens));
        let v = with_entry(v, "stream".to_owned(), bool_value(self.stream));
        let system: Option<serde_json::Value> = match &self.system {
            Some(bs) => Some(array_value(system_values(bs))),
            None => None,
        };
        let tools: Option<serde_json::Value> = match &self.tools {
            Some(ts) => Some(array_value(tool_values(ts))),
            None => None,
        };
        let thinking: Option<serde_json::Value> = match &self.thinking {
            Some(t) => Some(thinking_value(t)),
            None => None,
        };
        let output_config: Option<serde_json::Value> = match &self.output_config {
            Some(o) => Some(with_str(empty_object_value(), "effort", o.effort)),
            None => None,
        };
        let v = put_opt(v, "system", system);
        let v = put_opt(v, "tools", tools);
        let v = put_opt(v, "thinking", thinking);
        put_opt(v, "output_config", output_config)
    }
}

/// The cache breakpoint touches the content of the last message of the user and nothing else.
pub proof fn law_breakpoint_touches_last_user(messages: Seq<ApiMessageView>, i: int)
    requires
        0 <= i < messages.len(),
    ensures
        with_last_breakpoint(messages).len() == messages.len(),
        with_last_breakpoint(messages)[i].role == messages[i].role,
        i != last_user(messages) ==> with_last_breakpoint(messages)[i] == messages[i],
{
}

/// The last message of the user is the last one that has that role.
pub proof fn law_last_user(messages: Seq<ApiMessageView>)
    ensures
        -1 <= last_user(messages) < messages.len(),
        last_user(messages) >= 0 ==> messages[last_user(messages)].role == "user"@,
        forall|j: int|
            last_user(messages) < j < messages.len() ==> (#[trigger] messages[j]).role != "user"@,
    decreases messages.len(),
{
    if messages.len() > 0 && messages[messages.len() - 1].role != "user"@ {
        let init = messages.subrange(0, messages.len() - 1);
        law_last_user(init);
        assert forall|j: int| last_user(messages) < j < messages.len() implies (
        #[trigger] messages[j]).role != "user"@ by {
            if j < messages.len() - 1 {
                assert(init[j] == messages[j]);
            }
        }
    }
}

// ---------------------------------------------------------------------------
// Models
// ---------------------------------------------------------------------------

/// A model that this API serves.
pub open spec fn api_model(
    id: Seq<char>,
    name: Seq<char>,
    cost: ModelCost,
    context_window: u64,
    max_tokens: u64,
) -> ModelView {
    ModelView {
        id,
        name,
        api: "anthropic-messages"@,
        provider: "anthropic"@,
        base_url: "https://api.anthropic.com"@,
        thinking: ThinkingStyle::Anthropic,
        cost,
        context_window,
        max_tokens,
        headers: seq![],
    }
}

/// Prices of the large models.
pub open spec fn opus_cost() -> ModelCost {
    ModelCost { input: 5_000_000, output: 25_000_000, cache_read: 500_000, cache_write: 6_250_000 }
}

/// Prices of the medium models.
pub open spec fn sonnet_cost() -> ModelCost {
    ModelCost { input: 3_000_000, output: 15_000_000, cache_read: 300_000, cache_write: 3_750_000 }
}

/// Prices of the small models.
pub open spec fn haiku_cost() -> ModelCost {
    ModelCost { input: 1_000_000, output: 5_000_000, cache_read: 100_000, cache_write: 1_250_000 }
}

/// A text behind another.
fn behind(first: &str, second: &str) -> (r: String)
    ensures
        r@ == first@ + second@,
{
    let mut out: String = first.to_owned();
    out.append(second);
    out
}

/// A model that this API serves.
fn new_model(id: String, name: String, cost: ModelCost, context_window: u64, max_tokens: u64) -> (r:
    Model)
    ensures
        r@ == api_model(id@, name@, cost, context_window, max_tokens),
{
    let r = Model {
        id,
        name,
        api: "anthropic-messages".to_owned(),
        provider: "anthropic".to_owned(),
        base_url: "https://api.anthropic.com".to_owned(),
        thinking: ThinkingStyle::Anthropic,
        cost,
        context_window,
        max_tokens,
        headers: Vec::new(),
    };
    assert(r@.headers =~= seq![]);
    r
}

/// The models that this API serves, newest first. Their ids start with the id of the product line,
/// and their names with its name.
pub fn models(line_id: &str, line_name: &str) -> (r: Vec<Model>)
    ensures
        ({
            let (i, n) = (line_id@, line_name@);
            r.deep_view() == seq![
                api_model(i + "-opus-4-7"@, n + " Opus 4.7"@, opus_cost(), 1_000_000, 128_000),
                api_model(i + "-sonnet-4-6"@, n + " Sonnet 4.6"@, sonnet_cost(), 1_000_000, 64_000),
                api_model(i + "-opus-4-6"@, n + " Opus 4.6"@, opus_cost(), 1_000_000, 128_000),
                api_model(i + "-sonnet-4-5"@, n + " Sonnet 4.5"@, sonnet_cost(), 200_000, 64_000),
                api_model(i + "-opus-4-5"@, n + " Opus 4.5"@, opus_cost(), 200_000, 64_000),
                api_model(
                    i + "-sonnet-4-20250514"@,
                    n + " Sonnet 4"@,
                    sonnet_cost(),
                    200_000,
                    64_000,
                ),
                api_model(i + "-haiku-4-5"@, n + " Haiku 4.5"@, haiku_cost(), 200_000, 64_000),
            ]
        }),
{
    let opus = ModelCost {
        input: 5_000_000,
        output: 25_000_000,
        cache_read: 500_000,
        cache_write: 6_250_000,
    };
    let sonnet = ModelCost {
        input: 3_000_000,
        output: 15_000_000,
        cache_read: 300_000,
        cache_write: 3_750_000,
    };
    let haiku = ModelCost {
        input: 1_000_000,
        output: 5_000_000,
        cache_read: 100_000,
        cache_write: 1_250_000,
    };
    let (i, n) = (line_id, line_name);
    let r: Vec<Model> = vec![
        new_model(behind(i, "-opus-4-7"), behind(n, " Opus 4.7"), opus, 1_000_000, 128_000),
        new_model(behind(i, "-sonnet-4-6"), behind(n, " Sonnet 4.6"), sonnet, 1_000_000, 64_000),
        new_model(behind(i, "-opus-4-6"), behind(n, " Opus 4.6"), opus, 1_000_000, 128_000),
        new_model(behind(i, "-sonnet-4-5"), behind(n, " Sonnet 4.5"), sonnet, 200_000, 64_000),
        new_model(behind(i, "-opus-4-5"), behind(n, " Opus 4.5"), opus, 200_000, 64_000),
        new_model(behind(i, "-sonnet-4-20250514"), behind(n, " Sonnet 4"), sonnet, 200_000, 64_000),
        new_model(behind(i, "-haiku-4-5"), behind(n, " Haiku 4.5"), haiku, 200_000, 64_000),
    ];
    assert(r.deep_view() =~= seq![
        r@[0]@,
        r@[1]@,
        r@[2]@,
        r@[3]@,
        r@[4]@,
        r@[5]@,
        r@[6]@,
    ]);
    r
}

// ---------------------------------------------------------------------------
// What a request says
// ---------------------------------------------------------------------------

/// Whether an object has a text under a key.
pub open spec fn has_text(j: Json, key: Seq<char>, text: Seq<char>) -> bool {
    crate::json::field(j, key) == Some(Json::Str(text))
}

/// Whether a block is a text.
pub open spec fn says_text(j: Json, text: Seq<char>) -> bool {
    has_text(j, "type"@, "text"@) && has_text(j, "text"@, text)
}

/// Whether a block is an image.
pub open spec fn says_image(j: Json, mime_type: Seq<char>, data: Seq<char>) -> bool {
    has_text(j, "type"@, "image"@) && (crate::json::field(j, "source"@) matches Some(s) && has_text(
        s,
        "type"@,
        "base64"@,
    ) && has_text(s, "media_type"@, mime_type) && has_text(s, "data"@, data))
}

/// Whether a block is marked as a place up to which the prompt is cached.
pub open spec fn is_marked(j: Json) -> bool {
    crate::json::field(j, "cache_control"@) matches Some(c) && has_text(c, "type"@, "ephemeral"@)
}

/// Whether content is that of a user message: the text of a single block, bare or as a block, or all
/// blocks in order.
pub open spec fn says_user(content: Json, c: Seq<UserContentView>) -> bool {
    ||| c.len() == 1 && c[0] is Text && content == Json::Str(c[0]->Text_0.text)
    ||| content matches Json::Arr(bs) && bs.len() == c.len() && forall|k: int|
        0 <= k < bs.len() ==> match c[k] {
            UserContentView::Text(t) => says_text(#[trigger] bs[k], t.text),
            UserContentView::Image(img) => says_image(bs[k], img.mime_type, img.data),
        }
}

/// Whether content is that of a tool result.
pub open spec fn says_result(content: Json, c: Seq<ToolResultContentView>) -> bool {
    if c.len() == 1 && c[0] is Text {
        content == Json::Str(c[0]->Text_0.text)
    } else {
        content matches Json::Arr(bs) && bs.len() == c.len() && forall|k: int|
            0 <= k < bs.len() ==> match c[k] {
                ToolResultContentView::Text(t) => says_text(#[trigger] bs[k], t.text),
                ToolResultContentView::Image(img) => says_image(bs[k], img.mime_type, img.data),
            }
    }
}

/// Whether a block is one of an assistant message. A thought goes with its signature; one without a
/// signature is sent as text, and of a redacted one only the signature.
pub open spec fn says_block(j: Json, c: AssistantContentView) -> bool {
    match c {
        AssistantContentView::Text(t) => says_text(j, t.text),
        AssistantContentView::Thinking(t) => {
            let signature = match t.thinking_signature {
                Some(s) => s,
                None => ""@,
            };
            if t.redacted {
                has_text(j, "type"@, "redacted_thinking"@) && has_text(j, "data"@, signature)
            } else if signature.len() > 0 {
                has_text(j, "type"@, "thinking"@) && has_text(j, "thinking"@, t.thinking)
                    && has_text(j, "signature"@, signature)
            } else {
                says_text(j, t.thinking)
            }
        },
        AssistantContentView::ToolCall(tc) => has_text(j, "type"@, "tool_use"@) && has_text(
            j,
            "id"@,
            tc.id,
        ) && has_text(j, "name"@, tc.name) && crate::json::field(j, "input"@) == Some(
            tc.arguments.value,
        ),
    }
}

/// Whether a block of an assistant message says anything.
pub open spec fn says_something(c: AssistantContentView) -> bool {
    match c {
        AssistantContentView::Text(t) => t.text.len() > 0,
        AssistantContentView::Thinking(t) => t.redacted || t.thinking.len() > 0,
        AssistantContentView::ToolCall(_) => true,
    }
}

/// Whether a message is sent: not an info message, nor a response that says nothing.
pub open spec fn is_sent(m: MessageView) -> bool {
    match m {
        MessageView::Info(_) => false,
        MessageView::Assistant(a) => a.content.filter(
            |c: AssistantContentView| says_something(c),
        ).len() > 0,
        _ => true,
    }
}

/// Whether a message on the wire says what a message of the history does.
pub open spec fn says(j: Json, m: MessageView) -> bool {
    match m {
        MessageView::User(u) => has_text(j, "role"@, "user"@) && (
        crate::json::field(j, "content"@) matches Some(c) && says_user(c, u.content)),
        MessageView::Assistant(a) => {
            let kept = a.content.filter(|c: AssistantContentView| says_something(c));
            has_text(j, "role"@, "assistant"@) && (
            crate::json::field(j, "content"@) matches Some(Json::Arr(bs)) && bs.len() == kept.len()
                && forall|k: int|
                0 <= k < bs.len() ==> says_block(#[trigger] bs[k], kept[k]))
        },
        MessageView::ToolResult(tr) => has_text(j, "role"@, "user"@) && (
        crate::json::field(j, "content"@) matches Some(Json::Arr(bs)) && bs.len() == 1 && has_text(
            bs[0],
            "type"@,
            "tool_result"@,
        ) && has_text(bs[0], "tool_use_id"@, tr.tool_call_id) && crate::json::field(
            bs[0],
            "is_error"@,
        ) == Some(Json::Bool(tr.is_error)) && (
        crate::json::field(bs[0], "content"@) matches Some(c) && says_result(c, tr.content))),
        MessageView::CompactionSummary(cs) => {
            let text = "[Context compacted — "@ + crate::text::decimal(cs.tokens_before as nat)
                + " tokens before compaction]\n\n"@ + cs.summary;
            has_text(j, "role"@, "user"@) && (
            crate::json::field(j, "content"@) matches Some(c) && (c == Json::Str(text) || (
            c matches Json::Arr(bs) && bs.len() == 1 && says_text(bs[0], text))))
        },
        MessageView::Info(_) => false,
    }
}

proof fn lemma_text_block(text: Seq<char>)
    ensures
        says_text(text_block(text), text),
        crate::json::field(text_block(text), "cache_control"@) is None,
{
    reveal_strlit("type");
    reveal_strlit("text");
    reveal_strlit("cache_control");
    assert("type"@.len() == 4 && "text"@.len() == 4 && "type"@[1] != "text"@[1]);
    assert("cache_control"@.len() == 13);
}

proof fn lemma_image_block(mime_type: Seq<char>, data: Seq<char>)
    ensures
        says_image(image_block(mime_type, data), mime_type, data),
        crate::json::field(image_block(mime_type, data), "cache_control"@) is None,
{
    reveal_strlit("type");
    reveal_strlit("source");
    reveal_strlit("media_type");
    reveal_strlit("data");
    reveal_strlit("cache_control");
    assert("type"@.len() == 4 && "source"@.len() == 6 && "media_type"@.len() == 10);
    assert("data"@.len() == 4 && "type"@[0] != "data"@[0]);
    assert("cache_control"@.len() == 13);
}

proof fn lemma_assistant_block(c: AssistantContentView)
    ensures
        says_something(c) <==> assistant_block(c) is Some,
        assistant_block(c) matches Some(j) ==> says_block(j, c) && crate::json::field(
            j,
            "cache_control"@,
        ) is None,
{
    reveal_strlit("");
    reveal_strlit("type");
    reveal_strlit("data");
    reveal_strlit("thinking");
    reveal_strlit("signature");
    reveal_strlit("id");
    reveal_strlit("name");
    reveal_strlit("input");
    reveal_strlit("cache_control");
    assert("type"@.len() == 4 && "data"@.len() == 4 && "name"@.len() == 4);
    assert("type"@[0] != "data"@[0] && "type"@[0] != "name"@[0] && "data"@[0] != "name"@[0]);
    assert("thinking"@.len() == 8 && "signature"@.len() == 9 && "id"@.len() == 2);
    assert("input"@.len() == 5 && "cache_control"@.len() == 13);
    match c {
        AssistantContentView::Text(t) => lemma_text_block(t.text),
        AssistantContentView::Thinking(t) => lemma_text_block(t.thinking),
        AssistantContentView::ToolCall(_) => {},
    }
}

proof fn lemma_assistant_blocks(content: Seq<AssistantContentView>)
    ensures
        ({
            let kept = content.filter(|c: AssistantContentView| says_something(c));
            let bs = assistant_blocks(content);
            &&& bs.len() == kept.len()
            &&& forall|k: int|
                0 <= k < bs.len() ==> says_block(#[trigger] bs[k], kept[k]) && crate::json::field(
                    bs[k],
                    "cache_control"@,
                ) is None
        }),
    decreases content.len(),
{
    reveal(Seq::filter);
    if content.len() > 0 {
        let init = content.drop_last();
        assert(content.subrange(0, content.len() - 1) =~= init);
        lemma_assistant_blocks(init);
        lemma_assistant_block(content.last());
    }
}

/// A message on the wire without a mark says what the message does.
proof fn lemma_says(m: MessageView)
    ensures
        is_sent(m) <==> api_message(m) is Some,
        api_message(m) matches Some(w) ==> says(message_json(w), m),
{
    reveal_strlit("role");
    reveal_strlit("content");
    reveal_strlit("type");
    reveal_strlit("tool_use_id");
    reveal_strlit("is_error");
    assert("role"@.len() == 4 && "content"@.len() == 7);
    assert("type"@.len() == 4 && "tool_use_id"@.len() == 11 && "is_error"@.len() == 8);
    match m {
        MessageView::User(u) => {
            let bs = Seq::new(u.content.len(), |i: int| user_block(u.content[i]));
            assert forall|k: int| 0 <= k < bs.len() implies match u.content[k] {
                UserContentView::Text(t) => says_text(#[trigger] bs[k], t.text),
                UserContentView::Image(img) => says_image(bs[k], img.mime_type, img.data),
            } by {
                match u.content[k] {
                    UserContentView::Text(t) => lemma_text_block(t.text),
                    UserContentView::Image(img) => lemma_image_block(img.mime_type, img.data),
                }
            }
        },
        MessageView::Assistant(a) => {
            lemma_assistant_blocks(a.content);
        },
        MessageView::ToolResult(tr) => {
            let bs = Seq::new(tr.content.len(), |i: int| result_block(tr.content[i]));
            assert forall|k: int| 0 <= k < bs.len() implies match tr.content[k] {
                ToolResultContentView::Text(t) => says_text(#[trigger] bs[k], t.text),
                ToolResultContentView::Image(img) => says_image(bs[k], img.mime_type, img.data),
            } by {
                match tr.content[k] {
                    ToolResultContentView::Text(t) => lemma_text_block(t.text),
                    ToolResultContentView::Image(img) => lemma_image_block(
                        img.mime_type,
                        img.data,
                    ),
                }
            }
        },
        _ => {},
    }
}

/// A mark adds to a block and changes nothing that it says.
proof fn lemma_marked_block(m: Map<Seq<char>, Json>, key: Seq<char>)
    ensures
        key != "cache_control"@ ==> crate::json::field(
            Json::Obj(m.insert("cache_control"@, ephemeral_json())),
            key,
        ) == crate::json::field(Json::Obj(m), key),
        is_marked(Json::Obj(m.insert("cache_control"@, ephemeral_json()))),
{
}

/// A message of the user with a mark says the same.
proof fn lemma_says_marked(w: ApiMessageView, m: MessageView)
    requires
        api_message(m) == Some(w),
        !(m is Assistant),
    ensures
        says(
            message_json(ApiMessageView { content: with_breakpoint(w.content), ..w }),
            m,
        ),
        with_breakpoint(w.content) matches Json::Arr(bs) && (bs.len() > 0 ==> is_marked(
            bs.last(),
        )),
{
    lemma_says(m);
    reveal_strlit("role");
    reveal_strlit("content");
    reveal_strlit("type");
    reveal_strlit("text");
    reveal_strlit("tool_use_id");
    reveal_strlit("is_error");
    reveal_strlit("source");
    reveal_strlit("cache_control");
    assert("role"@.len() == 4 && "content"@.len() == 7 && "source"@.len() == 6);
    assert("type"@.len() == 4 && "tool_use_id"@.len() == 11 && "is_error"@.len() == 8);
    assert("text"@.len() == 4 && "type"@[1] != "text"@[1] && "cache_control"@.len() == 13);
    match m {
        MessageView::User(u) => {
            if !(u.content.len() == 1 && u.content[0] is Text) {
                let bs = Seq::new(u.content.len(), |i: int| user_block(u.content[i]));
                assert(w.content == Json::Arr(bs));
                if bs.len() > 0 {
                    let last = bs.len() - 1;
                    let entries = bs[last]->Obj_0;
                    assert(bs[last] == Json::Obj(entries));
                    let marked = bs.update(
                        last,
                        Json::Obj(entries.insert("cache_control"@, ephemeral_json())),
                    );
                    assert(with_breakpoint(w.content) == Json::Arr(marked));
                    assert forall|k: int| 0 <= k < marked.len() implies match u.content[k] {
                        UserContentView::Text(t) => says_text(#[trigger] marked[k], t.text),
                        UserContentView::Image(img) => says_image(
                            marked[k],
                            img.mime_type,
                            img.data,
                        ),
                    } by {
                        match u.content[k] {
                            UserContentView::Text(t) => lemma_text_block(t.text),
                            UserContentView::Image(img) => lemma_image_block(
                                img.mime_type,
                                img.data,
                            ),
                        }
                    }
                }
            }
        },
        _ => {},
    }
}

proof fn lemma_api_messages(messages: Seq<MessageView>)
    requires
        forall|i: int| 0 <= i < messages.len() ==> is_sent(#[trigger] messages[i]),
    ensures
        api_messages(messages).len() == messages.len(),
        forall|i: int|
            0 <= i < messages.len() ==> api_message(#[trigger] messages[i]) == Some(
                api_messages(messages)[i],
            ),
    decreases messages.len(),
{
    if messages.len() > 0 {
        let init = messages.subrange(0, messages.len() - 1);
        assert forall|i: int| 0 <= i < init.len() implies is_sent(#[trigger] init[i]) by {
            assert(init[i] == messages[i]);
        }
        lemma_api_messages(init);
        lemma_says(messages[messages.len() - 1]);
        assert forall|i: int| 0 <= i < messages.len() implies api_message(#[trigger] messages[i])
            == Some(api_messages(messages)[i]) by {
            if i < init.len() {
                assert(init[i] == messages[i]);
            }
        }
    }
}

proof fn lemma_api_messages_add(a: Seq<MessageView>, b: Seq<MessageView>)
    ensures
        api_messages(a + b) == api_messages(a) + api_messages(b),
    decreases b.len(),
{
    let all = a + b;
    if b.len() == 0 {
        assert(all =~= a);
        assert(api_messages(a) + api_messages(b) =~= api_messages(a));
    } else {
        let init = b.subrange(0, b.len() - 1);
        assert(all.subrange(0, all.len() - 1) =~= a + init);
        lemma_api_messages_add(a, init);
        assert(api_messages(all) =~= api_messages(a) + api_messages(b));
    }
}

/// An info message, or a response that says nothing, is not sent: the request is the one without it.
pub proof fn law_only_what_is_said_travels(
    model: ModelView,
    context: ContextView,
    options: StreamOptionsView,
    at: int,
)
    requires
        0 <= at < context.messages.len(),
        !is_sent(context.messages[at]),
    ensures
        request_of(model, context, options) == request_of(
            model,
            (ContextView { messages: context.messages.remove(at), ..context }),
            options,
        ),
{
    let all = context.messages;
    let a = all.subrange(0, at);
    let m = all[at];
    let b = all.subrange(at + 1, all.len() as int);
    assert(all =~= a + seq![m] + b);
    assert(all.remove(at) =~= a + b);
    lemma_api_messages_add(a + seq![m], b);
    lemma_api_messages_add(a, seq![m]);
    lemma_api_messages_add(a, b);
    lemma_says(m);
    assert(seq![m].subrange(0, 0) =~= Seq::empty());
    assert(api_messages(Seq::<MessageView>::empty()) =~= Seq::empty());
    assert(api_messages(seq![m]) =~= Seq::empty());
    assert(api_messages(a) + Seq::<ApiMessageView>::empty() =~= api_messages(a));
}

/// The entries of a request on the wire.
proof fn lemma_request_fields(r: MessagesRequestView)
    ensures
        has_text(request_json(r), "model"@, r.model),
        crate::json::field(request_json(r), "messages"@) == Some(
            Json::Arr(Seq::new(r.messages.len(), |i: int| message_json(r.messages[i]))),
        ),
        crate::json::field(request_json(r), "max_tokens"@) == Some(Json::Int(r.max_tokens as int)),
        crate::json::field(request_json(r), "stream"@) == Some(Json::Bool(r.stream)),
        crate::json::field(request_json(r), "system"@) == match r.system {
            Some(bs) => Some(Json::Arr(Seq::new(bs.len(), |i: int| system_json(bs[i])))),
            None => None,
        },
        crate::json::field(request_json(r), "tools"@) == match r.tools {
            Some(ts) => Some(Json::Arr(Seq::new(ts.len(), |i: int| tool_json(ts[i])))),
            None => None,
        },
        crate::json::field(request_json(r), "thinking"@) == match r.thinking {
            Some(t) => Some(thinking_json(t)),
            None => None,
        },
        crate::json::field(request_json(r), "output_config"@) == match r.output_config {
            Some(o) => Some(Json::Obj(map!["effort"@ => Json::Str(o.effort)])),
            None => None,
        },
{
    reveal_strlit("model");
    reveal_strlit("messages");
    reveal_strlit("max_tokens");
    reveal_strlit("stream");
    reveal_strlit("system");
    reveal_strlit("tools");
    reveal_strlit("thinking");
    reveal_strlit("output_config");
    assert("model"@.len() == 5 && "tools"@.len() == 5 && "model"@[0] != "tools"@[0]);
    assert("messages"@.len() == 8 && "thinking"@.len() == 8 && "messages"@[0] != "thinking"@[0]);
    assert("stream"@.len() == 6 && "system"@.len() == 6 && "stream"@[1] != "system"@[1]);
    assert("max_tokens"@.len() == 10 && "output_config"@.len() == 13);
}

/// The messages of a request say what the history does, one for each and in order: what the user, a
/// tool or a summary says as the user's, what the assistant says as the assistant's, with all that is
/// in it. The last message of the user is marked, on its last block, as the place up to which the
/// prompt is cached.
pub proof fn law_conversation(
    model: ModelView,
    context: ContextView,
    options: StreamOptionsView,
    sent: Seq<Json>,
)
    requires
        forall|i: int|
            0 <= i < context.messages.len() ==> is_sent(#[trigger] context.messages[i]),
        crate::json::field(request_json(request_of(model, context, options)), "messages"@) == Some(
            Json::Arr(sent),
        ),
    ensures
        sent.len() == context.messages.len(),
        forall|i: int|
            0 <= i < context.messages.len() ==> says(sent[i], #[trigger] context.messages[i]),
        forall|i: int|
            #![trigger context.messages[i]]
            0 <= i < context.messages.len() && !(context.messages[i] is Assistant) && (forall|j: int|
                i < j < context.messages.len() ==> #[trigger] context.messages[j] is Assistant)
                ==> (crate::json::field(sent[i], "content"@) matches Some(Json::Arr(bs)) && (
            bs.len() > 0 ==> is_marked(bs.last()))),
{
    let r = request_of(model, context, options);
    lemma_request_fields(r);
    lemma_api_messages(context.messages);
    let plain = api_messages(context.messages);
    let last = last_user(plain);
    law_last_user(plain);
    reveal_strlit("user");
    reveal_strlit("assistant");
    assert("user"@.len() == 4 && "assistant"@.len() == 9);
    assert forall|i: int| 0 <= i < context.messages.len() implies says(
        sent[i],
        #[trigger] context.messages[i],
    ) by {
        let m = context.messages[i];
        lemma_says(m);
        law_breakpoint_touches_last_user(plain, i);
        assert(api_message(m) == Some(plain[i]));
        if i == last {
            assert(plain[i].role == "user"@);
            lemma_says_marked(plain[i], m);
        }
    }
    assert forall|i: int|
        #![trigger context.messages[i]]
        0 <= i < context.messages.len() && !(context.messages[i] is Assistant) && (forall|j: int|
            i < j < context.messages.len() ==> #[trigger] context.messages[j] is Assistant) implies (
    crate::json::field(sent[i], "content"@) matches Some(Json::Arr(bs)) && (bs.len() > 0
        ==> is_marked(bs.last()))) by {
        let m = context.messages[i];
        assert(api_message(m) == Some(plain[i]));
        assert(plain[i].role == "user"@);
        if last > i {
            assert(context.messages[last] is Assistant);
            assert(api_message(context.messages[last]) == Some(plain[last]));
            assert(false);
        }
        assert(last == i);
        lemma_says_marked(plain[i], m);
        reveal_strlit("role");
        reveal_strlit("content");
        assert("role"@.len() == 4 && "content"@.len() == 7);
    }
}

/// Whether a model decides itself how much to think: Opus 4.6 and 4.7, and Sonnet 4.6.
pub open spec fn thinks_by_itself(id: Seq<char>) -> bool {
    exists|version: Seq<char>| #[trigger]
        crate::text::contains(id, version) && (version == "opus-4-6"@ || version == "opus-4.6"@
            || version == "opus-4-7"@ || version == "opus-4.7"@ || version == "sonnet-4-6"@
            || version == "sonnet-4.6"@)
}

/// The request names the model, asks for a stream, holds the system prompt and every tool as it is
/// described, and limits the answer to what the options say, or else to a third of what the model can
/// give but no less than 1024. Thinking is asked for where the model has it and the options want it,
/// in the way of the model.
pub proof fn law_settings(model: ModelView, context: ContextView, options: StreamOptionsView)
    ensures
        ({
            let j = request_json(request_of(model, context, options));
            &&& has_text(j, "model"@, model.id)
            &&& crate::json::field(j, "stream"@) == Some(Json::Bool(true))
            &&& crate::json::field(j, "max_tokens"@) matches Some(Json::Int(n)) && match options.max_tokens {
                Some(limit) => n == limit,
                None => n >= 1024 && 3 * n <= (if model.max_tokens >= 3072 {
                    model.max_tokens as int
                } else {
                    3072int
                }) < 3 * (n + 1),
            }
            &&& match context.system_prompt {
                Some(prompt) => crate::json::field(j, "system"@) matches Some(Json::Arr(bs))
                    && bs.len() == 1 && says_text(bs[0], prompt) && is_marked(bs[0]),
                None => crate::json::field(j, "system"@) is None,
            }
            &&& if context.tools.len() == 0 {
                crate::json::field(j, "tools"@) is None
            } else {
                &&& crate::json::field(j, "tools"@) matches Some(Json::Arr(ts))
                &&& ts.len() == context.tools.len()
                &&& forall|k: int|
                    0 <= k < ts.len() ==> {
                        &&& has_text(#[trigger] ts[k], "name"@, context.tools[k].name)
                        &&& has_text(ts[k], "description"@, context.tools[k].description)
                        &&& crate::json::field(ts[k], "input_schema"@) == Some(
                            context.tools[k].parameters.value,
                        )
                        &&& is_marked(ts[k]) <==> k == ts.len() - 1
                    }
            }
            &&& crate::json::field(j, "thinking"@) is Some <==> model.thinking
                == ThinkingStyle::Anthropic && (options.thinking_enabled == Some(true) || (
            options.thinking_enabled is None && (options.thinking_budget is Some || (
            thinks_by_itself(model.id) && options.thinking_effort is Some))))
            &&& crate::json::field(j, "thinking"@) matches Some(t) ==> {
                &&& if thinks_by_itself(model.id) {
                    has_text(t, "type"@, "adaptive"@) && crate::json::field(
                        t,
                        "budget_tokens"@,
                    ) is None
                } else {
                    has_text(t, "type"@, "enabled"@) && crate::json::field(t, "budget_tokens"@)
                        == Some(
                        Json::Int(
                            match options.thinking_budget {
                                Some(b) => b as int,
                                None => 1024,
                            },
                        ),
                    )
                }
                &&& has_text(
                    t,
                    "display"@,
                    if options.thinking_display == Some(ThinkingDisplay::Omitted) {
                        "omitted"@
                    } else {
                        "summarized"@
                    },
                )
            }
            &&& crate::json::field(j, "output_config"@) is Some <==> crate::json::field(
                j,
                "thinking"@,
            ) is Some && thinks_by_itself(model.id) && options.thinking_effort is Some
            &&& crate::json::field(j, "output_config"@) matches Some(o) ==> match options.thinking_effort->0 {
                ThinkingEffort::Low => has_text(o, "effort"@, "low"@),
                ThinkingEffort::Medium => has_text(o, "effort"@, "medium"@),
                ThinkingEffort::High => has_text(o, "effort"@, "high"@),
                ThinkingEffort::Max => has_text(o, "effort"@, "max"@),
                ThinkingEffort::XHigh => {
                    let old = crate::text::contains(model.id, "opus-4-6"@) || crate::text::contains(
                        model.id,
                        "opus-4.6"@,
                    );
                    let new = crate::text::contains(model.id, "opus-4-7"@) || crate::text::contains(
                        model.id,
                        "opus-4.7"@,
                    );
                    has_text(
                        o,
                        "effort"@,
                        if old {
                            "max"@
                        } else if new {
                            "xhigh"@
                        } else {
                            "high"@
                        },
                    )
                },
            }
        }),
{
    let r = request_of(model, context, options);
    let j = request_json(r);
    lemma_request_fields(r);
    reveal_strlit("type");
    reveal_strlit("text");
    reveal_strlit("cache_control");
    reveal_strlit("name");
    reveal_strlit("description");
    reveal_strlit("input_schema");
    reveal_strlit("eager_input_streaming");
    reveal_strlit("budget_tokens");
    reveal_strlit("display");
    assert("type"@.len() == 4 && "text"@.len() == 4 && "type"@[1] != "text"@[1]);
    assert("cache_control"@.len() == 13 && "name"@.len() == 4 && "description"@.len() == 11);
    assert("input_schema"@.len() == 12 && "eager_input_streaming"@.len() == 21);
    assert("budget_tokens"@.len() == 13 && "display"@.len() == 7);
    assert(adaptive(model.id) <==> thinks_by_itself(model.id)) by {
        if adaptive(model.id) {
            assert(crate::text::contains(model.id, "opus-4-6"@) || crate::text::contains(
                model.id,
                "opus-4.6"@,
            ) || crate::text::contains(model.id, "opus-4-7"@) || crate::text::contains(
                model.id,
                "opus-4.7"@,
            ) || crate::text::contains(model.id, "sonnet-4-6"@) || crate::text::contains(
                model.id,
                "sonnet-4.6"@,
            ));
        }
    }
    if let Some(prompt) = context.system_prompt {
        let bs = r.system->0;
        let sent = Seq::new(bs.len(), |i: int| system_json(bs[i]));
        assert(crate::json::field(j, "system"@) == Some(Json::Arr(sent)));
        assert(says_text(sent[0], prompt));
        assert(is_marked(sent[0]));
    }
    if context.tools.len() > 0 {
        let defs = tool_defs(context.tools);
        let ts = Seq::new(defs.len(), |i: int| tool_json(defs[i]));
        assert(crate::json::field(j, "tools"@) == Some(Json::Arr(ts)));
        assert forall|k: int| 0 <= k < ts.len() implies {
            &&& has_text(#[trigger] ts[k], "name"@, context.tools[k].name)
            &&& has_text(ts[k], "description"@, context.tools[k].description)
            &&& crate::json::field(ts[k], "input_schema"@) == Some(
                context.tools[k].parameters.value,
            )
            &&& is_marked(ts[k]) <==> k == ts.len() - 1
        } by {
            assert(ts[k] == tool_json(defs[k]));
        }
    }
}

/// The wire names of a request.
proof fn lemma_wire_names()
    ensures
        "model"@ != "tools"@,
        "messages"@ != "thinking"@,
        "stream"@ != "system"@,
        "model"@.len() == 5,
        "tools"@.len() == 5,
        "messages"@.len() == 8,
        "thinking"@.len() == 8,
        "stream"@.len() == 6,
        "system"@.len() == 6,
        "max_tokens"@.len() == 10,
        "output_config"@.len() == 13,
        "role"@.len() == 4,
        "content"@.len() == 7,
        "name"@.len() == 4,
        "type"@.len() == 4,
        "text"@.len() == 4,
        "type"@ != "text"@,
        "description"@.len() == 11,
        "input_schema"@.len() == 12,
        "eager_input_streaming"@.len() == 21,
        "cache_control"@.len() == 13,
        "budget_tokens"@.len() == 13,
        "display"@.len() == 7,
{
    reveal_strlit("model");
    reveal_strlit("tools");
    reveal_strlit("messages");
    reveal_strlit("thinking");
    reveal_strlit("stream");
    reveal_strlit("system");
    reveal_strlit("max_tokens");
    reveal_strlit("output_config");
    reveal_strlit("role");
    reveal_strlit("content");
    reveal_strlit("name");
    reveal_strlit("type");
    reveal_strlit("text");
    reveal_strlit("description");
    reveal_strlit("input_schema");
    reveal_strlit("eager_input_streaming");
    reveal_strlit("cache_control");
    reveal_strlit("budget_tokens");
    reveal_strlit("display");
    assert("model"@[0] != "tools"@[0]);
    assert("messages"@[0] != "thinking"@[0]);
    assert("stream"@[1] != "system"@[1]);
    assert("type"@[1] != "text"@[1]);
}

/// Everything that a request holds goes over the wire under its own name, and what it does not hold is
/// left out.
pub proof fn law_request_on_the_wire(r: MessagesRequestView)
    ensures
        ({
            let j = request_json(r);
            &&& crate::json::field(j, "model"@) == Some(Json::Str(r.model))
            &&& crate::json::field(j, "max_tokens"@) == Some(Json::Int(r.max_tokens as int))
            &&& crate::json::field(j, "stream"@) == Some(Json::Bool(r.stream))
            &&& crate::json::field(j, "messages"@) matches Some(Json::Arr(ms)) && ms.len()
                == r.messages.len() && forall|i: int|
                0 <= i < ms.len() ==> {
                    &&& crate::json::field(#[trigger] ms[i], "role"@) == Some(
                        Json::Str(r.messages[i].role),
                    )
                    &&& crate::json::field(ms[i], "content"@) == Some(r.messages[i].content)
                }
            &&& r.system is None ==> crate::json::field(j, "system"@) is None
            &&& r.system matches Some(bs) ==> (crate::json::field(j, "system"@) matches Some(
                Json::Arr(js),
            ) && js.len() == bs.len() && forall|i: int|
                0 <= i < js.len() ==> crate::json::field(#[trigger] js[i], "text"@) == Some(
                    Json::Str(bs[i].text),
                ))
            &&& r.tools is None ==> crate::json::field(j, "tools"@) is None
            &&& r.tools matches Some(ts) ==> (crate::json::field(j, "tools"@) matches Some(
                Json::Arr(js),
            ) && js.len() == ts.len() && forall|i: int|
                0 <= i < js.len() ==> {
                    &&& crate::json::field(#[trigger] js[i], "name"@) == Some(Json::Str(ts[i].name))
                    &&& crate::json::field(js[i], "description"@) == Some(
                        Json::Str(ts[i].description),
                    )
                    &&& crate::json::field(js[i], "input_schema"@) == Some(ts[i].input_schema)
                    &&& crate::json::field(js[i], "cache_control"@) is Some
                        <==> ts[i].cache_control is Some
                })
            &&& crate::json::field(j, "thinking"@) is Some <==> r.thinking is Some
            &&& r.thinking matches Some(t) ==> {
                let tj = crate::json::field(j, "thinking"@)->0;
                &&& crate::json::field(tj, "type"@) == Some(Json::Str(t.thinking_type))
                &&& t.budget_tokens matches Some(n) ==> crate::json::field(tj, "budget_tokens"@)
                    == Some(Json::Int(n as int))
                &&& t.budget_tokens is None ==> crate::json::field(tj, "budget_tokens"@) is None
            }
            &&& crate::json::field(j, "output_config"@) is Some <==> r.output_config is Some
            &&& r.output_config matches Some(o) ==> crate::json::field(
                crate::json::field(j, "output_config"@)->0,
                "effort"@,
            ) == Some(Json::Str(o.effort))
        }),
{
    lemma_wire_names();
}

/// Every tool is offered as it is described, in order; the cache ends with the last of them.
pub proof fn law_tools_travel(tools: Seq<ToolView>, i: int)
    requires
        0 <= i < tools.len(),
    ensures
        tool_defs(tools).len() == tools.len(),
        tool_defs(tools)[i].name == tools[i].name,
        tool_defs(tools)[i].description == tools[i].description,
        tool_defs(tools)[i].input_schema == tools[i].parameters.value,
        tool_defs(tools)[i].cache_control is Some <==> i == tools.len() - 1,
{
}

} // verus!
