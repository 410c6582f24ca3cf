//! Tools: what the agent can do in a workspace.

pub mod bash;
pub mod diagnostics_scan;
pub mod edit;
pub mod get_function;
pub mod line_hash;
pub mod read;
pub mod skeleton;
pub mod tree_sitter_support;
pub mod write;

use vstd::prelude::*;

use crate::cancel::CancelToken;
use crate::json::{
    array_value, empty_object_value, string_value, u64_value, with_entry, with_str, Json,
};
use crate::path::join;
use crate::text::str_eq;
use crate::time::timestamp_ms;
use crate::types::{
    ImageContent, ImageContentView, TextContent, Tool, ToolCall, ToolCallView, ToolResultContent,
    ToolResultContentView, ToolResultMessage, ToolResultMessageView, ToolView,
};

verus! {

/// What a tool returns.
#[derive(Debug, PartialEq)]
pub struct ToolOutput {
    pub content: Vec<ToolResultContent>,
    pub is_error: bool,
    pub summary: Option<String>,
}

/// What a [`ToolOutput`] holds.
#[verifier::ext_equal]
pub struct ToolOutputView {
    pub content: Seq<ToolResultContentView>,
    pub is_error: bool,
    pub summary: Option<Seq<char>>,
}

impl View for ToolOutput {
    type V = ToolOutputView;

    open spec fn view(&self) -> ToolOutputView {
        ToolOutputView {
            content: self.content.deep_view(),
            is_error: self.is_error,
            summary: self.summary.deep_view(),
        }
    }
}

impl DeepView for ToolOutput {
    type V = ToolOutputView;

    open spec fn deep_view(&self) -> ToolOutputView {
        self@
    }
}

impl Clone for ToolOutput {
    fn clone(&self) -> (r: Self)
        ensures
            r@ == self@,
    {
        let r = ToolOutput {
            content: self.content.clone(),
            is_error: self.is_error,
            summary: self.summary.clone(),
        };
        assert(r.content.deep_view() =~= self.content.deep_view());
        r
    }
}

/// A path as a tool sees it: relative paths are inside the working directory.
pub fn resolve_path(cwd: &str, path: &str) -> (r: String)
    ensures
        r@ == crate::path::joined(cwd@, path@),
{
    join(cwd, path)
}

/// An output of one text.
pub open spec fn text_output(text: Seq<char>, is_error: bool) -> ToolOutputView {
    ToolOutputView {
        content: seq![ToolResultContentView::Text(crate::types::plain_text(text))],
        is_error,
        summary: None,
    }
}

/// An output with a summary.
pub open spec fn summarized(o: ToolOutputView, summary: Seq<char>) -> ToolOutputView {
    ToolOutputView { summary: Some(summary), ..o }
}

impl ToolOutput {
    /// An output of one text.
    fn one(text: &str, is_error: bool) -> (r: Self)
        ensures
            r@ == text_output(text@, is_error),
    {
        let content: Vec<ToolResultContent> = vec![
            ToolResultContent::Text(TextContent::plain(text.to_owned())),
        ];
        let r = ToolOutput { content, is_error, summary: None };
        assert(r@.content =~= text_output(text@, is_error).content);
        r
    }

    /// A successful output.
    pub fn text(text: &str) -> (r: Self)
        ensures
            r@ == text_output(text@, false),
    {
        ToolOutput::one(text, false)
    }

    /// A failure.
    pub fn error(text: &str) -> (r: Self)
        ensures
            r@ == text_output(text@, true),
    {
        ToolOutput::one(text, true)
    }

    /// A successful output of one image.
    pub fn image(data: String, mime_type: String) -> (r: Self)
        ensures
            r@ == (ToolOutputView {
                content: seq![
                    ToolResultContentView::Image(
                        ImageContentView { data: data@, mime_type: mime_type@ },
                    ),
                ],
                is_error: false,
                summary: None,
            }),
    {
        let ghost view = ImageContentView { data: data@, mime_type: mime_type@ };
        let content: Vec<ToolResultContent> = vec![
            ToolResultContent::Image(ImageContent { data, mime_type }),
        ];
        let r = ToolOutput { content, is_error: false, summary: None };
        assert(r@.content =~= seq![ToolResultContentView::Image(view)]);
        r
    }

    /// The output with one more image.
    pub fn with_image(self, data: String, mime_type: String) -> (r: Self)
        ensures
            r@ == (ToolOutputView {
                content: self@.content.push(
                    ToolResultContentView::Image(
                        ImageContentView { data: data@, mime_type: mime_type@ },
                    ),
                ),
                ..self@
            }),
    {
        let ghost before = self@.content;
        let mut content = self.content;
        let image = ToolResultContent::Image(ImageContent { data, mime_type });
        content.push(image);
        assert(content.deep_view() =~= before.push(image@));
        ToolOutput { content, is_error: self.is_error, summary: self.summary }
    }

    /// The output with a summary.
    pub fn with_summary(self, summary: &str) -> (r: Self)
        ensures
            r@ == summarized(self@, summary@),
    {
        ToolOutput {
            content: self.content,
            is_error: self.is_error,
            summary: Some(summary.to_owned()),
        }
    }
}

// ---------------------------------------------------------------------------
// Dispatch
// ---------------------------------------------------------------------------

/// What becomes of a tool call.
#[derive(Debug)]
pub enum Dispatch {
    /// It is answered without running a tool.
    Answer(ToolResultMessage),
    /// The tool at this position is run.
    Run(usize),
}

/// The first tool with a name, or the number of tools.
pub open spec fn tool_position(tools: Seq<ToolView>, name: Seq<char>) -> int
    decreases tools.len(),
{
    if tools.len() == 0 {
        0
    } else if tools[0].name == name {
        0
    } else {
        1 + tool_position(tools.subrange(1, tools.len() as int), name)
    }
}

/// Whether the message answers the call with the output.
pub open spec fn is_answer(
    r: ToolResultMessageView,
    call: ToolCallView,
    output: ToolOutputView,
) -> bool {
    r == (ToolResultMessageView {
        tool_call_id: call.id,
        tool_name: call.name,
        content: output.content,
        details: None,
        is_error: output.is_error,
        timestamp: r.timestamp,
        duration_ms: None,
        summary: output.summary,
        post_persist_actions: seq![],
    })
}

/// Answer a call with what its tool returned, stamped with the current time.
pub fn answer_call(tool_call: &ToolCall, output: ToolOutput) -> (r: ToolResultMessage)
    ensures
        is_answer(r@, tool_call@, output@),
{
    let r = ToolResultMessage {
        tool_call_id: tool_call.id.clone(),
        tool_name: tool_call.name.clone(),
        content: output.content,
        details: None,
        is_error: output.is_error,
        timestamp: timestamp_ms(),
        duration_ms: None,
        summary: output.summary,
        post_persist_actions: Vec::new(),
    };
    assert(r@.post_persist_actions =~= seq![]);
    r
}

/// Whether this becomes of a tool call.
pub open spec fn dispatched(
    r: Dispatch,
    tools: Seq<ToolView>,
    call: ToolCallView,
    cancelled: bool,
) -> bool {
    let at = tool_position(tools, call.name);
    if cancelled {
        &&& r is Answer
        &&& is_answer(
            r->Answer_0@,
            call,
            text_output("error: cancelled before execution"@, true),
        )
    } else if at < tools.len() {
        r is Run && r->Run_0 == at
    } else {
        &&& r is Answer
        &&& is_answer(r->Answer_0@, call, text_output("unknown tool: "@ + call.name, true))
    }
}

/// What becomes of a tool call: a cancelled or unknown one is answered with an error, else the
/// first tool of that name is run.
pub fn execute_tool(tools: &[Tool], tool_call: &ToolCall, cancelled: bool) -> (r: Dispatch)
    ensures
        dispatched(r, tools.deep_view(), tool_call@, cancelled),
{
    if cancelled {
        return Dispatch::Answer(
            answer_call(tool_call, ToolOutput::error("error: cancelled before execution")),
        );
    }
    let ghost all = tools.deep_view();
    let mut i: usize = 0;
    assert(all.subrange(0, all.len() as int) =~= all);
    while i < tools.len()
        invariant
            i <= tools.len(),
            all == tools.deep_view(),
            tool_position(all, tool_call@.name) == i + tool_position(
                all.subrange(i as int, all.len() as int),
                tool_call@.name,
            ),
            !cancelled,
        decreases tools.len() - i,
    {
        let ghost p = all.subrange(i as int, all.len() as int);
        assert(p[0] == tools@[i as int]@);
        assert(p.subrange(1, p.len() as int) =~= all.subrange(i + 1, all.len() as int));
        if str_eq(tools[i].name.as_str(), tool_call.name.as_str()) {
            return Dispatch::Run(i);
        }
        i = i + 1;
    }
    let mut text: String = "unknown tool: ".to_owned();
    text.append(tool_call.name.as_str());
    Dispatch::Answer(answer_call(tool_call, ToolOutput::error(text.as_str())))
}

/// A tool, with what executes it and, if need be, what prepares its arguments.
pub struct ToolDef<E, P> {
    pub tool: Tool,
    pub execute: E,
    pub prepare_arguments: Option<P>,
}

/// The descriptions of tools.
pub open spec fn descriptions<E, P>(tools: Seq<ToolDef<E, P>>) -> Seq<ToolView> {
    Seq::new(tools.len(), |i: int| tools[i].tool@)
}

/// Whether a tool may return an output for arguments, which are prepared first where the tool asks
/// for it.
pub open spec fn may_return<
    E: Fn(serde_json::Value, &str, &CancelToken) -> ToolOutput,
    P: Fn(serde_json::Value) -> serde_json::Value,
>(
    def: ToolDef<E, P>,
    arguments: crate::json::JsonView,
    cwd: &str,
    cancel: &CancelToken,
    output: ToolOutputView,
) -> bool {
    exists|given: serde_json::Value, args: serde_json::Value, out: ToolOutput|
        {
            &&& #[trigger] crate::json::jv(given) == arguments
            &&& match def.prepare_arguments {
                Some(p) => call_ensures(p, (given,), args),
                None => args == given,
            }
            &&& #[trigger] call_ensures(def.execute, (args, cwd, cancel), out)
            &&& out@ == output
        }
}

/// Execute a tool call with the first tool of its name. A call that was cancelled before, or that
/// names no tool, is answered with an error.
pub fn execute_call<
    E: Fn(serde_json::Value, &str, &CancelToken) -> ToolOutput,
    P: Fn(serde_json::Value) -> serde_json::Value,
>(
    tools: &[ToolDef<E, P>],
    tool_call: &ToolCall,
    cwd: &str,
    cancel: &CancelToken,
    cancelled: bool,
) -> (r: ToolResultMessage)
    requires
        forall|i: int, v: serde_json::Value|
            0 <= i < tools@.len() && tools@[i].prepare_arguments is Some ==> call_requires(
                tools@[i].prepare_arguments->0,
                (v,),
            ),
        forall|i: int, v: serde_json::Value|
            0 <= i < tools@.len() ==> #[trigger] call_requires(
                tools@[i].execute,
                (v, cwd, cancel),
            ),
    ensures
        ({
            let at = tool_position(descriptions(tools@), tool_call@.name);
            if cancelled {
                is_answer(
                    r@,
                    tool_call@,
                    text_output("error: cancelled before execution"@, true),
                )
            } else if at < tools@.len() {
                exists|output: ToolOutputView| #[trigger]
                    is_answer(r@, tool_call@, output) && may_return(
                        tools@[at],
                        tool_call@.arguments,
                        cwd,
                        cancel,
                        output,
                    )
            } else {
                is_answer(
                    r@,
                    tool_call@,
                    text_output("unknown tool: "@ + tool_call@.name, true),
                )
            }
        }),
{
    let schemas = described(tools);
    let list = schemas.as_slice();
    assert(list.deep_view() =~= descriptions(tools@));
    match execute_tool(list, tool_call, cancelled) {
        Dispatch::Answer(message) => message,
        Dispatch::Run(i) => {
            let given = tool_call.arguments.clone();
            let ghost first = given;
            let args = match &tools[i].prepare_arguments {
                Some(p) => p(given),
                None => given,
            };
            let ghost second = args;
            let output = (tools[i].execute)(args, cwd, cancel);
            assert(call_ensures(tools@[i as int].execute, (second, cwd, cancel), output));
            assert(crate::json::jv(first) == tool_call@.arguments);
            assert(may_return(tools@[i as int], tool_call@.arguments, cwd, cancel, output@));
            let ghost shown = output@;
            let r = answer_call(tool_call, output);
            assert(is_answer(r@, tool_call@, shown));
            r
        },
    }
}

/// The descriptions of tools.
pub fn described<E, P>(tools: &[ToolDef<E, P>]) -> (r: Vec<Tool>)
    ensures
        r.deep_view() == descriptions(tools@),
{
    let mut out: Vec<Tool> = Vec::new();
    let mut i: usize = 0;
    while i < tools.len()
        invariant
            i <= tools.len(),
            out.len() == i,
            forall|j: int| 0 <= j < i ==> (#[trigger] out@[j])@ == tools@[j].tool@,
        decreases tools.len() - i,
    {
        out.push(tools[i].tool.clone());
        i = i + 1;
    }
    assert(out.deep_view() =~= descriptions(tools@));
    out
}

/// Whether these are the built-in tools.
pub open spec fn are_default(tools: Seq<ToolView>) -> bool {
    &&& tools.len() == 7
    &&& bash::is_tool(tools[0])
    &&& read::is_tool(tools[1])
    &&& write::is_tool(tools[2])
    &&& edit::is_tool(tools[3])
    &&& skeleton::is_tool(tools[4])
    &&& get_function::is_tool(tools[5])
    &&& diagnostics_scan::is_tool(tools[6])
}

/// The built-in tools.
pub fn default_tools() -> (r: Vec<Tool>)
    ensures
        are_default(r.deep_view()),
{
    let r: Vec<Tool> = vec![
        bash::tool(),
        read::tool(),
        write::tool(),
        edit::tool(),
        skeleton::tool(),
        get_function::tool(),
        diagnostics_scan::tool(),
    ];
    assert(r.deep_view().len() == 7);
    r
}

/// The descriptions of tools.
pub fn tool_schemas(tools: &[Tool]) -> (r: Vec<Tool>)
    ensures
        r.deep_view() == tools.deep_view(),
{
    let mut out: Vec<Tool> = Vec::new();
    let mut i: usize = 0;
    while i < tools.len()
        invariant
            i <= tools.len(),
            out.len() == i,
            forall|j: int| 0 <= j < i ==> (#[trigger] out@[j])@ == tools.deep_view()[j],
        decreases tools.len() - i,
    {
        out.push(tools[i].clone());
        i = i + 1;
    }
    assert(out.deep_view() =~= tools.deep_view());
    out
}

// ---------------------------------------------------------------------------
// Schemas
// ---------------------------------------------------------------------------

/// The schema of a property with a type and a description.
pub open spec fn property(kind: Seq<char>, description: Seq<char>) -> Json {
    Json::Obj(map!["type"@ => Json::Str(kind), "description"@ => Json::Str(description)])
}

/// The schema of a list of texts of limited length.
pub open spec fn text_list(max: nat, description: Seq<char>) -> Json {
    Json::Obj(
        map![
            "type"@ => Json::Str("array"@),
            "items"@ => Json::Obj(map!["type"@ => Json::Str("string"@)]),
            "minItems"@ => Json::Int(1),
            "maxItems"@ => Json::Int(max as int),
            "description"@ => Json::Str(description),
        ],
    )
}

/// The schema of an object.
pub open spec fn object_schema(properties: Map<Seq<char>, Json>, required: Seq<Seq<char>>) -> Json {
    Json::Obj(
        map![
            "type"@ => Json::Str("object"@),
            "properties"@ => Json::Obj(properties),
            "required"@ => Json::Arr(Seq::new(required.len(), |i: int| Json::Str(required[i]))),
        ],
    )
}

/// The schema of a property with a type and a description.
pub(crate) fn property_value(kind: &str, description: &str) -> (r: serde_json::Value)
    ensures
        crate::json::json_of(r) == property(kind@, description@),
{
    with_str(with_str(empty_object_value(), "type", kind), "description", description)
}

/// The schema of a list of texts of limited length.
pub(crate) fn text_list_value(max: usize, description: &str) -> (r: serde_json::Value)
    ensures
        crate::json::json_of(r) == text_list(max as nat, description@),
{
    let v = with_str(empty_object_value(), "type", "array");
    let v = with_entry(
        v,
        "items".to_owned(),
        with_str(empty_object_value(), "type", "string"),
    );
    let v = with_entry(v, "minItems".to_owned(), u64_value(1));
    let v = with_entry(v, "maxItems".to_owned(), u64_value(max as u64));
    with_str(v, "description", description)
}

/// The schema of an object.
pub(crate) fn object_value(properties: serde_json::Value, required: &Vec<String>) -> (r:
    serde_json::Value)
    requires
        crate::json::json_of(properties) is Obj,
    ensures
        crate::json::json_of(r) == object_schema(
            crate::json::json_of(properties)->Obj_0,
            required.deep_view(),
        ),
{
    let mut names: Vec<serde_json::Value> = Vec::new();
    let mut i: usize = 0;
    while i < required.len()
        invariant
            i <= required.len(),
            names.len() == i,
            forall|j: int|
                0 <= j < i ==> crate::json::json_of(#[trigger] names@[j]) == Json::Str(
                    required@[j]@,
                ),
        decreases required.len() - i,
    {
        names.push(string_value(required[i].clone()));
        i = i + 1;
    }
    assert(crate::json::jsons(names@) =~= Seq::new(
        required.deep_view().len(),
        |i: int| Json::Str(required.deep_view()[i]),
    ));
    let v = with_str(empty_object_value(), "type", "object");
    let v = with_entry(v, "properties".to_owned(), properties);
    with_entry(v, "required".to_owned(), array_value(names))
}

// ---------------------------------------------------------------------------
// Worker
// ---------------------------------------------------------------------------

/// Where tools run, and which ones there are.
#[derive(Debug)]
pub struct InProcessWorker {
    cwd: String,
    tools: Vec<Tool>,
}

impl InProcessWorker {
    /// The directory that tools run in.
    pub closed spec fn dir(self) -> Seq<char> {
        self.cwd@
    }

    /// The tools.
    pub closed spec fn offered(self) -> Seq<ToolView> {
        self.tools.deep_view()
    }

    /// A worker with the built-in tools.
    pub fn new(cwd: &str) -> (r: Self)
        ensures
            r.dir() == cwd@,
            are_default(r.offered()),
    {
        InProcessWorker { cwd: cwd.to_owned(), tools: default_tools() }
    }

    /// A worker with other tools.
    pub fn with_tools(cwd: &str, tools: Vec<Tool>) -> (r: Self)
        ensures
            r.dir() == cwd@,
            r.offered() == tools.deep_view(),
    {
        InProcessWorker { cwd: cwd.to_owned(), tools }
    }

    /// The directory that tools run in.
    pub fn cwd(&self) -> (r: &str)
        ensures
            r@ == self.dir(),
    {
        self.cwd.as_str()
    }

    /// Have tools run in another directory.
    pub fn set_cwd(&mut self, cwd: &str)
        ensures
            final(self).dir() == cwd@,
            final(self).offered() == old(self).offered(),
    {
        self.cwd = cwd.to_owned();
    }

    /// Execute a tool call, or answer it where there is no such tool or it was cancelled.
    pub fn execute(&self, tool_call: &ToolCall, cancelled: bool) -> (r: Dispatch)
        ensures
            dispatched(r, self.offered(), tool_call@, cancelled),
    {
        let list = self.tools.as_slice();
        assert(list.deep_view() =~= self.offered());
        execute_tool(list, tool_call, cancelled)
    }
}

impl Default for InProcessWorker {
    fn default() -> (r: Self)
        ensures
            r.dir() == "/tmp"@,
            are_default(r.offered()),
    {
        InProcessWorker::new("/tmp")
    }
}

/// A call runs the first tool that has its name; one that no tool has is unknown.
pub proof fn law_first_tool_of_that_name(tools: Seq<ToolView>, name: Seq<char>)
    ensures
        0 <= tool_position(tools, name) <= tools.len(),
        tool_position(tools, name) < tools.len() ==> tools[tool_position(tools, name)].name == name,
        forall|i: int|
            0 <= i < tool_position(tools, name) ==> (#[trigger] tools[i]).name != name,
    decreases tools.len(),
{
    if tools.len() > 0 && tools[0].name != name {
        let rest = tools.subrange(1, tools.len() as int);
        law_first_tool_of_that_name(rest, name);
        assert forall|i: int| 0 <= i < tool_position(tools, name) implies (
        #[trigger] tools[i]).name != name by {
            if i > 0 {
                assert(rest[i - 1] == tools[i]);
            }
        }
        let at = tool_position(tools, name);
        if at < tools.len() {
            assert(rest[at - 1] == tools[at]);
        }
    }
}

/// The answer to a call carries its id and name, what the tool gave, and whether that is an error.
pub proof fn law_answer_is_for_the_call(
    r: ToolResultMessageView,
    call: ToolCallView,
    output: ToolOutputView,
)
    requires
        is_answer(r, call, output),
    ensures
        r.tool_call_id == call.id,
        r.tool_name == call.name,
        r.content == output.content,
        r.is_error == output.is_error,
        r.summary == output.summary,
{
}

/// A call that was cancelled runs nothing, and is answered with an error; so is one for an unknown
/// tool, whose answer names it. Every other call runs a tool that has its name.
pub proof fn law_dispatch(
    r: Dispatch,
    tools: Seq<ToolView>,
    call: ToolCallView,
    cancelled: bool,
)
    requires
        dispatched(r, tools, call, cancelled),
    ensures
        r matches Dispatch::Run(i) ==> !cancelled && i < tools.len() && tools[i as int].name
            == call.name,
        r matches Dispatch::Answer(m) ==> m@.tool_call_id == call.id && m@.tool_name == call.name
            && m@.is_error && m@.content.len() == 1 && (m@.content[0] matches ToolResultContentView::Text(
            t,
        ) && (!cancelled ==> t.text == "unknown tool: "@ + call.name)),
        r is Answer <==> cancelled || (forall|i: int|
            0 <= i < tools.len() ==> (#[trigger] tools[i]).name != call.name),
{
    law_first_tool_of_that_name(tools, call.name);
}

/// The schema of a tool says what its arguments are, and which of them it cannot do without.
pub proof fn law_schema(properties: Map<Seq<char>, Json>, required: Seq<Seq<char>>)
    ensures
        ({
            let s = object_schema(properties, required);
            &&& crate::json::field(s, "type"@) == Some(Json::Str("object"@))
            &&& crate::json::field(s, "properties"@) == Some(Json::Obj(properties))
            &&& crate::json::field(s, "required"@) matches Some(Json::Arr(js)) && js.len()
                == required.len() && forall|i: int|
                0 <= i < js.len() ==> #[trigger] js[i] == Json::Str(required[i])
        }),
{
    reveal_strlit("type");
    reveal_strlit("properties");
    reveal_strlit("required");
    assert("type"@.len() == 4 && "properties"@.len() == 10 && "required"@.len() == 8);
}

} // verus!
