//! Plugins: the wire protocol between the server and its plugin subprocesses, the server's routing
//! of tool calls, and the worker's handling of requests.
//!
//! Messages are JSON lines over stdin/stdout. A plugin registers its tools first, and then answers
//! each tool call with exactly one result that carries the same id.

use vstd::prelude::*;

use crate::cancel::CancelToken;
use crate::error::Error;
use crate::json::JsonView;
use crate::strmap::StrMap;
use crate::text::str_eq;
use crate::types::{
    TextContent, Tool, ToolCall, ToolCallView, ToolResultContent, ToolResultContentView,
    ToolResultMessage, ToolResultMessageView, ToolView,
};

verus! {

// ---------------------------------------------------------------------------
// Messages
// ---------------------------------------------------------------------------

/// Server to plugin.
#[derive(Debug)]
pub enum PluginRequest {
    /// Execute a tool call.
    ToolCall { tool_call_id: String, name: String, arguments: serde_json::Value, cwd: Option<String> },
    /// Cancel an in-flight tool call.
    CancelToolCall { tool_call_id: String },
    /// Shut down the plugin.
    Shutdown,
}

/// What a [`PluginRequest`] holds.
#[verifier::ext_equal]
pub enum PluginRequestView {
    ToolCall { tool_call_id: Seq<char>, name: Seq<char>, arguments: JsonView, cwd: Option<Seq<char>> },
    CancelToolCall { tool_call_id: Seq<char> },
    Shutdown,
}

impl View for PluginRequest {
    type V = PluginRequestView;

    open spec fn view(&self) -> PluginRequestView {
        match *self {
            PluginRequest::ToolCall { tool_call_id, name, arguments, cwd } => PluginRequestView::ToolCall { tool_call_id: tool_call_id@, name: name@, arguments: crate::json::jv(arguments), cwd: cwd.deep_view() },
            PluginRequest::CancelToolCall { tool_call_id } => PluginRequestView::CancelToolCall { tool_call_id: tool_call_id@ },
            PluginRequest::Shutdown => PluginRequestView::Shutdown,
        }
    }
}

impl DeepView for PluginRequest {
    type V = PluginRequestView;

    open spec fn deep_view(&self) -> PluginRequestView {
        self@
    }
}

/// One tool definition exposed by the plugin.
#[derive(Debug)]
pub struct PluginToolDef {
    pub name: String,
    pub description: String,
    pub parameters: serde_json::Value,
}

/// What a [`PluginToolDef`] holds.
#[verifier::ext_equal]
pub struct PluginToolDefView {
    pub name: Seq<char>,
    pub description: Seq<char>,
    pub parameters: JsonView,
}

impl View for PluginToolDef {
    type V = PluginToolDefView;

    open spec fn view(&self) -> PluginToolDefView {
        PluginToolDefView {
            name: self.name@,
            description: self.description@,
            parameters: crate::json::jv(self.parameters),
        }
    }
}

impl DeepView for PluginToolDef {
    type V = PluginToolDefView;

    open spec fn deep_view(&self) -> PluginToolDefView {
        self@
    }
}

impl Clone for PluginToolDef {
    fn clone(&self) -> (r: Self)
        ensures
            r@ == self@,
    {
        let r = PluginToolDef {
            name: self.name.clone(),
            description: self.description.clone(),
            parameters: self.parameters.clone(),
        };
        r
    }
}

/// Sent once at plugin startup.
#[derive(Debug)]
pub struct PluginRegistration {
    pub name: String,
    pub tools: Vec<PluginToolDef>,
}

/// What a [`PluginRegistration`] holds.
#[verifier::ext_equal]
pub struct PluginRegistrationView {
    pub name: Seq<char>,
    pub tools: Seq<PluginToolDefView>,
}

impl View for PluginRegistration {
    type V = PluginRegistrationView;

    open spec fn view(&self) -> PluginRegistrationView {
        PluginRegistrationView {
            name: self.name@,
            tools: self.tools.deep_view(),
        }
    }
}

impl DeepView for PluginRegistration {
    type V = PluginRegistrationView;

    open spec fn deep_view(&self) -> PluginRegistrationView {
        self@
    }
}

impl Clone for PluginRegistration {
    fn clone(&self) -> (r: Self)
        ensures
            r@ == self@,
    {
        let r = PluginRegistration {
            name: self.name.clone(),
            tools: self.tools.clone(),
        };
        assert(r.tools.deep_view() =~= self.tools.deep_view());
        r
    }
}

/// Final result of a tool call.
#[derive(Debug)]
pub struct PluginToolResult {
    pub tool_call_id: String,
    pub content: String,
    pub is_error: bool,
    pub summary: Option<String>,
}

/// What a [`PluginToolResult`] holds.
#[verifier::ext_equal]
pub struct PluginToolResultView {
    pub tool_call_id: Seq<char>,
    pub content: Seq<char>,
    pub is_error: bool,
    pub summary: Option<Seq<char>>,
}

impl View for PluginToolResult {
    type V = PluginToolResultView;

    open spec fn view(&self) -> PluginToolResultView {
        PluginToolResultView {
            tool_call_id: self.tool_call_id@,
            content: self.content@,
            is_error: self.is_error,
            summary: self.summary.deep_view(),
        }
    }
}

impl DeepView for PluginToolResult {
    type V = PluginToolResultView;

    open spec fn deep_view(&self) -> PluginToolResultView {
        self@
    }
}

impl Clone for PluginToolResult {
    fn clone(&self) -> (r: Self)
        ensures
            r@ == self@,
    {
        let r = PluginToolResult {
            tool_call_id: self.tool_call_id.clone(),
            content: self.content.clone(),
            is_error: self.is_error,
            summary: self.summary.clone(),
        };
        r
    }
}

/// Plugin to server.
#[derive(Debug)]
pub enum PluginMessage {
    /// Register the plugin's tools (sent once on startup).
    Register(PluginRegistration),
    /// Final tool execution result.
    ToolResult(PluginToolResult),
    /// Streaming output delta while a tool runs.
    OutputDelta { tool_call_id: String, text: String },
}

/// What a [`PluginMessage`] holds.
#[verifier::ext_equal]
pub enum PluginMessageView {
    Register(PluginRegistrationView),
    ToolResult(PluginToolResultView),
    OutputDelta { tool_call_id: Seq<char>, text: Seq<char> },
}

impl View for PluginMessage {
    type V = PluginMessageView;

    open spec fn view(&self) -> PluginMessageView {
        match *self {
            PluginMessage::Register(x) => PluginMessageView::Register(x@),
            PluginMessage::ToolResult(x) => PluginMessageView::ToolResult(x@),
            PluginMessage::OutputDelta { tool_call_id, text } => PluginMessageView::OutputDelta { tool_call_id: tool_call_id@, text: text@ },
        }
    }
}

impl DeepView for PluginMessage {
    type V = PluginMessageView;

    open spec fn deep_view(&self) -> PluginMessageView {
        self@
    }
}

impl Clone for PluginMessage {
    fn clone(&self) -> (r: Self)
        ensures
            r@ == self@,
    {
        match self {
            PluginMessage::Register(x) => PluginMessage::Register(x.clone()),
            PluginMessage::ToolResult(x) => PluginMessage::ToolResult(x.clone()),
            PluginMessage::OutputDelta { tool_call_id, text } => PluginMessage::OutputDelta { tool_call_id: tool_call_id.clone(), text: text.clone() },
        }
    }
}

/// The tool that a definition describes.
pub open spec fn tool_of(d: PluginToolDefView) -> ToolView {
    ToolView { name: d.name, description: d.description, parameters: d.parameters }
}

impl PluginToolDef {
    /// The tool as the model is told of it.
    pub fn to_tool(&self) -> (r: Tool)
        ensures
            r@ == tool_of(self@),
    {
        Tool {
            name: self.name.clone(),
            description: self.description.clone(),
            parameters: self.parameters.clone(),
        }
    }
}

// ---------------------------------------------------------------------------
// Server side
// ---------------------------------------------------------------------------

/// The first message of a plugin. Anything but a registration is a failure, and is handed back.
pub fn registration(first: PluginMessage) -> (r: core::result::Result<
    PluginRegistration,
    PluginMessage,
>)
    ensures
        match r {
            Ok(reg) => first@ == PluginMessageView::Register(reg@),
            Err(m) => !(first@ is Register) && m@ == first@,
        },
{
    match first {
        PluginMessage::Register(reg) => Ok(reg),
        other => Err(other),
    }
}

/// The request that executes a tool call in a directory.
pub fn tool_call_request(tool_call: &ToolCall, cwd: &str) -> (r: PluginRequest)
    ensures
        r@ == (PluginRequestView::ToolCall {
            tool_call_id: tool_call@.id,
            name: tool_call@.name,
            arguments: tool_call@.arguments,
            cwd: Some(cwd@),
        }),
{
    PluginRequest::ToolCall {
        tool_call_id: tool_call.id.clone(),
        name: tool_call.name.clone(),
        arguments: tool_call.arguments.clone(),
        cwd: Some(cwd.to_owned()),
    }
}

/// Why a tool call has no result.
#[derive(Debug, PartialEq)]
pub enum CallFailure {
    /// The plugin died: its pipes failed or were closed.
    Lost(String),
    /// Anything else.
    Other(String),
}

/// What came from a plugin.
#[derive(Debug)]
pub enum Heard {
    /// A message.
    Message(PluginMessage),
    /// A line that is no message, for this reason.
    Unreadable(String),
    /// Reading failed, for this reason.
    Broken(String),
    /// There is nothing more to read.
    Closed,
}

/// What a message means to a caller that waits for a result.
#[derive(Debug)]
pub enum Reply {
    /// It is the result.
    Done(PluginToolResult),
    /// It is about something else: wait for the next message.
    Wait,
    /// There will be no result.
    Refused(CallFailure),
}

/// Whether a message is the result of a call.
pub open spec fn is_result_of(m: PluginMessageView, id: Seq<char>) -> bool {
    m matches PluginMessageView::ToolResult(t) && t.tool_call_id == id
}

/// What a message means to a caller that waits for the result of a call.
pub fn read_reply(message: PluginMessage, id: &str) -> (r: Reply)
    ensures
        match r {
            Reply::Done(t) => is_result_of(message@, id@) && message@
                == PluginMessageView::ToolResult(t@),
            Reply::Wait => !is_result_of(message@, id@) && !(message@ is Register),
            Reply::Refused(e) => message@ is Register && (e matches CallFailure::Other(text)
                && text@ == "unexpected Register during tool call"@),
        },
{
    match message {
        PluginMessage::ToolResult(t) => {
            if str_eq(t.tool_call_id.as_str(), id) {
                Reply::Done(t)
            } else {
                Reply::Wait
            }
        },
        PluginMessage::OutputDelta { .. } => Reply::Wait,
        PluginMessage::Register(_) => Reply::Refused(
            CallFailure::Other("unexpected Register during tool call".to_owned()),
        ),
    }
}

/// What a caller that waits for the result of a call makes of what came from the plugin. A plugin
/// whose output fails or ends is lost.
pub fn await_reply(heard: Heard, id: &str) -> (r: Reply)
    ensures
        match heard {
            Heard::Message(m) => match r {
                Reply::Done(t) => m@ == PluginMessageView::ToolResult(t@) && t@.tool_call_id == id@,
                Reply::Wait => !is_result_of(m@, id@) && !(m@ is Register),
                Reply::Refused(e) => m@ is Register && (e matches CallFailure::Other(text)
                    && text@ == "unexpected Register during tool call"@),
            },
            Heard::Unreadable(reason) => r matches Reply::Refused(CallFailure::Other(text))
                && text@ == "parse error: "@ + reason@,
            Heard::Broken(reason) => r matches Reply::Refused(CallFailure::Lost(text)) && text@
                == reason@,
            Heard::Closed => r matches Reply::Refused(CallFailure::Lost(text)) && text@
                == "plugin stdout closed"@,
        },
{
    match heard {
        Heard::Message(m) => read_reply(m, id),
        Heard::Unreadable(reason) => {
            let mut text: String = "parse error: ".to_owned();
            text.append(reason.as_str());
            Reply::Refused(CallFailure::Other(text))
        },
        Heard::Broken(reason) => Reply::Refused(CallFailure::Lost(reason)),
        Heard::Closed => Reply::Refused(CallFailure::Lost("plugin stdout closed".to_owned())),
    }
}

/// Whether a plugin provides a tool.
pub open spec fn provides(p: PluginRegistrationView, name: Seq<char>) -> bool {
    lists_tool(p.tools, name, p.tools.len() as int)
}

/// Whether a tool is among the first `n` definitions.
pub open spec fn lists_tool(tools: Seq<PluginToolDefView>, name: Seq<char>, n: int) -> bool {
    exists|i: int| 0 <= i < n && (#[trigger] tools[i]).name == name
}

/// The last of the first `n` plugins that provides a tool.
pub open spec fn provider_of(plugins: Seq<PluginRegistrationView>, name: Seq<char>, n: int) -> Option<
    usize,
>
    decreases n,
{
    if n <= 0 {
        None
    } else if provides(plugins[n - 1], name) {
        Some((n - 1) as usize)
    } else {
        provider_of(plugins, name, n - 1)
    }
}

/// The tools of the first `n` plugins, in order.
pub open spec fn tools_of(plugins: Seq<PluginRegistrationView>, n: int) -> Seq<ToolView>
    decreases n,
{
    if n <= 0 {
        seq![]
    } else {
        tools_of(plugins, n - 1) + Seq::new(
            plugins[n - 1].tools.len(),
            |i: int| tool_of(plugins[n - 1].tools[i]),
        )
    }
}

/// Whether a table routes each tool to the last plugin that provides it.
pub open spec fn routes(
    table: Map<Seq<char>, usize>,
    plugins: Seq<PluginRegistrationView>,
    n: int,
) -> bool {
    forall|name: Seq<char>|
        match provider_of(plugins, name, n) {
            Some(i) => #[trigger] table.contains_key(name) && table[name] == i,
            None => !table.contains_key(name),
        }
}

/// Manages multiple plugins and routes tool calls to them.
pub struct PluginManager {
    plugins: Vec<PluginRegistration>,
    /// Tool name to plugin index.
    tool_map: StrMap<usize>,
}

impl View for PluginManager {
    type V = Seq<PluginRegistrationView>;

    closed spec fn view(&self) -> Seq<PluginRegistrationView> {
        self.plugins.deep_view()
    }
}

impl Default for PluginManager {
    fn default() -> (r: Self)
        ensures
            r@ == Seq::<PluginRegistrationView>::empty(),
    {
        PluginManager::new()
    }
}

/// Whether a table sends a tool to `index` if it is among the first `n` definitions, and otherwise
/// where it went before.
spec fn overlaid(
    table: Map<Seq<char>, usize>,
    before: Map<Seq<char>, usize>,
    tools: Seq<PluginToolDefView>,
    n: int,
    index: usize,
    name: Seq<char>,
) -> bool {
    if lists_tool(tools, name, n) {
        table.contains_key(name) && table[name] == index
    } else {
        table.contains_key(name) == before.contains_key(name) && (table.contains_key(name)
            ==> table[name] == before[name])
    }
}

proof fn lemma_lists_one_more(tools: Seq<PluginToolDefView>, name: Seq<char>, n: int)
    requires
        0 <= n,
    ensures
        lists_tool(tools, name, n + 1) == (lists_tool(tools, name, n) || tools[n].name == name),
{
    if lists_tool(tools, name, n + 1) && tools[n].name != name {
        let k = choose|k: int| 0 <= k < n + 1 && (#[trigger] tools[k]).name == name;
        assert(k < n && tools[k].name == name);
    }
    if lists_tool(tools, name, n) {
        let k = choose|k: int| 0 <= k < n && (#[trigger] tools[k]).name == name;
        assert(0 <= k < n + 1 && tools[k].name == name);
    }
    if tools[n].name == name {
        assert(0 <= n < n + 1 && tools[n].name == name);
    }
}

proof fn lemma_provider_prefix(
    a: Seq<PluginRegistrationView>,
    p: PluginRegistrationView,
    name: Seq<char>,
    n: int,
)
    requires
        0 <= n <= a.len(),
    ensures
        provider_of(a.push(p), name, n) == provider_of(a, name, n),
    decreases n,
{
    if n > 0 {
        lemma_provider_prefix(a, p, name, n - 1);
        assert(a.push(p)[n - 1] == a[n - 1]);
    }
}

impl PluginManager {
    #[verifier::type_invariant]
    spec fn inv(&self) -> bool {
        routes(
            self.tool_map@,
            self.plugins.deep_view(),
            self.plugins.deep_view().len() as int,
        )
    }

    /// No plugins yet.
    pub fn new() -> (r: Self)
        ensures
            r@ == Seq::<PluginRegistrationView>::empty(),
    {
        let plugins: Vec<PluginRegistration> = Vec::new();
        assert(plugins.deep_view() =~= Seq::empty());
        PluginManager { plugins, tool_map: StrMap::new() }
    }

    /// Register a plugin and its tools. A tool that an earlier plugin provides goes to this one
    /// from now on.
    pub fn register(&mut self, plugin: PluginRegistration)
        ensures
            final(self)@ == old(self)@.push(plugin@),
    {
        proof {
            use_type_invariant(&*self);
        }
        let mut fresh = PluginManager::new();
        std::mem::swap(self, &mut fresh);
        let PluginManager { plugins: plugins0, tool_map: table0 } = fresh;
        let mut plugins = plugins0;
        let mut table = table0;
        let ghost before = plugins.deep_view();
        let ghost table_before = table@;
        let ghost p = plugin@;
        let index: usize = plugins.len();
        assert(before.len() == index);
        let mut i: usize = 0;
        while i < plugin.tools.len()
            invariant
                i <= plugin.tools.len(),
                p == plugin@,
                forall|name: Seq<char>| #[trigger]
                    overlaid(table@, table_before, p.tools, i as int, index, name),
            decreases plugin.tools.len() - i,
        {
            assert(p.tools[i as int] == plugin.tools[i as int]@);
            let ghost now = table@;
            table.insert(plugin.tools[i].name.clone(), index);
            assert forall|name: Seq<char>| #[trigger]
                overlaid(table@, table_before, p.tools, i + 1, index, name) by {
                assert(overlaid(now, table_before, p.tools, i as int, index, name));
                lemma_lists_one_more(p.tools, name, i as int);
            }
            i = i + 1;
        }
        plugins.push(plugin);
        assert(plugins.deep_view() =~= before.push(p));
        proof {
            let all = plugins.deep_view();
            let n = all.len() as int;
            assert forall|name: Seq<char>|
                match provider_of(all, name, n) {
                    Some(k) => #[trigger] table@.contains_key(name) && table@[name] == k,
                    None => !table@.contains_key(name),
                } by {
                lemma_provider_prefix(before, p, name, before.len() as int);
                assert(all[n - 1] == p);
                assert(table_before.contains_key(name) || !table_before.contains_key(name));
                assert(p.tools.len() == i);
                assert(overlaid(table@, table_before, p.tools, i as int, index, name));
            }
        }
        let mut full = PluginManager { plugins, tool_map: table };
        std::mem::swap(self, &mut full);
    }

    /// Get all tool schemas from all plugins.
    pub fn tool_schemas(&self) -> (r: Vec<Tool>)
        ensures
            r.deep_view() == tools_of(self@, self@.len() as int),
    {
        let ghost all = self@;
        let mut out: Vec<Tool> = Vec::new();
        let mut i: usize = 0;
        assert(out.deep_view() =~= seq![]);
        while i < self.plugins.len()
            invariant
                i <= self.plugins.len(),
                all == self.plugins.deep_view(),
                out.deep_view() == tools_of(all, i as int),
            decreases self.plugins.len() - i,
        {
            let ghost before = out.deep_view();
            let ghost p = all[i as int];
            let ghost new = Seq::new(p.tools.len(), |k: int| tool_of(p.tools[k]));
            assert(p == self.plugins[i as int]@);
            let mut j: usize = 0;
            assert(out.deep_view() =~= before + new.subrange(0, 0));
            while j < self.plugins[i].tools.len()
                invariant
                    i < self.plugins.len(),
                    j <= self.plugins[i as int].tools.len(),
                    p == self.plugins[i as int]@,
                    new == Seq::new(p.tools.len(), |k: int| tool_of(p.tools[k])),
                    out.deep_view() == before + new.subrange(0, j as int),
                decreases self.plugins[i as int].tools.len() - j,
            {
                assert(p.tools[j as int] == self.plugins[i as int].tools[j as int]@);
                let ghost now = out.deep_view();
                let t = self.plugins[i].tools[j].to_tool();
                out.push(t);
                assert(out.deep_view() =~= now.push(t@));
                assert(out.deep_view() =~= before + new.subrange(0, j + 1));
                j = j + 1;
            }
            assert(new.subrange(0, j as int) =~= new);
            assert(new =~= Seq::new(
                all[i as int].tools.len(),
                |k: int| tool_of(all[i as int].tools[k]),
            ));
            i = i + 1;
        }
        out
    }

    /// The index of the plugin that executes a tool.
    pub fn route(&self, name: &str) -> (r: core::result::Result<usize, String>)
        ensures
            match r {
                Ok(i) => provider_of(self@, name@, self@.len() as int) == Some(i) && i
                    < self@.len(),
                Err(e) => provider_of(self@, name@, self@.len() as int) is None && e@
                    == "no plugin provides tool '"@ + name@ + "'"@,
            },
    {
        proof {
            use_type_invariant(&*self);
            assert(self@.len() == self.plugins.len());
            assert(self.tool_map@.contains_key(name@) || !self.tool_map@.contains_key(name@));
            lemma_provider(self@, name@, self@.len() as int);
        }
        match self.tool_map.get(name) {
            Some(i) => Ok(*i),
            None => {
                let mut message: String = "no plugin provides tool '".to_owned();
                message.append(name);
                message.append("'");
                Err(message)
            },
        }
    }
}

proof fn lemma_provider(plugins: Seq<PluginRegistrationView>, name: Seq<char>, n: int)
    requires
        0 <= n <= plugins.len(),
        plugins.len() <= usize::MAX,
    ensures
        match provider_of(plugins, name, n) {
            Some(i) => i < n && provides(plugins[i as int], name) && forall|k: int|
                i < k < n ==> !provides(#[trigger] plugins[k], name),
            None => forall|k: int| 0 <= k < n ==> !provides(#[trigger] plugins[k], name),
        },
    decreases n,
{
    if n > 0 && !provides(plugins[n - 1], name) {
        lemma_provider(plugins, name, n - 1);
    }
}

/// A tool call goes to a plugin that provides the tool, and to the last registered of those; it is
/// refused only where no plugin provides it.
pub proof fn law_last_registration_wins(plugins: Seq<PluginRegistrationView>, name: Seq<char>)
    requires
        plugins.len() <= usize::MAX,
    ensures
        match provider_of(plugins, name, plugins.len() as int) {
            Some(i) => i < plugins.len() && provides(plugins[i as int], name) && forall|k: int|
                i < k < plugins.len() ==> !provides(#[trigger] plugins[k], name),
            None => forall|k: int|
                0 <= k < plugins.len() ==> !provides(#[trigger] plugins[k], name),
        },
{
    lemma_provider(plugins, name, plugins.len() as int);
}

/// The result of a tool call as the agent loop takes it. The death of a plugin is an I/O error.
pub fn result_message(
    tool_call: &ToolCall,
    outcome: core::result::Result<PluginToolResult, CallFailure>,
) -> (r: core::result::Result<ToolResultMessage, Error>)
    ensures
        match (outcome, r) {
            (Ok(t), Ok(m)) => m@ == (ToolResultMessageView {
                tool_call_id: tool_call@.id,
                tool_name: tool_call@.name,
                content: seq![ToolResultContentView::Text(crate::types::plain_text(t@.content))],
                details: None,
                is_error: t@.is_error,
                timestamp: m@.timestamp,
                duration_ms: None,
                summary: t@.summary,
                post_persist_actions: seq![],
            }),
            (Err(CallFailure::Lost(e)), Err(x)) => x@ == crate::error::ErrorView::Io(e@),
            (Err(CallFailure::Other(e)), Err(x)) => x@ == crate::error::ErrorView::Internal(e@),
            _ => false,
        },
{
    match outcome {
        Ok(t) => {
            let content: Vec<ToolResultContent> = vec![
                ToolResultContent::Text(TextContent::plain(t.content)),
            ];
            let m = ToolResultMessage {
                tool_call_id: tool_call.id.clone(),
                tool_name: tool_call.name.clone(),
                content,
                details: None,
                is_error: t.is_error,
                timestamp: crate::time::timestamp_ms(),
                duration_ms: None,
                summary: t.summary,
                post_persist_actions: Vec::new(),
            };
            assert(m@.content =~= seq![
                ToolResultContentView::Text(crate::types::plain_text(t.content@)),
            ]);
            assert(m@.post_persist_actions =~= seq![]);
            Ok(m)
        },
        Err(CallFailure::Lost(e)) => Err(Error::Io(e)),
        Err(CallFailure::Other(e)) => Err(Error::Internal(e)),
    }
}

// ---------------------------------------------------------------------------
// Worker side
// ---------------------------------------------------------------------------

/// The definition that describes a tool.
pub open spec fn def_of(t: ToolView) -> PluginToolDefView {
    PluginToolDefView { name: t.name, description: t.description, parameters: t.parameters }
}

/// The registration of the worker, which it sends first.
pub fn worker_registration(tools: &[Tool]) -> (r: PluginMessage)
    ensures
        r@ == PluginMessageView::Register(
            PluginRegistrationView {
                name: "worker"@,
                tools: Seq::new(
                    tools.deep_view().len(),
                    |i: int| def_of(tools.deep_view()[i]),
                ),
            },
        ),
{
    let ghost all = tools.deep_view();
    let mut defs: Vec<PluginToolDef> = Vec::new();
    let mut i: usize = 0;
    while i < tools.len()
        invariant
            i <= tools.len(),
            all == tools.deep_view(),
            defs.len() == i,
            forall|j: int| 0 <= j < i ==> (#[trigger] defs@[j])@ == def_of(all[j]),
        decreases tools.len() - i,
    {
        assert(all[i as int] == tools@[i as int]@);
        defs.push(
            PluginToolDef {
                name: tools[i].name.clone(),
                description: tools[i].description.clone(),
                parameters: tools[i].parameters.clone(),
            },
        );
        i = i + 1;
    }
    assert(defs.deep_view() =~= Seq::new(all.len(), |i: int| def_of(all[i])));
    PluginMessage::Register(PluginRegistration { name: "worker".to_owned(), tools: defs })
}

/// What happens to the worker.
#[derive(Debug)]
pub enum WorkerInput {
    /// A request was read.
    Request(PluginRequest),
    /// A line was read that is no request.
    Unreadable,
    /// There is nothing more to read.
    Ended,
    /// A call was executed, with this result.
    Executed(ToolResultMessage),
}

/// What a [`WorkerInput`] holds.
#[verifier::ext_equal]
pub enum WorkerInputView {
    Request(PluginRequestView),
    Unreadable,
    Ended,
    Executed(ToolResultMessageView),
}

impl View for WorkerInput {
    type V = WorkerInputView;

    open spec fn view(&self) -> WorkerInputView {
        match *self {
            WorkerInput::Request(x) => WorkerInputView::Request(x@),
            WorkerInput::Unreadable => WorkerInputView::Unreadable,
            WorkerInput::Ended => WorkerInputView::Ended,
            WorkerInput::Executed(x) => WorkerInputView::Executed(x@),
        }
    }
}

/// What the worker does.
pub enum WorkerAction {
    /// Execute a tool call in a directory; the token tells when to stop.
    Run { tool_call: ToolCall, cwd: String, cancel: CancelToken },
    /// Send a message.
    Send(PluginMessage),
    /// Nothing.
    Continue,
    /// Stop reading.
    Stop,
}

/// The tool calls that are being executed.
pub struct WorkerState {
    /// The tokens of the calls that can be cancelled.
    in_flight: StrMap<CancelToken>,
    /// The ids of the calls that have no result yet.
    running: Vec<String>,
    /// Whether requests are still read.
    reading: bool,
}

/// What a [`WorkerState`] holds.
#[verifier::ext_equal]
pub struct WorkerStateView {
    pub in_flight: Map<Seq<char>, CancelToken>,
    pub running: Seq<Seq<char>>,
    pub reading: bool,
}

impl View for WorkerState {
    type V = WorkerStateView;

    closed spec fn view(&self) -> WorkerStateView {
        WorkerStateView {
            in_flight: self.in_flight@,
            running: self.running.deep_view(),
            reading: self.reading,
        }
    }
}

/// The directory of a call: the one given, or `/tmp`.
pub open spec fn call_dir(cwd: Option<Seq<char>>) -> Seq<char> {
    match cwd {
        Some(d) => d,
        None => "/tmp"@,
    }
}

/// Ids without the first occurrence of one.
pub open spec fn without(ids: Seq<Seq<char>>, id: Seq<char>) -> Seq<Seq<char>>
    decreases ids.len(),
{
    if ids.len() == 0 {
        ids
    } else if ids[0] == id {
        ids.subrange(1, ids.len() as int)
    } else {
        seq![ids[0]] + without(ids.subrange(1, ids.len() as int), id)
    }
}

/// What is sent for a call that was executed.
pub open spec fn result_of(result: ToolResultMessageView) -> PluginMessageView {
    PluginMessageView::ToolResult(
        PluginToolResultView {
            tool_call_id: result.tool_call_id,
            content: result.text(),
            is_error: result.is_error,
            summary: result.summary,
        },
    )
}

/// The calls without a result, whether requests are read, and what was sent.
#[verifier::ext_equal]
pub struct WorkerRun {
    pub running: Seq<Seq<char>>,
    pub reading: bool,
    pub sent: Seq<PluginMessageView>,
}

/// What happens to the worker changes this: a call that is read is running until it was executed,
/// cancelled or not, and then its result is sent. Requests are read until a shutdown is asked for
/// or there are no more; lines that are no requests are passed over.
pub open spec fn worker_step(w: WorkerRun, input: WorkerInputView) -> WorkerRun {
    match input {
        WorkerInputView::Request(request) => if !w.reading {
            w
        } else {
            match request {
                PluginRequestView::ToolCall { tool_call_id, .. } => WorkerRun {
                    running: w.running.push(tool_call_id),
                    ..w
                },
                PluginRequestView::CancelToolCall { .. } => w,
                PluginRequestView::Shutdown => WorkerRun { reading: false, ..w },
            }
        },
        WorkerInputView::Unreadable => w,
        WorkerInputView::Ended => WorkerRun { reading: false, ..w },
        WorkerInputView::Executed(result) => WorkerRun {
            running: without(w.running, result.tool_call_id),
            sent: w.sent.push(result_of(result)),
            ..w
        },
    }
}

/// What was sent with an action.
pub open spec fn sent_by(action: WorkerAction) -> Seq<PluginMessageView> {
    match action {
        WorkerAction::Send(m) => seq![m@],
        _ => seq![],
    }
}

proof fn lemma_without(ids: Seq<Seq<char>>, id: Seq<char>, i: int)
    requires
        0 <= i <= ids.len(),
        forall|j: int| 0 <= j < i ==> #[trigger] ids[j] != id,
        i < ids.len() ==> ids[i] == id,
    ensures
        without(ids, id) == if i < ids.len() {
            ids.remove(i)
        } else {
            ids
        },
    decreases ids.len(),
{
    if ids.len() > 0 {
        let rest = ids.subrange(1, ids.len() as int);
        if i == 0 {
            assert(ids.remove(0) =~= rest);
        } else {
            assert forall|j: int| 0 <= j < i - 1 implies #[trigger] rest[j] != id by {
                assert(rest[j] == ids[j + 1]);
            }
            lemma_without(rest, id, i - 1);
            if i < ids.len() {
                assert(seq![ids[0]] + rest.remove(i - 1) =~= ids.remove(i));
            } else {
                assert(seq![ids[0]] + rest =~= ids);
            }
        }
    }
}

impl WorkerState {
    /// Nothing is being executed.
    pub fn new() -> (r: Self)
        ensures
            r@ == (WorkerStateView {
                in_flight: Map::<Seq<char>, CancelToken>::empty(),
                running: seq![],
                reading: true,
            }),
    {
        let r = WorkerState { in_flight: StrMap::new(), running: Vec::new(), reading: true };
        assert(r@.running =~= seq![]);
        r
    }

    /// A request arrived. A call is in flight from now on, under a new token of its own. To cancel a
    /// call is to cancel its token; the call is no longer in flight, though its result is still to
    /// come. After a shutdown, requests are not heeded.
    pub fn handle(&mut self, request: PluginRequest) -> (r: WorkerAction)
        ensures
            final(self)@.running == worker_step(
                (WorkerRun {
                    running: old(self)@.running,
                    reading: old(self)@.reading,
                    sent: seq![],
                }),
                WorkerInputView::Request(request@),
            ).running,
            final(self)@.reading == (old(self)@.reading && !(request@ is Shutdown)),
            !old(self)@.reading ==> r is Stop && final(self)@ == old(self)@,
            old(self)@.reading ==> match request@ {
                PluginRequestView::ToolCall { tool_call_id, name, arguments, cwd } => {
                    &&& r matches WorkerAction::Run { tool_call, cwd: dir, cancel }
                    &&& tool_call@ == (ToolCallView { id: tool_call_id, name, arguments })
                    &&& dir@ == call_dir(cwd)
                    &&& final(self)@.in_flight.contains_key(tool_call_id)
                    &&& final(self)@.in_flight[tool_call_id].shared() == cancel.shared()
                    &&& crate::cancel::flag_made(*cancel.shared(), false)
                    &&& final(self)@.in_flight.remove(tool_call_id) == old(self)@.in_flight.remove(
                        tool_call_id,
                    )
                },
                PluginRequestView::CancelToolCall { tool_call_id } => {
                    &&& final(self)@.in_flight == old(self)@.in_flight.remove(tool_call_id)
                    &&& old(self)@.in_flight.contains_key(tool_call_id)
                        ==> crate::cancel::flag_put(
                        *old(self)@.in_flight[tool_call_id].shared(),
                        true,
                    )
                    &&& r is Continue
                },
                PluginRequestView::Shutdown => r is Stop && final(self)@.in_flight
                    == old(self)@.in_flight,
            },
    {
        if !self.reading {
            return WorkerAction::Stop;
        }
        let ghost before = self@;
        match request {
            PluginRequest::ToolCall { tool_call_id, name, arguments, cwd } => {
                let cancel = CancelToken::new();
                self.in_flight.insert(tool_call_id.clone(), cancel.clone());
                assert(self@.in_flight.remove(tool_call_id@) =~= before.in_flight.remove(
                    tool_call_id@,
                ));
                self.running.push(tool_call_id.clone());
                assert(self@.running =~= before.running.push(tool_call_id@));
                let dir: String = match cwd {
                    Some(d) => d,
                    None => "/tmp".to_owned(),
                };
                WorkerAction::Run {
                    tool_call: ToolCall { id: tool_call_id, name, arguments },
                    cwd: dir,
                    cancel,
                }
            },
            PluginRequest::CancelToolCall { tool_call_id } => {
                match self.in_flight.remove(tool_call_id.as_str()) {
                    Some(t) => t.cancel(),
                    None => {
                        assert(self@.in_flight =~= before.in_flight.remove(tool_call_id@));
                    },
                }
                WorkerAction::Continue
            },
            PluginRequest::Shutdown => {
                self.reading = false;
                WorkerAction::Stop
            },
        }
    }

    /// A call was executed: it is no longer in flight, and this is what is sent for it.
    pub fn finish(&mut self, result: &ToolResultMessage) -> (r: PluginMessage)
        ensures
            final(self)@ == (WorkerStateView {
                in_flight: old(self)@.in_flight.remove(result@.tool_call_id),
                running: without(old(self)@.running, result@.tool_call_id),
                ..old(self)@
            }),
            r@ == result_of(result@),
    {
        let ghost before = self@;
        let ghost id = result@.tool_call_id;
        let _ = self.in_flight.remove(result.tool_call_id.as_str());
        assert(self@.in_flight =~= before.in_flight.remove(id));
        let ghost ids = self.running.deep_view();
        let mut i: usize = 0;
        while i < self.running.len() && !str_eq(
            self.running[i].as_str(),
            result.tool_call_id.as_str(),
        )
            invariant
                i <= self.running.len(),
                ids == self.running.deep_view(),
                id == result@.tool_call_id,
                forall|j: int| 0 <= j < i ==> #[trigger] ids[j] != id,
            decreases self.running.len() - i,
        {
            i = i + 1;
        }
        proof {
            lemma_without(ids, id, i as int);
        }
        if i < self.running.len() {
            let _ = self.running.remove(i);
            assert(self.running.deep_view() =~= ids.remove(i as int));
        }
        PluginMessage::ToolResult(
            PluginToolResult {
                tool_call_id: result.tool_call_id.clone(),
                content: result.text(),
                is_error: result.is_error,
                summary: result.summary.clone(),
            },
        )
    }

    /// Something happens to the worker.
    pub fn step(&mut self, input: WorkerInput) -> (r: WorkerAction)
        ensures
            forall|sent: Seq<PluginMessageView>|
                (WorkerRun {
                    running: final(self)@.running,
                    reading: final(self)@.reading,
                    sent: sent + sent_by(r),
                }) == #[trigger] worker_step(
                    WorkerRun { running: old(self)@.running, reading: old(self)@.reading, sent },
                    input@,
                ),
            input is Unreadable ==> r is Continue && final(self)@ == old(self)@,
            input is Ended ==> r is Stop && final(self)@.in_flight == old(self)@.in_flight,
            input matches WorkerInput::Executed(result) ==> (r matches WorkerAction::Send(m) && m@
                == result_of(result@)) && final(self)@.in_flight == old(self)@.in_flight.remove(
                result@.tool_call_id,
            ),
            input matches WorkerInput::Request(request) ==> (request@ is ToolCall
                && old(self)@.reading ==> {
                &&& r matches WorkerAction::Run { tool_call, cwd: dir, cancel }
                &&& tool_call@ == (ToolCallView {
                    id: request@->ToolCall_tool_call_id,
                    name: request@->ToolCall_name,
                    arguments: request@->ToolCall_arguments,
                })
                &&& dir@ == call_dir(request@->ToolCall_cwd)
                &&& final(self)@.in_flight.contains_key(tool_call@.id)
                &&& final(self)@.in_flight[tool_call@.id].shared() == cancel.shared()
                &&& crate::cancel::flag_made(*cancel.shared(), false)
                &&& final(self)@.in_flight.remove(tool_call@.id) == old(self)@.in_flight.remove(
                    tool_call@.id,
                )
            }) && (request@ is CancelToolCall && old(self)@.reading ==> {
                let id = request@->CancelToolCall_tool_call_id;
                &&& final(self)@.in_flight == old(self)@.in_flight.remove(id)
                &&& old(self)@.in_flight.contains_key(id) ==> crate::cancel::flag_put(
                    *old(self)@.in_flight[id].shared(),
                    true,
                )
                &&& r is Continue
            }) && (request@ is Shutdown || !old(self)@.reading ==> r is Stop
                && final(self)@.in_flight == old(self)@.in_flight),
    {
        let ghost none = Seq::<PluginMessageView>::empty();
        assert(forall|s: Seq<PluginMessageView>| s + none =~= s);
        match input {
            WorkerInput::Request(request) => self.handle(request),
            WorkerInput::Unreadable => WorkerAction::Continue,
            WorkerInput::Ended => {
                self.reading = false;
                WorkerAction::Stop
            },
            WorkerInput::Executed(result) => {
                let m = self.finish(&result);
                assert(forall|s: Seq<PluginMessageView>| s + seq![m@] =~= s.push(m@));
                WorkerAction::Send(m)
            },
        }
    }
}

// ---------------------------------------------------------------------------
// A whole exchange
// ---------------------------------------------------------------------------

/// The worker after the first `n` inputs of an exchange. It starts by sending its registration.
pub open spec fn worker_after(
    registration: PluginMessageView,
    inputs: Seq<WorkerInputView>,
    n: int,
) -> WorkerRun
    decreases n,
{
    if n <= 0 {
        WorkerRun { running: seq![], reading: true, sent: seq![registration] }
    } else {
        worker_step(worker_after(registration, inputs, n - 1), inputs[n - 1])
    }
}

/// Whether input `k` is a result of a call that is running, if it is a result at all.
pub open spec fn executes_running(
    registration: PluginMessageView,
    inputs: Seq<WorkerInputView>,
    k: int,
) -> bool {
    inputs[k] matches WorkerInputView::Executed(result) ==> worker_after(
        registration,
        inputs,
        k,
    ).running.contains(result.tool_call_id)
}

/// Whether input `k` is a tool call that is read.
pub open spec fn reads_call(
    registration: PluginMessageView,
    inputs: Seq<WorkerInputView>,
    k: int,
    id: Seq<char>,
) -> bool {
    &&& worker_after(registration, inputs, k).reading
    &&& inputs[k] matches WorkerInputView::Request(PluginRequestView::ToolCall {
        tool_call_id,
        ..
    }) && tool_call_id == id
}

/// How many of the first `n` inputs are tool calls with an id that are read.
pub open spec fn calls_read(
    registration: PluginMessageView,
    inputs: Seq<WorkerInputView>,
    id: Seq<char>,
    n: int,
) -> nat
    decreases n,
{
    if n <= 0 {
        0
    } else {
        calls_read(registration, inputs, id, n - 1) + if reads_call(
            registration,
            inputs,
            n - 1,
            id,
        ) {
            1nat
        } else {
            0
        }
    }
}

/// How many messages are results of a call.
pub open spec fn results_for(sent: Seq<PluginMessageView>, id: Seq<char>) -> nat
    decreases sent.len(),
{
    if sent.len() == 0 {
        0
    } else {
        results_for(sent.drop_last(), id) + if is_result_of(sent.last(), id) {
            1nat
        } else {
            0
        }
    }
}

/// How often an id occurs.
pub open spec fn times(ids: Seq<Seq<char>>, id: Seq<char>) -> nat
    decreases ids.len(),
{
    if ids.len() == 0 {
        0
    } else {
        times(ids.subrange(1, ids.len() as int), id) + if ids[0] == id {
            1nat
        } else {
            0
        }
    }
}

proof fn lemma_times_push(ids: Seq<Seq<char>>, x: Seq<char>, id: Seq<char>)
    ensures
        times(ids.push(x), id) == times(ids, id) + if x == id {
            1nat
        } else {
            0
        },
    decreases ids.len(),
{
    let all = ids.push(x);
    if ids.len() == 0 {
        assert(all.subrange(1, 1) =~= ids);
    } else {
        let rest = ids.subrange(1, ids.len() as int);
        assert(all.subrange(1, all.len() as int) =~= rest.push(x));
        lemma_times_push(rest, x, id);
    }
}

proof fn lemma_times_without(ids: Seq<Seq<char>>, x: Seq<char>, id: Seq<char>)
    requires
        ids.contains(x),
    ensures
        times(ids, id) == times(without(ids, x), id) + if x == id {
            1nat
        } else {
            0
        },
    decreases ids.len(),
{
    let rest = ids.subrange(1, ids.len() as int);
    if ids[0] != x {
        let w = choose|w: int| 0 <= w < ids.len() && ids[w] == x;
        assert(rest[w - 1] == x);
        lemma_times_without(rest, x, id);
        let short = without(rest, x);
        let all = seq![ids[0]] + short;
        assert(all.subrange(1, all.len() as int) =~= short);
    }
}

/// Calls that were read have a result or are running; besides the registration, results are all
/// that is sent.
proof fn lemma_exchange(
    registration: PluginMessageView,
    inputs: Seq<WorkerInputView>,
    id: Seq<char>,
    n: int,
)
    requires
        registration is Register,
        0 <= n <= inputs.len(),
        forall|k: int|
            0 <= k < inputs.len() ==> #[trigger] executes_running(registration, inputs, k),
    ensures
        ({
            let w = worker_after(registration, inputs, n);
            &&& calls_read(registration, inputs, id, n) == results_for(w.sent, id) + times(
                w.running,
                id,
            )
            &&& w.sent.len() > 0
            &&& w.sent[0] == registration
            &&& forall|j: int| 0 < j < w.sent.len() ==> (#[trigger] w.sent[j]) is ToolResult
        }),
    decreases n,
{
    if n == 0 {
        let sent = seq![registration];
        assert(sent.drop_last() =~= seq![]);
        assert(results_for(sent.drop_last(), id) == 0);
    } else {
        lemma_exchange(registration, inputs, id, n - 1);
        let before = worker_after(registration, inputs, n - 1);
        let after = worker_after(registration, inputs, n);
        match inputs[n - 1] {
            WorkerInputView::Request(PluginRequestView::ToolCall { tool_call_id, .. }) => {
                lemma_times_push(before.running, tool_call_id, id);
            },
            WorkerInputView::Executed(result) => {
                assert(executes_running(registration, inputs, n - 1));
                lemma_times_without(before.running, result.tool_call_id, id);
                assert(after.sent.drop_last() =~= before.sent);
                assert(after.sent.last() == result_of(result));
            },
            _ => {},
        }
    }
}

/// Of a whole exchange, once nothing more is read and nothing is running: the worker has sent its
/// registration first; for each id, as many results as there were calls of that id, also where they
/// were cancelled or a shutdown came before their end; and nothing else.
pub proof fn law_every_request_is_answered(
    registration: PluginMessageView,
    inputs: Seq<WorkerInputView>,
    id: Seq<char>,
)
    requires
        registration is Register,
        forall|k: int|
            0 <= k < inputs.len() ==> #[trigger] executes_running(registration, inputs, k),
        worker_after(registration, inputs, inputs.len() as int).running.len() == 0,
    ensures
        ({
            let sent = worker_after(registration, inputs, inputs.len() as int).sent;
            &&& sent.len() > 0
            &&& sent[0] == registration
            &&& forall|j: int| 0 < j < sent.len() ==> (#[trigger] sent[j]) is ToolResult
            &&& results_for(sent, id) == calls_read(registration, inputs, id, inputs.len() as int)
        }),
{
    lemma_exchange(registration, inputs, id, inputs.len() as int);
}

/// Where no two calls have the same id, each call that is read gets exactly one result.
pub proof fn law_one_result_per_call(
    registration: PluginMessageView,
    inputs: Seq<WorkerInputView>,
    k: int,
    id: Seq<char>,
)
    requires
        registration is Register,
        forall|i: int|
            0 <= i < inputs.len() ==> #[trigger] executes_running(registration, inputs, i),
        worker_after(registration, inputs, inputs.len() as int).running.len() == 0,
        0 <= k < inputs.len(),
        reads_call(registration, inputs, k, id),
        forall|i: int|
            0 <= i < inputs.len() && i != k ==> !#[trigger] reads_call(registration, inputs, i, id),
    ensures
        results_for(worker_after(registration, inputs, inputs.len() as int).sent, id) == 1,
{
    law_every_request_is_answered(registration, inputs, id);
    lemma_read_once(registration, inputs, k, id, inputs.len() as int);
}

proof fn lemma_read_once(
    registration: PluginMessageView,
    inputs: Seq<WorkerInputView>,
    k: int,
    id: Seq<char>,
    n: int,
)
    requires
        0 <= n <= inputs.len(),
        0 <= k < inputs.len(),
        reads_call(registration, inputs, k, id),
        forall|i: int|
            0 <= i < inputs.len() && i != k ==> !#[trigger] reads_call(registration, inputs, i, id),
    ensures
        calls_read(registration, inputs, id, n) == if k < n {
            1nat
        } else {
            0
        },
    decreases n,
{
    if n > 0 {
        lemma_read_once(registration, inputs, k, id, n - 1);
        assert(n - 1 != k ==> !reads_call(registration, inputs, n - 1, id));
    }
}

/// A line that is no request changes nothing: it gets no answer, and requests behind it are read.
pub proof fn law_unreadable_lines_are_passed_over(w: WorkerRun)
    ensures
        worker_step(w, WorkerInputView::Unreadable) == w,
{
}

/// What the worker sends for a call that it executed is the result that the server waits for: it
/// carries the id of the call.
pub proof fn law_result_answers_the_call(
    call: ToolCallView,
    output: crate::tools::ToolOutputView,
    result: ToolResultMessageView,
    message: PluginMessageView,
)
    requires
        crate::tools::is_answer(result, call, output),
        message == result_of(result),
    ensures
        is_result_of(message, call.id),
        message->ToolResult_0.is_error == output.is_error,
{
}

/// Every tool of every plugin is offered to the model, as the plugin describes it, and no other.
pub proof fn law_every_tool_is_offered(plugins: Seq<PluginRegistrationView>, n: int)
    requires
        0 <= n <= plugins.len(),
    ensures
        forall|p: int, i: int|
            0 <= p < n && 0 <= i < plugins[p].tools.len() ==> tools_of(plugins, n).contains(
                (ToolView {
                    name: (#[trigger] plugins[p].tools[i]).name,
                    description: plugins[p].tools[i].description,
                    parameters: plugins[p].tools[i].parameters,
                }),
            ),
        forall|t: ToolView| #[trigger]
            tools_of(plugins, n).contains(t) ==> exists|p: int, i: int|
                0 <= p < n && 0 <= i < plugins[p].tools.len() && tool_of(
                    #[trigger] plugins[p].tools[i],
                ) == t,
    decreases n,
{
    if n > 0 {
        law_every_tool_is_offered(plugins, n - 1);
        let init = tools_of(plugins, n - 1);
        let all = tools_of(plugins, n);
        let last = plugins[n - 1].tools;
        assert forall|p: int, i: int|
            0 <= p < n && 0 <= i < plugins[p].tools.len() implies all.contains(
            (ToolView {
                name: (#[trigger] plugins[p].tools[i]).name,
                description: plugins[p].tools[i].description,
                parameters: plugins[p].tools[i].parameters,
            }),
        ) by {
            let t = tool_of(plugins[p].tools[i]);
            if p < n - 1 {
                assert(init.contains(t));
                let k = init.index_of(t);
                assert(all[k] == t);
            } else {
                assert(all[init.len() + i] == t);
            }
        }
        assert forall|t: ToolView| #[trigger] all.contains(t) implies exists|p: int, i: int|
            0 <= p < n && 0 <= i < plugins[p].tools.len() && tool_of(
                #[trigger] plugins[p].tools[i],
            ) == t by {
            let k = all.index_of(t);
            if k < init.len() {
                assert(init[k] == t);
                assert(init.contains(t));
                let (p, i) = choose|p: int, i: int|
                    0 <= p < n - 1 && 0 <= i < plugins[p].tools.len() && tool_of(
                        #[trigger] plugins[p].tools[i],
                    ) == t;
                assert(tool_of(plugins[p].tools[i]) == t);
            } else {
                assert(tool_of(plugins[n - 1].tools[k - init.len()]) == t);
            }
        }
    }
}

/// A tool that the worker registers reaches the model as it was described.
pub proof fn law_registered_tool_is_offered(t: ToolView)
    ensures
        tool_of(def_of(t)) == t,
{
}

/// What a plugin sends for a call is all the text of its result, whether it failed, and its summary.
pub proof fn law_result_is_sent_whole(result: ToolResultMessageView)
    ensures
        result_of(result) matches PluginMessageView::ToolResult(r) && r.tool_call_id
            == result.tool_call_id && r.content == crate::types::result_text(result.content)
            && r.is_error == result.is_error && r.summary == result.summary,
{
}

/// A call runs in the directory that it names; the worker stops reading only when it is told to shut down
/// or there is nothing more to read.
pub proof fn law_worker_keeps_reading(w: WorkerRun, input: WorkerInputView, dir: Seq<char>)
    ensures
        call_dir(Some(dir)) == dir,
        call_dir(None) == "/tmp"@,
        w.reading && !worker_step(w, input).reading <==> w.reading && (input is Ended || input
            == WorkerInputView::Request(PluginRequestView::Shutdown)),
        !w.reading ==> !worker_step(w, input).reading,
        worker_step(w, input).sent.len() > w.sent.len() <==> input is Executed,
{
}

} // verus!
