//! The `get_function` tool: the complete source bodies of named functions / methods from one or
//! more files.
//!
//! Requests use dot-paths (`Foo.bar`, `Outer.Inner.method`); Rust's `::` is accepted as an alias
//! and normalised to `.`. A request `bar` matches any definition whose full name ends with `.bar`
//! (or equals `bar`); `Foo.bar` requires the suffix `Foo.bar`. All matches are returned.
//!
//! Each emitted body extends over preceding attributes / doc comments (`#[derive]`, `///`,
//! `@decorator`), so the slice starts at the first relevant annotation, and covers the whole
//! definition node verbatim.
//!
//! The call is an error only when no name was extracted from any file; misses are reported in a
//! footer otherwise.

use vstd::prelude::*;

use crate::json::{empty_object_value, with_entry, Json};
use crate::text::{
    str_ends_with, str_eq, str_join, str_len, str_replace, u128_text,
};
use crate::tools::skeleton::{
    collect_texts, file_header_text, find_extension, find_first_capture, get_list, length_message,
    missing_message, resolve_all, SourceInput, SourceInputView,
};
use crate::tools::tree_sitter_support::{
    analyze, find_field, find_kind, find_parent, find_prev_sibling, slice_text, CaptureView, Lang,
    Syntax, SyntaxNode, SyntaxNodeView, SyntaxView,
};
use crate::tools::{object_value, text_list_value, ToolOutput, ToolOutputView};
use crate::types::Tool;

verus! {

/// The most files of a call.
pub const MAX_PATHS: usize = 20;

/// The most names of a call.
pub const MAX_NAMES: usize = 32;

/// The most bytes of an answer.
pub const MAX_TOTAL_BYTES: usize = 262_144;

/// What a call asks for.
#[derive(Debug, PartialEq)]
pub struct FunctionRequest {
    pub files: Vec<String>,
    /// The names, with `.` between their parts.
    pub names: Vec<String>,
}

/// Whether this describes the tool.
pub open spec fn is_tool(t: crate::types::ToolView) -> bool {
    &&& t.name == "get_function"@
    &&& t.description
        == "Extract complete bodies of named functions/methods from one or more files (tree-sitter). Pairs with get_file_skeleton: skim the skeleton first, then pull bodies you actually need instead of reading whole files. Function names support dot-paths for methods (`Foo.bar`, `ClassName.methodName`); `::` is also accepted for Rust. Bare names (`bar`) match any definition whose qualified name ends in `.bar` — multiple matches are returned together."@
    &&& t.parameters.value == crate::tools::object_schema(
        map![
            "paths"@ => crate::tools::text_list(MAX_PATHS as nat, "Paths to search (1-20)."@),
            "function_names"@ => crate::tools::text_list(
                MAX_NAMES as nat,
                "Qualified names to extract (dot-paths; `::` accepted)."@,
            ),
        ],
        seq!["paths"@, "function_names"@],
    )
}

/// The description of the tool.
pub fn tool() -> (r: Tool)
    ensures
        is_tool(r@),
{
    let p = with_entry(
        empty_object_value(),
        "paths".to_owned(),
        text_list_value(MAX_PATHS, "Paths to search (1-20)."),
    );
    let p = with_entry(
        p,
        "function_names".to_owned(),
        text_list_value(MAX_NAMES, "Qualified names to extract (dot-paths; `::` accepted)."),
    );
    let required: Vec<String> = vec!["paths".to_owned(), "function_names".to_owned()];
    assert(required.deep_view() =~= seq!["paths"@, "function_names"@]);
    Tool {
        name: "get_function".to_owned(),
        description: "Extract complete bodies of named functions/methods from one or more files (tree-sitter). Pairs with get_file_skeleton: skim the skeleton first, then pull bodies you actually need instead of reading whole files. Function names support dot-paths for methods (`Foo.bar`, `ClassName.methodName`); `::` is also accepted for Rust. Bare names (`bar`) match any definition whose qualified name ends in `.bar` — multiple matches are returned together.".to_owned(),
        parameters: object_value(p, &required),
    }
}

// ---------------------------------------------------------------------------
// Arguments
// ---------------------------------------------------------------------------

/// A name with `.` between its parts.
pub open spec fn normal_name(name: Seq<char>) -> Seq<char> {
    crate::text::replace(name, "::"@, "."@)
}

/// What is wrong with the arguments: a missing list comes first, then a list of the wrong length.
pub open spec fn argument_error(args: Json) -> Option<Seq<char>> {
    let paths = crate::tools::skeleton::list_argument(args, "paths"@);
    let names = crate::tools::skeleton::list_argument(args, "function_names"@);
    if paths is None {
        Some("missing required argument: "@ + "paths"@)
    } else if names is None {
        Some("missing required argument: "@ + "function_names"@)
    } else if crate::tools::skeleton::list_error(paths, "paths"@, MAX_PATHS as nat) is Some {
        crate::tools::skeleton::list_error(paths, "paths"@, MAX_PATHS as nat)
    } else {
        crate::tools::skeleton::list_error(names, "function_names"@, MAX_NAMES as nat)
    }
}

/// The names that a call asks for.
pub open spec fn names_of(elems: Seq<Json>) -> Seq<Seq<char>> {
    let texts = crate::tools::skeleton::texts_of(elems, elems.len() as int);
    Seq::new(texts.len(), |i: int| normal_name(texts[i]))
}

/// `::` normalises to `.` for Rust ergonomics.
pub fn normalize(name: &str) -> (r: String)
    ensures
        r@ == normal_name(name@),
{
    str_replace(name, "::", ".")
}

/// What a call asks for, or why it cannot be done.
pub fn parse(args: &serde_json::Value, cwd: &str) -> (r: core::result::Result<
    FunctionRequest,
    ToolOutput,
>)
    ensures
        ({
            let json = crate::json::json_of(*args);
            match r {
                Ok(q) => argument_error(json) is None && q.files.deep_view()
                    == crate::tools::skeleton::files_of(
                    crate::tools::skeleton::list_argument(json, "paths"@)->0,
                    cwd@,
                ) && q.names.deep_view() == names_of(
                    crate::tools::skeleton::list_argument(json, "function_names"@)->0,
                ),
                Err(o) => argument_error(json) is Some && o@ == crate::tools::text_output(
                    argument_error(json)->0,
                    true,
                ),
            }
        }),
{
    let paths = match get_list(args, "paths") {
        Some(e) => e,
        None => {
            return Err(ToolOutput::error(missing_message("paths").as_str()));
        },
    };
    let given = match get_list(args, "function_names") {
        Some(e) => e,
        None => {
            return Err(ToolOutput::error(missing_message("function_names").as_str()));
        },
    };
    assert(crate::json::jsons(paths@).len() == paths.len());
    assert(crate::json::jsons(given@).len() == given.len());
    if paths.len() == 0 || paths.len() > MAX_PATHS {
        return Err(ToolOutput::error(length_message("paths", MAX_PATHS).as_str()));
    }
    if given.len() == 0 || given.len() > MAX_NAMES {
        return Err(ToolOutput::error(length_message("function_names", MAX_NAMES).as_str()));
    }
    let texts = collect_texts(given);
    let mut names: Vec<String> = Vec::new();
    let mut i: usize = 0;
    while i < texts.len()
        invariant
            i <= texts.len(),
            names.len() == i,
            forall|j: int| 0 <= j < i ==> (#[trigger] names@[j])@ == normal_name(texts@[j]@),
        decreases texts.len() - i,
    {
        names.push(normalize(texts[i].as_str()));
        i = i + 1;
    }
    assert(names.deep_view() =~= names_of(crate::json::jsons(given@)));
    let files = collect_texts(paths);
    Ok(FunctionRequest { files: resolve_all(&files, cwd), names })
}

// ---------------------------------------------------------------------------
// Names of definitions
// ---------------------------------------------------------------------------

/// Whether a request asks for a definition: by its full name, or by the end of it.
pub open spec fn asks_for(qualified: Seq<char>, request: Seq<char>) -> bool {
    qualified == request || crate::text::ends_with(qualified, "."@ + request)
}

/// The name of the type that an `impl` block is for; of a generic type the identifier inside.
pub open spec fn impl_type(bytes: Seq<u8>, nodes: Seq<SyntaxNodeView>, i: int) -> Option<Seq<char>> {
    match crate::tools::tree_sitter_support::child(
        nodes,
        i,
        crate::tools::tree_sitter_support::fills("type"@),
    ) {
        Some(t) => if nodes[t].kind == "type_identifier"@ {
            Some(crate::tools::tree_sitter_support::node_text(bytes, nodes[t]))
        } else if nodes[t].kind == "generic_type"@ {
            match crate::tools::tree_sitter_support::child(
                nodes,
                t,
                crate::tools::tree_sitter_support::of_kind("type_identifier"@),
            ) {
                Some(c) => Some(crate::tools::tree_sitter_support::node_text(bytes, nodes[c])),
                None => None,
            }
        } else {
            None
        },
        None => None,
    }
}

/// Whether a kind of node names what is inside of it.
pub open spec fn is_container(kind: Seq<char>) -> bool {
    ||| kind == "trait_item"@
    ||| kind == "mod_item"@
    ||| kind == "class_definition"@
    ||| kind == "class_declaration"@
    ||| kind == "abstract_class_declaration"@
}

/// The name that a node gives to what is inside of it.
pub open spec fn container_name(bytes: Seq<u8>, nodes: Seq<SyntaxNodeView>, i: int) -> Option<
    Seq<char>,
> {
    if nodes[i].kind == "impl_item"@ {
        impl_type(bytes, nodes, i)
    } else if is_container(nodes[i].kind) {
        match crate::tools::tree_sitter_support::child(
            nodes,
            i,
            crate::tools::tree_sitter_support::fills("name"@),
        ) {
            Some(n) => Some(crate::tools::tree_sitter_support::node_text(bytes, nodes[n])),
            None => None,
        }
    } else {
        None
    }
}

/// The names of what a node is inside of, outermost first.
pub open spec fn containers(bytes: Seq<u8>, nodes: Seq<SyntaxNodeView>, i: int) -> Seq<Seq<char>>
    decreases i,
{
    match crate::tools::tree_sitter_support::parent(nodes, i) {
        Some(p) => if 0 <= p < i {
            let outer = containers(bytes, nodes, p);
            match container_name(bytes, nodes, p) {
                Some(c) => outer.push(c),
                None => outer,
            }
        } else {
            seq![]
        },
        None => seq![],
    }
}

/// The dot-qualified name of a definition.
pub open spec fn qualified(bytes: Seq<u8>, nodes: Seq<SyntaxNodeView>, name: int, def: int) -> Seq<
    char,
> {
    crate::text::join(
        containers(bytes, nodes, def).push(
            crate::tools::tree_sitter_support::node_text(bytes, nodes[name]),
        ),
        "."@,
    )
}

/// Whether a kind of node belongs to the definition after it.
pub open spec fn is_annotation(kind: Seq<char>) -> bool {
    ||| kind == "attribute_item"@
    ||| kind == "line_comment"@
    ||| kind == "block_comment"@
    ||| kind == "decorator"@
    ||| kind == "comment"@
}

/// The earliest of the annotations right before a node, or the node itself.
pub open spec fn extended_start(nodes: Seq<SyntaxNodeView>, i: int) -> int
    decreases i,
{
    match crate::tools::tree_sitter_support::prev_sibling(nodes, i) {
        Some(p) => if 0 <= p < i && is_annotation(nodes[p].kind) {
            extended_start(nodes, p)
        } else {
            i
        },
        None => i,
    }
}

/// Whether a request asks for a definition.
pub fn qualified_ends_with(qualified: &str, request: &str) -> (r: bool)
    ensures
        r == asks_for(qualified@, request@),
{
    let mut suffix: String = ".".to_owned();
    suffix.append(request);
    str_eq(qualified, request) || str_ends_with(qualified, suffix.as_str())
}

/// The name of the type that an `impl` block is for.
fn impl_type_name(bytes: &[u8], nodes: &Vec<SyntaxNode>, i: usize) -> (r: Option<String>)
    requires
        i < nodes.len(),
    ensures
        r.deep_view() == impl_type(bytes@, nodes.deep_view(), i as int),
{
    let t: usize = match find_field(nodes, i, "type") {
        Some(t) => t,
        None => {
            return None;
        },
    };
    assert(nodes.deep_view()[t as int] == nodes[t as int]@);
    if str_eq(nodes[t].kind.as_str(), "type_identifier") {
        return Some(slice_text(bytes, nodes[t].start, nodes[t].end));
    }
    if str_eq(nodes[t].kind.as_str(), "generic_type") {
        if let Some(c) = find_kind(nodes, t, "type_identifier") {
            assert(nodes.deep_view()[c as int] == nodes[c as int]@);
            return Some(slice_text(bytes, nodes[c].start, nodes[c].end));
        }
    }
    None
}

/// The name that a node gives to what is inside of it.
fn find_container_name(bytes: &[u8], nodes: &Vec<SyntaxNode>, i: usize) -> (r: Option<String>)
    requires
        i < nodes.len(),
    ensures
        r.deep_view() == container_name(bytes@, nodes.deep_view(), i as int),
{
    assert(nodes.deep_view()[i as int] == nodes[i as int]@);
    let kind = nodes[i].kind.as_str();
    if str_eq(kind, "impl_item") {
        return impl_type_name(bytes, nodes, i);
    }
    if str_eq(kind, "trait_item") || str_eq(kind, "mod_item") || str_eq(kind, "class_definition")
        || str_eq(kind, "class_declaration") || str_eq(kind, "abstract_class_declaration") {
        if let Some(n) = find_field(nodes, i, "name") {
            assert(nodes.deep_view()[n as int] == nodes[n as int]@);
            return Some(slice_text(bytes, nodes[n].start, nodes[n].end));
        }
    }
    None
}

/// The names of what a node is inside of, outermost first.
fn collect_containers(bytes: &[u8], nodes: &Vec<SyntaxNode>, i: usize) -> (r: Vec<String>)
    requires
        i < nodes.len(),
    ensures
        r.deep_view() == containers(bytes@, nodes.deep_view(), i as int),
    decreases i,
{
    match find_parent(nodes, i) {
        Some(p) => {
            let mut outer = collect_containers(bytes, nodes, p);
            let ghost before = outer.deep_view();
            if let Some(c) = find_container_name(bytes, nodes, p) {
                outer.push(c);
                assert(outer.deep_view() =~= before.push(c@));
            }
            outer
        },
        None => {
            let none: Vec<String> = Vec::new();
            assert(none.deep_view() =~= seq![]);
            none
        },
    }
}

/// The dot-qualified name of a definition.
///
/// Rust: `mod Outer { impl Foo { fn bar } }` gives `Outer.Foo.bar`; a method directly in a trait
/// gives `Trait.name`. Python/TS: nested classes and methods chain through their class containers.
pub fn qualified_name(bytes: &[u8], nodes: &Vec<SyntaxNode>, name: usize, def: usize) -> (r: String)
    requires
        name < nodes.len(),
        def < nodes.len(),
    ensures
        r@ == qualified(bytes@, nodes.deep_view(), name as int, def as int),
{
    let mut segments = collect_containers(bytes, nodes, def);
    let ghost before = segments.deep_view();
    assert(nodes.deep_view()[name as int] == nodes[name as int]@);
    let own = slice_text(bytes, nodes[name].start, nodes[name].end);
    segments.push(own);
    assert(segments.deep_view() =~= before.push(own@));
    str_join(&segments, ".")
}

/// The earliest of the annotations right before a node, or the node itself.
pub fn extended_start_node(nodes: &Vec<SyntaxNode>, i: usize) -> (r: usize)
    requires
        i < nodes.len(),
    ensures
        r == extended_start(nodes.deep_view(), i as int),
        r < nodes.len(),
{
    let ghost all = nodes.deep_view();
    let mut at: usize = i;
    loop
        invariant
            at < nodes.len(),
            all == nodes.deep_view(),
            extended_start(all, i as int) == extended_start(all, at as int),
        decreases at,
    {
        match find_prev_sibling(nodes, at) {
            Some(p) => {
                assert(all[p as int] == nodes[p as int]@);
                let kind = nodes[p].kind.as_str();
                if str_eq(kind, "attribute_item") || str_eq(kind, "line_comment") || str_eq(
                    kind,
                    "block_comment",
                ) || str_eq(kind, "decorator") || str_eq(kind, "comment") {
                    at = p;
                } else {
                    return at;
                }
            },
            None => {
                return at;
            },
        }
    }
}

// ---------------------------------------------------------------------------
// Definitions of a source text
// ---------------------------------------------------------------------------

/// A definition: its full name and its node.
#[derive(Debug)]
pub struct Definition {
    pub qualified: String,
    pub node: usize,
}

/// What a [`Definition`] holds.
#[verifier::ext_equal]
pub struct DefinitionView {
    pub qualified: Seq<char>,
    pub node: usize,
}

impl View for Definition {
    type V = DefinitionView;

    open spec fn view(&self) -> DefinitionView {
        DefinitionView { qualified: self.qualified@, node: self.node }
    }
}

impl DeepView for Definition {
    type V = DefinitionView;

    open spec fn deep_view(&self) -> DefinitionView {
        self@
    }
}

/// The definition that a match gives, if it captures both a name and a definition.
pub open spec fn definition_of(bytes: Seq<u8>, s: SyntaxView, m: Seq<CaptureView>) -> Option<
    DefinitionView,
> {
    match crate::tools::skeleton::first_capture(m, "name.def"@) {
        Some(name) => match crate::tools::skeleton::first_capture(m, "definition"@) {
            Some(def) => Some(
                DefinitionView {
                    qualified: qualified(bytes, s.nodes, name, def),
                    node: def as usize,
                },
            ),
            None => None,
        },
        None => None,
    }
}

/// The definitions of the first `n` matches.
pub open spec fn definitions_of(bytes: Seq<u8>, s: SyntaxView, n: int) -> Seq<DefinitionView>
    decreases n,
{
    if n <= 0 {
        seq![]
    } else {
        let init = definitions_of(bytes, s, n - 1);
        match definition_of(bytes, s, s.matches[n - 1]) {
            Some(d) => init.push(d),
            None => init,
        }
    }
}

/// The definitions of a source text.
pub fn collect_defs(bytes: &[u8], s: &Syntax) -> (r: Vec<Definition>)
    requires
        s@.wf(),
    ensures
        r.deep_view() == definitions_of(bytes@, s@, s@.matches.len() as int),
        forall|i: int| 0 <= i < r@.len() ==> (#[trigger] r@[i]).node < s.nodes.len(),
{
    let mut out: Vec<Definition> = Vec::new();
    let mut i: usize = 0;
    assert(out.deep_view() =~= seq![]);
    while i < s.matches.len()
        invariant
            i <= s.matches.len(),
            s@.wf(),
            out.deep_view() == definitions_of(bytes@, s@, i as int),
            forall|i: int| 0 <= i < out@.len() ==> (#[trigger] out@[i]).node < s.nodes.len(),
        decreases s.matches.len() - i,
    {
        assert(s@.matches[i as int] == s.matches[i as int].deep_view());
        let ghost before = out.deep_view();
        let name = find_first_capture(&s.matches[i], "name.def");
        let def = find_first_capture(&s.matches[i], "definition");
        if let Some(n) = name {
            if let Some(d) = def {
                proof {
                    let j = choose|j: int|
                        0 <= j < s@.matches[i as int].len() && (
                        #[trigger] s@.matches[i as int][j]).node == n;
                    assert(s@.matches[i as int][j].node < s@.nodes.len());
                    let k = choose|k: int|
                        0 <= k < s@.matches[i as int].len() && (
                        #[trigger] s@.matches[i as int][k]).node == d;
                    assert(s@.matches[i as int][k].node < s@.nodes.len());
                }
                let x = Definition {
                    qualified: qualified_name(bytes, &s.nodes, n, d),
                    node: d,
                };
                out.push(x);
                assert(out.deep_view() =~= before.push(x@));
            }
        }
        i = i + 1;
    }
    out
}

// ---------------------------------------------------------------------------
// One file
// ---------------------------------------------------------------------------

/// What is shown of a definition: its name, its lines, and its source with its annotations.
pub open spec fn definition_block(
    bytes: Seq<u8>,
    nodes: Seq<SyntaxNodeView>,
    d: DefinitionView,
) -> Seq<char> {
    let start = nodes[extended_start(nodes, d.node as int)];
    let n = nodes[d.node as int];
    "// "@ + d.qualified + " (lines "@ + crate::text::decimal(start.start_row as nat + 1) + "-"@
        + crate::text::decimal(n.end_row as nat + 1) + ")\n"@
        + crate::tools::tree_sitter_support::text_at(bytes, start.start as int, n.end as int)
        + "\n"@
}

/// The blocks of those of the first `n` definitions that a request asks for.
pub open spec fn blocks_for(
    bytes: Seq<u8>,
    nodes: Seq<SyntaxNodeView>,
    defs: Seq<DefinitionView>,
    request: Seq<char>,
    n: int,
) -> Seq<Seq<char>>
    decreases n,
{
    if n <= 0 {
        seq![]
    } else {
        let init = blocks_for(bytes, nodes, defs, request, n - 1);
        if asks_for(defs[n - 1].qualified, request) {
            init.push(definition_block(bytes, nodes, defs[n - 1]))
        } else {
            init
        }
    }
}

/// What a file gave: the blocks that were found and the names that were not.
#[verifier::ext_equal]
pub struct FileResult {
    pub blocks: Seq<Seq<char>>,
    pub misses: Seq<Seq<char>>,
}

/// What the first `n` names gave in a file.
pub open spec fn search(
    bytes: Seq<u8>,
    nodes: Seq<SyntaxNodeView>,
    defs: Seq<DefinitionView>,
    names: Seq<Seq<char>>,
    file: Seq<char>,
    n: int,
) -> FileResult
    decreases n,
{
    if n <= 0 {
        FileResult { blocks: seq![], misses: seq![] }
    } else {
        let init = search(bytes, nodes, defs, names, file, n - 1);
        let found = blocks_for(bytes, nodes, defs, names[n - 1], defs.len() as int);
        if found.len() == 0 {
            FileResult {
                misses: init.misses.push(names[n - 1] + " not found in "@ + file),
                ..init
            }
        } else {
            FileResult { blocks: init.blocks + found, ..init }
        }
    }
}

/// What is shown of a definition.
fn block_text(bytes: &[u8], nodes: &Vec<SyntaxNode>, d: &Definition) -> (r: String)
    requires
        d.node < nodes.len(),
    ensures
        r@ == definition_block(bytes@, nodes.deep_view(), d@),
{
    let start: usize = extended_start_node(nodes, d.node);
    assert(nodes.deep_view()[start as int] == nodes[start as int]@);
    assert(nodes.deep_view()[d.node as int] == nodes[d.node as int]@);
    let mut out: String = "// ".to_owned();
    out.append(d.qualified.as_str());
    out.append(" (lines ");
    out.append(u128_text(nodes[start].start_row as u128 + 1).as_str());
    out.append("-");
    out.append(u128_text(nodes[d.node].end_row as u128 + 1).as_str());
    out.append(")\n");
    out.append(slice_text(bytes, nodes[start].start, nodes[d.node].end).as_str());
    out.append("\n");
    out
}

/// The blocks of the definitions that a request asks for.
fn collect_blocks(
    bytes: &[u8],
    nodes: &Vec<SyntaxNode>,
    defs: &Vec<Definition>,
    request: &str,
) -> (r: Vec<String>)
    requires
        forall|i: int| 0 <= i < defs@.len() ==> (#[trigger] defs@[i]).node < nodes.len(),
    ensures
        r.deep_view() == blocks_for(
            bytes@,
            nodes.deep_view(),
            defs.deep_view(),
            request@,
            defs.deep_view().len() as int,
        ),
{
    let mut out: Vec<String> = Vec::new();
    let mut i: usize = 0;
    assert(out.deep_view() =~= seq![]);
    while i < defs.len()
        invariant
            i <= defs.len(),
            forall|i: int| 0 <= i < defs@.len() ==> (#[trigger] defs@[i]).node < nodes.len(),
            out.deep_view() == blocks_for(
                bytes@,
                nodes.deep_view(),
                defs.deep_view(),
                request@,
                i as int,
            ),
        decreases defs.len() - i,
    {
        assert(defs.deep_view()[i as int] == defs[i as int]@);
        let ghost before = out.deep_view();
        if qualified_ends_with(defs[i].qualified.as_str(), request) {
            let b = block_text(bytes, nodes, &defs[i]);
            out.push(b);
            assert(out.deep_view() =~= before.push(b@));
        }
        i = i + 1;
    }
    out
}

// ---------------------------------------------------------------------------
// All files
// ---------------------------------------------------------------------------

/// The answer so far.
#[verifier::ext_equal]
pub struct Progress {
    pub text: Seq<char>,
    pub found: nat,
    pub misses: Seq<Seq<char>>,
    pub full: bool,
}

/// An error line for a file. Such a file does not end the answer.
pub open spec fn with_error(p: Progress, file: Seq<char>, message: Seq<char>) -> Progress {
    Progress {
        text: p.text + crate::tools::skeleton::file_header(file) + "error: "@ + message + "\n"@,
        ..p
    }
}

/// The blocks and misses of a file.
pub open spec fn with_result(p: Progress, file: Seq<char>, r: FileResult) -> Progress {
    let text = if r.blocks.len() == 0 {
        p.text
    } else {
        p.text + crate::tools::skeleton::file_header(file) + crate::text::concat(r.blocks)
    };
    let full = crate::text::byte_len(text) > MAX_TOTAL_BYTES;
    Progress {
        text: if full {
            text + "\n... output truncated ...\n"@
        } else {
            text
        },
        found: p.found + r.blocks.len(),
        misses: p.misses + r.misses,
        full,
    }
}

/// One more file, unless the answer is full.
pub open spec fn with_file(
    p: Progress,
    file: Seq<char>,
    input: SourceInputView,
    names: Seq<Seq<char>>,
) -> Progress {
    let ext = crate::tools::skeleton::lower_extension(file);
    if p.full {
        p
    } else {
        match crate::tools::tree_sitter_support::lang_of(ext) {
            None => with_error(
                p,
                file,
                "no skeleton support for ."@ + ext + "; use `read` instead"@,
            ),
            Some(lang) => match input {
                SourceInputView::Failed(e) => with_error(p, file, e),
                SourceInputView::Content(source) => {
                    let bytes = vstd::utf8::encode_utf8(source);
                    match crate::tools::tree_sitter_support::analysis(lang, source) {
                        Err(e) => with_error(p, file, e),
                        Ok(s) => with_result(
                            p,
                            file,
                            search(
                                bytes,
                                s.nodes,
                                definitions_of(bytes, s, s.matches.len() as int),
                                names,
                                file,
                                names.len() as int,
                            ),
                        ),
                    }
                },
            },
        }
    }
}

/// The first `n` files.
pub open spec fn search_first(
    files: Seq<Seq<char>>,
    inputs: Seq<SourceInputView>,
    names: Seq<Seq<char>>,
    n: int,
) -> Progress
    decreases n,
{
    if n <= 0 {
        Progress { text: seq![], found: 0, misses: seq![], full: false }
    } else {
        with_file(
            search_first(files, inputs, names, n - 1),
            files[n - 1],
            inputs[n - 1],
            names,
        )
    }
}

/// The footer that lists what was not found.
pub open spec fn footer(misses: Seq<Seq<char>>) -> Seq<char> {
    if misses.len() == 0 {
        seq![]
    } else {
        "\nnot found:\n"@ + crate::text::join(
            Seq::new(misses.len(), |i: int| "- "@ + misses[i]),
            "\n"@,
        )
    }
}

/// The answer to a call. It is an error when nothing was found.
pub open spec fn function_output(
    files: Seq<Seq<char>>,
    inputs: Seq<SourceInputView>,
    names: Seq<Seq<char>>,
) -> ToolOutputView {
    let p = search_first(files, inputs, names, files.len() as int);
    let text = p.text + footer(p.misses);
    if p.found == 0 {
        crate::tools::text_output(text, true)
    } else {
        crate::tools::summarized(
            crate::tools::text_output(text, false),
            "extracted "@ + crate::text::decimal(p.found) + " function(s)"@,
        )
    }
}

/// The footer that lists what was not found.
fn footer_text(misses: &Vec<String>) -> (r: String)
    ensures
        r@ == footer(misses.deep_view()),
{
    assert(misses.deep_view().len() == misses.len());
    if misses.len() == 0 {
        return String::new();
    }
    let mut parts: Vec<String> = Vec::new();
    let mut i: usize = 0;
    while i < misses.len()
        invariant
            i <= misses.len(),
            parts.len() == i,
            forall|j: int| 0 <= j < i ==> (#[trigger] parts@[j])@ == "- "@ + misses@[j]@,
        decreases misses.len() - i,
    {
        let mut p: String = "- ".to_owned();
        p.append(misses[i].as_str());
        parts.push(p);
        i = i + 1;
    }
    assert(parts.deep_view() =~= Seq::new(
        misses.deep_view().len(),
        |i: int| "- "@ + misses.deep_view()[i],
    ));
    let mut out: String = "\nnot found:\n".to_owned();
    out.append(str_join(&parts, "\n").as_str());
    out
}

/// Append all of a list to another one.
fn append_all(list: &mut Vec<String>, more: Vec<String>)
    ensures
        final(list).deep_view() == old(list).deep_view() + more.deep_view(),
{
    let mut rest = more;
    let ghost before = list.deep_view();
    let ghost tail = rest.deep_view();
    list.append(&mut rest);
    assert(list.deep_view() =~= before + tail);
}

/// What the names gave in a file: the blocks that were found and the names that were not.
fn search_file(
    bytes: &[u8],
    nodes: &Vec<SyntaxNode>,
    defs: &Vec<Definition>,
    names: &Vec<String>,
    file: &str,
) -> (r: (Vec<String>, Vec<String>))
    requires
        forall|i: int| 0 <= i < defs@.len() ==> (#[trigger] defs@[i]).node < nodes.len(),
    ensures
        ({
            let s = search(
                bytes@,
                nodes.deep_view(),
                defs.deep_view(),
                names.deep_view(),
                file@,
                names.deep_view().len() as int,
            );
            r.0.deep_view() == s.blocks && r.1.deep_view() == s.misses
        }),
{
    let mut blocks: Vec<String> = Vec::new();
    let mut misses: Vec<String> = Vec::new();
    let mut i: usize = 0;
    assert(blocks.deep_view() =~= seq![]);
    assert(misses.deep_view() =~= seq![]);
    while i < names.len()
        invariant
            i <= names.len(),
            forall|i: int| 0 <= i < defs@.len() ==> (#[trigger] defs@[i]).node < nodes.len(),
            ({
                let s = search(
                    bytes@,
                    nodes.deep_view(),
                    defs.deep_view(),
                    names.deep_view(),
                    file@,
                    i as int,
                );
                blocks.deep_view() == s.blocks && misses.deep_view() == s.misses
            }),
        decreases names.len() - i,
    {
        assert(names.deep_view()[i as int] == names[i as int]@);
        let found = collect_blocks(bytes, nodes, defs, names[i].as_str());
        assert(found.deep_view().len() == found.len());
        if found.len() == 0 {
            let ghost before = misses.deep_view();
            let mut m: String = names[i].clone();
            m.append(" not found in ");
            m.append(file);
            misses.push(m);
            assert(misses.deep_view() =~= before.push(m@));
        } else {
            append_all(&mut blocks, found);
        }
        i = i + 1;
    }
    (blocks, misses)
}

/// The answer while it is being made.
struct Answer {
    text: String,
    found: u128,
    misses: Vec<String>,
    full: bool,
}

impl View for Answer {
    type V = Progress;

    closed spec fn view(&self) -> Progress {
        Progress {
            text: self.text@,
            found: self.found as nat,
            misses: self.misses.deep_view(),
            full: self.full,
        }
    }
}

impl Answer {
    /// An error line for a file.
    fn add_error(&mut self, file: &str, message: &str)
        ensures
            final(self)@ == with_error(old(self)@, file@, message@),
    {
        self.text.append(file_header_text(file).as_str());
        self.text.append("error: ");
        self.text.append(message);
        self.text.append("\n");
    }

    /// The blocks and misses of a file.
    fn add_result(&mut self, file: &str, blocks: Vec<String>, misses: Vec<String>)
        requires
            old(self)@.found + blocks.deep_view().len() <= u128::MAX,
        ensures
            final(self)@ == with_result(
                old(self)@,
                file@,
                (FileResult { blocks: blocks.deep_view(), misses: misses.deep_view() }),
            ),
    {
        assert(blocks.deep_view().len() == blocks.len());
        append_all(&mut self.misses, misses);
        if blocks.len() > 0 {
            self.text.append(file_header_text(file).as_str());
            self.text.append(crate::text::str_concat(&blocks).as_str());
        }
        self.found = self.found + blocks.len() as u128;
        self.full = str_len(self.text.as_str()) > MAX_TOTAL_BYTES;
        if self.full {
            self.text.append("\n... output truncated ...\n");
        }
    }
}

/// The answer to a call, given what reading each file gave.
pub fn execute(request: &FunctionRequest, inputs: &Vec<SourceInput>) -> (r: ToolOutput)
    requires
        request.files.deep_view().len() == inputs.deep_view().len(),
    ensures
        r@ == function_output(
            request.files.deep_view(),
            inputs.deep_view(),
            request.names.deep_view(),
        ),
{
    let ghost fs = request.files.deep_view();
    let ghost given = inputs.deep_view();
    let ghost names = request.names.deep_view();
    let mut answer = Answer {
        text: String::new(),
        found: 0,
        misses: Vec::new(),
        full: false,
    };
    let mut i: usize = 0;
    assert(answer@ =~= search_first(fs, given, names, 0));
    while i < request.files.len() && !answer.full
        invariant
            i <= request.files.len(),
            fs == request.files.deep_view(),
            given == inputs.deep_view(),
            names == request.names.deep_view(),
            fs.len() == given.len(),
            answer@ == search_first(fs, given, names, i as int),
            answer.found <= i * usize::MAX,
        decreases request.files.len() - i,
    {
        assert(fs[i as int] == request.files[i as int]@);
        assert(given[i as int] == inputs[i as int]@);
        let file = request.files[i].as_str();
        let ext = find_extension(file);
        match Lang::from_extension(ext.as_str()) {
            None => {
                let mut m: String = "no skeleton support for .".to_owned();
                m.append(ext.as_str());
                m.append("; use `read` instead");
                answer.add_error(file, m.as_str());
            },
            Some(lang) => match &inputs[i] {
                SourceInput::Failed(e) => {
                    answer.add_error(file, e.as_str());
                },
                SourceInput::Content(source) => match analyze(lang, source.as_str()) {
                    Err(e) => {
                        answer.add_error(file, e.as_str());
                    },
                    Ok(s) => {
                        let bytes = source.as_str().as_bytes();
                        let defs = collect_defs(bytes, &s);
                        let (blocks, misses) = search_file(
                            bytes,
                            &s.nodes,
                            &defs,
                            &request.names,
                            file,
                        );
                        assert(blocks.deep_view().len() == blocks.len());
                        let ghost n = blocks.len();
                        assert(answer.found + n <= (i + 1) * usize::MAX <= u128::MAX)
                            by (nonlinear_arith)
                            requires
                                answer.found <= i * usize::MAX,
                                n <= usize::MAX,
                                i < usize::MAX,
                                usize::MAX <= 0xffff_ffff_ffff_ffff,
                        ;
                        answer.add_result(file, blocks, misses);
                    },
                },
            },
        }
        assert(i * usize::MAX <= (i + 1) * usize::MAX) by (nonlinear_arith);
        i = i + 1;
    }
    proof {
        if answer.full {
            lemma_full_stays(fs, given, names, i as int, fs.len() as int);
        }
    }
    let mut text = answer.text;
    text.append(footer_text(&answer.misses).as_str());
    if answer.found == 0 {
        return ToolOutput::error(text.as_str());
    }
    let mut summary: String = "extracted ".to_owned();
    summary.append(u128_text(answer.found).as_str());
    summary.append(" function(s)");
    ToolOutput::text(text.as_str()).with_summary(summary.as_str())
}

proof fn lemma_full_stays(
    files: Seq<Seq<char>>,
    inputs: Seq<SourceInputView>,
    names: Seq<Seq<char>>,
    m: int,
    n: int,
)
    requires
        0 <= m <= n,
        search_first(files, inputs, names, m).full,
    ensures
        search_first(files, inputs, names, n) == search_first(files, inputs, names, m),
    decreases n,
{
    if m < n {
        lemma_full_stays(files, inputs, names, m, n - 1);
    }
}

/// A request by full name finds the definition, and so does every dotted end of it.
pub proof fn law_request_by_suffix(prefix: Seq<char>, request: Seq<char>)
    ensures
        asks_for(request, request),
        asks_for(prefix + ("."@ + request), request),
{
    let q = prefix + ("."@ + request);
    assert(q.subrange(q.len() - ("."@ + request).len(), q.len() as int) =~= "."@ + request);
}

/// A request asks for a definition exactly when it is the full name, or what stands behind one of the
/// dots of it.
pub proof fn law_asks_for(qualified: Seq<char>, request: Seq<char>)
    ensures
        asks_for(qualified, request) <==> (qualified == request || exists|prefix: Seq<char>|
            qualified == #[trigger] (prefix + seq!['.']) + request),
{
    reveal_strlit(".");
    let suffix = "."@ + request;
    if crate::text::ends_with(qualified, suffix) {
        let prefix = qualified.subrange(0, qualified.len() - suffix.len());
        assert(qualified =~= prefix + qualified.subrange(
            qualified.len() - suffix.len(),
            qualified.len() as int,
        ));
        assert(qualified =~= (prefix + seq!['.']) + request);
    }
    if exists|prefix: Seq<char>| qualified == #[trigger] (prefix + seq!['.']) + request {
        let prefix = choose|prefix: Seq<char>| qualified == #[trigger] (prefix + seq!['.'])
            + request;
        assert(qualified =~= prefix + suffix);
        law_request_by_suffix(prefix, request);
    }
}

/// Names with `::` between their parts are taken as those with `.`.
pub proof fn law_double_colon_is_a_dot(first: Seq<char>, rest: Seq<char>)
    requires
        !first.contains(':'),
    ensures
        normal_name(first) == first,
        normal_name(first + "::"@ + rest) == first + "."@ + normal_name(rest),
{
    reveal_strlit("::");
    let from = "::"@;
    assert forall|j: int| 0 <= j < first.len() implies !crate::text::occurs_at(first, from, j) by {
        if crate::text::occurs_at(first, from, j) {
            assert(first.subrange(j, j + 2)[0] == ':');
            assert(first.contains(first[j]));
        }
    }
    crate::text::law_replace(first, from, "."@, first.len() as int);
    let all = first + from + rest;
    let at = first.len() as int;
    assert forall|j: int| 0 <= j < at implies !crate::text::occurs_at(all, from, j) by {
        if crate::text::occurs_at(all, from, j) {
            assert(all.subrange(j, j + 2)[0] == ':');
            assert(first[j] == ':');
            assert(first.contains(first[j]));
        }
    }
    assert(all.subrange(at, at + 2) =~= from);
    crate::text::law_replace(all, from, "."@, at);
    assert(all.subrange(0, at) =~= first);
    assert(all.subrange(at + 2, all.len() as int) =~= rest);
}

/// The text of a node of a source text.
pub open spec fn source_of(bytes: Seq<u8>, n: SyntaxNodeView) -> Seq<char> {
    crate::sse::utf8_lossy(bytes.subrange(n.start as int, n.end as int))
}

/// Whether the type that an `impl` block is for is named by a node: by the node that fills the `type`
/// field itself or, where that is a generic type, by the type identifier inside of it.
pub open spec fn names_the_type(nodes: Seq<SyntaxNodeView>, block: int, id: int) -> bool {
    exists|t: int|
        {
            &&& #[trigger] crate::tools::tree_sitter_support::inside(nodes, block, t)
            &&& nodes[t].field == Some("type"@)
            &&& forall|k: int|
                block < k < t && #[trigger] nodes[k].depth == nodes[block].depth + 1
                    ==> nodes[k].field != Some("type"@)
            &&& if t == id {
                nodes[t].kind == "type_identifier"@
            } else {
                &&& nodes[t].kind == "generic_type"@
                &&& crate::tools::tree_sitter_support::inside(nodes, t, id)
                &&& nodes[id].kind == "type_identifier"@
                &&& forall|k: int|
                    t < k < id && #[trigger] nodes[k].depth == nodes[t].depth + 1 ==> nodes[k].kind
                        != "type_identifier"@
            }
        }
}

proof fn lemma_impl_type(bytes: Seq<u8>, nodes: Seq<SyntaxNodeView>, block: int, id: int)
    requires
        names_the_type(nodes, block, id),
        nodes[id].start <= nodes[id].end <= bytes.len(),
    ensures
        impl_type(bytes, nodes, block) == Some(source_of(bytes, nodes[id])),
{
    let t = choose|t: int|
        {
            &&& #[trigger] crate::tools::tree_sitter_support::inside(nodes, block, t)
            &&& nodes[t].field == Some("type"@)
            &&& forall|k: int|
                block < k < t && #[trigger] nodes[k].depth == nodes[block].depth + 1
                    ==> nodes[k].field != Some("type"@)
            &&& if t == id {
                nodes[t].kind == "type_identifier"@
            } else {
                &&& nodes[t].kind == "generic_type"@
                &&& crate::tools::tree_sitter_support::inside(nodes, t, id)
                &&& nodes[id].kind == "type_identifier"@
                &&& forall|k: int|
                    t < k < id && #[trigger] nodes[k].depth == nodes[t].depth + 1 ==> nodes[k].kind
                        != "type_identifier"@
            }
        };
    reveal_strlit("type_identifier");
    reveal_strlit("generic_type");
    assert("type_identifier"@.len() == 15 && "generic_type"@.len() == 12);
    crate::tools::tree_sitter_support::law_child(
        nodes,
        block,
        t,
        crate::tools::tree_sitter_support::fills("type"@),
    );
    if t != id {
        crate::tools::tree_sitter_support::law_child(
            nodes,
            t,
            id,
            crate::tools::tree_sitter_support::of_kind("type_identifier"@),
        );
    }
}

/// A definition directly inside of something that has a name goes by the name of that and its own.
proof fn lemma_qualified_inside(
    bytes: Seq<u8>,
    nodes: Seq<SyntaxNodeView>,
    name: int,
    def: int,
    called: Seq<char>,
)
    requires
        containers(bytes, nodes, def).len() > 0,
        containers(bytes, nodes, def).last() == called,
    ensures
        ({
            let short = called + "."@ + crate::tools::tree_sitter_support::node_text(
                bytes,
                nodes[name],
            );
            let full = qualified(bytes, nodes, name, def);
            full == short || exists|prefix: Seq<char>| full == #[trigger] (prefix + "."@) + short
        }),
{
    let own = crate::tools::tree_sitter_support::node_text(bytes, nodes[name]);
    let cs = containers(bytes, nodes, def);
    let init = cs.drop_last();
    let short = called + "."@ + own;
    let all = cs.push(own);
    assert(all =~= init + (seq![called] + seq![own]));
    crate::text::law_join(seq![called], seq![own], "."@);
    assert(crate::text::join(seq![called], "."@) == called);
    assert(crate::text::join(seq![own], "."@) == own);
    assert(crate::text::join(seq![called] + seq![own], "."@) == short);
    if init.len() == 0 {
        assert(all =~= seq![called] + seq![own]);
    } else {
        crate::text::law_join(init, seq![called] + seq![own], "."@);
        let prefix = crate::text::join(init, "."@);
        assert(qualified(bytes, nodes, name, def) == (prefix + "."@) + short);
    }
}

/// A method in an `impl` block is called by the name of the type, for a generic type as for a plain
/// one, a dot, and its own name, perhaps behind the names of what the block is inside of; so a
/// request for `Type.method` asks for it.
pub proof fn law_method_goes_by_its_type(
    bytes: Seq<u8>,
    nodes: Seq<SyntaxNodeView>,
    block: int,
    body: int,
    id: int,
    name: int,
    def: int,
)
    requires
        crate::tools::tree_sitter_support::inside(nodes, block, body),
        crate::tools::tree_sitter_support::inside(nodes, body, def),
        nodes[block].kind == "impl_item"@,
        nodes[body].kind == "declaration_list"@,
        names_the_type(nodes, block, id),
        nodes[id].start <= nodes[id].end <= bytes.len(),
        nodes[name].start <= nodes[name].end <= bytes.len(),
    ensures
        ({
            let short = source_of(bytes, nodes[id]) + "."@ + source_of(bytes, nodes[name]);
            let full = qualified(bytes, nodes, name, def);
            &&& full == short || exists|prefix: Seq<char>|
                full == #[trigger] (prefix + "."@) + short
            &&& asks_for(full, short)
        }),
{
    lemma_impl_type(bytes, nodes, block, id);
    crate::tools::tree_sitter_support::law_parent(nodes, block, body);
    crate::tools::tree_sitter_support::law_parent(nodes, body, def);
    lemma_plain_body(bytes, nodes, body);
    let called = source_of(bytes, nodes[id]);
    assert(containers(bytes, nodes, body) == containers(bytes, nodes, block).push(called));
    assert(containers(bytes, nodes, def) == containers(bytes, nodes, body));
    lemma_qualified_inside(bytes, nodes, name, def, called);
    let short = called + "."@ + source_of(bytes, nodes[name]);
    let full = qualified(bytes, nodes, name, def);
    law_request_by_suffix(seq![], short);
    if full != short {
        let prefix = choose|prefix: Seq<char>| full == #[trigger] (prefix + "."@) + short;
        law_request_by_suffix(prefix, short);
        assert(full =~= prefix + ("."@ + short));
    }
}

/// The body of a block gives no name of its own to what is inside of it.
proof fn lemma_plain_body(bytes: Seq<u8>, nodes: Seq<SyntaxNodeView>, body: int)
    requires
        nodes[body].kind == "declaration_list"@ || nodes[body].kind == "class_body"@
            || nodes[body].kind == "block"@,
    ensures
        container_name(bytes, nodes, body) is None,
{
    reveal_strlit("declaration_list");
    reveal_strlit("class_body");
    reveal_strlit("block");
    reveal_strlit("impl_item");
    reveal_strlit("trait_item");
    reveal_strlit("mod_item");
    reveal_strlit("class_definition");
    reveal_strlit("class_declaration");
    reveal_strlit("abstract_class_declaration");
    assert("declaration_list"@.len() == 16 && "class_body"@.len() == 10 && "block"@.len() == 5);
    assert("impl_item"@.len() == 9 && "trait_item"@.len() == 10 && "mod_item"@.len() == 8);
    assert("class_definition"@.len() == 16 && "class_declaration"@.len() == 17);
    assert("abstract_class_declaration"@.len() == 26);
    assert("declaration_list"@[0] != "class_definition"@[0]);
    assert("class_body"@[0] != "trait_item"@[0]);
}

/// A definition in a trait, a module or a class is called by the name of that, a dot, and its own
/// name, perhaps behind the names of what that is inside of.
pub proof fn law_member_goes_by_its_container(
    bytes: Seq<u8>,
    nodes: Seq<SyntaxNodeView>,
    outer: int,
    body: int,
    title: int,
    name: int,
    def: int,
)
    requires
        crate::tools::tree_sitter_support::inside(nodes, outer, body),
        crate::tools::tree_sitter_support::inside(nodes, body, def),
        nodes[outer].kind == "trait_item"@ || nodes[outer].kind == "mod_item"@ || nodes[outer].kind
            == "class_definition"@ || nodes[outer].kind == "class_declaration"@
            || nodes[outer].kind == "abstract_class_declaration"@,
        nodes[body].kind == "declaration_list"@ || nodes[body].kind == "class_body"@
            || nodes[body].kind == "block"@,
        crate::tools::tree_sitter_support::inside(nodes, outer, title),
        nodes[title].field == Some("name"@),
        forall|k: int|
            outer < k < title && #[trigger] nodes[k].depth == nodes[outer].depth + 1
                ==> nodes[k].field != Some("name"@),
        nodes[title].start <= nodes[title].end <= bytes.len(),
        nodes[name].start <= nodes[name].end <= bytes.len(),
    ensures
        asks_for(
            qualified(bytes, nodes, name, def),
            source_of(bytes, nodes[title]) + "."@ + source_of(bytes, nodes[name]),
        ),
{
    reveal_strlit("impl_item");
    reveal_strlit("trait_item");
    reveal_strlit("mod_item");
    reveal_strlit("class_definition");
    reveal_strlit("class_declaration");
    reveal_strlit("abstract_class_declaration");
    assert("impl_item"@.len() == 9 && "trait_item"@.len() == 10 && "mod_item"@.len() == 8);
    assert("class_definition"@.len() == 16 && "class_declaration"@.len() == 17);
    assert("abstract_class_declaration"@.len() == 26);
    crate::tools::tree_sitter_support::law_parent(nodes, outer, body);
    crate::tools::tree_sitter_support::law_parent(nodes, body, def);
    lemma_plain_body(bytes, nodes, body);
    crate::tools::tree_sitter_support::law_child(
        nodes,
        outer,
        title,
        crate::tools::tree_sitter_support::fills("name"@),
    );
    let called = source_of(bytes, nodes[title]);
    assert(containers(bytes, nodes, body) == containers(bytes, nodes, outer).push(called));
    assert(containers(bytes, nodes, def) == containers(bytes, nodes, body));
    lemma_qualified_inside(bytes, nodes, name, def, called);
    let short = called + "."@ + source_of(bytes, nodes[name]);
    let full = qualified(bytes, nodes, name, def);
    law_request_by_suffix(seq![], short);
    if full != short {
        let prefix = choose|prefix: Seq<char>| full == #[trigger] (prefix + "."@) + short;
        law_request_by_suffix(prefix, short);
        assert(full =~= prefix + ("."@ + short));
    }
}

/// A definition at the top of a file goes by its own name.
pub proof fn law_free_definition_goes_by_its_name(
    bytes: Seq<u8>,
    nodes: Seq<SyntaxNodeView>,
    name: int,
    def: int,
)
    requires
        crate::tools::tree_sitter_support::inside(nodes, 0, def),
        nodes[0].depth == 0,
        nodes[0].kind == "source_file"@ || nodes[0].kind == "module"@ || nodes[0].kind
            == "program"@,
        nodes[name].start <= nodes[name].end <= bytes.len(),
    ensures
        qualified(bytes, nodes, name, def) == source_of(bytes, nodes[name]),
{
    reveal_strlit("source_file");
    reveal_strlit("module");
    reveal_strlit("program");
    reveal_strlit("impl_item");
    reveal_strlit("trait_item");
    reveal_strlit("mod_item");
    reveal_strlit("class_definition");
    reveal_strlit("class_declaration");
    reveal_strlit("abstract_class_declaration");
    assert("source_file"@.len() == 11 && "module"@.len() == 6 && "program"@.len() == 7);
    assert("impl_item"@.len() == 9 && "trait_item"@.len() == 10 && "mod_item"@.len() == 8);
    assert("class_definition"@.len() == 16 && "class_declaration"@.len() == 17);
    assert("abstract_class_declaration"@.len() == 26);
    crate::tools::tree_sitter_support::law_parent(nodes, 0, def);
    assert(crate::tools::tree_sitter_support::parent(nodes, 0) is None);
    assert(containers(bytes, nodes, 0) =~= Seq::empty());
    let own = source_of(bytes, nodes[name]);
    assert(Seq::<Seq<char>>::empty().push(own) =~= seq![own]);
}

/// The attributes and comments right before a definition belong to it: one by one as far as they go,
/// and nothing else.
pub proof fn law_annotations_belong(nodes: Seq<SyntaxNodeView>, i: int)
    requires
        0 <= i < nodes.len(),
    ensures
        match crate::tools::tree_sitter_support::prev_sibling(nodes, i) {
            Some(p) => {
                let kind = nodes[p].kind;
                extended_start(nodes, i) == if kind == "attribute_item"@ || kind
                    == "line_comment"@ || kind == "block_comment"@ || kind == "decorator"@ || kind
                    == "comment"@ {
                    extended_start(nodes, p)
                } else {
                    i
                }
            },
            None => extended_start(nodes, i) == i,
        },
        0 <= extended_start(nodes, i) <= i,
    decreases i,
{
    crate::tools::tree_sitter_support::law_prev_sibling(nodes, i);
    if let Some(p) = crate::tools::tree_sitter_support::prev_sibling(nodes, i) {
        law_annotations_belong(nodes, p);
    }
}

proof fn lemma_block_found(
    bytes: Seq<u8>,
    nodes: Seq<SyntaxNodeView>,
    defs: Seq<DefinitionView>,
    request: Seq<char>,
    k: int,
    n: int,
)
    requires
        0 <= k < n <= defs.len(),
        asks_for(defs[k].qualified, request),
    ensures
        blocks_for(bytes, nodes, defs, request, n).contains(
            definition_block(bytes, nodes, defs[k]),
        ),
    decreases n,
{
    let all = blocks_for(bytes, nodes, defs, request, n);
    let b = definition_block(bytes, nodes, defs[k]);
    if k == n - 1 {
        assert(all[all.len() - 1] == b);
    } else {
        lemma_block_found(bytes, nodes, defs, request, k, n - 1);
        let init = blocks_for(bytes, nodes, defs, request, n - 1);
        let j = init.index_of(b);
        assert(all[j] == b);
    }
}

proof fn lemma_search_found(
    bytes: Seq<u8>,
    nodes: Seq<SyntaxNodeView>,
    defs: Seq<DefinitionView>,
    names: Seq<Seq<char>>,
    file: Seq<char>,
    k: int,
    q: int,
    n: int,
)
    requires
        0 <= k < defs.len(),
        0 <= q < n <= names.len(),
        asks_for(defs[k].qualified, names[q]),
    ensures
        search(bytes, nodes, defs, names, file, n).blocks.contains(
            definition_block(bytes, nodes, defs[k]),
        ),
    decreases n,
{
    let b = definition_block(bytes, nodes, defs[k]);
    let all = search(bytes, nodes, defs, names, file, n).blocks;
    let init = search(bytes, nodes, defs, names, file, n - 1).blocks;
    let found = blocks_for(bytes, nodes, defs, names[n - 1], defs.len() as int);
    if q == n - 1 {
        lemma_block_found(bytes, nodes, defs, names[q], k, defs.len() as int);
        let j = found.index_of(b);
        assert(all[init.len() + j] == b);
    } else {
        lemma_search_found(bytes, nodes, defs, names, file, k, q, n - 1);
        let j = init.index_of(b);
        assert(all[j] == b);
    }
}

proof fn lemma_concat_contains(parts: Seq<Seq<char>>, j: int)
    requires
        0 <= j < parts.len(),
    ensures
        crate::text::contains(crate::text::concat(parts), parts[j]),
{
    let a = parts.subrange(0, j);
    let b = parts.subrange(j + 1, parts.len() as int);
    crate::text::law_concat(a, seq![parts[j]]);
    crate::text::law_concat(a + seq![parts[j]], b);
    assert(parts =~= a + seq![parts[j]] + b);
    let all = crate::text::concat(parts);
    let at = crate::text::concat(a).len() as int;
    assert(crate::text::concat(seq![parts[j]]) == parts[j]);
    assert(all.subrange(at, at + parts[j].len()) =~= parts[j]);
    assert(crate::text::occurs_at(all, parts[j], at));
}

/// What the answer holds stays in it when more files follow.
proof fn lemma_text_stays(
    files: Seq<Seq<char>>,
    inputs: Seq<SourceInputView>,
    names: Seq<Seq<char>>,
    m: int,
    n: int,
)
    requires
        0 <= m <= n,
    ensures
        search_first(files, inputs, names, m).text.len() <= search_first(
            files,
            inputs,
            names,
            n,
        ).text.len(),
        search_first(files, inputs, names, n).text.subrange(
            0,
            search_first(files, inputs, names, m).text.len() as int,
        ) == search_first(files, inputs, names, m).text,
        search_first(files, inputs, names, m).found <= search_first(files, inputs, names, n).found,
    decreases n,
{
    let a = search_first(files, inputs, names, m).text;
    let b = search_first(files, inputs, names, n).text;
    if m == n {
        assert(a.subrange(0, a.len() as int) =~= a);
    } else {
        lemma_text_stays(files, inputs, names, m, n - 1);
        let c = search_first(files, inputs, names, n - 1).text;
        assert(b.subrange(0, c.len() as int) =~= c);
        assert(b.subrange(0, a.len() as int) =~= c.subrange(0, a.len() as int));
    }
}

/// Every definition that a name asks for is in the answer, under its full name and lines, with its
/// source from its first annotation to its end; the answer is then no error. Only files behind the
/// one with which the answer grew too long are left out.
pub proof fn law_asked_definition_is_shown(
    files: Seq<Seq<char>>,
    inputs: Seq<SourceInputView>,
    names: Seq<Seq<char>>,
    source: Seq<char>,
    lang: Lang,
    s: SyntaxView,
    i: int,
    k: int,
    q: int,
)
    requires
        files.len() == inputs.len(),
        0 <= i < files.len(),
        !search_first(files, inputs, names, i).full,
        crate::tools::tree_sitter_support::lang_of(crate::tools::skeleton::lower_extension(files[i]))
            == Some(lang),
        inputs[i] == SourceInputView::Content(source),
        crate::tools::tree_sitter_support::analysis(lang, source) == Ok::<SyntaxView, Seq<char>>(s),
        0 <= k < definitions_of(
            vstd::utf8::encode_utf8(source),
            s,
            s.matches.len() as int,
        ).len(),
        0 <= q < names.len(),
        asks_for(
            definitions_of(
                vstd::utf8::encode_utf8(source),
                s,
                s.matches.len() as int,
            )[k].qualified,
            names[q],
        ),
    ensures
        ({
            let bytes = vstd::utf8::encode_utf8(source);
            let d = definitions_of(bytes, s, s.matches.len() as int)[k];
            let first = s.nodes[extended_start(s.nodes, d.node as int)];
            let node = s.nodes[d.node as int];
            let answer = function_output(files, inputs, names);
            &&& !answer.is_error
            &&& answer.content.len() == 1
            &&& answer.content[0] is Text
            &&& first.start <= node.end <= bytes.len() ==> crate::text::contains(
                answer.content[0]->Text_0.text,
                "// "@ + d.qualified + " (lines "@ + crate::text::decimal(
                    first.start_row as nat + 1,
                ) + "-"@ + crate::text::decimal(node.end_row as nat + 1) + ")\n"@
                    + crate::sse::utf8_lossy(
                    bytes.subrange(first.start as int, node.end as int),
                ) + "\n"@,
            )
        }),
{
    let bytes = vstd::utf8::encode_utf8(source);
    let defs = definitions_of(bytes, s, s.matches.len() as int);
    let block = definition_block(bytes, s.nodes, defs[k]);
    let found = search(bytes, s.nodes, defs, names, files[i], names.len() as int);
    lemma_search_found(bytes, s.nodes, defs, names, files[i], k, q, names.len() as int);
    let j = found.blocks.index_of(block);
    lemma_concat_contains(found.blocks, j);
    let p = search_first(files, inputs, names, i);
    let after = search_first(files, inputs, names, i + 1);
    let head = p.text + crate::tools::skeleton::file_header(files[i]);
    let joined = crate::text::concat(found.blocks);
    let at = choose|at: int| crate::text::occurs_at(joined, block, at);
    assert(after == with_result(p, files[i], found));
    let place = head.len() + at;
    assert(after.text.subrange(place, place + block.len()) =~= joined.subrange(
        at,
        at + block.len(),
    ));
    lemma_text_stays(files, inputs, names, i + 1, files.len() as int);
    let last = search_first(files, inputs, names, files.len() as int);
    let text = last.text + footer(last.misses);
    assert(text.subrange(place, place + block.len()) =~= last.text.subrange(
        0,
        after.text.len() as int,
    ).subrange(place, place + block.len()));
    assert(crate::text::occurs_at(text, block, place));
}

/// A name that asks for no definition of a file is reported as not found there.
pub proof fn law_missing_name_is_reported(
    bytes: Seq<u8>,
    nodes: Seq<SyntaxNodeView>,
    defs: Seq<DefinitionView>,
    names: Seq<Seq<char>>,
    file: Seq<char>,
    q: int,
    n: int,
)
    requires
        0 <= q < n <= names.len(),
    ensures
        (forall|k: int|
            0 <= k < defs.len() ==> !asks_for((#[trigger] defs[k]).qualified, names[q]))
            ==> search(bytes, nodes, defs, names, file, n).misses.contains(
            names[q] + " not found in "@ + file,
        ),
    decreases n,
{
    let missing = names[q] + " not found in "@ + file;
    let all = search(bytes, nodes, defs, names, file, n).misses;
    if forall|k: int|
        0 <= k < defs.len() ==> !asks_for((#[trigger] defs[k]).qualified, names[q]) {
        if q == n - 1 {
            lemma_no_blocks(bytes, nodes, defs, names[q], defs.len() as int);
            assert(all[all.len() - 1] == missing);
        } else {
            law_missing_name_is_reported(bytes, nodes, defs, names, file, q, n - 1);
            let init = search(bytes, nodes, defs, names, file, n - 1).misses;
            let j = init.index_of(missing);
            assert(all[j] == missing);
        }
    }
}

proof fn lemma_no_blocks(
    bytes: Seq<u8>,
    nodes: Seq<SyntaxNodeView>,
    defs: Seq<DefinitionView>,
    request: Seq<char>,
    n: int,
)
    requires
        0 <= n <= defs.len(),
        forall|k: int| 0 <= k < defs.len() ==> !asks_for((#[trigger] defs[k]).qualified, request),
    ensures
        blocks_for(bytes, nodes, defs, request, n).len() == 0,
    decreases n,
{
    if n > 0 {
        lemma_no_blocks(bytes, nodes, defs, request, n - 1);
        assert(!asks_for(defs[n - 1].qualified, request));
    }
}

/// Every match that captures the name and the whole of a definition gives a definition.
pub proof fn law_every_match_is_a_definition(
    bytes: Seq<u8>,
    s: SyntaxView,
    m: Seq<CaptureView>,
    name: int,
    def: int,
)
    requires
        0 <= name < m.len(),
        0 <= def < m.len(),
        crate::text::starts_with(m[name].name, "name.def"@),
        crate::text::starts_with(m[def].name, "definition"@),
        forall|k: int|
            0 <= k < name ==> !crate::text::starts_with((#[trigger] m[k]).name, "name.def"@),
        forall|k: int|
            0 <= k < def ==> !crate::text::starts_with((#[trigger] m[k]).name, "definition"@),
    ensures
        definition_of(bytes, s, m) == Some(
            DefinitionView {
                qualified: qualified(bytes, s.nodes, m[name].node as int, m[def].node as int),
                node: m[def].node,
            },
        ),
{
    crate::tools::skeleton::law_first_capture(m, "name.def"@, name);
    crate::tools::skeleton::law_first_capture(m, "definition"@, def);
}

/// `b` shows a definition that one of the first `n` names asks for.
pub open spec fn is_asked_block(
    bytes: Seq<u8>,
    nodes: Seq<SyntaxNodeView>,
    defs: Seq<DefinitionView>,
    names: Seq<Seq<char>>,
    n: int,
    b: Seq<char>,
) -> bool {
    exists|k: int, q: int|
        0 <= k < defs.len() && 0 <= q < n && #[trigger] asks_for(defs[k].qualified, names[q]) && b
            == definition_block(bytes, nodes, defs[k])
}

proof fn lemma_blocks_for(
    bytes: Seq<u8>,
    nodes: Seq<SyntaxNodeView>,
    defs: Seq<DefinitionView>,
    names: Seq<Seq<char>>,
    q: int,
    n: int,
)
    requires
        0 <= n <= defs.len(),
        0 <= q < names.len(),
    ensures
        forall|i: int|
            0 <= i < blocks_for(bytes, nodes, defs, names[q], n).len() ==> is_asked_block(
                bytes,
                nodes,
                defs,
                names,
                q + 1,
                #[trigger] blocks_for(bytes, nodes, defs, names[q], n)[i],
            ),
    decreases n,
{
    if n > 0 {
        lemma_blocks_for(bytes, nodes, defs, names, q, n - 1);
        let init = blocks_for(bytes, nodes, defs, names[q], n - 1);
        let all = blocks_for(bytes, nodes, defs, names[q], n);
        assert forall|i: int| 0 <= i < all.len() implies is_asked_block(
            bytes,
            nodes,
            defs,
            names,
            q + 1,
            #[trigger] all[i],
        ) by {
            if i < init.len() {
                assert(all[i] == init[i]);
            } else {
                assert(asks_for(defs[n - 1].qualified, names[q]));
            }
        }
    }
}

/// Nothing is shown that was not asked for: each block that a file gives is that of a definition for which
/// one of the names asks.
pub proof fn law_only_asked_definitions_are_shown(
    bytes: Seq<u8>,
    nodes: Seq<SyntaxNodeView>,
    defs: Seq<DefinitionView>,
    names: Seq<Seq<char>>,
    file: Seq<char>,
    n: int,
)
    requires
        0 <= n <= names.len(),
    ensures
        forall|i: int|
            0 <= i < search(bytes, nodes, defs, names, file, n).blocks.len() ==> is_asked_block(
                bytes,
                nodes,
                defs,
                names,
                n,
                #[trigger] search(bytes, nodes, defs, names, file, n).blocks[i],
            ),
    decreases n,
{
    if n > 0 {
        law_only_asked_definitions_are_shown(bytes, nodes, defs, names, file, n - 1);
        lemma_blocks_for(bytes, nodes, defs, names, n - 1, defs.len() as int);
        let init = search(bytes, nodes, defs, names, file, n - 1).blocks;
        let found = blocks_for(bytes, nodes, defs, names[n - 1], defs.len() as int);
        let all = search(bytes, nodes, defs, names, file, n).blocks;
        assert forall|i: int| 0 <= i < all.len() implies is_asked_block(
            bytes,
            nodes,
            defs,
            names,
            n,
            #[trigger] all[i],
        ) by {
            if i < init.len() {
                assert(all[i] == init[i]);
                let (k, q) = choose|k: int, q: int|
                    0 <= k < defs.len() && 0 <= q < n - 1 && #[trigger] asks_for(
                        defs[k].qualified,
                        names[q],
                    ) && init[i] == definition_block(bytes, nodes, defs[k]);
                assert(asks_for(defs[k].qualified, names[q]));
            } else {
                assert(all[i] == found[i - init.len()]);
            }
        }
    }
}

} // verus!
