//! Shared tree-sitter plumbing for the source-analysis tools.
//!
//! Every language gets one query that emits two kinds of captures:
//!
//! - `name.def.<kind>`: the identifier node naming the definition. Its row is the dedupe key for
//!   skeleton output; its text is the bare name.
//! - `definition.<kind>`: the whole definition node (function, class, impl, ...) whose text covers
//!   the body; ancestor walks and slicing key off it.

use tree_sitter::StreamingIterator;

use vstd::prelude::*;

use crate::sse::decode_lossy;
use crate::text::{str_ascii_lower, str_eq};

verus! {

/// Languages with skeleton / function-extraction support.
#[derive(Debug, Clone, Copy, PartialEq, Eq, Structural)]
pub enum Lang {
    Rust,
    Python,
    JavaScript,
    TypeScript,
    Tsx,
}

/// A node of a syntax tree. The nodes of a tree are listed in preorder: a node comes before its children, and they before its next sibling.
#[derive(Debug, PartialEq)]
pub struct SyntaxNode {
    pub kind: String,
    /// The field of the parent that the node fills.
    pub field: Option<String>,
    /// Its first byte.
    pub start: usize,
    /// The byte after its last one.
    pub end: usize,
    pub start_row: usize,
    pub end_row: usize,
    /// How many nodes it is inside of.
    pub depth: u32,
}

/// What a [`SyntaxNode`] holds.
#[verifier::ext_equal]
pub struct SyntaxNodeView {
    pub kind: Seq<char>,
    pub field: Option<Seq<char>>,
    pub start: usize,
    pub end: usize,
    pub start_row: usize,
    pub end_row: usize,
    pub depth: u32,
}

impl View for SyntaxNode {
    type V = SyntaxNodeView;

    open spec fn view(&self) -> SyntaxNodeView {
        SyntaxNodeView {
            kind: self.kind@,
            field: self.field.deep_view(),
            start: self.start,
            end: self.end,
            start_row: self.start_row,
            end_row: self.end_row,
            depth: self.depth,
        }
    }
}

impl DeepView for SyntaxNode {
    type V = SyntaxNodeView;

    open spec fn deep_view(&self) -> SyntaxNodeView {
        self@
    }
}

/// A node that a query found, under the name that the query gives it.
#[derive(Debug, PartialEq)]
pub struct Capture {
    pub name: String,
    /// The position of the node in the list.
    pub node: usize,
}

/// What a [`Capture`] holds.
#[verifier::ext_equal]
pub struct CaptureView {
    pub name: Seq<char>,
    pub node: usize,
}

impl View for Capture {
    type V = CaptureView;

    open spec fn view(&self) -> CaptureView {
        CaptureView {
            name: self.name@,
            node: self.node,
        }
    }
}

impl DeepView for Capture {
    type V = CaptureView;

    open spec fn deep_view(&self) -> CaptureView {
        self@
    }
}

/// The language of files with an extension.
pub open spec fn lang_of(ext: Seq<char>) -> Option<Lang> {
    let e = crate::text::ascii_lower(ext);
    if e == "rs"@ {
        Some(Lang::Rust)
    } else if e == "py"@ || e == "pyi"@ {
        Some(Lang::Python)
    } else if e == "js"@ || e == "mjs"@ || e == "cjs"@ || e == "jsx"@ {
        Some(Lang::JavaScript)
    } else if e == "ts"@ {
        Some(Lang::TypeScript)
    } else if e == "tsx"@ {
        Some(Lang::Tsx)
    } else {
        None
    }
}

/// The query for the definitions of a language.
pub open spec fn query_of(lang: Lang) -> Seq<char> {
    match lang {
        Lang::Rust => RUST_QUERY@,
        Lang::Python => PYTHON_QUERY@,
        Lang::JavaScript => JAVASCRIPT_QUERY@,
        Lang::TypeScript => TYPESCRIPT_QUERY@,
        Lang::Tsx => TYPESCRIPT_QUERY@,
    }
}

impl Lang {
    /// Extension dispatch. `None` means "no grammar for this extension".
    pub fn from_extension(ext: &str) -> (r: Option<Self>)
        ensures
            r == lang_of(ext@),
    {
        let e = str_ascii_lower(ext);
        let e = e.as_str();
        if str_eq(e, "rs") {
            Some(Lang::Rust)
        } else if str_eq(e, "py") || str_eq(e, "pyi") {
            Some(Lang::Python)
        } else if str_eq(e, "js") || str_eq(e, "mjs") || str_eq(e, "cjs") || str_eq(e, "jsx") {
            Some(Lang::JavaScript)
        } else if str_eq(e, "ts") {
            Some(Lang::TypeScript)
        } else if str_eq(e, "tsx") {
            Some(Lang::Tsx)
        } else {
            None
        }
    }

    /// The query for the definitions of the language.
    pub fn query(self) -> (r: &'static str)
        ensures
            r@ == query_of(self),
    {
        match self {
            Lang::Rust => RUST_QUERY,
            Lang::Python => PYTHON_QUERY,
            Lang::JavaScript => JAVASCRIPT_QUERY,
            Lang::TypeScript => TYPESCRIPT_QUERY,
            Lang::Tsx => TYPESCRIPT_QUERY,
        }
    }
}

pub const RUST_QUERY: &'static str =
    r#"
(function_item name: (identifier) @name.def.function) @definition.function
(function_signature_item name: (identifier) @name.def.function) @definition.function
(struct_item name: (type_identifier) @name.def.class) @definition.class
(enum_item name: (type_identifier) @name.def.class) @definition.class
(union_item name: (type_identifier) @name.def.class) @definition.class
(trait_item name: (type_identifier) @name.def.interface) @definition.interface
(type_item name: (type_identifier) @name.def.type) @definition.type
(mod_item name: (identifier) @name.def.module) @definition.module
(impl_item type: (type_identifier) @name.def.class) @definition.impl
"#;

pub const PYTHON_QUERY: &'static str =
    r#"
(function_definition name: (identifier) @name.def.function) @definition.function
(class_definition name: (identifier) @name.def.class) @definition.class
"#;

pub const JAVASCRIPT_QUERY: &'static str =
    r#"
(function_declaration name: (identifier) @name.def.function) @definition.function
(class_declaration name: (identifier) @name.def.class) @definition.class
(method_definition name: (property_identifier) @name.def.function) @definition.function
(lexical_declaration
  (variable_declarator
    name: (identifier) @name.def.function
    value: [(arrow_function) (function_expression)])) @definition.function
(generator_function_declaration name: (identifier) @name.def.function) @definition.function
"#;

pub const TYPESCRIPT_QUERY: &'static str =
    r#"
(function_declaration name: (identifier) @name.def.function) @definition.function
(class_declaration name: (type_identifier) @name.def.class) @definition.class
(abstract_class_declaration name: (type_identifier) @name.def.class) @definition.class
(interface_declaration name: (type_identifier) @name.def.interface) @definition.interface
(method_definition name: (property_identifier) @name.def.function) @definition.function
(method_signature name: (property_identifier) @name.def.function) @definition.function
(lexical_declaration
  (variable_declarator
    name: (identifier) @name.def.function
    value: [(arrow_function) (function_expression)])) @definition.function
(function_signature name: (identifier) @name.def.function) @definition.function
(generator_function_declaration name: (identifier) @name.def.function) @definition.function
"#;

// ---------------------------------------------------------------------------
// Parsing
// ---------------------------------------------------------------------------

/// A syntax tree.
#[verifier::external_type_specification]
#[verifier::external_body]
pub struct ExTree(tree_sitter::Tree);

/// A grammar.
#[verifier::external_type_specification]
#[verifier::external_body]
pub struct ExLanguage(tree_sitter::Language);

/// The language whose grammar this is.
pub uninterp spec fn language_of(language: tree_sitter::Language) -> Lang;

/// The nodes that the parser finds in a source text, or nothing where it gives up.
pub uninterp spec fn syntax_of(lang: Lang, source: Seq<char>) -> Option<Seq<SyntaxNodeView>>;

/// The nodes of a tree.
pub uninterp spec fn tree_nodes(tree: tree_sitter::Tree) -> Seq<SyntaxNodeView>;

/// The language whose grammar made a tree.
pub uninterp spec fn tree_language(tree: tree_sitter::Tree) -> Lang;

/// The text that a tree was made from.
pub uninterp spec fn tree_source(tree: tree_sitter::Tree) -> Seq<char>;

/// The numbers by which tree-sitter tells the nodes of a tree apart, in the same order.
pub uninterp spec fn tree_ids(tree: tree_sitter::Tree) -> Seq<usize>;

/// What a query finds in a source text, match by match, or nothing where it is no query of the
/// language.
pub uninterp spec fn matches_of(lang: Lang, query: Seq<char>, source: Seq<char>) -> Option<
    Seq<Seq<CaptureView>>,
>;

/// The grammar of a language: the `LANGUAGE` constants of the grammar crates, each turned into a
/// `tree_sitter::Language`.
#[verifier::external_body]
fn ts_language(lang: Lang) -> (r: tree_sitter::Language)
    ensures
        language_of(r) == lang,
{
    match lang {
        Lang::Rust => tree_sitter_rust::LANGUAGE.into(),
        Lang::Python => tree_sitter_python::LANGUAGE.into(),
        Lang::JavaScript => tree_sitter_javascript::LANGUAGE.into(),
        Lang::TypeScript => tree_sitter_typescript::LANGUAGE_TYPESCRIPT.into(),
        Lang::Tsx => tree_sitter_typescript::LANGUAGE_TSX.into(),
    }
}

/// `Parser::parse` of a fresh parser with the grammar set: the tree of a source text. The nodes
/// are named by [`syntax_of`]. The tree is one of that grammar and of that text.
#[verifier::external_body]
fn parse_tree(language: &tree_sitter::Language, source: &str) -> (r: Option<tree_sitter::Tree>)
    ensures
        match r {
            Some(t) => {
                &&& syntax_of(language_of(*language), source@) == Some(tree_nodes(t))
                &&& tree_language(t) == language_of(*language)
                &&& tree_source(t) == source@
            },
            None => syntax_of(language_of(*language), source@) is None,
        },
{
    let mut parser = tree_sitter::Parser::new();
    parser.set_language(language).ok()?;
    parser.parse(source, None)
}

/// `Tree::walk`: all nodes of a tree in preorder, with `Node::id` of each. No two nodes of a tree
/// have the same id.
#[verifier::external_body]
fn walk_tree(tree: &tree_sitter::Tree) -> (r: (Vec<SyntaxNode>, Vec<usize>))
    ensures
        r.0.deep_view() == tree_nodes(*tree),
        r.1@ == tree_ids(*tree),
        r.0@.len() == r.1@.len(),
        r.1@.no_duplicates(),
{
    let mut c = tree.walk();
    let mut r = (Vec::new(), Vec::new());
    loop {
        let n = c.node();
        r.1.push(n.id());
        let (kind, field) = (n.kind().to_owned(), c.field_name().map(str::to_owned));
        let (start, start_row) = (n.start_byte(), n.start_position().row);
        let (end, end_row, depth) = (n.end_byte(), n.end_position().row, c.depth());
        r.0.push(SyntaxNode { kind, field, start, end, start_row, end_row, depth });
        if !c.goto_first_child() {
            while !c.goto_next_sibling() {
                if !c.goto_parent() { return r; }
            }
        }
    }
}

/// Whether captures that carry node ids are the named ones.
pub open spec fn same_captures(
    found: Seq<(Seq<char>, usize)>,
    named: Seq<CaptureView>,
    ids: Seq<usize>,
) -> bool {
    found.len() == named.len() && forall|i: int|
        0 <= i < found.len() ==> (#[trigger] found[i]).0 == named[i].name && named[i].node
            < ids.len() && ids[named[i].node as int] == found[i].1
}

/// `QueryCursor::matches` of `Query::new`: the captures of each match, in the order in which the
/// matches are found. A captured node is given by its id; where it stands in the tree is named by
/// [`matches_of`]. The tree has to be one of the query's language, and the text the one it was
/// made from.
#[verifier::external_body]
fn run_query(
    tree: &tree_sitter::Tree,
    language: &tree_sitter::Language,
    query: &str,
    source: &str,
) -> (r: Option<Vec<Vec<(String, usize)>>>)
    requires
        tree_language(*tree) == language_of(*language),
        tree_source(*tree) == source@,
    ensures
        match r {
            Some(v) => {
                let named = matches_of(language_of(*language), query@, source@);
                &&& named is Some
                &&& named->0.len() == v@.len()
                &&& forall|i: int|
                    0 <= i < v@.len() ==> same_captures(
                        (#[trigger] v@[i]).deep_view(),
                        named->0[i],
                        tree_ids(*tree),
                    )
            },
            None => matches_of(language_of(*language), query@, source@) is None,
        },
{
    let q = tree_sitter::Query::new(language, query).ok()?;
    let mut cursor = tree_sitter::QueryCursor::new();
    let mut found = cursor.matches(&q, tree.root_node(), source.as_bytes());
    let mut r = Vec::new();
    while let Some(m) = found.next() {
        let name = |i: u32| q.capture_names()[i as usize].to_owned();
        r.push(m.captures().iter().map(|c| (name(c.index), c.node.id())).collect());
    }
    Some(r)
}

// ---------------------------------------------------------------------------
// Definitions of a source text
// ---------------------------------------------------------------------------

/// What the tools work on: the nodes of a source text, and the definitions found in it.
#[derive(Debug)]
pub struct Syntax {
    pub nodes: Vec<SyntaxNode>,
    pub matches: Vec<Vec<Capture>>,
}

/// What a [`Syntax`] holds.
#[verifier::ext_equal]
pub struct SyntaxView {
    pub nodes: Seq<SyntaxNodeView>,
    pub matches: Seq<Seq<CaptureView>>,
}

impl View for Syntax {
    type V = SyntaxView;

    open spec fn view(&self) -> SyntaxView {
        SyntaxView { nodes: self.nodes.deep_view(), matches: self.matches.deep_view() }
    }
}

impl SyntaxView {
    /// Every captured node is in the list.
    pub open spec fn wf(self) -> bool {
        forall|i: int, j: int|
            0 <= i < self.matches.len() && 0 <= j < self.matches[i].len() ==> (
            #[trigger] self.matches[i][j]).node < self.nodes.len()
    }
}

/// The definitions of a source text, or why there are none.
pub open spec fn analysis(lang: Lang, source: Seq<char>) -> core::result::Result<
    SyntaxView,
    Seq<char>,
> {
    match syntax_of(lang, source) {
        Some(nodes) => match matches_of(lang, query_of(lang), source) {
            Some(matches) => Ok(SyntaxView { nodes, matches }),
            None => Err("tree-sitter query failed to compile"@),
        },
        None => Err("parse failed"@),
    }
}

/// The position of an id.
fn position_of(ids: &Vec<usize>, id: usize) -> (r: Option<usize>)
    requires
        ids@.no_duplicates(),
    ensures
        r matches Some(i) ==> i < ids.len() && ids@[i as int] == id,
        forall|i: int| 0 <= i < ids.len() && #[trigger] ids@[i] == id ==> r == Some(i as usize),
{
    let mut i: usize = 0;
    while i < ids.len()
        invariant
            i <= ids.len(),
            ids@.no_duplicates(),
            forall|j: int| 0 <= j < i ==> #[trigger] ids@[j] != id,
        decreases ids.len() - i,
    {
        if ids[i] == id {
            return Some(i);
        }
        i = i + 1;
    }
    None
}

/// The captures of a match, by the position of their nodes.
fn resolve_captures(
    found: &Vec<(String, usize)>,
    ids: &Vec<usize>,
    Ghost(named): Ghost<Seq<CaptureView>>,
) -> (r: Vec<Capture>)
    requires
        ids@.no_duplicates(),
        same_captures(found.deep_view(), named, ids@),
    ensures
        r.deep_view() == named,
        forall|j: int| 0 <= j < named.len() ==> (#[trigger] named[j]).node < ids.len(),
{
    let mut out: Vec<Capture> = Vec::new();
    let mut i: usize = 0;
    while i < found.len()
        invariant
            i <= found.len(),
            ids@.no_duplicates(),
            same_captures(found.deep_view(), named, ids@),
            out.len() == i,
            forall|j: int| 0 <= j < i ==> (#[trigger] out@[j])@ == named[j],
        decreases found.len() - i,
    {
        assert(found.deep_view()[i as int] == (found[i as int].0@, found[i as int].1));
        assert(ids@[named[i as int].node as int] == found[i as int].1);
        let node: usize = match position_of(ids, found[i].1) {
            Some(p) => p,
            None => 0,
        };
        let c = Capture { name: found[i].0.clone(), node };
        assert(c@ =~= named[i as int]);
        out.push(c);
        i = i + 1;
    }
    assert(out.deep_view() =~= named);
    assert forall|j: int| 0 <= j < named.len() implies (#[trigger] named[j]).node < ids.len() by {
        assert(found.deep_view()[j].0 == named[j].name);
    }
    out
}

/// The definitions of a source text, or why there are none.
pub fn analyze(lang: Lang, source: &str) -> (r: core::result::Result<Syntax, String>)
    ensures
        match r {
            Ok(s) => analysis(lang, source@) == core::result::Result::<SyntaxView, Seq<char>>::Ok(
                s@,
            ) && s@.wf(),
            Err(e) => analysis(lang, source@) == core::result::Result::<SyntaxView, Seq<char>>::Err(
                e@,
            ),
        },
{
    let language = ts_language(lang);
    let tree = match parse_tree(&language, source) {
        Some(t) => t,
        None => {
            return Err("parse failed".to_owned());
        },
    };
    let found = match run_query(&tree, &language, lang.query(), source) {
        Some(f) => f,
        None => {
            return Err("tree-sitter query failed to compile".to_owned());
        },
    };
    let (nodes, ids) = walk_tree(&tree);
    let ghost named = matches_of(lang, query_of(lang), source@)->0;
    let mut matches: Vec<Vec<Capture>> = Vec::new();
    let mut i: usize = 0;
    while i < found.len()
        invariant
            i <= found.len(),
            found@.len() == named.len(),
            ids@.no_duplicates(),
            ids@ == tree_ids(tree),
            forall|i: int|
                0 <= i < found@.len() ==> same_captures(
                    (#[trigger] found@[i]).deep_view(),
                    named[i],
                    tree_ids(tree),
                ),
            matches.len() == i,
            forall|j: int| 0 <= j < i ==> (#[trigger] matches@[j]).deep_view() == named[j],
            forall|j: int, k: int|
                0 <= j < i && 0 <= k < named[j].len() ==> (#[trigger] named[j][k]).node < ids@.len(),
        decreases found.len() - i,
    {
        let m = resolve_captures(&found[i], &ids, Ghost(named[i as int]));
        matches.push(m);
        i = i + 1;
    }
    assert(matches.deep_view() =~= named);
    assert(nodes.deep_view().len() == nodes.len());
    Ok(Syntax { nodes, matches })
}

// ---------------------------------------------------------------------------
// Walking the nodes
// ---------------------------------------------------------------------------

/// The last node before `j` that is less deep than `depth`.
pub open spec fn enclosing(nodes: Seq<SyntaxNodeView>, depth: u32, j: int) -> Option<int>
    decreases j,
{
    if j <= 0 {
        None
    } else if nodes[j - 1].depth < depth {
        Some(j - 1)
    } else {
        enclosing(nodes, depth, j - 1)
    }
}

/// The node that a node is directly inside of.
pub open spec fn parent(nodes: Seq<SyntaxNodeView>, i: int) -> Option<int> {
    enclosing(nodes, nodes[i].depth, i)
}

/// The last node before `j` of a depth, unless a less deep one comes after it.
pub open spec fn same_depth(nodes: Seq<SyntaxNodeView>, depth: u32, j: int) -> Option<int>
    decreases j,
{
    if j <= 0 || nodes[j - 1].depth < depth {
        None
    } else if nodes[j - 1].depth == depth {
        Some(j - 1)
    } else {
        same_depth(nodes, depth, j - 1)
    }
}

/// The sibling before a node.
pub open spec fn prev_sibling(nodes: Seq<SyntaxNodeView>, i: int) -> Option<int> {
    same_depth(nodes, nodes[i].depth, i)
}

/// The first child from `j` on of a node of some depth that is accepted.
pub open spec fn child_from(
    nodes: Seq<SyntaxNodeView>,
    depth: u32,
    j: int,
    accepts: spec_fn(SyntaxNodeView) -> bool,
) -> Option<int>
    decreases nodes.len() - j,
{
    if j >= nodes.len() || nodes[j].depth <= depth {
        None
    } else if nodes[j].depth == depth + 1 && accepts(nodes[j]) {
        Some(j)
    } else {
        child_from(nodes, depth, j + 1, accepts)
    }
}

/// The first child of a node that is accepted.
pub open spec fn child(
    nodes: Seq<SyntaxNodeView>,
    i: int,
    accepts: spec_fn(SyntaxNodeView) -> bool,
) -> Option<int> {
    child_from(nodes, nodes[i].depth, i + 1, accepts)
}

/// Whether a node fills a field.
pub open spec fn fills(field: Seq<char>) -> spec_fn(SyntaxNodeView) -> bool {
    |n: SyntaxNodeView| n.field == Some(field)
}

/// Whether a node is of a kind.
pub open spec fn of_kind(kind: Seq<char>) -> spec_fn(SyntaxNodeView) -> bool {
    |n: SyntaxNodeView| n.kind == kind
}

/// The text of a range of bytes; empty where the range is none of the text.
pub open spec fn text_at(bytes: Seq<u8>, start: int, end: int) -> Seq<char> {
    if 0 <= start <= end <= bytes.len() {
        crate::sse::utf8_lossy(bytes.subrange(start, end))
    } else {
        seq![]
    }
}

/// The text of a node.
pub open spec fn node_text(bytes: Seq<u8>, n: SyntaxNodeView) -> Seq<char> {
    text_at(bytes, n.start as int, n.end as int)
}

/// The node that a node is directly inside of.
pub fn find_parent(nodes: &Vec<SyntaxNode>, i: usize) -> (r: Option<usize>)
    requires
        i < nodes.len(),
    ensures
        match r {
            Some(p) => parent(nodes.deep_view(), i as int) == Some(p as int) && p < i,
            None => parent(nodes.deep_view(), i as int) is None,
        },
{
    let ghost all = nodes.deep_view();
    let depth: u32 = nodes[i].depth;
    assert(all[i as int] == nodes[i as int]@);
    let mut j: usize = i;
    while j > 0
        invariant
            j <= i < nodes.len(),
            all == nodes.deep_view(),
            parent(all, i as int) == enclosing(all, depth, j as int),
        decreases j,
    {
        assert(all[j - 1] == nodes[j - 1]@);
        if nodes[j - 1].depth < depth {
            return Some(j - 1);
        }
        j = j - 1;
    }
    None
}

/// The sibling before a node.
pub fn find_prev_sibling(nodes: &Vec<SyntaxNode>, i: usize) -> (r: Option<usize>)
    requires
        i < nodes.len(),
    ensures
        match r {
            Some(p) => prev_sibling(nodes.deep_view(), i as int) == Some(p as int) && p < i,
            None => prev_sibling(nodes.deep_view(), i as int) is None,
        },
{
    let ghost all = nodes.deep_view();
    let depth: u32 = nodes[i].depth;
    assert(all[i as int] == nodes[i as int]@);
    let mut j: usize = i;
    while j > 0
        invariant
            j <= i < nodes.len(),
            all == nodes.deep_view(),
            prev_sibling(all, i as int) == same_depth(all, depth, j as int),
        decreases j,
    {
        assert(all[j - 1] == nodes[j - 1]@);
        if nodes[j - 1].depth < depth {
            return None;
        }
        if nodes[j - 1].depth == depth {
            return Some(j - 1);
        }
        j = j - 1;
    }
    None
}

/// The first child of a node that fills a field.
pub fn find_field(nodes: &Vec<SyntaxNode>, i: usize, field: &str) -> (r: Option<usize>)
    requires
        i < nodes.len(),
    ensures
        match r {
            Some(c) => child(nodes.deep_view(), i as int, fills(field@)) == Some(c as int) && c
                < nodes.len(),
            None => child(nodes.deep_view(), i as int, fills(field@)) is None,
        },
{
    let ghost all = nodes.deep_view();
    let depth: u32 = nodes[i].depth;
    assert(all[i as int] == nodes[i as int]@);
    let mut j: usize = i + 1;
    while j < nodes.len() && nodes[j].depth > depth
        invariant
            i < j <= nodes.len(),
            all == nodes.deep_view(),
            child(all, i as int, fills(field@)) == child_from(all, depth, j as int, fills(field@)),
        decreases nodes.len() - j,
    {
        assert(all[j as int] == nodes[j as int]@);
        if nodes[j].depth - 1 == depth {
            if let Some(f) = &nodes[j].field {
                if str_eq(f.as_str(), field) {
                    return Some(j);
                }
            }
        }
        j = j + 1;
    }
    proof {
        if j < nodes.len() {
            assert(all[j as int] == nodes[j as int]@);
        }
    }
    None
}

/// The first child of a node that is of a kind.
pub fn find_kind(nodes: &Vec<SyntaxNode>, i: usize, kind: &str) -> (r: Option<usize>)
    requires
        i < nodes.len(),
    ensures
        match r {
            Some(c) => child(nodes.deep_view(), i as int, of_kind(kind@)) == Some(c as int) && c
                < nodes.len(),
            None => child(nodes.deep_view(), i as int, of_kind(kind@)) is None,
        },
{
    let ghost all = nodes.deep_view();
    let depth: u32 = nodes[i].depth;
    assert(all[i as int] == nodes[i as int]@);
    let mut j: usize = i + 1;
    while j < nodes.len() && nodes[j].depth > depth
        invariant
            i < j <= nodes.len(),
            all == nodes.deep_view(),
            child(all, i as int, of_kind(kind@)) == child_from(all, depth, j as int, of_kind(kind@)),
        decreases nodes.len() - j,
    {
        assert(all[j as int] == nodes[j as int]@);
        if nodes[j].depth - 1 == depth && str_eq(nodes[j].kind.as_str(), kind) {
            return Some(j);
        }
        j = j + 1;
    }
    proof {
        if j < nodes.len() {
            assert(all[j as int] == nodes[j as int]@);
        }
    }
    None
}

/// The text of a range of bytes; empty where the range is none of the text.
pub fn slice_text(bytes: &[u8], start: usize, end: usize) -> (r: String)
    ensures
        r@ == text_at(bytes@, start as int, end as int),
{
    if start <= end && end <= bytes.len() {
        decode_lossy(vstd::slice::slice_subrange(bytes, start, end))
    } else {
        String::new()
    }
}

/// Whether a node is directly inside another one.
pub open spec fn inside(nodes: Seq<SyntaxNodeView>, outer: int, inner: int) -> bool {
    &&& 0 <= outer < inner < nodes.len()
    &&& nodes[inner].depth == nodes[outer].depth + 1
    &&& forall|k: int| outer < k < inner ==> (#[trigger] nodes[k]).depth > nodes[outer].depth
}

proof fn lemma_enclosing(nodes: Seq<SyntaxNodeView>, outer: int, inner: int, j: int)
    requires
        inside(nodes, outer, inner),
        outer < j <= inner,
    ensures
        enclosing(nodes, nodes[inner].depth, j) == Some(outer),
    decreases j,
{
    if j - 1 > outer {
        assert(nodes[j - 1].depth > nodes[outer].depth);
        lemma_enclosing(nodes, outer, inner, j - 1);
    }
}

/// The parent of a node is the one that it is directly inside of.
pub proof fn law_parent(nodes: Seq<SyntaxNodeView>, outer: int, inner: int)
    requires
        inside(nodes, outer, inner),
    ensures
        parent(nodes, inner) == Some(outer),
{
    lemma_enclosing(nodes, outer, inner, inner);
}

proof fn lemma_child_from(
    nodes: Seq<SyntaxNodeView>,
    outer: int,
    inner: int,
    accepts: spec_fn(SyntaxNodeView) -> bool,
    j: int,
)
    requires
        inside(nodes, outer, inner),
        accepts(nodes[inner]),
        forall|k: int|
            outer < k < inner && #[trigger] nodes[k].depth == nodes[outer].depth + 1 ==> !accepts(
                nodes[k],
            ),
        outer < j <= inner,
    ensures
        child_from(nodes, nodes[outer].depth, j, accepts) == Some(inner),
    decreases inner - j,
{
    if j < inner {
        assert(nodes[j].depth > nodes[outer].depth);
        lemma_child_from(nodes, outer, inner, accepts, j + 1);
    }
}

/// The first child that is accepted is the first of the nodes directly inside that are.
pub proof fn law_child(
    nodes: Seq<SyntaxNodeView>,
    outer: int,
    inner: int,
    accepts: spec_fn(SyntaxNodeView) -> bool,
)
    requires
        inside(nodes, outer, inner),
        accepts(nodes[inner]),
        forall|k: int|
            outer < k < inner && #[trigger] nodes[k].depth == nodes[outer].depth + 1 ==> !accepts(
                nodes[k],
            ),
    ensures
        child(nodes, outer, accepts) == Some(inner),
{
    lemma_child_from(nodes, outer, inner, accepts, outer + 1);
}

/// A node without an accepted one directly inside has no such child.
pub proof fn law_no_child(
    nodes: Seq<SyntaxNodeView>,
    outer: int,
    accepts: spec_fn(SyntaxNodeView) -> bool,
)
    requires
        0 <= outer < nodes.len(),
        forall|k: int| #[trigger] inside(nodes, outer, k) ==> !accepts(nodes[k]),
    ensures
        child(nodes, outer, accepts) is None,
{
    lemma_no_child(nodes, outer, accepts, outer + 1);
}

proof fn lemma_no_child(
    nodes: Seq<SyntaxNodeView>,
    outer: int,
    accepts: spec_fn(SyntaxNodeView) -> bool,
    j: int,
)
    requires
        0 <= outer < j,
        outer < nodes.len(),
        forall|k: int| outer < k < j ==> (#[trigger] nodes[k]).depth > nodes[outer].depth,
        forall|k: int| #[trigger] inside(nodes, outer, k) ==> !accepts(nodes[k]),
    ensures
        child_from(nodes, nodes[outer].depth, j, accepts) is None,
    decreases nodes.len() - j,
{
    if j < nodes.len() && nodes[j].depth > nodes[outer].depth {
        if nodes[j].depth == nodes[outer].depth + 1 {
            assert(inside(nodes, outer, j));
        }
        lemma_no_child(nodes, outer, accepts, j + 1);
    }
}

/// The sibling before a node is the last one of its depth, with only deeper nodes in between.
pub proof fn law_prev_sibling(nodes: Seq<SyntaxNodeView>, i: int)
    requires
        0 <= i < nodes.len(),
    ensures
        match prev_sibling(nodes, i) {
            Some(p) => {
                &&& 0 <= p < i
                &&& nodes[p].depth == nodes[i].depth
                &&& forall|k: int| p < k < i ==> (#[trigger] nodes[k]).depth > nodes[i].depth
            },
            None => forall|p: int|
                0 <= p < i && #[trigger] nodes[p].depth == nodes[i].depth ==> exists|k: int|
                    p < k < i && (#[trigger] nodes[k]).depth < nodes[i].depth,
        },
{
    lemma_same_depth(nodes, nodes[i].depth, i, i);
}

proof fn lemma_same_depth(nodes: Seq<SyntaxNodeView>, depth: u32, j: int, i: int)
    requires
        0 <= j <= i < nodes.len(),
        depth == nodes[i].depth,
        forall|k: int| j <= k < i ==> (#[trigger] nodes[k]).depth > depth,
    ensures
        match same_depth(nodes, depth, j) {
            Some(p) => {
                &&& 0 <= p < j
                &&& nodes[p].depth == depth
                &&& forall|k: int| p < k < i ==> (#[trigger] nodes[k]).depth > depth
            },
            None => forall|p: int|
                0 <= p < i && #[trigger] nodes[p].depth == depth ==> exists|k: int|
                    p < k < i && (#[trigger] nodes[k]).depth < depth,
        },
    decreases j,
{
    if j > 0 {
        if nodes[j - 1].depth > depth {
            lemma_same_depth(nodes, depth, j - 1, i);
        } else if nodes[j - 1].depth < depth {
            assert forall|p: int| 0 <= p < i && #[trigger] nodes[p].depth
                == depth implies exists|k: int|
                p < k < i && (#[trigger] nodes[k]).depth < depth by {
                assert(p < j - 1);
                assert(nodes[j - 1].depth < depth);
            }
        }
    }
}

/// Which language a file is in is told by its extension, whatever the case of its letters; each language
/// has a query of its own, but for the two kinds of TypeScript, which share one.
pub proof fn law_languages(ext: Seq<char>)
    ensures
        lang_of(ext) == Some(Lang::Rust) <==> crate::text::ascii_lower(ext) == "rs"@,
        lang_of(ext) == Some(Lang::Python) <==> crate::text::ascii_lower(ext) == "py"@
            || crate::text::ascii_lower(ext) == "pyi"@,
        lang_of(ext) == Some(Lang::JavaScript) <==> crate::text::ascii_lower(ext) == "js"@
            || crate::text::ascii_lower(ext) == "mjs"@ || crate::text::ascii_lower(ext) == "cjs"@
            || crate::text::ascii_lower(ext) == "jsx"@,
        lang_of(ext) == Some(Lang::TypeScript) <==> crate::text::ascii_lower(ext) == "ts"@,
        lang_of(ext) == Some(Lang::Tsx) <==> crate::text::ascii_lower(ext) == "tsx"@,
        query_of(Lang::Tsx) == query_of(Lang::TypeScript),
{
    reveal_strlit("rs");
    reveal_strlit("py");
    reveal_strlit("pyi");
    reveal_strlit("js");
    reveal_strlit("mjs");
    reveal_strlit("cjs");
    reveal_strlit("jsx");
    reveal_strlit("ts");
    reveal_strlit("tsx");
    assert("rs"@[0] != "py"@[0] && "rs"@[0] != "js"@[0] && "rs"@[0] != "ts"@[0]);
    assert("py"@[0] != "js"@[0] && "py"@[0] != "ts"@[0] && "js"@[0] != "ts"@[0]);
    assert("pyi"@[0] != "mjs"@[0] && "pyi"@[0] != "cjs"@[0] && "pyi"@[0] != "jsx"@[0]);
    assert("pyi"@[0] != "tsx"@[0] && "mjs"@[0] != "tsx"@[0] && "cjs"@[0] != "tsx"@[0]);
    assert("jsx"@[0] != "tsx"@[0]);
    assert("tsx"@.len() == 3 && "rs"@.len() == 2 && "py"@.len() == 2);
    assert("js"@.len() == 2 && "ts"@.len() == 2);
}

} // verus!
