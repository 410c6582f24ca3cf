//! The `get_file_skeleton` tool: a structural outline (classes, functions, methods, including
//! nested) of one or more source files.
//!
//! One header line per definition, in source order, deduped by start row. The header is the
//! definition's signature: the source slice from the definition's start through its body opener
//! (`{`, or `:` for Python). Multi-line signatures are collapsed onto one virtual line;
//! single-line signatures are emitted verbatim.
//!
//! Per-file failures render inline as `error: ...` blocks. The call is an error only when every
//! requested path failed.

use vstd::prelude::*;

use crate::json::{as_array, as_str, empty_object_value, get, with_entry, Json};
use crate::path::extension;
use crate::text::{
    chars_of, str_ascii_lower, str_contains, str_eq, str_len, str_lines, str_replace,
    str_starts_with, str_trim, str_trim_end_char, string_of, usize_text,
};
use crate::tools::tree_sitter_support::{
    analyze, slice_text, Capture, CaptureView, Lang, SyntaxNode, SyntaxNodeView, SyntaxView,
};
use crate::tools::{
    object_value, resolve_path, text_list_value, ToolOutput, ToolOutputView,
};
use crate::types::Tool;

verus! {

/// The most files of a call.
pub const MAX_PATHS: usize = 20;

/// The most bytes of an answer.
pub const MAX_TOTAL_BYTES: usize = 262_144;

/// What reading a source file gave.
#[derive(Debug, PartialEq)]
pub enum SourceInput {
    Content(String),
    /// The file could not be read; the text says why.
    Failed(String),
}

/// What a [`SourceInput`] holds.
#[verifier::ext_equal]
pub enum SourceInputView {
    Content(Seq<char>),
    Failed(Seq<char>),
}

impl View for SourceInput {
    type V = SourceInputView;

    open spec fn view(&self) -> SourceInputView {
        match *self {
            SourceInput::Content(s) => SourceInputView::Content(s@),
            SourceInput::Failed(e) => SourceInputView::Failed(e@),
        }
    }
}

impl DeepView for SourceInput {
    type V = SourceInputView;

    open spec fn deep_view(&self) -> SourceInputView {
        self@
    }
}

/// Whether this describes the tool.
pub open spec fn is_tool(t: crate::types::ToolView) -> bool {
    &&& t.name == "get_file_skeleton"@
    &&& t.description
        == "Quickly outline source files (functions, methods, classes, types; no bodies) using tree-sitter. Supports Rust, Python, JavaScript, TypeScript, and TSX. Other extensions return a per-file error suggesting `read` instead."@
    &&& t.parameters.value == crate::tools::object_schema(
        map![
            "paths"@ => crate::tools::text_list(
                MAX_PATHS as nat,
                "Paths to source files to outline (1-20)."@,
            ),
        ],
        seq!["paths"@],
    )
}

/// The description of the tool.
pub fn tool() -> (r: Tool)
    ensures
        is_tool(r@),
{
    let p = with_entry(
        empty_object_value(),
        "paths".to_owned(),
        text_list_value(MAX_PATHS, "Paths to source files to outline (1-20)."),
    );
    let required: Vec<String> = vec!["paths".to_owned()];
    assert(required.deep_view() =~= seq!["paths"@]);
    Tool {
        name: "get_file_skeleton".to_owned(),
        description: "Quickly outline source files (functions, methods, classes, types; no bodies) using tree-sitter. Supports Rust, Python, JavaScript, TypeScript, and TSX. Other extensions return a per-file error suggesting `read` instead.".to_owned(),
        parameters: object_value(p, &required),
    }
}

// ---------------------------------------------------------------------------
// Arguments
// ---------------------------------------------------------------------------

/// The list under a key.
pub open spec fn list_argument(args: Json, key: Seq<char>) -> Option<Seq<Json>> {
    match crate::json::field(args, key) {
        Some(v) => crate::json::as_elems(v),
        None => None,
    }
}

/// The texts among the first `n` elements.
pub open spec fn texts_of(elems: Seq<Json>, n: int) -> Seq<Seq<char>>
    decreases n,
{
    if n <= 0 {
        seq![]
    } else {
        let init = texts_of(elems, n - 1);
        match crate::json::as_string(elems[n - 1]) {
            Some(s) => init.push(s),
            None => init,
        }
    }
}

/// What is wrong with a list of 1 to `max` elements.
pub open spec fn list_error(elems: Option<Seq<Json>>, key: Seq<char>, max: nat) -> Option<
    Seq<char>,
> {
    match elems {
        None => Some("missing required argument: "@ + key),
        Some(e) => if e.len() == 0 || e.len() > max {
            Some(key + " must contain 1.."@ + crate::text::decimal(max) + " entries"@)
        } else {
            None
        },
    }
}

/// The files of a call: the texts among its paths, each inside the working directory.
pub open spec fn files_of(elems: Seq<Json>, cwd: Seq<char>) -> Seq<Seq<char>> {
    let texts = texts_of(elems, elems.len() as int);
    Seq::new(texts.len(), |i: int| crate::path::joined(cwd, texts[i]))
}

/// The list under a key.
pub(crate) fn get_list<'a>(args: &'a serde_json::Value, key: &str) -> (r: Option<
    &'a Vec<serde_json::Value>,
>)
    ensures
        match r {
            Some(v) => list_argument(crate::json::json_of(*args), key@) == Some(
                crate::json::jsons(v@),
            ),
            None => list_argument(crate::json::json_of(*args), key@) is None,
        },
{
    match get(args, key) {
        Some(v) => as_array(v),
        None => None,
    }
}

/// The texts among the elements.
pub(crate) fn collect_texts(elems: &Vec<serde_json::Value>) -> (r: Vec<String>)
    ensures
        r.deep_view() == texts_of(crate::json::jsons(elems@), elems@.len() as int),
{
    let ghost all = crate::json::jsons(elems@);
    let mut out: Vec<String> = Vec::new();
    let mut i: usize = 0;
    assert(out.deep_view() =~= seq![]);
    while i < elems.len()
        invariant
            i <= elems.len(),
            all == crate::json::jsons(elems@),
            out.deep_view() == texts_of(all, i as int),
        decreases elems.len() - i,
    {
        assert(all[i as int] == crate::json::json_of(elems@[i as int]));
        let ghost before = out.deep_view();
        if let Some(s) = as_str(&elems[i]) {
            out.push(s.to_owned());
            assert(out.deep_view() =~= before.push(s@));
        }
        i = i + 1;
    }
    out
}

/// The message for a missing list.
pub(crate) fn missing_message(key: &str) -> (r: String)
    ensures
        r@ == "missing required argument: "@ + key@,
{
    let mut out: String = "missing required argument: ".to_owned();
    out.append(key);
    out
}

/// The message for a list of the wrong length.
pub(crate) fn length_message(key: &str, max: usize) -> (r: String)
    ensures
        r@ == key@ + " must contain 1.."@ + crate::text::decimal(max as nat) + " entries"@,
{
    let mut out: String = key.to_owned();
    out.append(" must contain 1..");
    out.append(usize_text(max).as_str());
    out.append(" entries");
    out
}

/// Files inside the working directory.
pub(crate) fn resolve_all(paths: &Vec<String>, cwd: &str) -> (r: Vec<String>)
    ensures
        r.deep_view() == Seq::new(
            paths.deep_view().len(),
            |i: int| crate::path::joined(cwd@, paths.deep_view()[i]),
        ),
{
    let mut out: Vec<String> = Vec::new();
    let mut i: usize = 0;
    while i < paths.len()
        invariant
            i <= paths.len(),
            out.len() == i,
            forall|j: int|
                0 <= j < i ==> (#[trigger] out@[j])@ == crate::path::joined(cwd@, paths@[j]@),
        decreases paths.len() - i,
    {
        out.push(resolve_path(cwd, paths[i].as_str()));
        i = i + 1;
    }
    assert(out.deep_view() =~= Seq::new(
        paths.deep_view().len(),
        |i: int| crate::path::joined(cwd@, paths.deep_view()[i]),
    ));
    out
}

/// The files of a call, or why it cannot be done.
pub fn parse(args: &serde_json::Value, cwd: &str) -> (r: core::result::Result<
    Vec<String>,
    ToolOutput,
>)
    ensures
        ({
            let elems = list_argument(crate::json::json_of(*args), "paths"@);
            let error = list_error(elems, "paths"@, MAX_PATHS as nat);
            match r {
                Ok(files) => error is None && files.deep_view() == files_of(elems->0, cwd@),
                Err(o) => error is Some && o@ == crate::tools::text_output(error->0, true),
            }
        }),
{
    let elems = match get_list(args, "paths") {
        Some(e) => e,
        None => {
            return Err(ToolOutput::error(missing_message("paths").as_str()));
        },
    };
    assert(crate::json::jsons(elems@).len() == elems.len());
    if elems.len() == 0 || elems.len() > MAX_PATHS {
        return Err(ToolOutput::error(length_message("paths", MAX_PATHS).as_str()));
    }
    let texts = collect_texts(elems);
    Ok(resolve_all(&texts, cwd))
}

// ---------------------------------------------------------------------------
// Signatures
// ---------------------------------------------------------------------------

/// Whether a kind of node is the body of a definition.
pub open spec fn is_body(kind: Seq<char>) -> bool {
    ||| kind == "body"@
    ||| kind == "block"@
    ||| kind == "statement_block"@
    ||| kind == "field_declaration_list"@
    ||| kind == "declaration_list"@
    ||| kind == "enum_body"@
    ||| kind == "enum_variant_list"@
    ||| kind == "class_body"@
    ||| kind == "interface_body"@
}

/// Whether a node is the body of a definition.
pub open spec fn body_node() -> spec_fn(SyntaxNodeView) -> bool {
    |n: SyntaxNodeView| is_body(n.kind)
}

/// Where the body of a definition starts; its end where it has none.
pub open spec fn body_start(nodes: Seq<SyntaxNodeView>, i: int) -> int {
    match crate::tools::tree_sitter_support::child(nodes, i, body_node()) {
        Some(c) => nodes[c].start as int,
        None => nodes[i].end as int,
    }
}

/// A text without body openers and separators at its end.
pub open spec fn without_openers(s: Seq<char>) -> Seq<char>
    decreases s.len(),
{
    if s.len() > 0 && (s[s.len() - 1] == '{' || s[s.len() - 1] == ';') {
        without_openers(s.subrange(0, s.len() - 1))
    } else {
        s
    }
}

/// The lines that are not blank, each without blanks at its ends.
pub open spec fn tight_lines(lines: Seq<Seq<char>>, n: int) -> Seq<Seq<char>>
    decreases n,
{
    if n <= 0 {
        seq![]
    } else {
        let init = tight_lines(lines, n - 1);
        let l = crate::text::trim(lines[n - 1]);
        if l.len() == 0 {
            init
        } else {
            init.push(l)
        }
    }
}

/// Several lines on one, with the spaces that this leaves around brackets and commas taken out.
pub open spec fn collapsed(sig: Seq<char>) -> Seq<char> {
    let lines = crate::text::lines(sig);
    let one = crate::text::join(tight_lines(lines, lines.len() as int), " "@);
    let a = crate::text::replace(one, "( "@, "("@);
    let b = crate::text::replace(a, " )"@, ")"@);
    let c = crate::text::replace(b, " ,"@, ","@);
    let d = crate::text::replace(c, ",)"@, ")"@);
    let e = crate::text::replace(d, "[ "@, "["@);
    crate::text::replace(e, " ]"@, "]"@)
}

/// The signature in the text of a definition up to its body.
pub open spec fn signature_of(text: Seq<char>, keeps_colon: bool) -> Seq<char> {
    let bare = crate::text::trim(without_openers(crate::text::trim(text)));
    let sig = if keeps_colon {
        bare
    } else {
        crate::text::trim(crate::text::trim_end_char(bare, ':'))
    };
    if crate::text::contains(sig, "\n"@) {
        collapsed(sig)
    } else {
        sig
    }
}

/// The signature of a definition: its text up to its body. A Python header without a body loses
/// its colon.
pub open spec fn signature(bytes: Seq<u8>, nodes: Seq<SyntaxNodeView>, i: int) -> Seq<char> {
    let n = nodes[i];
    let stop = body_start(nodes, i);
    let python = n.kind == "function_definition"@ || n.kind == "class_definition"@;
    signature_of(
        crate::tools::tree_sitter_support::text_at(bytes, n.start as int, stop),
        stop != n.end || !python,
    )
}

/// Whether a kind of node is the body of a definition.
fn check_body(kind: &str) -> (r: bool)
    ensures
        r == is_body(kind@),
{
    str_eq(kind, "body") || str_eq(kind, "block") || str_eq(kind, "statement_block") || str_eq(
        kind,
        "field_declaration_list",
    ) || str_eq(kind, "declaration_list") || str_eq(kind, "enum_body") || str_eq(
        kind,
        "enum_variant_list",
    ) || str_eq(kind, "class_body") || str_eq(kind, "interface_body")
}

/// Where the body of a definition starts; its end where it has none.
fn find_body_start(nodes: &Vec<SyntaxNode>, i: usize) -> (r: usize)
    requires
        i < nodes.len(),
    ensures
        r == body_start(nodes.deep_view(), i as int),
{
    let ghost all = nodes.deep_view();
    let depth: u32 = nodes[i].depth;
    assert(all[i as int] == nodes[i as int]@);
    let mut j: usize = i + 1;
    while j < nodes.len() && nodes[j].depth > depth
        invariant
            i < j <= nodes.len(),
            all == nodes.deep_view(),
            crate::tools::tree_sitter_support::child(all, i as int, body_node())
                == crate::tools::tree_sitter_support::child_from(all, depth, j as int, body_node()),
        decreases nodes.len() - j,
    {
        assert(all[j as int] == nodes[j as int]@);
        if nodes[j].depth - 1 == depth && check_body(nodes[j].kind.as_str()) {
            return nodes[j].start;
        }
        j = j + 1;
    }
    proof {
        if j < nodes.len() {
            assert(all[j as int] == nodes[j as int]@);
        }
    }
    nodes[i].end
}

/// A text without body openers and separators at its end.
fn strip_openers(s: &str) -> (r: String)
    ensures
        r@ == without_openers(s@),
{
    let v = chars_of(s);
    let mut n: usize = v.len();
    assert(v@.subrange(0, v@.len() as int) =~= v@);
    while n > 0 && (v[n - 1] == '{' || v[n - 1] == ';')
        invariant
            n <= v.len(),
            without_openers(v@) == without_openers(v@.subrange(0, n as int)),
        decreases n,
    {
        let ghost p = v@.subrange(0, n as int);
        assert(p.subrange(0, p.len() - 1) =~= v@.subrange(0, n - 1));
        n = n - 1;
    }
    string_of(&v, 0, n)
}

/// Several lines on one.
fn collapse(sig: &str) -> (r: String)
    ensures
        r@ == collapsed(sig@),
{
    let lines = str_lines(sig);
    let ghost all = lines.deep_view();
    let mut parts: Vec<String> = Vec::new();
    let mut i: usize = 0;
    assert(parts.deep_view() =~= seq![]);
    while i < lines.len()
        invariant
            i <= lines.len(),
            all == lines.deep_view(),
            parts.deep_view() == tight_lines(all, i as int),
        decreases lines.len() - i,
    {
        assert(all[i as int] == lines[i as int]@);
        let l = str_trim(lines[i].as_str());
        let ghost before = parts.deep_view();
        if !l.as_str().is_empty() {
            parts.push(l);
            assert(parts.deep_view() =~= before.push(l@));
        }
        i = i + 1;
    }
    let one = crate::text::str_join(&parts, " ");
    let a = str_replace(one.as_str(), "( ", "(");
    let b = str_replace(a.as_str(), " )", ")");
    let c = str_replace(b.as_str(), " ,", ",");
    let d = str_replace(c.as_str(), ",)", ")");
    let e = str_replace(d.as_str(), "[ ", "[");
    str_replace(e.as_str(), " ]", "]")
}

/// The signature of a definition.
pub fn render_signature(bytes: &[u8], nodes: &Vec<SyntaxNode>, i: usize) -> (r: String)
    requires
        i < nodes.len(),
    ensures
        r@ == signature(bytes@, nodes.deep_view(), i as int),
{
    assert(nodes.deep_view()[i as int] == nodes[i as int]@);
    let stop: usize = find_body_start(nodes, i);
    let has_body: bool = stop != nodes[i].end;
    let python: bool = str_eq(nodes[i].kind.as_str(), "function_definition") || str_eq(
        nodes[i].kind.as_str(),
        "class_definition",
    );
    let text = slice_text(bytes, nodes[i].start, stop);
    let bare = str_trim(strip_openers(str_trim(text.as_str()).as_str()).as_str());
    let sig: String = if has_body || !python {
        bare
    } else {
        str_trim(str_trim_end_char(bare.as_str(), ':').as_str())
    };
    if str_contains(sig.as_str(), "\n") {
        collapse(sig.as_str())
    } else {
        sig
    }
}

// ---------------------------------------------------------------------------
// Outline of a source text
// ---------------------------------------------------------------------------

/// A header line and the row on which its definition is named.
#[verifier::ext_equal]
pub struct HeaderView {
    pub row: usize,
    pub line: Seq<char>,
}

/// Headers in the order of their rows, with one more unless its row has one.
pub open spec fn with_header(headers: Seq<HeaderView>, h: HeaderView) -> Seq<HeaderView>
    decreases headers.len(),
{
    if headers.len() == 0 {
        seq![h]
    } else if headers[0].row == h.row {
        headers
    } else if h.row < headers[0].row {
        seq![h] + headers
    } else {
        seq![headers[0]] + with_header(headers.subrange(1, headers.len() as int), h)
    }
}

/// The first capture whose name starts with a prefix.
pub open spec fn first_capture(m: Seq<CaptureView>, prefix: Seq<char>) -> Option<int>
    decreases m.len(),
{
    if m.len() == 0 {
        None
    } else {
        match first_capture(m.subrange(0, m.len() - 1), prefix) {
            Some(n) => Some(n),
            None => if crate::text::starts_with(m[m.len() - 1].name, prefix) {
                Some(m[m.len() - 1].node as int)
            } else {
                None
            },
        }
    }
}

/// The last capture whose name starts with a prefix.
pub open spec fn last_capture(m: Seq<CaptureView>, prefix: Seq<char>) -> Option<int>
    decreases m.len(),
{
    if m.len() == 0 {
        None
    } else if crate::text::starts_with(m[m.len() - 1].name, prefix) {
        Some(m[m.len() - 1].node as int)
    } else {
        last_capture(m.subrange(0, m.len() - 1), prefix)
    }
}

/// The header that a match gives: the signature of its definition, on the row of its name.
pub open spec fn header_of(bytes: Seq<u8>, s: SyntaxView, m: Seq<CaptureView>) -> Option<HeaderView> {
    match first_capture(m, "name.def"@) {
        Some(name) => {
            let def = match last_capture(m, "definition"@) {
                Some(d) => d,
                None => name,
            };
            Some(
                HeaderView {
                    row: s.nodes[name].start_row,
                    line: signature(bytes, s.nodes, def),
                },
            )
        },
        None => None,
    }
}

/// The headers of the first `n` matches.
pub open spec fn headers_of(bytes: Seq<u8>, s: SyntaxView, n: int) -> Seq<HeaderView>
    decreases n,
{
    if n <= 0 {
        seq![]
    } else {
        let init = headers_of(bytes, s, n - 1);
        match header_of(bytes, s, s.matches[n - 1]) {
            Some(h) => with_header(init, h),
            None => init,
        }
    }
}

/// The header lines of a source text.
pub open spec fn outline(source: Seq<char>, lang: Lang) -> core::result::Result<
    Seq<Seq<char>>,
    Seq<char>,
> {
    match crate::tools::tree_sitter_support::analysis(lang, source) {
        Ok(s) => {
            let hs = headers_of(vstd::utf8::encode_utf8(source), s, s.matches.len() as int);
            Ok(Seq::new(hs.len(), |i: int| hs[i].line))
        },
        Err(e) => Err(e),
    }
}

/// Whether rows strictly increase.
pub open spec fn rows_increase(headers: Seq<HeaderView>) -> bool {
    forall|i: int, j: int|
        0 <= i < j < headers.len() ==> (#[trigger] headers[i]).row < (#[trigger] headers[j]).row
}

proof fn lemma_with_header(headers: Seq<HeaderView>, h: HeaderView, k: int)
    requires
        rows_increase(headers),
        0 <= k <= headers.len(),
        forall|j: int| 0 <= j < k ==> (#[trigger] headers[j]).row < h.row,
        k < headers.len() ==> headers[k].row >= h.row,
    ensures
        with_header(headers, h) == (if k < headers.len() && headers[k].row == h.row {
            headers
        } else {
            headers.insert(k, h)
        }),
        rows_increase(with_header(headers, h)),
    decreases headers.len(),
{
    let r = if k < headers.len() && headers[k].row == h.row {
        headers
    } else {
        headers.insert(k, h)
    };
    if headers.len() == 0 {
        assert(r =~= seq![h]);
    } else if k == 0 {
        if headers[0].row != h.row {
            assert(r =~= seq![h] + headers);
        }
    } else {
        let rest = headers.subrange(1, headers.len() as int);
        assert(headers[0].row < h.row);
        assert forall|i: int, j: int| 0 <= i < j < rest.len() implies (#[trigger] rest[i]).row < (
        #[trigger] rest[j]).row by {
            assert(rest[i] == headers[i + 1] && rest[j] == headers[j + 1]);
        }
        assert forall|j: int| 0 <= j < k - 1 implies (#[trigger] rest[j]).row < h.row by {
            assert(rest[j] == headers[j + 1]);
        }
        lemma_with_header(rest, h, k - 1);
        assert(r =~= seq![headers[0]] + with_header(rest, h));
    }
    assert(with_header(headers, h) == r);
    assert(rows_increase(r)) by {
        assert forall|i: int, j: int| 0 <= i < j < r.len() implies (#[trigger] r[i]).row < (
        #[trigger] r[j]).row by {
            if r != headers {
                if i < k {
                    assert(r[i] == headers[i]);
                } else if i > k {
                    assert(r[i] == headers[i - 1]);
                }
                if j < k {
                    assert(r[j] == headers[j]);
                } else if j > k {
                    assert(r[j] == headers[j - 1]);
                    assert(headers[k].row <= headers[j - 1].row);
                }
            }
        }
    }
}

/// An outline is in source order, with one line for each row.
pub proof fn law_outline_in_source_order(bytes: Seq<u8>, s: SyntaxView, n: int)
    ensures
        rows_increase(headers_of(bytes, s, n)),
    decreases n,
{
    if n > 0 {
        law_outline_in_source_order(bytes, s, n - 1);
        let init = headers_of(bytes, s, n - 1);
        if let Some(h) = header_of(bytes, s, s.matches[n - 1]) {
            let k = lemma_slot(init, h.row);
            lemma_with_header(init, h, k);
        }
    }
}

proof fn lemma_slot(headers: Seq<HeaderView>, row: usize) -> (k: int)
    requires
        rows_increase(headers),
    ensures
        0 <= k <= headers.len(),
        forall|j: int| 0 <= j < k ==> (#[trigger] headers[j]).row < row,
        k < headers.len() ==> headers[k].row >= row,
    decreases headers.len(),
{
    if headers.len() == 0 {
        0
    } else {
        let last = headers[headers.len() - 1];
        if last.row < row {
            assert forall|j: int| 0 <= j < headers.len() implies (#[trigger] headers[j]).row
                < row by {
                if j < headers.len() - 1 {
                    assert(headers[j].row < headers[headers.len() - 1].row);
                }
            }
            headers.len() as int
        } else {
            let init = headers.subrange(0, headers.len() - 1);
            assert forall|i: int, j: int| 0 <= i < j < init.len() implies (#[trigger] init[i]).row
                < (#[trigger] init[j]).row by {
                assert(init[i] == headers[i] && init[j] == headers[j]);
            }
            let k = lemma_slot(init, row);
            assert forall|j: int| 0 <= j < k implies (#[trigger] headers[j]).row < row by {
                assert(headers[j] == init[j]);
            }
            if k < init.len() {
                assert(headers[k] == init[k]);
            }
            k
        }
    }
}

/// The first capture whose name starts with a prefix.
pub(crate) fn find_first_capture(m: &Vec<Capture>, prefix: &str) -> (r: Option<usize>)
    ensures
        match r {
            Some(n) => first_capture(m.deep_view(), prefix@) == Some(n as int) && exists|j: int|
                0 <= j < m.deep_view().len() && (#[trigger] m.deep_view()[j]).node == n,
            None => first_capture(m.deep_view(), prefix@) is None,
        },
{
    let ghost all = m.deep_view();
    let mut i: usize = 0;
    assert(all.subrange(0, 0) =~= seq![]);
    while i < m.len()
        invariant
            i <= m.len(),
            all == m.deep_view(),
            first_capture(all.subrange(0, i as int), prefix@) is None,
        decreases m.len() - i,
    {
        let ghost p = all.subrange(0, i + 1);
        assert(p.subrange(0, p.len() - 1) =~= all.subrange(0, i as int));
        assert(p[i as int] == m[i as int]@);
        if str_starts_with(m[i].name.as_str(), prefix) {
            proof {
                lemma_first_capture_stays(all, prefix@, i + 1);
                assert(all[i as int].node == m[i as int].node);
            }
            return Some(m[i].node);
        }
        i = i + 1;
    }
    assert(all.subrange(0, i as int) =~= all);
    None
}

proof fn lemma_first_capture_stays(m: Seq<CaptureView>, prefix: Seq<char>, n: int)
    requires
        0 <= n <= m.len(),
        first_capture(m.subrange(0, n), prefix) is Some,
    ensures
        first_capture(m, prefix) == first_capture(m.subrange(0, n), prefix),
    decreases m.len(),
{
    if n == m.len() {
        assert(m.subrange(0, n) =~= m);
    } else {
        let init = m.subrange(0, m.len() - 1);
        assert(init.subrange(0, n) =~= m.subrange(0, n));
        lemma_first_capture_stays(init, prefix, n);
    }
}

/// The last capture whose name starts with a prefix.
fn find_last_capture(m: &Vec<Capture>, prefix: &str) -> (r: Option<usize>)
    ensures
        match r {
            Some(n) => last_capture(m.deep_view(), prefix@) == Some(n as int) && exists|j: int|
                0 <= j < m.deep_view().len() && (#[trigger] m.deep_view()[j]).node == n,
            None => last_capture(m.deep_view(), prefix@) is None,
        },
{
    let ghost all = m.deep_view();
    let mut i: usize = m.len();
    assert(all.subrange(0, i as int) =~= all);
    while i > 0
        invariant
            i <= m.len(),
            all == m.deep_view(),
            last_capture(all, prefix@) == last_capture(all.subrange(0, i as int), prefix@),
        decreases i,
    {
        i = i - 1;
        let ghost p = all.subrange(0, i + 1);
        assert(p.subrange(0, p.len() - 1) =~= all.subrange(0, i as int));
        assert(p[i as int] == m[i as int]@);
        if str_starts_with(m[i].name.as_str(), prefix) {
            assert(all[i as int].node == m[i as int].node);
            return Some(m[i].node);
        }
    }
    None
}

/// A header line and its row.
struct Header {
    row: usize,
    line: String,
}

impl View for Header {
    type V = HeaderView;

    closed spec fn view(&self) -> HeaderView {
        HeaderView { row: self.row, line: self.line@ }
    }
}

impl DeepView for Header {
    type V = HeaderView;

    closed spec fn deep_view(&self) -> HeaderView {
        self@
    }
}

/// One more header, unless its row has one.
fn add_header(headers: &mut Vec<Header>, h: Header)
    requires
        rows_increase(old(headers).deep_view()),
    ensures
        final(headers).deep_view() == with_header(old(headers).deep_view(), h@),
        rows_increase(final(headers).deep_view()),
{
    let ghost all = headers.deep_view();
    let ghost hv = h@;
    let mut k: usize = 0;
    while k < headers.len() && headers[k].row < h.row
        invariant
            k <= headers.len(),
            all == headers.deep_view(),
            *headers == *old(headers),
            forall|j: int| 0 <= j < k ==> (#[trigger] all[j]).row < h.row,
        decreases headers.len() - k,
    {
        assert(all[k as int] == headers[k as int]@);
        k = k + 1;
    }
    proof {
        if k < headers.len() {
            assert(all[k as int] == headers[k as int]@);
        }
        lemma_with_header(all, hv, k as int);
    }
    if k < headers.len() && headers[k].row == h.row {
        return;
    }
    headers.insert(k, h);
    assert(headers.deep_view() =~= all.insert(k as int, hv));
}

/// Extract signature header lines: source-ordered, deduped by name row.
pub fn extract(source: &str, lang: Lang) -> (r: core::result::Result<Vec<String>, String>)
    ensures
        match r {
            Ok(v) => outline(source@, lang) == core::result::Result::<
                Seq<Seq<char>>,
                Seq<char>,
            >::Ok(v.deep_view()),
            Err(e) => outline(source@, lang) == core::result::Result::<
                Seq<Seq<char>>,
                Seq<char>,
            >::Err(e@),
        },
{
    let s = match analyze(lang, source) {
        Ok(s) => s,
        Err(e) => {
            return Err(e);
        },
    };
    let bytes = source.as_bytes();
    let mut headers: Vec<Header> = Vec::new();
    let mut i: usize = 0;
    assert(headers.deep_view() =~= seq![]);
    while i < s.matches.len()
        invariant
            i <= s.matches.len(),
            s@.wf(),
            headers.deep_view() == headers_of(bytes@, s@, i as int),
            rows_increase(headers.deep_view()),
        decreases s.matches.len() - i,
    {
        assert(s@.matches[i as int] == s.matches[i as int].deep_view());
        if let Some(name) = find_first_capture(&s.matches[i], "name.def") {
            proof {
                let j = choose|j: int|
                    0 <= j < s@.matches[i as int].len() && (#[trigger] s@.matches[i as int][j]).node
                        == name;
                assert(s@.matches[i as int][j].node < s@.nodes.len());
            }
            let def: usize = match find_last_capture(&s.matches[i], "definition") {
                Some(d) => {
                    proof {
                        let j = choose|j: int|
                            0 <= j < s@.matches[i as int].len() && (
                            #[trigger] s@.matches[i as int][j]).node == d;
                        assert(s@.matches[i as int][j].node < s@.nodes.len());
                    }
                    d
                },
                None => name,
            };
            assert(s@.nodes[name as int] == s.nodes[name as int]@);
            let line = render_signature(bytes, &s.nodes, def);
            add_header(&mut headers, Header { row: s.nodes[name].start_row, line });
        }
        i = i + 1;
    }
    let ghost hs = headers.deep_view();
    let mut out: Vec<String> = Vec::new();
    let mut k: usize = 0;
    while k < headers.len()
        invariant
            k <= headers.len(),
            hs == headers.deep_view(),
            out.len() == k,
            forall|j: int| 0 <= j < k ==> (#[trigger] out@[j])@ == hs[j].line,
        decreases headers.len() - k,
    {
        assert(hs[k as int] == headers[k as int]@);
        out.push(headers[k].line.clone());
        k = k + 1;
    }
    assert(out.deep_view() =~= Seq::new(hs.len(), |i: int| hs[i].line));
    Ok(out)
}

// ---------------------------------------------------------------------------
// All files
// ---------------------------------------------------------------------------

/// The lowercase extension of a file; empty where it has none.
pub open spec fn lower_extension(file: Seq<char>) -> Seq<char> {
    match crate::path::extension_of(file) {
        Some(e) => crate::text::ascii_lower(e),
        None => crate::text::ascii_lower(seq![]),
    }
}

/// The line that introduces a file.
pub open spec fn file_header(file: Seq<char>) -> Seq<char> {
    "===== "@ + file + " =====\n"@
}

/// Each line, followed by a line break.
pub open spec fn with_breaks(lines: Seq<Seq<char>>) -> Seq<char> {
    crate::text::concat(Seq::new(lines.len(), |i: int| lines[i].push('\n')))
}

/// What is shown of a file.
pub open spec fn file_outline(file: Seq<char>, input: SourceInputView) -> Seq<char> {
    let ext = lower_extension(file);
    match crate::tools::tree_sitter_support::lang_of(ext) {
        None => "error: "@ + file_header(file) + "no skeleton support for ."@ + ext
            + "; use `read` instead\n"@,
        Some(lang) => match input {
            SourceInputView::Failed(e) => "error: "@ + file_header(file) + e,
            SourceInputView::Content(source) => match outline(source, lang) {
                Err(e) => "error: "@ + file_header(file) + e,
                Ok(lines) => if lines.len() == 0 {
                    file_header(file) + "(no definitions found)\n"@
                } else {
                    file_header(file) + with_breaks(lines)
                },
            },
        },
    }
}

/// The answer so far: its text, how many files succeeded, and whether it is full.
#[verifier::ext_equal]
pub struct Progress {
    pub text: Seq<char>,
    pub ok: nat,
    pub full: bool,
}

/// One more file, unless the answer is full.
pub open spec fn with_file(p: Progress, shown: Seq<char>) -> Progress {
    if p.full {
        p
    } else {
        let text = p.text + shown;
        let full = crate::text::byte_len(text) > MAX_TOTAL_BYTES;
        Progress {
            text: if full {
                text + "\n... output truncated ...\n"@
            } else {
                text
            },
            ok: p.ok + if crate::text::starts_with(shown, "error:"@) {
                0nat
            } else {
                1
            },
            full,
        }
    }
}

/// The first `n` files.
pub open spec fn outline_first(
    files: Seq<Seq<char>>,
    inputs: Seq<SourceInputView>,
    n: int,
) -> Progress
    decreases n,
{
    if n <= 0 {
        Progress { text: seq![], ok: 0, full: false }
    } else {
        with_file(
            outline_first(files, inputs, n - 1),
            file_outline(files[n - 1], inputs[n - 1]),
        )
    }
}

/// The answer to a call. It is an error when no file succeeded.
pub open spec fn skeleton_output(files: Seq<Seq<char>>, inputs: Seq<SourceInputView>) ->
    ToolOutputView {
    let p = outline_first(files, inputs, files.len() as int);
    if p.ok == 0 {
        crate::tools::text_output(p.text, true)
    } else {
        crate::tools::summarized(
            crate::tools::text_output(p.text, false),
            "outlined "@ + crate::text::decimal(p.ok) + " file(s)"@,
        )
    }
}

/// The lowercase extension of a file; empty where it has none.
pub(crate) fn find_extension(file: &str) -> (r: String)
    ensures
        r@ == lower_extension(file@),
{
    match extension(file) {
        Some(e) => str_ascii_lower(e.as_str()),
        None => {
            let none: String = String::new();
            str_ascii_lower(none.as_str())
        },
    }
}

/// The line that introduces a file.
pub(crate) fn file_header_text(file: &str) -> (r: String)
    ensures
        r@ == file_header(file@),
{
    let mut out: String = "===== ".to_owned();
    out.append(file);
    out.append(" =====\n");
    out
}

/// Append each line, followed by a line break.
fn append_lines(out: &mut String, lines: &Vec<String>)
    ensures
        final(out)@ == old(out)@ + with_breaks(lines.deep_view()),
{
    let ghost parts = Seq::new(
        lines.deep_view().len(),
        |i: int| lines.deep_view()[i].push('\n'),
    );
    let mut i: usize = 0;
    assert(parts.subrange(0, 0) =~= seq![]);
    assert(old(out)@ + Seq::<char>::empty() =~= old(out)@);
    while i < lines.len()
        invariant
            i <= lines.len(),
            parts == Seq::new(lines.deep_view().len(), |i: int| lines.deep_view()[i].push('\n')),
            out@ == old(out)@ + crate::text::concat(parts.subrange(0, i as int)),
        decreases lines.len() - i,
    {
        let ghost p = parts.subrange(0, i + 1);
        assert(p.subrange(0, p.len() - 1) =~= parts.subrange(0, i as int));
        assert(p[i as int] == lines[i as int]@.push('\n'));
        out.append(lines[i].as_str());
        out.push('\n');
        assert(out@ =~= old(out)@ + crate::text::concat(p));
        i = i + 1;
    }
    assert(parts.subrange(0, i as int) =~= parts);
}

/// What is shown of a file.
pub fn outline_path(file: &str, input: &SourceInput) -> (r: String)
    ensures
        r@ == file_outline(file@, input@),
{
    let header = file_header_text(file);
    let ext = find_extension(file);
    let mut failure: String = "error: ".to_owned();
    failure.append(header.as_str());
    let lang = match Lang::from_extension(ext.as_str()) {
        Some(l) => l,
        None => {
            failure.append("no skeleton support for .");
            failure.append(ext.as_str());
            failure.append("; use `read` instead\n");
            return failure;
        },
    };
    match input {
        SourceInput::Failed(e) => {
            failure.append(e.as_str());
            failure
        },
        SourceInput::Content(source) => match extract(source.as_str(), lang) {
            Err(e) => {
                failure.append(e.as_str());
                failure
            },
            Ok(lines) => {
                let mut out = header;
                assert(lines.deep_view().len() == lines.len());
                if lines.len() == 0 {
                    out.append("(no definitions found)\n");
                } else {
                    append_lines(&mut out, &lines);
                }
                out
            },
        },
    }
}

/// The answer to a call, given what reading each file gave.
pub fn execute(files: &Vec<String>, inputs: &Vec<SourceInput>) -> (r: ToolOutput)
    requires
        files.deep_view().len() == inputs.deep_view().len(),
    ensures
        r@ == skeleton_output(files.deep_view(), inputs.deep_view()),
{
    let ghost fs = files.deep_view();
    let ghost given = inputs.deep_view();
    let mut out: String = String::new();
    let mut ok: usize = 0;
    let mut i: usize = 0;
    let mut full: bool = false;
    while i < files.len() && !full
        invariant
            i <= files.len(),
            fs == files.deep_view(),
            given == inputs.deep_view(),
            fs.len() == given.len(),
            ({
                let p = outline_first(fs, given, i as int);
                out@ == p.text && ok == p.ok && full == p.full
            }),
            ok <= i,
        decreases files.len() - i,
    {
        assert(fs[i as int] == files[i as int]@);
        assert(given[i as int] == inputs[i as int]@);
        let shown = outline_path(files[i].as_str(), &inputs[i]);
        if !str_starts_with(shown.as_str(), "error:") {
            ok = ok + 1;
        }
        out.append(shown.as_str());
        if str_len(out.as_str()) > MAX_TOTAL_BYTES {
            out.append("\n... output truncated ...\n");
            full = true;
        }
        i = i + 1;
    }
    proof {
        if full {
            lemma_full_stays(fs, given, i as int, fs.len() as int);
        }
    }
    if ok == 0 {
        return ToolOutput::error(out.as_str());
    }
    let mut summary: String = "outlined ".to_owned();
    summary.append(usize_text(ok).as_str());
    summary.append(" file(s)");
    ToolOutput::text(out.as_str()).with_summary(summary.as_str())
}

proof fn lemma_full_stays(
    files: Seq<Seq<char>>,
    inputs: Seq<SourceInputView>,
    m: int,
    n: int,
)
    requires
        0 <= m <= n,
        outline_first(files, inputs, m).full,
    ensures
        outline_first(files, inputs, n) == outline_first(files, inputs, m),
    decreases n,
{
    if m < n {
        lemma_full_stays(files, inputs, m, n - 1);
    }
}

/// The first capture with a prefix is the one before which no other has it.
pub proof fn law_first_capture(m: Seq<CaptureView>, prefix: Seq<char>, i: int)
    requires
        0 <= i < m.len(),
        crate::text::starts_with(m[i].name, prefix),
        forall|k: int|
            0 <= k < i ==> !crate::text::starts_with((#[trigger] m[k]).name, prefix),
    ensures
        first_capture(m, prefix) == Some(m[i].node as int),
    decreases m.len(),
{
    let init = m.subrange(0, m.len() - 1);
    if i < m.len() - 1 {
        assert(init[i] == m[i]);
        law_first_capture(init, prefix, i);
    } else {
        lemma_no_first_capture(init, prefix);
    }
}

proof fn lemma_no_first_capture(m: Seq<CaptureView>, prefix: Seq<char>)
    requires
        forall|k: int|
            0 <= k < m.len() ==> !crate::text::starts_with((#[trigger] m[k]).name, prefix),
    ensures
        first_capture(m, prefix) is None,
    decreases m.len(),
{
    if m.len() > 0 {
        let init = m.subrange(0, m.len() - 1);
        assert forall|k: int| 0 <= k < init.len() implies !crate::text::starts_with(
            (#[trigger] init[k]).name,
            prefix,
        ) by {
            assert(init[k] == m[k]);
        }
        lemma_no_first_capture(init, prefix);
    }
}

/// Whether a character counts in a signature: whitespace and commas may come and go as its lines are put
/// together.
pub open spec fn counts(c: char) -> bool {
    !crate::text::is_ws(c) && c != ','
}

/// The characters of a text that count.
pub open spec fn ink(s: Seq<char>) -> Seq<char> {
    s.filter(|c: char| counts(c))
}

proof fn lemma_ink_add(a: Seq<char>, b: Seq<char>)
    ensures
        ink(a + b) == ink(a) + ink(b),
{
    Seq::<char>::filter_distributes_over_add(a, b, |c: char| counts(c));
}

proof fn lemma_no_ink(s: Seq<char>)
    requires
        forall|i: int| 0 <= i < s.len() ==> !counts(#[trigger] s[i]),
    ensures
        ink(s) == Seq::<char>::empty(),
    decreases s.len(),
{
    reveal(Seq::filter);
    if s.len() > 0 {
        let init = s.drop_last();
        assert forall|i: int| 0 <= i < init.len() implies !counts(#[trigger] init[i]) by {
            assert(init[i] == s[i]);
        }
        lemma_no_ink(init);
    }
    assert(ink(s) =~= Seq::empty());
}

proof fn lemma_ink_trim(s: Seq<char>)
    ensures
        ink(crate::text::trim(s)) == ink(s),
{
    let t = crate::text::trim_start(s);
    let u = crate::text::trim_end(t);
    crate::text::law_trim_start(s);
    crate::text::law_trim_end(t);
    let head = s.subrange(0, s.len() - t.len());
    let tail = t.subrange(u.len() as int, t.len() as int);
    assert(s =~= head + t);
    assert(t =~= u + tail);
    lemma_ink_add(head, t);
    lemma_ink_add(u, tail);
    lemma_no_ink(head);
    lemma_no_ink(tail);
    assert(ink(s) =~= ink(u));
}

proof fn lemma_ink_replace(s: Seq<char>, from: Seq<char>, to: Seq<char>)
    requires
        ink(from) == ink(to),
    ensures
        ink(crate::text::replace(s, from, to)) == ink(s),
    decreases s.len(),
{
    if s.len() > 0 && from.len() > 0 {
        if crate::text::starts_with(s, from) {
            let rest = s.subrange(from.len() as int, s.len() as int);
            lemma_ink_replace(rest, from, to);
            assert(s =~= from + rest);
            lemma_ink_add(from, rest);
            lemma_ink_add(to, crate::text::replace(rest, from, to));
        } else {
            let rest = s.subrange(1, s.len() as int);
            lemma_ink_replace(rest, from, to);
            assert(s =~= seq![s[0]] + rest);
            lemma_ink_add(seq![s[0]], rest);
            lemma_ink_add(seq![s[0]], crate::text::replace(rest, from, to));
        }
    }
}

/// The characters of some lines that count.
spec fn ink_of(lines: Seq<Seq<char>>, n: int) -> Seq<char>
    decreases n,
{
    if n <= 0 {
        seq![]
    } else {
        ink_of(lines, n - 1) + ink(lines[n - 1])
    }
}

proof fn lemma_ink_shift(first: Seq<char>, rest: Seq<Seq<char>>, n: int)
    requires
        0 <= n <= rest.len(),
    ensures
        ink_of(seq![first] + rest, n + 1) == ink(first) + ink_of(rest, n),
    decreases n,
{
    let all = seq![first] + rest;
    if n == 0 {
        assert(ink_of(all, 0) =~= seq![]);
        assert(ink_of(all, 1) =~= ink(first) + ink_of(rest, 0));
    } else {
        lemma_ink_shift(first, rest, n - 1);
        assert(all[n] == rest[n - 1]);
        assert(ink_of(all, n + 1) =~= ink(first) + ink_of(rest, n));
    }
}

proof fn lemma_ink_lines(s: Seq<char>)
    ensures
        ink_of(crate::text::lines(s), crate::text::lines(s).len() as int) == ink(s),
    decreases s.len(),
{
    let all = crate::text::lines(s);
    let i = crate::text::char_from(s, '\n', 0);
    crate::text::lemma_char_from(s, '\n', 0);
    if s.len() == 0 {
        lemma_no_ink(s);
    } else if i < s.len() {
        let first = s.subrange(0, i);
        let line = crate::text::chomp_cr(first);
        let rest = s.subrange(i + 1, s.len() as int);
        lemma_ink_lines(rest);
        lemma_ink_shift(line, crate::text::lines(rest), crate::text::lines(rest).len() as int);
        assert(s =~= first + seq!['\n'] + rest);
        lemma_ink_add(first + seq!['\n'], rest);
        lemma_ink_add(first, seq!['\n']);
        lemma_no_ink(seq!['\n']);
        let end = first.subrange(line.len() as int, first.len() as int);
        assert(first =~= line + end);
        lemma_ink_add(line, end);
        lemma_no_ink(end);
        assert(ink(s) =~= ink(line) + ink(rest));
    } else {
        assert(ink_of(all, 0) =~= seq![]);
        assert(ink_of(all, 1) =~= ink(s));
    }
}

proof fn lemma_ink_join(parts: Seq<Seq<char>>)
    ensures
        ink(crate::text::join(parts, " "@)) == ink_of(parts, parts.len() as int),
    decreases parts.len(),
{
    reveal_strlit(" ");
    lemma_no_ink(" "@);
    if parts.len() == 0 {
        lemma_no_ink(crate::text::join(parts, " "@));
    } else if parts.len() == 1 {
        assert(ink_of(parts, 0) =~= seq![]);
        assert(ink_of(parts, 1) =~= ink(parts[0]));
    } else {
        let init = parts.subrange(0, parts.len() - 1);
        let last = parts[parts.len() - 1];
        lemma_ink_join(init);
        lemma_ink_of_prefix(parts, init, init.len() as int);
        let head = crate::text::join(init, " "@);
        lemma_ink_add(head + " "@, last);
        lemma_ink_add(head, " "@);
        assert(ink(crate::text::join(parts, " "@)) =~= ink(head) + ink(last));
    }
}

proof fn lemma_ink_of_prefix(all: Seq<Seq<char>>, init: Seq<Seq<char>>, n: int)
    requires
        0 <= n <= init.len() <= all.len(),
        forall|i: int| 0 <= i < init.len() ==> init[i] == all[i],
    ensures
        ink_of(all, n) == ink_of(init, n),
    decreases n,
{
    if n > 0 {
        lemma_ink_of_prefix(all, init, n - 1);
    }
}

proof fn lemma_ink_tight(lines: Seq<Seq<char>>, n: int)
    requires
        0 <= n <= lines.len(),
    ensures
        ink_of(tight_lines(lines, n), tight_lines(lines, n).len() as int) == ink_of(lines, n),
    decreases n,
{
    if n > 0 {
        lemma_ink_tight(lines, n - 1);
        let init = tight_lines(lines, n - 1);
        let all = tight_lines(lines, n);
        let l = crate::text::trim(lines[n - 1]);
        lemma_ink_trim(lines[n - 1]);
        if l.len() == 0 {
            lemma_no_ink(l);
            assert(ink_of(lines, n) =~= ink_of(lines, n - 1));
        } else {
            lemma_ink_of_prefix(all, init, init.len() as int);
            assert(all[all.len() - 1] == l);
        }
    }
}

proof fn lemma_ink_beside(x: Seq<char>, y: Seq<char>)
    requires
        ink(y) == Seq::<char>::empty(),
    ensures
        ink(x + y) == ink(x),
        ink(y + x) == ink(x),
{
    lemma_ink_add(x, y);
    lemma_ink_add(y, x);
    assert(ink(x) + Seq::<char>::empty() =~= ink(x));
    assert(Seq::<char>::empty() + ink(x) =~= ink(x));
}

/// Putting the lines of a signature on one loses nothing that counts.
pub proof fn law_collapsing_keeps_the_signature(sig: Seq<char>)
    ensures
        ink(collapsed(sig)) == ink(sig),
{
    reveal_strlit("( ");
    reveal_strlit("(");
    reveal_strlit(" )");
    reveal_strlit(")");
    reveal_strlit(" ,");
    reveal_strlit(",");
    reveal_strlit(",)");
    reveal_strlit("[ ");
    reveal_strlit("[");
    reveal_strlit(" ]");
    reveal_strlit("]");
    reveal_strlit(" ");
    lemma_no_ink(" "@);
    lemma_no_ink(","@);
    lemma_no_ink(" ,"@);
    lemma_ink_beside("("@, " "@);
    lemma_ink_beside(")"@, " "@);
    lemma_ink_beside(")"@, ","@);
    lemma_ink_beside("["@, " "@);
    lemma_ink_beside("]"@, " "@);
    assert("( "@ =~= "("@ + " "@);
    assert(" )"@ =~= " "@ + ")"@);
    assert(",)"@ =~= ","@ + ")"@);
    assert("[ "@ =~= "["@ + " "@);
    assert(" ]"@ =~= " "@ + "]"@);
    let lines = crate::text::lines(sig);
    let n = lines.len() as int;
    lemma_ink_lines(sig);
    lemma_ink_tight(lines, n);
    lemma_ink_join(tight_lines(lines, n));
    let one = crate::text::join(tight_lines(lines, n), " "@);
    let a = crate::text::replace(one, "( "@, "("@);
    lemma_ink_replace(one, "( "@, "("@);
    let b = crate::text::replace(a, " )"@, ")"@);
    lemma_ink_replace(a, " )"@, ")"@);
    let c = crate::text::replace(b, " ,"@, ","@);
    lemma_ink_replace(b, " ,"@, ","@);
    let d = crate::text::replace(c, ",)"@, ")"@);
    lemma_ink_replace(c, ",)"@, ")"@);
    let e = crate::text::replace(d, "[ "@, "["@);
    lemma_ink_replace(d, "[ "@, "["@);
    lemma_ink_replace(e, " ]"@, "]"@);
}

proof fn lemma_without_openers(s: Seq<char>) -> (tail: Seq<char>)
    ensures
        s == without_openers(s) + tail,
        forall|i: int| 0 <= i < tail.len() ==> (#[trigger] tail[i] == '{' || tail[i] == ';'),
    decreases s.len(),
{
    if s.len() > 0 && (s[s.len() - 1] == '{' || s[s.len() - 1] == ';') {
        let init = s.subrange(0, s.len() - 1);
        let tail = lemma_without_openers(init);
        assert(s =~= init.push(s[s.len() - 1]));
        assert(init.push(s[s.len() - 1]) =~= without_openers(init) + tail.push(s[s.len() - 1]));
        tail.push(s[s.len() - 1])
    } else {
        assert(s =~= s + Seq::empty());
        Seq::empty()
    }
}

proof fn lemma_without_colons(s: Seq<char>) -> (tail: Seq<char>)
    ensures
        s == crate::text::trim_end_char(s, ':') + tail,
        forall|i: int| 0 <= i < tail.len() ==> #[trigger] tail[i] == ':',
    decreases s.len(),
{
    if s.len() > 0 && s[s.len() - 1] == ':' {
        let init = s.subrange(0, s.len() - 1);
        let tail = lemma_without_colons(init);
        assert(s =~= init.push(':'));
        assert(init.push(':') =~= crate::text::trim_end_char(init, ':') + tail.push(':'));
        tail.push(':')
    } else {
        assert(s =~= s + Seq::empty());
        Seq::empty()
    }
}

proof fn lemma_ink_of_marks(s: Seq<char>)
    requires
        forall|i: int|
            0 <= i < s.len() ==> (#[trigger] s[i] == '{' || s[i] == ';' || s[i] == ':'),
    ensures
        ink(s) == s,
    decreases s.len(),
{
    reveal(Seq::filter);
    if s.len() > 0 {
        let init = s.drop_last();
        assert forall|i: int| 0 <= i < init.len() implies (#[trigger] init[i] == '{' || init[i]
            == ';' || init[i] == ':') by {
            assert(init[i] == s[i]);
        }
        lemma_ink_of_marks(init);
        assert(s[s.len() - 1] == s.last());
        assert(s =~= init.push(s.last()));
    } else {
        assert(ink(s) =~= s);
    }
}

/// A signature is the text of the definition up to its body: all that counts in the one is in the other,
/// in order. Only braces, semicolons and colons at the end are dropped, and colons only where they are
/// not kept.
pub proof fn law_signature_is_the_text(text: Seq<char>, keeps_colon: bool)
    ensures
        ({
            let sig = ink(signature_of(text, keeps_colon));
            let all = ink(text);
            &&& sig.len() <= all.len()
            &&& sig == all.subrange(0, sig.len() as int)
            &&& forall|i: int|
                sig.len() <= i < all.len() ==> (#[trigger] all[i] == '{' || all[i] == ';' || (
                !keeps_colon && all[i] == ':'))
        }),
{
    let trimmed = crate::text::trim(text);
    let cut = without_openers(trimmed);
    let bare = crate::text::trim(cut);
    let t1 = lemma_without_openers(trimmed);
    lemma_ink_trim(text);
    lemma_ink_trim(cut);
    lemma_ink_add(cut, t1);
    lemma_ink_of_marks(t1);
    let short = crate::text::trim_end_char(bare, ':');
    let t2 = lemma_without_colons(bare);
    lemma_ink_add(short, t2);
    lemma_ink_of_marks(t2);
    lemma_ink_trim(short);
    let sig = if keeps_colon {
        bare
    } else {
        crate::text::trim(short)
    };
    law_collapsing_keeps_the_signature(sig);
    let all = ink(text);
    let s = ink(signature_of(text, keeps_colon));
    assert(s == ink(sig));
    if keeps_colon {
        assert(all =~= s + t1);
    } else {
        assert(all =~= s + t2 + t1);
    }
    assert(s =~= all.subrange(0, s.len() as int));
}

/// A signature ends where the body starts: at the first child that is a body, or at the end of the
/// definition where there is none.
pub proof fn law_signature_ends_at_the_body(nodes: Seq<SyntaxNodeView>, i: int)
    ensures
        match crate::tools::tree_sitter_support::child(nodes, i, body_node()) {
            Some(c) => body_start(nodes, i) == nodes[c].start,
            None => body_start(nodes, i) == nodes[i].end,
        },
        is_body("block"@),
        is_body("statement_block"@),
        is_body("class_body"@),
        is_body("declaration_list"@),
        is_body("field_declaration_list"@),
        is_body("enum_variant_list"@),
        is_body("enum_body"@),
        is_body("interface_body"@),
        is_body("body"@),
{
}

/// Headers with one more hold all that were there, and one on its row; nothing else comes in.
proof fn lemma_header_kept(headers: Seq<HeaderView>, h: HeaderView)
    ensures
        forall|x: HeaderView| headers.contains(x) ==> #[trigger] with_header(headers, h).contains(x),
        exists|x: HeaderView| #[trigger] with_header(headers, h).contains(x) && x.row == h.row,
        forall|x: HeaderView| #[trigger]
            with_header(headers, h).contains(x) ==> headers.contains(x) || x == h,
    decreases headers.len(),
{
    let all = with_header(headers, h);
    if headers.len() == 0 {
        assert(all[0] == h);
        assert(all.contains(h));
    } else if headers[0].row == h.row {
        assert(all.contains(headers[0]));
    } else if h.row < headers[0].row {
        assert(all[0] == h);
        assert(all.contains(h));
        assert forall|x: HeaderView| headers.contains(x) implies #[trigger] all.contains(x) by {
            let i = headers.index_of(x);
            assert(all[i + 1] == x);
        }
        assert forall|x: HeaderView| #[trigger] all.contains(x) implies headers.contains(x) || x
            == h by {
            let i = all.index_of(x);
            if i > 0 {
                assert(headers[i - 1] == x);
            }
        }
    } else {
        let rest = headers.subrange(1, headers.len() as int);
        let later = with_header(rest, h);
        lemma_header_kept(rest, h);
        assert forall|x: HeaderView| later.contains(x) implies #[trigger] all.contains(x) by {
            let i = later.index_of(x);
            assert(all[i + 1] == x);
        }
        assert forall|x: HeaderView| headers.contains(x) implies #[trigger] all.contains(x) by {
            let i = headers.index_of(x);
            if i == 0 {
                assert(all[0] == x);
            } else {
                assert(rest[i - 1] == x);
                assert(rest.contains(x));
                assert(later.contains(x));
            }
        }
        let w = choose|x: HeaderView| #[trigger] later.contains(x) && x.row == h.row;
        assert(all.contains(w));
        assert forall|x: HeaderView| #[trigger] all.contains(x) implies headers.contains(x) || x
            == h by {
            let i = all.index_of(x);
            if i == 0 {
                assert(headers[0] == x);
            } else {
                assert(later[i - 1] == x);
                assert(later.contains(x));
                if rest.contains(x) {
                    let k = rest.index_of(x);
                    assert(headers[k + 1] == x);
                }
            }
        }
    }
}

/// Every definition that is found is in the outline: there is a line for the row on which it is named.
/// And every line of the outline is the header of a definition that was found.
pub proof fn law_every_definition_is_outlined(bytes: Seq<u8>, s: SyntaxView, n: int, k: int)
    requires
        0 <= k < n <= s.matches.len(),
    ensures
        header_of(bytes, s, s.matches[k]) matches Some(h) ==> exists|x: HeaderView|
            #[trigger] headers_of(bytes, s, n).contains(x) && x.row == h.row,
        forall|x: HeaderView| #[trigger]
            headers_of(bytes, s, n).contains(x) ==> exists|j: int|
                0 <= j < n && #[trigger] header_of(bytes, s, s.matches[j]) == Some(x),
    decreases n,
{
    let init = headers_of(bytes, s, n - 1);
    let all = headers_of(bytes, s, n);
    let last = header_of(bytes, s, s.matches[n - 1]);
    if let Some(h) = last {
        lemma_header_kept(init, h);
    }
    if n > 1 {
        law_every_definition_is_outlined(
            bytes,
            s,
            n - 1,
            if k < n - 1 {
                k
            } else {
                0
            },
        );
    }
    if k < n - 1 {
        if let Some(h) = header_of(bytes, s, s.matches[k]) {
            let x = choose|x: HeaderView| #[trigger] init.contains(x) && x.row == h.row;
            assert(all.contains(x));
        }
    }
    assert forall|x: HeaderView| #[trigger] all.contains(x) implies exists|j: int|
        0 <= j < n && #[trigger] header_of(bytes, s, s.matches[j]) == Some(x) by {
        if init.contains(x) {
            assert(n > 1);
            let j = choose|j: int|
                0 <= j < n - 1 && #[trigger] header_of(bytes, s, s.matches[j]) == Some(x);
            assert(header_of(bytes, s, s.matches[j]) == Some(x));
        } else {
            assert(header_of(bytes, s, s.matches[n - 1]) == Some(x));
        }
    }
}

/// A match gives a header exactly when it names a definition: on the row of the name, with the signature
/// of what is defined.
pub proof fn law_header_of_a_match(bytes: Seq<u8>, s: SyntaxView, m: Seq<CaptureView>)
    ensures
        header_of(bytes, s, m) is Some <==> first_capture(m, "name.def"@) is Some,
        header_of(bytes, s, m) matches Some(h) ==> {
            &&& h.row == s.nodes[first_capture(m, "name.def"@)->0].start_row
            &&& last_capture(m, "definition"@) matches Some(d) ==> h.line == signature(
                bytes,
                s.nodes,
                d,
            )
            &&& last_capture(m, "definition"@) is None ==> h.line == signature(
                bytes,
                s.nodes,
                first_capture(m, "name.def"@)->0,
            )
        },
{
}

proof fn lemma_outline_text(
    files: Seq<Seq<char>>,
    inputs: Seq<SourceInputView>,
    k: int,
    n: int,
)
    requires
        0 <= k < n <= files.len(),
        !outline_first(files, inputs, n).full,
    ensures
        crate::text::contains(outline_first(files, inputs, n).text, file_outline(files[k], inputs[k])),
        !outline_first(files, inputs, n - 1).full,
    decreases n,
{
    let p = outline_first(files, inputs, n - 1);
    let q = outline_first(files, inputs, n);
    let shown = file_outline(files[n - 1], inputs[n - 1]);
    let piece = file_outline(files[k], inputs[k]);
    assert(!p.full);
    assert(q.text == p.text + shown);
    if k < n - 1 {
        lemma_outline_text(files, inputs, k, n - 1);
        let i = choose|i: int| crate::text::occurs_at(p.text, piece, i);
        assert(q.text.subrange(i, i + piece.len()) =~= p.text.subrange(i, i + piece.len()));
        assert(crate::text::occurs_at(q.text, piece, i));
    } else {
        let i = p.text.len() as int;
        assert(q.text.subrange(i, i + piece.len()) =~= piece);
        assert(crate::text::occurs_at(q.text, piece, i));
    }
}

/// The answer holds what is shown of every file, unless it grew too long.
pub proof fn law_every_file_is_in_the_answer(
    files: Seq<Seq<char>>,
    inputs: Seq<SourceInputView>,
    k: int,
)
    requires
        0 <= k < files.len(),
        inputs.len() == files.len(),
        !outline_first(files, inputs, files.len() as int).full,
    ensures
        ({
            let answer = skeleton_output(files, inputs);
            &&& answer.content.len() == 1
            &&& answer.content[0] matches crate::types::ToolResultContentView::Text(t)
                && crate::text::contains(t.text, file_outline(files[k], inputs[k]))
        }),
{
    lemma_outline_text(files, inputs, k, files.len() as int);
}

/// What is shown of a file names it. A file in an unknown language, one that cannot be read and one that
/// cannot be parsed are shown as an error with the reason; every other is shown by its header lines.
pub proof fn law_file_outline(file: Seq<char>, input: SourceInputView)
    ensures
        ({
            let shown = file_outline(file, input);
            let ext = lower_extension(file);
            let lang = crate::tools::tree_sitter_support::lang_of(ext);
            &&& crate::text::contains(shown, "===== "@ + file + " =====\n"@)
            &&& lang is Some && input is Failed ==> crate::text::ends_with(shown, input->Failed_0)
            &&& lang is None ==> crate::text::ends_with(
                shown,
                "no skeleton support for ."@ + ext + "; use `read` instead\n"@,
            )
            &&& lang matches Some(l) ==> (input matches SourceInputView::Content(source) ==> (
            outline(source, l) matches Ok(lines) ==> lines.len() > 0 ==> shown == "===== "@ + file
                + " =====\n"@ + crate::text::concat(
                Seq::new(lines.len(), |i: int| lines[i].push('\n')),
            )))
        }),
{
    let shown = file_outline(file, input);
    let ext = lower_extension(file);
    let header = "===== "@ + file + " =====\n"@;
    let note = "no skeleton support for ."@ + ext + "; use `read` instead\n"@;
    let e = "error: "@.len() as int;
    let lang = crate::tools::tree_sitter_support::lang_of(ext);
    let at = if lang is None || input is Failed {
        e
    } else {
        match outline(input->Content_0, lang->0) {
            Err(_) => e,
            Ok(_) => 0,
        }
    };
    assert(shown.subrange(at, at + header.len()) =~= header);
    assert(crate::text::occurs_at(shown, header, at));
    if lang is None {
        assert(shown.subrange(shown.len() - note.len(), shown.len() as int) =~= note);
    } else if let SourceInputView::Failed(why) = input {
        assert(shown.subrange(shown.len() - why.len(), shown.len() as int) =~= why);
    }
}

/// The files of a call are the texts in its list, in order, each inside the working directory.
pub proof fn law_files_of_a_call(elems: Seq<Json>, cwd: Seq<char>)
    ensures
        files_of(elems, cwd) == elems.filter(
            |j: Json| crate::json::as_string(j) is Some,
        ).map_values(|j: Json| crate::path::joined(cwd, crate::json::as_string(j)->0)),
{
    let is = |j: Json| crate::json::as_string(j) is Some;
    let place = |j: Json| crate::path::joined(cwd, crate::json::as_string(j)->0);
    lemma_texts(elems);
    assert(files_of(elems, cwd) =~= elems.filter(is).map_values(place));
}

proof fn lemma_texts(elems: Seq<Json>)
    ensures
        texts_of(elems, elems.len() as int) == elems.filter(
            |j: Json| crate::json::as_string(j) is Some,
        ).map_values(|j: Json| crate::json::as_string(j)->0),
    decreases elems.len(),
{
    reveal(Seq::filter);
    let is = |j: Json| crate::json::as_string(j) is Some;
    let get = |j: Json| crate::json::as_string(j)->0;
    if elems.len() > 0 {
        let init = elems.drop_last();
        lemma_texts(init);
        lemma_texts_prefix(elems, init, init.len() as int);
        assert(init.filter(is).push(elems.last()).map_values(get) =~= init.filter(is).map_values(
            get,
        ).push(get(elems.last())));
    }
    assert(texts_of(elems, elems.len() as int) =~= elems.filter(is).map_values(get));
}

proof fn lemma_texts_prefix(all: Seq<Json>, init: Seq<Json>, n: int)
    requires
        0 <= n <= init.len() <= all.len(),
        forall|i: int| 0 <= i < init.len() ==> init[i] == all[i],
    ensures
        texts_of(all, n) == texts_of(init, n),
    decreases n,
{
    if n > 0 {
        lemma_texts_prefix(all, init, n - 1);
    }
}

/// An answer is an error only where every file failed.
pub proof fn law_error_only_if_all_failed(files: Seq<Seq<char>>, inputs: Seq<SourceInputView>)
    requires
        !outline_first(files, inputs, files.len() as int).full,
    ensures
        skeleton_output(files, inputs).is_error <==> forall|i: int|
            0 <= i < files.len() ==> crate::text::starts_with(
                #[trigger] file_outline(files[i], inputs[i]),
                "error:"@,
            ),
{
    lemma_ok(files, inputs, files.len() as int);
}

proof fn lemma_ok(files: Seq<Seq<char>>, inputs: Seq<SourceInputView>, n: int)
    requires
        0 <= n <= files.len(),
        !outline_first(files, inputs, n).full,
    ensures
        outline_first(files, inputs, n).ok == 0 <==> forall|i: int|
            0 <= i < n ==> crate::text::starts_with(
                #[trigger] file_outline(files[i], inputs[i]),
                "error:"@,
            ),
    decreases n,
{
    if n > 0 {
        assert(!outline_first(files, inputs, n - 1).full);
        lemma_ok(files, inputs, n - 1);
        if forall|i: int|
            0 <= i < n ==> crate::text::starts_with(
                #[trigger] file_outline(files[i], inputs[i]),
                "error:"@,
            ) {
            assert(crate::text::starts_with(
                file_outline(files[n - 1], inputs[n - 1]),
                "error:"@,
            ));
        }
    }
}

} // verus!
