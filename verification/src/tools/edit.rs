//! The `edit` tool: precise edits by exact text match or by line anchor, batched across files.
//!
//! An edit names what it replaces by its text, which has to occur exactly once, or by the anchor
//! that `read` shows before a line. The edits of a file are made one after the other; a file is
//! written only if all of them can be made.

use vstd::prelude::*;

use crate::json::{empty_object_value, with_entry, with_str, Json};
use crate::text::{
    chars_of, find_char, find_chars, str_eq, str_join, str_lines, string_of, usize_text,
};
use crate::tools::line_hash::hash_lines_with_disambiguators;
use crate::tools::skeleton::get_list;
use crate::tools::write::get_text;
use crate::tools::{object_value, property_value, resolve_path, ToolOutput};
use crate::types::Tool;

verus! {

/// What an edit replaces, and by what.
#[derive(Debug, PartialEq)]
pub enum Edit {
    /// A text that occurs exactly once.
    Text { old_text: String, new_text: String },
    /// The line with an anchor.
    Line { anchor: String, new_text: String },
}

/// What an [`Edit`] holds.
#[verifier::ext_equal]
pub enum EditView {
    Text { old_text: Seq<char>, new_text: Seq<char> },
    Line { anchor: Seq<char>, new_text: Seq<char> },
}

impl View for Edit {
    type V = EditView;

    open spec fn view(&self) -> EditView {
        match *self {
            Edit::Text { old_text, new_text } => EditView::Text {
                old_text: old_text@,
                new_text: new_text@,
            },
            Edit::Line { anchor, new_text } => EditView::Line {
                anchor: anchor@,
                new_text: new_text@,
            },
        }
    }
}

impl DeepView for Edit {
    type V = EditView;

    open spec fn deep_view(&self) -> EditView {
        self@
    }
}

/// The edits of a file.
#[derive(Debug, PartialEq)]
pub struct FileEdits {
    /// The path as it was given.
    pub path: String,
    pub edits: Vec<Edit>,
}

/// What a [`FileEdits`] holds.
#[verifier::ext_equal]
pub struct FileEditsView {
    pub path: Seq<char>,
    pub edits: Seq<EditView>,
}

impl View for FileEdits {
    type V = FileEditsView;

    open spec fn view(&self) -> FileEditsView {
        FileEditsView { path: self.path@, edits: self.edits.deep_view() }
    }
}

impl DeepView for FileEdits {
    type V = FileEditsView;

    open spec fn deep_view(&self) -> FileEditsView {
        self@
    }
}

// ---------------------------------------------------------------------------
// The tool
// ---------------------------------------------------------------------------

/// The schema of a list of objects.
pub open spec fn object_list(item: Json, description: Seq<char>) -> Json {
    Json::Obj(
        map![
            "type"@ => Json::Str("array"@),
            "items"@ => item,
            "description"@ => Json::Str(description),
        ],
    )
}

/// The schema of a list of objects.
fn object_list_value(item: serde_json::Value, description: &str) -> (r: serde_json::Value)
    ensures
        crate::json::json_of(r) == object_list(crate::json::json_of(item), description@),
{
    let v = with_str(empty_object_value(), "type", "array");
    let v = with_entry(v, "items".to_owned(), item);
    with_str(v, "description", description)
}

/// The schema of an edit.
pub open spec fn edit_schema() -> Json {
    crate::tools::object_schema(
        map![
            "old_text"@ => crate::tools::property(
                "string"@,
                "Exact text to replace; it has to occur exactly once"@,
            ),
            "anchor"@ => crate::tools::property(
                "string"@,
                "Anchor of the line to replace, as shown by `read` (instead of old_text)"@,
            ),
            "new_text"@ => crate::tools::property("string"@, "Replacement"@),
        ],
        seq!["new_text"@],
    )
}

/// The schema of the edits of a file.
pub open spec fn file_schema() -> Json {
    crate::tools::object_schema(
        map![
            "path"@ => crate::tools::property("string"@, "Path to the file to edit"@),
            "edits"@ => object_list(edit_schema(), "Edits, made one after the other"@),
        ],
        seq!["path"@, "edits"@],
    )
}

/// Whether this describes the tool.
pub open spec fn is_tool(t: crate::types::ToolView) -> bool {
    &&& t.name == "edit"@
    &&& t.description
        == "Precise edits by exact text match or by line anchor, batched across files. A file is written only if all of its edits can be made."@
    &&& t.parameters.value == crate::tools::object_schema(
        map!["files"@ => object_list(file_schema(), "Files to edit"@)],
        seq!["files"@],
    )
}

/// The description of the tool.
pub fn tool() -> (r: Tool)
    ensures
        is_tool(r@),
{
    let p = with_entry(
        empty_object_value(),
        "old_text".to_owned(),
        property_value("string", "Exact text to replace; it has to occur exactly once"),
    );
    let p = with_entry(
        p,
        "anchor".to_owned(),
        property_value(
            "string",
            "Anchor of the line to replace, as shown by `read` (instead of old_text)",
        ),
    );
    let p = with_entry(p, "new_text".to_owned(), property_value("string", "Replacement"));
    let required: Vec<String> = vec!["new_text".to_owned()];
    assert(required.deep_view() =~= seq!["new_text"@]);
    let edit = object_value(p, &required);
    let p = with_entry(
        empty_object_value(),
        "path".to_owned(),
        property_value("string", "Path to the file to edit"),
    );
    let p = with_entry(
        p,
        "edits".to_owned(),
        object_list_value(edit, "Edits, made one after the other"),
    );
    let required: Vec<String> = vec!["path".to_owned(), "edits".to_owned()];
    assert(required.deep_view() =~= seq!["path"@, "edits"@]);
    let file = object_value(p, &required);
    let p = with_entry(
        empty_object_value(),
        "files".to_owned(),
        object_list_value(file, "Files to edit"),
    );
    let required: Vec<String> = vec!["files".to_owned()];
    assert(required.deep_view() =~= seq!["files"@]);
    Tool {
        name: "edit".to_owned(),
        description: "Precise edits by exact text match or by line anchor, batched across files. A file is written only if all of its edits can be made.".to_owned(),
        parameters: object_value(p, &required),
    }
}

// ---------------------------------------------------------------------------
// Arguments
// ---------------------------------------------------------------------------

/// The edit that an object describes: by text, or else by anchor.
pub open spec fn edit_in(j: Json) -> Option<EditView> {
    let old_text = crate::tools::write::text_argument(j, "old_text"@);
    let anchor = crate::tools::write::text_argument(j, "anchor"@);
    match crate::tools::write::text_argument(j, "new_text"@) {
        Some(new_text) => match (old_text, anchor) {
            (Some(old_text), _) => Some(EditView::Text { old_text, new_text }),
            (None, Some(anchor)) => Some(EditView::Line { anchor, new_text }),
            (None, None) => None,
        },
        None => None,
    }
}

/// The edits that the first `n` objects describe.
pub open spec fn edits_in(js: Seq<Json>, n: int) -> Option<Seq<EditView>>
    decreases n,
{
    if n <= 0 {
        Some(seq![])
    } else {
        match (edits_in(js, n - 1), edit_in(js[n - 1])) {
            (Some(init), Some(e)) => Some(init.push(e)),
            _ => None,
        }
    }
}

/// The edits of a file that an object describes.
pub open spec fn file_in(j: Json) -> Option<FileEditsView> {
    match (
        crate::tools::write::text_argument(j, "path"@),
        crate::tools::skeleton::list_argument(j, "edits"@),
    ) {
        (Some(path), Some(js)) => match edits_in(js, js.len() as int) {
            Some(edits) => if edits.len() > 0 {
                Some(FileEditsView { path, edits })
            } else {
                None
            },
            None => None,
        },
        _ => None,
    }
}

/// The edits of the files that the first `n` objects describe.
pub open spec fn files_in(js: Seq<Json>, n: int) -> Option<Seq<FileEditsView>>
    decreases n,
{
    if n <= 0 {
        Some(seq![])
    } else {
        match (files_in(js, n - 1), file_in(js[n - 1])) {
            (Some(init), Some(f)) => Some(init.push(f)),
            _ => None,
        }
    }
}

/// What a call asks for.
pub open spec fn requested(args: Json) -> Option<Seq<FileEditsView>> {
    match crate::tools::skeleton::list_argument(args, "files"@) {
        Some(js) => match files_in(js, js.len() as int) {
            Some(files) => if files.len() > 0 {
                Some(files)
            } else {
                None
            },
            None => None,
        },
        None => None,
    }
}

proof fn lemma_edits_in(js: Seq<Json>, k: int, n: int)
    requires
        0 <= k <= n,
        edits_in(js, k) is None,
    ensures
        edits_in(js, n) is None,
    decreases n,
{
    if k < n {
        lemma_edits_in(js, k, n - 1);
    }
}

proof fn lemma_files_in(js: Seq<Json>, k: int, n: int)
    requires
        0 <= k <= n,
        files_in(js, k) is None,
    ensures
        files_in(js, n) is None,
    decreases n,
{
    if k < n {
        lemma_files_in(js, k, n - 1);
    }
}

/// The edit that an object describes.
fn read_edit(v: &serde_json::Value) -> (r: Option<Edit>)
    ensures
        r.deep_view() == edit_in(crate::json::json_of(*v)),
{
    match (get_text(v, "new_text"), get_text(v, "old_text"), get_text(v, "anchor")) {
        (Some(new_text), Some(old_text), _) => Some(Edit::Text { old_text, new_text }),
        (Some(new_text), None, Some(anchor)) => Some(Edit::Line { anchor, new_text }),
        _ => None,
    }
}

/// The edits of a file that an object describes.
fn read_file(v: &serde_json::Value) -> (r: Option<FileEdits>)
    ensures
        r.deep_view() == file_in(crate::json::json_of(*v)),
{
    let path = match get_text(v, "path") {
        Some(p) => p,
        None => {
            return None;
        },
    };
    let list = match get_list(v, "edits") {
        Some(l) => l,
        None => {
            return None;
        },
    };
    let ghost js = crate::json::jsons(list@);
    let mut edits: Vec<Edit> = Vec::new();
    let mut i: usize = 0;
    assert(edits.deep_view() =~= seq![]);
    while i < list.len()
        invariant
            i <= list.len(),
            js == crate::json::jsons(list@),
            edits_in(js, i as int) == Some(edits.deep_view()),
            crate::tools::write::text_argument(crate::json::json_of(*v), "path"@) == Some(path@),
            crate::tools::skeleton::list_argument(crate::json::json_of(*v), "edits"@) == Some(js),
        decreases list.len() - i,
    {
        assert(js[i as int] == crate::json::json_of(list@[i as int]));
        let ghost before = edits.deep_view();
        match read_edit(&list[i]) {
            Some(e) => {
                edits.push(e);
                assert(edits.deep_view() =~= before.push(e@));
            },
            None => {
                proof {
                    lemma_edits_in(js, i + 1, js.len() as int);
                }
                return None;
            },
        }
        i = i + 1;
    }
    assert(edits.deep_view().len() == edits.len());
    if edits.len() == 0 {
        return None;
    }
    Some(FileEdits { path, edits })
}

/// What a call asks for, or why it cannot be done.
pub fn parse(args: &serde_json::Value) -> (r: core::result::Result<Vec<FileEdits>, ToolOutput>)
    ensures
        match r {
            Ok(files) => requested(crate::json::json_of(*args)) == Some(files.deep_view()),
            Err(o) => requested(crate::json::json_of(*args)) is None && o@
                == crate::tools::text_output(
                "'files' must be a non-empty array of {path, edits}, each edit {old_text, new_text} or {anchor, new_text}"@,
                true,
            ),
        },
{
    match read_files(args) {
        Some(files) => Ok(files),
        None => Err(
            ToolOutput::error(
                "'files' must be a non-empty array of {path, edits}, each edit {old_text, new_text} or {anchor, new_text}",
            ),
        ),
    }
}

/// What a call asks for.
fn read_files(args: &serde_json::Value) -> (r: Option<Vec<FileEdits>>)
    ensures
        match r {
            Some(files) => requested(crate::json::json_of(*args)) == Some(files.deep_view()),
            None => requested(crate::json::json_of(*args)) is None,
        },
{
    let list = match get_list(args, "files") {
        Some(l) => l,
        None => {
            return None;
        },
    };
    let ghost js = crate::json::jsons(list@);
    let mut files: Vec<FileEdits> = Vec::new();
    let mut i: usize = 0;
    assert(files.deep_view() =~= seq![]);
    while i < list.len()
        invariant
            i <= list.len(),
            js == crate::json::jsons(list@),
            files_in(js, i as int) == Some(files.deep_view()),
            crate::tools::skeleton::list_argument(crate::json::json_of(*args), "files"@) == Some(
                js,
            ),
        decreases list.len() - i,
    {
        assert(js[i as int] == crate::json::json_of(list@[i as int]));
        let ghost before = files.deep_view();
        match read_file(&list[i]) {
            Some(f) => {
                files.push(f);
                assert(files.deep_view() =~= before.push(f@));
            },
            None => {
                proof {
                    lemma_files_in(js, i + 1, js.len() as int);
                }
                return None;
            },
        }
        i = i + 1;
    }
    assert(files.deep_view().len() == files.len());
    if files.len() == 0 {
        return None;
    }
    Some(files)
}

// ---------------------------------------------------------------------------
// Edits
// ---------------------------------------------------------------------------

/// A text in which the only occurrence of another is replaced, or why not.
pub open spec fn text_replaced(
    content: Seq<char>,
    old_text: Seq<char>,
    new_text: Seq<char>,
) -> core::result::Result<Seq<char>, Seq<char>> {
    if old_text.len() == 0 {
        Err("old_text is empty"@)
    } else {
        match crate::text::find(content, old_text) {
            Some(i) => if crate::text::find_from(content, old_text, i + 1) is Some {
                Err("old_text occurs more than once"@)
            } else {
                Ok(
                    content.subrange(0, i) + new_text + content.subrange(
                        i + old_text.len(),
                        content.len() as int,
                    ),
                )
            },
            None => Err("old_text not found"@),
        }
    }
}

/// How long the first line of a text is.
pub open spec fn first_line_len(content: Seq<char>) -> int {
    let end = crate::text::char_from(content, '\n', 0);
    if 0 <= end < content.len() {
        crate::text::chomp_cr(content.subrange(0, end)).len() as int
    } else {
        content.len() as int
    }
}

/// A text with line `i` replaced; the end of the line stays.
pub open spec fn line_replaced(content: Seq<char>, i: int, new_text: Seq<char>) -> Seq<char>
    decreases i,
{
    if i <= 0 {
        new_text + content.subrange(first_line_len(content), content.len() as int)
    } else {
        let next = crate::text::char_from(content, '\n', 0) + 1;
        if next <= content.len() {
            content.subrange(0, next) + line_replaced(
                content.subrange(next, content.len() as int),
                i - 1,
                new_text,
            )
        } else {
            content
        }
    }
}

/// The first line at or behind `from` with an anchor.
pub open spec fn line_with(lines: Seq<Seq<char>>, anchor: Seq<char>, from: int) -> Option<int>
    decreases lines.len() - from,
{
    if from >= lines.len() {
        None
    } else if crate::tools::line_hash::anchor(lines, from) == anchor {
        Some(from)
    } else {
        line_with(lines, anchor, from + 1)
    }
}

/// A text after an edit, or why the edit cannot be made.
pub open spec fn edited(content: Seq<char>, e: EditView) -> core::result::Result<
    Seq<char>,
    Seq<char>,
> {
    match e {
        EditView::Text { old_text, new_text } => text_replaced(content, old_text, new_text),
        EditView::Line { anchor, new_text } => match line_with(
            crate::text::lines(content),
            anchor,
            0,
        ) {
            Some(i) => Ok(line_replaced(content, i, new_text)),
            None => Err("no line has the anchor "@ + anchor),
        },
    }
}

/// A text after the first `n` edits, or why one of them cannot be made.
pub open spec fn all_edited(content: Seq<char>, edits: Seq<EditView>, n: int) -> core::result::Result<
    Seq<char>,
    Seq<char>,
>
    decreases n,
{
    if n <= 0 {
        Ok(content)
    } else {
        match all_edited(content, edits, n - 1) {
            Ok(c) => edited(c, edits[n - 1]),
            Err(e) => Err(e),
        }
    }
}

proof fn lemma_all_edited(content: Seq<char>, edits: Seq<EditView>, k: int, n: int)
    requires
        0 <= k <= n,
        all_edited(content, edits, k) is Err,
    ensures
        all_edited(content, edits, n) == all_edited(content, edits, k),
    decreases n,
{
    if k < n {
        lemma_all_edited(content, edits, k, n - 1);
    }
}

/// What an outcome holds.
pub open spec fn outcome_view(r: core::result::Result<String, String>) -> core::result::Result<
    Seq<char>,
    Seq<char>,
> {
    match r {
        Ok(s) => Ok(s@),
        Err(s) => Err(s@),
    }
}

/// A text in which the only occurrence of another is replaced.
fn replace_text(content: &str, old_text: &str, new_text: &str) -> (r: core::result::Result<
    String,
    String,
>)
    ensures
        outcome_view(r) == text_replaced(content@, old_text@, new_text@),
{
    let v = chars_of(content);
    let p = chars_of(old_text);
    if p.len() == 0 {
        return Err("old_text is empty".to_owned());
    }
    match find_chars(&v, &p, 0) {
        Some(i) => {
            if find_chars(&v, &p, i + 1).is_some() {
                return Err("old_text occurs more than once".to_owned());
            }
            let mut out: String = string_of(&v, 0, i);
            out.append(new_text);
            out.append(string_of(&v, i + p.len(), v.len()).as_str());
            Ok(out)
        },
        None => Err("old_text not found".to_owned()),
    }
}

/// A text with a line replaced.
fn replace_line(content: &str, i: usize, new_text: &str) -> (r: String)
    ensures
        r@ == line_replaced(content@, i as int, new_text@),
{
    let v = chars_of(content);
    let ghost all = content@;
    let mut pos: usize = 0;
    let mut k: usize = 0;
    assert(all.subrange(0, all.len() as int) =~= all);
    assert(all.subrange(0, 0) + line_replaced(all, i as int, new_text@) =~= line_replaced(
        all,
        i as int,
        new_text@,
    ));
    while k < i
        invariant
            k <= i,
            pos <= v.len(),
            v@ == all,
            all == content@,
            line_replaced(all, i as int, new_text@) == all.subrange(0, pos as int)
                + line_replaced(all.subrange(pos as int, all.len() as int), i - k, new_text@),
        decreases i - k,
    {
        let ghost tail = all.subrange(pos as int, all.len() as int);
        let end: usize = find_char(&v, '\n', pos);
        proof {
            crate::text::lemma_char_from_tail(all, '\n', pos as int, 0);
        }
        if end == v.len() {
            assert(all.subrange(0, pos as int) + tail =~= all);
            return content.to_owned();
        }
        assert(tail.subrange(end + 1 - pos, tail.len() as int) =~= all.subrange(
            end + 1,
            all.len() as int,
        ));
        assert(all.subrange(0, pos as int) + tail.subrange(0, end + 1 - pos) =~= all.subrange(
            0,
            end + 1,
        ));
        proof {
            let rest = line_replaced(
                all.subrange(end + 1, all.len() as int),
                i - k - 1,
                new_text@,
            );
            assert(all.subrange(0, pos as int) + (tail.subrange(0, end + 1 - pos) + rest)
                =~= all.subrange(0, pos as int) + tail.subrange(0, end + 1 - pos) + rest);
        }
        pos = end + 1;
        k = k + 1;
    }
    let ghost tail = all.subrange(pos as int, all.len() as int);
    let end: usize = find_char(&v, '\n', pos);
    proof {
        crate::text::lemma_char_from_tail(all, '\n', pos as int, 0);
    }
    let mut stop: usize = end;
    if end < v.len() && end > pos && v[end - 1] == '\r' {
        stop = end - 1;
    }
    assert(tail.subrange(0, end - pos) =~= all.subrange(pos as int, end as int));
    assert(stop - pos == first_line_len(tail));
    assert(tail.subrange(stop - pos, tail.len() as int) =~= all.subrange(
        stop as int,
        all.len() as int,
    ));
    let mut out: String = string_of(&v, 0, pos);
    out.append(new_text);
    out.append(string_of(&v, stop, v.len()).as_str());
    assert(out@ =~= all.subrange(0, pos as int) + (new_text@ + all.subrange(
        stop as int,
        all.len() as int,
    )));
    out
}

/// The line with an anchor.
fn find_line(content: &str, anchor: &str) -> (r: Option<usize>)
    ensures
        match r {
            Some(i) => line_with(crate::text::lines(content@), anchor@, 0) == Some(i as int),
            None => line_with(crate::text::lines(content@), anchor@, 0) is None,
        },
{
    let lines = str_lines(content);
    let ghost all = lines.deep_view();
    let anchors = hash_lines_with_disambiguators(&lines);
    assert(anchors.deep_view().len() == anchors.len());
    let mut i: usize = 0;
    while i < anchors.len()
        invariant
            i <= anchors.len(),
            all == crate::text::lines(content@),
            anchors.len() == all.len(),
            anchors.deep_view() == Seq::new(
                all.len(),
                |j: int| crate::tools::line_hash::anchor(all, j),
            ),
            line_with(all, anchor@, 0) == line_with(all, anchor@, i as int),
        decreases anchors.len() - i,
    {
        assert(anchors.deep_view()[i as int] == anchors[i as int]@);
        if str_eq(anchors[i].as_str(), anchor) {
            return Some(i);
        }
        i = i + 1;
    }
    None
}

/// A text after an edit.
fn make_edit(content: &str, e: &Edit) -> (r: core::result::Result<String, String>)
    ensures
        outcome_view(r) == edited(content@, e@),
{
    match e {
        Edit::Text { old_text, new_text } => replace_text(
            content,
            old_text.as_str(),
            new_text.as_str(),
        ),
        Edit::Line { anchor, new_text } => match find_line(content, anchor.as_str()) {
            Some(i) => Ok(replace_line(content, i, new_text.as_str())),
            None => {
                let mut text: String = "no line has the anchor ".to_owned();
                text.append(anchor.as_str());
                Err(text)
            },
        },
    }
}

/// The content of a file after its edits, or why one of them cannot be made.
pub fn apply(content: &str, edits: &Vec<Edit>) -> (r: core::result::Result<String, String>)
    ensures
        outcome_view(r) == all_edited(content@, edits.deep_view(), edits.deep_view().len() as int),
{
    let ghost all = edits.deep_view();
    assert(all.len() == edits.len());
    let mut now: String = content.to_owned();
    let mut i: usize = 0;
    while i < edits.len()
        invariant
            i <= edits.len(),
            all == edits.deep_view(),
            all.len() == edits.len(),
            all_edited(content@, all, i as int) == Ok::<Seq<char>, Seq<char>>(now@),
        decreases edits.len() - i,
    {
        assert(all[i as int] == edits[i as int]@);
        match make_edit(now.as_str(), &edits[i]) {
            Ok(next) => {
                now = next;
            },
            Err(e) => {
                proof {
                    lemma_all_edited(content@, all, i + 1, all.len() as int);
                }
                return Err(e);
            },
        }
        i = i + 1;
    }
    Ok(now)
}

/// The file that edits are made in.
pub fn target(file: &FileEdits, cwd: &str) -> (r: String)
    ensures
        r@ == crate::path::joined(cwd@, file@.path),
{
    resolve_path(cwd, file.path.as_str())
}

// ---------------------------------------------------------------------------
// The answer
// ---------------------------------------------------------------------------

/// What is said of a file: how many edits were made, or why none.
pub open spec fn file_line(f: FileEditsView, error: Option<Seq<char>>) -> Seq<char> {
    match error {
        None => "edited "@ + f.path + " ("@ + crate::text::decimal(f.edits.len()) + " edits)"@,
        Some(e) => "error: "@ + f.path + ": "@ + e,
    }
}

/// How many of the first `n` files were edited.
pub open spec fn edited_files(errors: Seq<Option<Seq<char>>>, n: int) -> nat
    decreases n,
{
    if n <= 0 {
        0
    } else {
        edited_files(errors, n - 1) + if errors[n - 1] is None {
            1nat
        } else {
            0
        }
    }
}

/// The answer to a call, given the error of each file. It is an error if some file could not be
/// edited.
pub fn report(files: &Vec<FileEdits>, errors: &Vec<Option<String>>) -> (r: ToolOutput)
    requires
        files.len() == errors.len(),
    ensures
        ({
            let fs = files.deep_view();
            let es = errors.deep_view();
            let done = edited_files(es, es.len() as int);
            r@ == crate::tools::summarized(
                crate::tools::text_output(
                    crate::text::join(
                        Seq::new(fs.len(), |i: int| file_line(fs[i], es[i])),
                        "\n"@,
                    ),
                    done < fs.len(),
                ),
                "edit: "@ + crate::text::decimal(done) + " of "@ + crate::text::decimal(fs.len())
                    + " files"@,
            )
        }),
{
    let ghost fs = files.deep_view();
    let ghost es = errors.deep_view();
    assert(fs.len() == files.len() && es.len() == errors.len());
    let mut parts: Vec<String> = Vec::new();
    let mut done: usize = 0;
    let mut i: usize = 0;
    while i < files.len()
        invariant
            i <= files.len(),
            files.len() == errors.len(),
            fs == files.deep_view(),
            es == errors.deep_view(),
            parts.len() == i,
            done <= i,
            done == edited_files(es, i as int),
            forall|j: int| 0 <= j < i ==> (#[trigger] parts@[j])@ == file_line(fs[j], es[j]),
        decreases files.len() - i,
    {
        assert(fs[i as int] == files[i as int]@);
        assert(es[i as int] == errors[i as int].deep_view());
        let mut line: String = String::new();
        match &errors[i] {
            None => {
                done = done + 1;
                line.append("edited ");
                line.append(files[i].path.as_str());
                line.append(" (");
                assert(fs[i as int].edits.len() == files[i as int].edits.len());
                line.append(usize_text(files[i].edits.len()).as_str());
                line.append(" edits)");
                assert(line@ =~= file_line(fs[i as int], es[i as int]));
            },
            Some(e) => {
                line.append("error: ");
                line.append(files[i].path.as_str());
                line.append(": ");
                line.append(e.as_str());
                assert(line@ =~= file_line(fs[i as int], es[i as int]));
            },
        }
        parts.push(line);
        i = i + 1;
    }
    assert(parts.deep_view() =~= Seq::new(fs.len(), |i: int| file_line(fs[i], es[i])));
    let text = str_join(&parts, "\n");
    let mut summary: String = "edit: ".to_owned();
    summary.append(usize_text(done).as_str());
    summary.append(" of ");
    summary.append(usize_text(files.len()).as_str());
    summary.append(" files");
    let out = if done < files.len() {
        ToolOutput::error(text.as_str())
    } else {
        ToolOutput::text(text.as_str())
    };
    out.with_summary(summary.as_str())
}

// ---------------------------------------------------------------------------
// Laws
// ---------------------------------------------------------------------------

/// An edit by text leaves everything around the text as it was.
pub proof fn law_text_edit_keeps_the_rest(
    content: Seq<char>,
    old_text: Seq<char>,
    new_text: Seq<char>,
    before: Seq<char>,
    after: Seq<char>,
)
    requires
        content == before + old_text + after,
        text_replaced(content, old_text, new_text) is Ok,
    ensures
        text_replaced(content, old_text, new_text) == Ok::<Seq<char>, Seq<char>>(
            before + new_text + after,
        ),
{
    let i = crate::text::find(content, old_text)->0;
    let k = before.len() as int;
    crate::text::lemma_find(content, old_text);
    crate::text::lemma_find_from(content, old_text, i + 1);
    assert(content.subrange(k, k + old_text.len()) =~= old_text);
    assert(crate::text::occurs_at(content, old_text, k));
    if k != i {
        assert(k > i);
    }
    assert(content.subrange(0, i) =~= before);
    assert(content.subrange(i + old_text.len(), content.len() as int) =~= after);
}

/// Where a text that holds no line break ends, the search for one goes on behind it.
proof fn lemma_break_behind(a: Seq<char>, b: Seq<char>, k: int)
    requires
        0 <= k <= a.len(),
        forall|j: int| 0 <= j < a.len() ==> #[trigger] a[j] != '\n',
    ensures
        crate::text::char_from(a + b, '\n', k) == a.len() + crate::text::char_from(b, '\n', 0),
    decreases a.len() - k,
{
    let s = a + b;
    if k < a.len() {
        assert(s[k] == a[k]);
        lemma_break_behind(a, b, k + 1);
    } else {
        crate::text::lemma_char_from_tail(s, '\n', a.len() as int, 0);
        assert(s.subrange(a.len() as int, s.len() as int) =~= b);
    }
}

/// The first line break is the first.
proof fn lemma_break(s: Seq<char>, k: int)
    requires
        0 <= k <= s.len(),
    ensures
        ({
            let e = crate::text::char_from(s, '\n', k);
            &&& k <= e <= s.len()
            &&& e < s.len() ==> s[e] == '\n'
            &&& forall|j: int| k <= j < e ==> #[trigger] s[j] != '\n'
        }),
    decreases s.len() - k,
{
    if k < s.len() && s[k] != '\n' {
        lemma_break(s, k + 1);
    }
}

/// The first line is replaced.
proof fn lemma_first_line(content: Seq<char>, new_text: Seq<char>)
    requires
        content.len() > 0,
        new_text.len() > 0,
        forall|j: int| 0 <= j < new_text.len() ==> #[trigger] new_text[j] != '\n',
        new_text.last() != '\r',
    ensures
        crate::text::lines(line_replaced(content, 0, new_text)) == crate::text::lines(
            content,
        ).update(0, new_text),
{
    let n = content.len() as int;
    let e = crate::text::char_from(content, '\n', 0);
    let after = line_replaced(content, 0, new_text);
    let l = first_line_len(content);
    let rest = content.subrange(l, n);
    lemma_break(content, 0);
    assert(after == new_text + rest);
    lemma_break_behind(new_text, rest, 0);
    if e < n {
        let line = content.subrange(0, e);
        assert(l == e || (l == e - 1 && content[e - 1] == '\r')) by {
            if e > 0 {
                assert(line[e - 1] == content[e - 1]);
            }
        }
        assert(crate::text::char_from(rest, '\n', 0) == e - l) by {
            if l == e {
                assert(rest[0] == '\n');
            } else {
                assert(rest[0] == '\r' && rest[1] == '\n');
                assert(crate::text::char_from(rest, '\n', 1) == 1);
            }
        }
        let f = new_text.len() + (e - l);
        assert(crate::text::char_from(after, '\n', 0) == f);
        assert(crate::text::chomp_cr(after.subrange(0, f)) == new_text) by {
            if l == e {
                assert(after.subrange(0, f) =~= new_text);
            } else {
                assert(after.subrange(0, f) =~= new_text.push('\r'));
                assert(new_text.push('\r').subrange(0, new_text.len() as int) =~= new_text);
            }
        }
        let tail = content.subrange(e + 1, n);
        assert(after.subrange(f + 1, after.len() as int) =~= tail);
        assert(crate::text::lines(after) == seq![new_text] + crate::text::lines(tail));
        assert(crate::text::lines(content) == seq![crate::text::chomp_cr(line)]
            + crate::text::lines(tail));
        assert(seq![new_text] + crate::text::lines(tail) =~= (seq![crate::text::chomp_cr(line)]
            + crate::text::lines(tail)).update(0, new_text));
    } else {
        assert(rest =~= Seq::empty());
        assert(after =~= new_text);
        assert(crate::text::lines(after) == seq![new_text]);
        assert(crate::text::lines(content) == seq![content]);
        assert(seq![content].update(0, new_text) =~= seq![new_text]);
    }
}

/// What stands behind the first line is changed.
proof fn lemma_later_line(content: Seq<char>, changed: Seq<char>)
    requires
        crate::text::char_from(content, '\n', 0) < content.len(),
    ensures
        ({
            let e = crate::text::char_from(content, '\n', 0);
            let after = content.subrange(0, e + 1) + changed;
            crate::text::lines(after) == seq![crate::text::chomp_cr(content.subrange(0, e))]
                + crate::text::lines(changed)
        }),
{
    let e = crate::text::char_from(content, '\n', 0);
    let after = content.subrange(0, e + 1) + changed;
    lemma_break(content, 0);
    let line = content.subrange(0, e);
    let behind = seq!['\n'] + changed;
    assert forall|j: int| 0 <= j < line.len() implies #[trigger] line[j] != '\n' by {
        assert(content[j] != '\n');
    }
    lemma_break_behind(line, behind, 0);
    assert(line + behind =~= after);
    assert(behind[0] == '\n');
    assert(crate::text::char_from(behind, '\n', 0) == 0);
    assert(after.subrange(0, e) =~= line);
    assert(after.subrange(e + 1, after.len() as int) =~= changed);
}

/// An edit by anchor changes that line, and no other.
pub proof fn law_line_edit_changes_one_line(content: Seq<char>, i: int, new_text: Seq<char>)
    requires
        0 <= i < crate::text::lines(content).len(),
        new_text.len() > 0,
        forall|j: int| 0 <= j < new_text.len() ==> #[trigger] new_text[j] != '\n',
        new_text.last() != '\r',
    ensures
        crate::text::lines(line_replaced(content, i, new_text)) == crate::text::lines(
            content,
        ).update(i, new_text),
    decreases i,
{
    if i == 0 {
        lemma_first_line(content, new_text);
    } else {
        let e = crate::text::char_from(content, '\n', 0);
        lemma_break(content, 0);
        assert(e < content.len());
        let tail = content.subrange(e + 1, content.len() as int);
        law_line_edit_changes_one_line(tail, i - 1, new_text);
        lemma_later_line(content, line_replaced(tail, i - 1, new_text));
        let first = seq![crate::text::chomp_cr(content.subrange(0, e))];
        assert(crate::text::lines(content) == first + crate::text::lines(tail));
        assert((first + crate::text::lines(tail)).update(i, new_text) =~= first
            + crate::text::lines(tail).update(i - 1, new_text));
    }
}

/// An edit by text can be made exactly when the text is not empty and occurs once and no more; else it
/// is said what is wrong.
pub proof fn law_text_edit_needs_one_occurrence(
    content: Seq<char>,
    old_text: Seq<char>,
    new_text: Seq<char>,
)
    ensures
        text_replaced(content, old_text, new_text) is Ok <==> old_text.len() > 0 && exists|i: int|
            #[trigger]
            crate::text::occurs_at(content, old_text, i) && forall|j: int| #[trigger]
                crate::text::occurs_at(content, old_text, j) ==> j == i,
        old_text.len() == 0 ==> text_replaced(content, old_text, new_text) == Err::<
            Seq<char>,
            Seq<char>,
        >("old_text is empty"@),
        old_text.len() > 0 && !crate::text::contains(content, old_text) ==> text_replaced(
            content,
            old_text,
            new_text,
        ) == Err::<Seq<char>, Seq<char>>("old_text not found"@),
        forall|i: int, j: int| #[trigger]
            crate::text::occurs_at(content, old_text, i) && #[trigger] crate::text::occurs_at(
                content,
                old_text,
                j,
            ) && i < j && old_text.len() > 0 ==> text_replaced(content, old_text, new_text) == Err::<
                Seq<char>,
                Seq<char>,
            >("old_text occurs more than once"@),
{
    if old_text.len() > 0 {
        crate::text::lemma_find(content, old_text);
        match crate::text::find(content, old_text) {
            Some(i) => {
                crate::text::lemma_find_from(content, old_text, i + 1);
                assert(crate::text::occurs_at(content, old_text, i));
                match crate::text::find_from(content, old_text, i + 1) {
                    Some(j) => {
                        assert(crate::text::occurs_at(content, old_text, j));
                    },
                    None => {
                        assert forall|j: int| #[trigger]
                            crate::text::occurs_at(content, old_text, j) implies j == i by {
                            if j < i {
                                assert(!crate::text::occurs_at(content, old_text, j));
                            }
                        }
                    },
                }
            },
            None => {},
        }
    }
}

proof fn lemma_line_with(lines: Seq<Seq<char>>, i: int, from: int)
    requires
        0 <= from <= i < lines.len(),
    ensures
        line_with(lines, crate::tools::line_hash::anchor(lines, i), from) == Some(i),
    decreases i - from,
{
    if from < i {
        crate::tools::line_hash::law_anchors_are_distinct(lines, from, i);
        lemma_line_with(lines, i, from + 1);
    }
}

/// An edit with the anchor that a line is shown behind replaces that line and leaves all others.
pub proof fn law_anchor_edits_its_line(content: Seq<char>, i: int, new_text: Seq<char>)
    requires
        0 <= i < crate::text::lines(content).len(),
        new_text.len() > 0,
        !new_text.contains('\n'),
        new_text.last() != '\r',
    ensures
        ({
            let lines = crate::text::lines(content);
            let anchor = crate::tools::line_hash::anchor(lines, i);
            &&& edited(content, (EditView::Line { anchor, new_text })) matches Ok(after)
            &&& crate::text::lines(after) == lines.update(i, new_text)
        }),
{
    assert forall|j: int| 0 <= j < new_text.len() implies #[trigger] new_text[j] != '\n' by {
        assert(new_text.contains(new_text[j]));
    }
    lemma_line_with(crate::text::lines(content), i, 0);
    law_line_edit_changes_one_line(content, i, new_text);
}

proof fn lemma_no_line_with(lines: Seq<Seq<char>>, anchor: Seq<char>, from: int)
    requires
        0 <= from,
        forall|i: int|
            from <= i < lines.len() ==> crate::tools::line_hash::anchor(lines, i) != anchor,
    ensures
        line_with(lines, anchor, from) is None,
    decreases lines.len() - from,
{
    if from < lines.len() {
        lemma_no_line_with(lines, anchor, from + 1);
    }
}

/// An anchor that no line has edits nothing.
pub proof fn law_unknown_anchor_is_refused(
    content: Seq<char>,
    anchor: Seq<char>,
    new_text: Seq<char>,
)
    requires
        forall|i: int|
            0 <= i < crate::text::lines(content).len() ==> crate::tools::line_hash::anchor(
                crate::text::lines(content),
                i,
            ) != anchor,
    ensures
        edited(content, (EditView::Line { anchor, new_text })) is Err,
{
    lemma_no_line_with(crate::text::lines(content), anchor, 0);
}

/// Edits are made one after the other, each on what the ones before it left, and only if all of them
/// can be made.
pub proof fn law_edits_one_after_the_other(content: Seq<char>, edits: Seq<EditView>, n: int)
    requires
        0 < n <= edits.len(),
    ensures
        all_edited(content, edits, 0) == Ok::<Seq<char>, Seq<char>>(content),
        all_edited(content, edits, n - 1) matches Ok(c) ==> all_edited(content, edits, n) == edited(
            c,
            edits[n - 1],
        ),
        all_edited(content, edits, n) is Ok ==> all_edited(content, edits, n - 1) is Ok,
{
}

/// A call is read as it stands: each object with a new text and either an old text or an anchor is an
/// edit, an old text coming first.
pub proof fn law_edit_is_read_as_it_stands(
    fields: Map<Seq<char>, Json>,
    first: Seq<char>,
    new_text: Seq<char>,
)
    requires
        fields.contains_key("new_text"@),
        fields["new_text"@] == Json::Str(new_text),
    ensures
        fields.contains_key("old_text"@) && fields["old_text"@] == Json::Str(first) ==> edit_in(
            Json::Obj(fields),
        ) == Some(EditView::Text { old_text: first, new_text }),
        !fields.contains_key("old_text"@) && fields.contains_key("anchor"@) && fields["anchor"@]
            == Json::Str(first) ==> edit_in(Json::Obj(fields)) == Some(
            EditView::Line { anchor: first, new_text },
        ),
        !fields.contains_key("old_text"@) && !fields.contains_key("anchor"@) ==> edit_in(
            Json::Obj(fields),
        ) is None,
{
}

/// The edits of a call are read in order, and only if every one of them can be read.
pub proof fn law_edits_are_read_in_order(js: Seq<Json>, n: int)
    requires
        0 <= n <= js.len(),
    ensures
        edits_in(js, n) is Some <==> forall|i: int| 0 <= i < n ==> edit_in(#[trigger] js[i]) is Some,
        edits_in(js, n) matches Some(es) ==> es.len() == n && forall|i: int|
            0 <= i < n ==> edit_in(js[i]) == Some(#[trigger] es[i]),
    decreases n,
{
    if n > 0 {
        law_edits_are_read_in_order(js, n - 1);
        if edits_in(js, n) is Some {
            let es = edits_in(js, n)->0;
            let init = edits_in(js, n - 1)->0;
            assert forall|i: int| 0 <= i < n implies edit_in(js[i]) == Some(#[trigger] es[i]) by {
                if i < n - 1 {
                    assert(es[i] == init[i]);
                }
            }
            assert forall|i: int| 0 <= i < n implies edit_in(#[trigger] js[i]) is Some by {
                assert(edit_in(js[i]) == Some(es[i]));
            }
        } else if forall|i: int| 0 <= i < n ==> edit_in(#[trigger] js[i]) is Some {
            assert(edit_in(js[n - 1]) is Some);
        }
    }
}

/// What is said of a file names it, and is why it was not edited where it was not. The files that were
/// edited are those without an error.
pub proof fn law_report(f: FileEditsView, error: Option<Seq<char>>, errors: Seq<Option<Seq<char>>>)
    ensures
        crate::text::contains(file_line(f, error), f.path),
        error matches Some(e) ==> crate::text::ends_with(file_line(f, error), e),
        error is None ==> crate::text::starts_with(file_line(f, error), "edited "@),
        edited_files(errors, errors.len() as int) == errors.filter(
            |e: Option<Seq<char>>| e is None,
        ).len(),
{
    let line = file_line(f, error);
    let at = match error {
        None => "edited "@.len() as int,
        Some(_) => "error: "@.len() as int,
    };
    assert(line.subrange(at, at + f.path.len()) =~= f.path);
    assert(crate::text::occurs_at(line, f.path, at));
    match error {
        None => {
            assert(line.subrange(0, at) =~= "edited "@);
        },
        Some(e) => {
            assert(line.subrange(line.len() - e.len(), line.len() as int) =~= e);
        },
    }
    lemma_edited_files(errors);
}

proof fn lemma_edited_files(errors: Seq<Option<Seq<char>>>)
    ensures
        edited_files(errors, errors.len() as int) == errors.filter(
            |e: Option<Seq<char>>| e is None,
        ).len(),
    decreases errors.len(),
{
    reveal(Seq::filter);
    if errors.len() > 0 {
        let init = errors.drop_last();
        lemma_edited_files(init);
        lemma_edited_prefix(errors, init, init.len() as int);
    }
}

proof fn lemma_edited_prefix(all: Seq<Option<Seq<char>>>, init: Seq<Option<Seq<char>>>, n: int)
    requires
        0 <= n <= init.len() <= all.len(),
        forall|i: int| 0 <= i < init.len() ==> init[i] == all[i],
    ensures
        edited_files(all, n) == edited_files(init, n),
    decreases n,
{
    if n > 0 {
        lemma_edited_prefix(all, init, n - 1);
    }
}

/// An edit by anchor puts the new text, whatever it is, in the place of the line; all before the line and
/// all behind it, its line end included, stays.
pub proof fn law_line_edit_keeps_the_rest(content: Seq<char>, i: int, new_text: Seq<char>) -> (at: int)
    requires
        0 <= i < crate::text::lines(content).len(),
    ensures
        ({
            let line = crate::text::lines(content)[i];
            &&& 0 <= at
            &&& at + line.len() <= content.len()
            &&& content.subrange(at, at + line.len()) == line
            &&& line_replaced(content, i, new_text) == content.subrange(0, at) + new_text
                + content.subrange(at + line.len(), content.len() as int)
        }),
    decreases i,
{
    let e = crate::text::char_from(content, '\n', 0);
    crate::text::lemma_char_from(content, '\n', 0);
    let line = crate::text::lines(content)[i];
    if i == 0 {
        assert(content.subrange(0, line.len() as int) =~= line);
        assert(line_replaced(content, 0, new_text) =~= content.subrange(0, 0) + new_text
            + content.subrange(line.len() as int, content.len() as int));
        0
    } else {
        assert(e < content.len());
        let tail = content.subrange(e + 1, content.len() as int);
        assert(line == crate::text::lines(tail)[i - 1]);
        let at = law_line_edit_keeps_the_rest(tail, i - 1, new_text);
        let n = line.len() as int;
        assert(content.subrange(at + e + 1, at + e + 1 + n) =~= tail.subrange(at, at + n));
        assert(line_replaced(content, i, new_text) =~= content.subrange(0, at + e + 1) + new_text
            + content.subrange(at + e + 1 + n, content.len() as int));
        at + e + 1
    }
}

} // verus!
