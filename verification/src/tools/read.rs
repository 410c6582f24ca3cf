//! The `read` tool: the contents of one or more files.

use base64::Engine;

use vstd::prelude::*;

use crate::json::{
    array_value, as_array, as_str, empty_object_value, get, string_value, with_entry,
    without_entry, Json,
};
use crate::path::extension;
use crate::text::{
    str_ascii_lower, str_eq, str_len, str_lines, truncate_str, usize_text,
};
use crate::tools::bash::get_number;
use crate::tools::line_hash::{format_hashed, hash_lines_with_disambiguators};
use crate::tools::{
    object_value, property_value, resolve_path, text_list_value, ToolOutput, ToolOutputView,
};
use crate::types::{
    ImageContent, ImageContentView, TextContent, Tool, ToolResultContent, ToolResultContentView,
};

verus! {

/// The most files of a call.
pub const MAX_PATHS: usize = 20;

/// The most bytes of text of a call.
pub const MAX_TOTAL_BYTES: usize = 262_144;

/// The most bytes of an image.
pub const MAX_IMAGE_BYTES: usize = 5_242_880;

/// The most bytes of encoded images of a call.
pub const MAX_TOTAL_IMAGE_BYTES: usize = 20_971_520;

/// What a call asks for.
#[derive(Debug, PartialEq)]
pub struct ReadRequest {
    pub paths: Vec<String>,
    /// Line number to start from, counted from 1.
    pub offset: usize,
    /// The most lines of each file.
    pub limit: Option<usize>,
}

/// What a [`ReadRequest`] holds.
#[verifier::ext_equal]
pub struct ReadRequestView {
    pub paths: Seq<Seq<char>>,
    pub offset: usize,
    pub limit: Option<usize>,
}

impl View for ReadRequest {
    type V = ReadRequestView;

    open spec fn view(&self) -> ReadRequestView {
        ReadRequestView {
            paths: self.paths.deep_view(),
            offset: self.offset,
            limit: self.limit,
        }
    }
}

impl DeepView for ReadRequest {
    type V = ReadRequestView;

    open spec fn deep_view(&self) -> ReadRequestView {
        self@
    }
}

/// What reading a file gave.
#[derive(Debug, PartialEq)]
pub enum FileInput {
    /// The file could not be read; the text says why.
    Failed(String),
    /// An image that is too large to be read.
    Oversized { size: usize },
    /// The bytes of an image, and the size that the file system gives.
    Image { size: usize, data: Vec<u8> },
    /// A text.
    Text(String),
}

/// What a [`FileInput`] holds.
#[verifier::ext_equal]
pub enum FileInputView {
    Failed(Seq<char>),
    Oversized { size: usize },
    Image { size: usize, data: Seq<u8> },
    Text(Seq<char>),
}

impl View for FileInput {
    type V = FileInputView;

    open spec fn view(&self) -> FileInputView {
        match *self {
            FileInput::Failed(x) => FileInputView::Failed(x@),
            FileInput::Oversized { size } => FileInputView::Oversized { size: size },
            FileInput::Image { size, data } => FileInputView::Image { size: size, data: data@ },
            FileInput::Text(x) => FileInputView::Text(x@),
        }
    }
}

impl DeepView for FileInput {
    type V = FileInputView;

    open spec fn deep_view(&self) -> FileInputView {
        self@
    }
}

/// What is shown of a file.
#[derive(Debug, PartialEq)]
pub enum FileBody {
    Text(String),
    Image { data: String, mime: &'static str, raw_bytes: usize, args_ignored: bool },
    Error(String),
}

/// What a [`FileBody`] holds.
#[verifier::ext_equal]
pub enum FileBodyView {
    Text(Seq<char>),
    Image { data: Seq<char>, mime: Seq<char>, raw_bytes: usize, args_ignored: bool },
    Error(Seq<char>),
}

impl View for FileBody {
    type V = FileBodyView;

    open spec fn view(&self) -> FileBodyView {
        match *self {
            FileBody::Text(x) => FileBodyView::Text(x@),
            FileBody::Image { data, mime, raw_bytes, args_ignored } => FileBodyView::Image { data: data@, mime: mime@, raw_bytes: raw_bytes, args_ignored: args_ignored },
            FileBody::Error(x) => FileBodyView::Error(x@),
        }
    }
}

impl DeepView for FileBody {
    type V = FileBodyView;

    open spec fn deep_view(&self) -> FileBodyView {
        self@
    }
}

/// A file that was read.
#[derive(Debug, PartialEq)]
pub struct FileRead {
    pub path: String,
    pub body: FileBody,
    pub total_lines: usize,
    /// What it takes of the budget.
    pub bytes: usize,
    /// The first and the last line, unless it is the whole file.
    pub range: Option<(usize, usize)>,
}

/// What a [`FileRead`] holds.
#[verifier::ext_equal]
pub struct FileReadView {
    pub path: Seq<char>,
    pub body: FileBodyView,
    pub total_lines: usize,
    pub bytes: usize,
    pub range: Option<(usize, usize)>,
}

impl View for FileRead {
    type V = FileReadView;

    open spec fn view(&self) -> FileReadView {
        FileReadView {
            path: self.path@,
            body: self.body@,
            total_lines: self.total_lines,
            bytes: self.bytes,
            range: self.range,
        }
    }
}

impl DeepView for FileRead {
    type V = FileReadView;

    open spec fn deep_view(&self) -> FileReadView {
        self@
    }
}

// ---------------------------------------------------------------------------
// Arguments
// ---------------------------------------------------------------------------

/// Whether this describes the tool.
pub open spec fn is_tool(t: crate::types::ToolView) -> bool {
    &&& t.name == "read"@
    &&& t.description
        == "Read the contents of one or more files. Supports offset/limit for large files (applied per file). Each line in the body is prefixed with `<hash>§` — a stable per-line anchor (FNV-1a 8 hex; `.n` suffix for duplicate lines) you can use with the `edit` tool's anchor shape."@
    &&& t.parameters.value == crate::tools::object_schema(
        map![
            "paths"@ => crate::tools::text_list(
                MAX_PATHS as nat,
                "Paths to the files to read (1–20)."@,
            ),
            "offset"@ => crate::tools::property(
                "integer"@,
                "Line number to start reading from (1-indexed). Applied to each file independently."@,
            ),
            "limit"@ => crate::tools::property(
                "integer"@,
                "Maximum number of lines to read per file."@,
            ),
        ],
        seq!["paths"@],
    )
}

/// The description of the tool.
pub fn tool() -> (r: Tool)
    ensures
        is_tool(r@),
{
    let p = with_entry(
        empty_object_value(),
        "paths".to_owned(),
        text_list_value(MAX_PATHS, "Paths to the files to read (1–20)."),
    );
    let p = with_entry(
        p,
        "offset".to_owned(),
        property_value(
            "integer",
            "Line number to start reading from (1-indexed). Applied to each file independently.",
        ),
    );
    let p = with_entry(
        p,
        "limit".to_owned(),
        property_value("integer", "Maximum number of lines to read per file."),
    );
    let required: Vec<String> = vec!["paths".to_owned()];
    assert(required.deep_view() =~= seq!["paths"@]);
    Tool {
        name: "read".to_owned(),
        description: "Read the contents of one or more files. Supports offset/limit for large files (applied per file). Each line in the body is prefixed with `<hash>§` — a stable per-line anchor (FNV-1a 8 hex; `.n` suffix for duplicate lines) you can use with the `edit` tool's anchor shape.".to_owned(),
        parameters: object_value(p, &required),
    }
}

/// Arguments with a single `path` turned into a list of `paths`.
pub open spec fn prepared(args: Json) -> Json {
    if args is Obj && crate::json::field(args, "paths"@) is None && crate::json::field(
        args,
        "path"@,
    ) is Some && crate::json::field(args, "path"@)->0 is Str {
        Json::Obj(
            args->Obj_0.remove("path"@).insert(
                "paths"@,
                Json::Arr(seq![crate::json::field(args, "path"@)->0]),
            ),
        )
    } else {
        args
    }
}

/// Turn a single `path` into a list of `paths`.
pub fn prepare_arguments(args: serde_json::Value) -> (r: serde_json::Value)
    ensures
        crate::json::json_of(r) == prepared(crate::json::json_of(args)),
{
    if get(&args, "paths").is_some() {
        return args;
    }
    let path: String = match get(&args, "path") {
        Some(v) => match as_str(v) {
            Some(s) => s.to_owned(),
            None => {
                return args;
            },
        },
        None => {
            return args;
        },
    };
    let ghost p = path@;
    let list: Vec<serde_json::Value> = vec![string_value(path)];
    assert(crate::json::jsons(list@) =~= seq![Json::Str(p)]);
    with_entry(without_entry(args, "path"), "paths".to_owned(), array_value(list))
}

/// The first element that is no text, or the number of elements.
pub open spec fn first_non_text(elems: Seq<Json>) -> int
    decreases elems.len(),
{
    if elems.len() == 0 || !(elems[0] is Str) {
        0
    } else {
        1 + first_non_text(elems.subrange(1, elems.len() as int))
    }
}

/// What is wrong with the arguments.
pub open spec fn argument_error(args: Json) -> Option<Seq<char>> {
    match crate::json::field(args, "paths"@) {
        None => Some("missing 'paths' argument (expected an array of strings)"@),
        Some(v) => match crate::json::as_elems(v) {
            None => Some("'paths' must be an array of strings"@),
            Some(elems) => if elems.len() == 0 {
                Some("'paths' array is empty — provide at least one path"@)
            } else if elems.len() > MAX_PATHS {
                Some(
                    "too many paths: "@ + crate::text::decimal(elems.len()) + " (max "@
                        + crate::text::decimal(MAX_PATHS as nat) + ")"@,
                )
            } else if first_non_text(elems) < elems.len() {
                Some(
                    "paths["@ + crate::text::decimal(first_non_text(elems) as nat)
                        + "] is not a string"@,
                )
            } else {
                None
            },
        },
    }
}

/// What a call asks for.
pub open spec fn requested(args: Json) -> ReadRequestView {
    let elems = crate::json::as_elems(crate::json::field(args, "paths"@)->0)->0;
    ReadRequestView {
        paths: Seq::new(elems.len(), |i: int| elems[i]->Str_0),
        offset: match crate::tools::bash::number_argument(args, "offset"@) {
            Some(n) => if n < 1 {
                1
            } else {
                n as usize
            },
            None => 1,
        },
        limit: match crate::tools::bash::number_argument(args, "limit"@) {
            Some(n) => Some(n as usize),
            None => None,
        },
    }
}

/// The texts of a list, or the position of the first element that is none.
fn collect_texts(elems: &Vec<serde_json::Value>) -> (r: core::result::Result<Vec<String>, usize>)
    ensures
        match r {
            Ok(v) => first_non_text(crate::json::jsons(elems@)) == elems@.len() && v.deep_view()
                == Seq::new(elems@.len(), |i: int| crate::json::jsons(elems@)[i]->Str_0),
            Err(i) => first_non_text(crate::json::jsons(elems@)) == i && i < elems@.len(),
        },
{
    let ghost all = crate::json::jsons(elems@);
    let mut out: Vec<String> = Vec::new();
    let mut i: usize = 0;
    assert(all.subrange(0, all.len() as int) =~= all);
    while i < elems.len()
        invariant
            i <= elems.len(),
            all == crate::json::jsons(elems@),
            out.len() == i,
            forall|j: int| 0 <= j < i ==> (#[trigger] out@[j])@ == all[j]->Str_0,
            first_non_text(all) == i + first_non_text(all.subrange(i as int, all.len() as int)),
        decreases elems.len() - i,
    {
        let ghost p = all.subrange(i as int, all.len() as int);
        assert(p[0] == crate::json::json_of(elems@[i as int]));
        assert(p.subrange(1, p.len() as int) =~= all.subrange(i + 1, all.len() as int));
        match as_str(&elems[i]) {
            Some(s) => {
                out.push(s.to_owned());
            },
            None => {
                return Err(i);
            },
        }
        i = i + 1;
    }
    assert(out.deep_view() =~= Seq::new(elems@.len(), |i: int| all[i]->Str_0));
    Ok(out)
}

/// What a call asks for, or why it cannot be done.
pub fn parse(args: &serde_json::Value) -> (r: core::result::Result<ReadRequest, ToolOutput>)
    ensures
        ({
            let json = crate::json::json_of(*args);
            match r {
                Ok(q) => argument_error(json) is None && q@ == requested(json),
                Err(o) => argument_error(json) is Some && o@ == crate::tools::text_output(
                    argument_error(json)->0,
                    true,
                ),
            }
        }),
{
    let list = match get(args, "paths") {
        Some(v) => v,
        None => {
            return Err(
                ToolOutput::error("missing 'paths' argument (expected an array of strings)"),
            );
        },
    };
    let elems = match as_array(list) {
        Some(v) => v,
        None => {
            return Err(ToolOutput::error("'paths' must be an array of strings"));
        },
    };
    assert(crate::json::jsons(elems@).len() == elems.len());
    if elems.len() == 0 {
        return Err(ToolOutput::error("'paths' array is empty — provide at least one path"));
    }
    if elems.len() > MAX_PATHS {
        let mut text: String = "too many paths: ".to_owned();
        text.append(usize_text(elems.len()).as_str());
        text.append(" (max ");
        text.append(usize_text(MAX_PATHS).as_str());
        text.append(")");
        return Err(ToolOutput::error(text.as_str()));
    }
    let paths = match collect_texts(elems) {
        Ok(p) => p,
        Err(i) => {
            let mut text: String = "paths[".to_owned();
            text.append(usize_text(i).as_str());
            text.append("] is not a string");
            return Err(ToolOutput::error(text.as_str()));
        },
    };
    let offset: usize = match get_number(args, "offset") {
        Some(n) => if n < 1 {
            1
        } else {
            n as usize
        },
        None => 1,
    };
    let limit: Option<usize> = match get_number(args, "limit") {
        Some(n) => Some(n as usize),
        None => None,
    };
    Ok(ReadRequest { paths, offset, limit })
}

// ---------------------------------------------------------------------------
// One file
// ---------------------------------------------------------------------------

/// The MIME type of an image, by the extension of its path.
pub open spec fn mime_of(path: Seq<char>) -> Option<Seq<char>> {
    match crate::path::extension_of(path) {
        Some(e) => {
            let ext = crate::text::ascii_lower(e);
            if ext == "png"@ {
                Some("image/png"@)
            } else if ext == "jpg"@ || ext == "jpeg"@ {
                Some("image/jpeg"@)
            } else if ext == "gif"@ {
                Some("image/gif"@)
            } else if ext == "webp"@ {
                Some("image/webp"@)
            } else {
                None
            }
        },
        None => None,
    }
}

/// The MIME type of an image, by the extension of its path.
pub fn image_mime_from_path(path: &str) -> (r: Option<&'static str>)
    ensures
        match r {
            Some(m) => mime_of(path@) == Some(m@),
            None => mime_of(path@) is None,
        },
{
    let ext = match extension(path) {
        Some(e) => str_ascii_lower(e.as_str()),
        None => {
            return None;
        },
    };
    if str_eq(ext.as_str(), "png") {
        Some("image/png")
    } else if str_eq(ext.as_str(), "jpg") || str_eq(ext.as_str(), "jpeg") {
        Some("image/jpeg")
    } else if str_eq(ext.as_str(), "gif") {
        Some("image/gif")
    } else if str_eq(ext.as_str(), "webp") {
        Some("image/webp")
    } else {
        None
    }
}

/// The name of an image format.
pub open spec fn label_of(mime: Seq<char>) -> Seq<char> {
    if mime == "image/png"@ {
        "PNG"@
    } else if mime == "image/jpeg"@ {
        "JPEG"@
    } else if mime == "image/gif"@ {
        "GIF"@
    } else if mime == "image/webp"@ {
        "WEBP"@
    } else {
        "image"@
    }
}

/// The name of an image format.
pub fn mime_label(mime: &str) -> (r: &'static str)
    ensures
        r@ == label_of(mime@),
{
    if str_eq(mime, "image/png") {
        "PNG"
    } else if str_eq(mime, "image/jpeg") {
        "JPEG"
    } else if str_eq(mime, "image/gif") {
        "GIF"
    } else if str_eq(mime, "image/webp") {
        "WEBP"
    } else {
        "image"
    }
}

/// The padded standard Base64 text of bytes.
pub uninterp spec fn base64_text(bytes: Seq<u8>) -> Seq<char>;

/// `Engine::encode` of `base64::engine::general_purpose::STANDARD`. The result is named by
/// [`base64_text`].
#[verifier::external_body]
fn encode_base64(bytes: &Vec<u8>) -> (r: String)
    ensures
        r@ == base64_text(bytes@),
{
    base64::engine::general_purpose::STANDARD.encode(bytes)
}

/// A file that cannot be shown.
pub open spec fn failed_read(path: Seq<char>, message: Seq<char>) -> FileReadView {
    FileReadView {
        path,
        body: FileBodyView::Error(message),
        total_lines: 0,
        bytes: 0,
        range: None,
    }
}

/// An image. `data` is its Base64 text.
pub open spec fn image_read(
    target: Seq<char>,
    path: Seq<char>,
    mime: Seq<char>,
    size: usize,
    data: Seq<char>,
    args_ignored: bool,
    remaining: usize,
) -> FileReadView {
    if size > MAX_IMAGE_BYTES {
        failed_read(
            path,
            "image "@ + target + " is "@ + crate::text::decimal(size as nat)
                + " bytes, exceeds per-image cap of "@ + crate::text::decimal(
                MAX_IMAGE_BYTES as nat,
            ) + " bytes"@,
        )
    } else if crate::text::byte_len(data) > remaining {
        failed_read(
            path,
            "image "@ + target + " ("@ + crate::text::decimal(crate::text::byte_len(data))
                + " bytes base64) exceeds remaining image budget for this call"@,
        )
    } else {
        FileReadView {
            path,
            body: FileBodyView::Image { data, mime, raw_bytes: size, args_ignored },
            total_lines: 0,
            bytes: crate::text::byte_len(data) as usize,
            range: None,
        }
    }
}

/// Where the lines that are shown start.
pub open spec fn first_line(offset: usize, total: int) -> int {
    let start = if offset < 1 {
        0
    } else {
        offset - 1
    };
    if start < total {
        start
    } else {
        total
    }
}

/// Where the lines that are shown end.
pub open spec fn last_line(start: int, limit: Option<usize>, total: int) -> int {
    match limit {
        Some(l) => if start + l < total {
            start + l
        } else {
            total
        },
        None => total,
    }
}

/// A text that is cut when it exceeds the budget.
pub open spec fn capped(body: Seq<char>, remaining: usize) -> Seq<char> {
    if crate::text::byte_len(body) > remaining {
        crate::text::longest_prefix(body, remaining as nat)
            + "\n\n[truncated: per-call byte cap reached]"@
    } else {
        body
    }
}

/// What follows the lines of a page when lines are left, and the line to go on at.
pub open spec fn rest_notice(left: nat, next: nat) -> Seq<char> {
    "\n\n["@ + crate::text::decimal(left) + " more lines in file. Use offset="@
        + crate::text::decimal(next) + " to continue.]"@
}

/// A text file: the lines that were asked for behind their anchors, and how to get the rest.
pub open spec fn text_body(content: Seq<char>, offset: usize, limit: Option<usize>) -> Seq<char> {
    let lines = crate::text::lines(content);
    let total = lines.len() as int;
    let start = first_line(offset, total);
    let end = last_line(start, limit, total);
    let body = crate::tools::line_hash::anchored(lines, start, end);
    if end < total {
        body + rest_notice((total - end) as nat, (end + 1) as nat)
    } else {
        body
    }
}

/// A text file.
pub open spec fn text_read(
    path: Seq<char>,
    content: Seq<char>,
    offset: usize,
    limit: Option<usize>,
    remaining: usize,
) -> FileReadView {
    let total = crate::text::lines(content).len() as int;
    let start = first_line(offset, total);
    let end = last_line(start, limit, total);
    let body = capped(text_body(content, offset, limit), remaining);
    FileReadView {
        path,
        body: FileBodyView::Text(body),
        total_lines: total as usize,
        bytes: crate::text::byte_len(body) as usize,
        range: if start == 0 && end == total {
            None
        } else {
            Some(((start + 1) as usize, end as usize))
        },
    }
}

/// Whether the input is of the kind that the path asks for.
pub open spec fn input_fits(path: Seq<char>, input: FileInputView) -> bool {
    &&& input is Text ==> mime_of(path) is None
    &&& input is Image || input is Oversized ==> mime_of(path) is Some
}

/// A file that was read.
pub open spec fn file_read(
    cwd: Seq<char>,
    path: Seq<char>,
    offset: usize,
    limit: Option<usize>,
    remaining: usize,
    input: FileInputView,
) -> FileReadView {
    let target = crate::path::joined(cwd, path);
    let ignored = offset != 1 || limit is Some;
    match input {
        FileInputView::Failed(e) => failed_read(path, "failed to read "@ + target + ": "@ + e),
        FileInputView::Oversized { size } => failed_read(
            path,
            "image "@ + target + " is "@ + crate::text::decimal(size as nat)
                + " bytes, exceeds per-image cap of "@ + crate::text::decimal(
                MAX_IMAGE_BYTES as nat,
            ) + " bytes"@,
        ),
        FileInputView::Image { size, data } => image_read(
            target,
            path,
            mime_of(path)->0,
            size,
            base64_text(data),
            ignored,
            remaining,
        ),
        FileInputView::Text(content) => text_read(path, content, offset, limit, remaining),
    }
}

/// A file that cannot be shown.
fn fail(path: &str, message: String) -> (r: FileRead)
    ensures
        r@ == failed_read(path@, message@),
{
    FileRead {
        path: path.to_owned(),
        body: FileBody::Error(message),
        total_lines: 0,
        bytes: 0,
        range: None,
    }
}

/// The message for an image that is too large.
fn oversized_message(target: &str, size: usize) -> (r: String)
    ensures
        r@ == "image "@ + target@ + " is "@ + crate::text::decimal(size as nat)
            + " bytes, exceeds per-image cap of "@ + crate::text::decimal(MAX_IMAGE_BYTES as nat)
            + " bytes"@,
{
    let mut out: String = "image ".to_owned();
    out.append(target);
    out.append(" is ");
    out.append(usize_text(size).as_str());
    out.append(" bytes, exceeds per-image cap of ");
    out.append(usize_text(MAX_IMAGE_BYTES).as_str());
    out.append(" bytes");
    out
}

/// An image.
fn read_image(
    target: &str,
    path: &str,
    mime: &'static str,
    size: usize,
    data: String,
    args_ignored: bool,
    remaining: usize,
) -> (r: FileRead)
    ensures
        r@ == image_read(target@, path@, mime@, size, data@, args_ignored, remaining),
{
    if size > MAX_IMAGE_BYTES {
        return fail(path, oversized_message(target, size));
    }
    let charge: usize = str_len(data.as_str());
    if charge > remaining {
        let mut out: String = "image ".to_owned();
        out.append(target);
        out.append(" (");
        out.append(usize_text(charge).as_str());
        out.append(" bytes base64) exceeds remaining image budget for this call");
        return fail(path, out);
    }
    FileRead {
        path: path.to_owned(),
        body: FileBody::Image { data, mime, raw_bytes: size, args_ignored },
        total_lines: 0,
        bytes: charge,
        range: None,
    }
}

/// A text file.
fn read_text(
    path: &str,
    content: &str,
    offset: usize,
    limit: Option<usize>,
    remaining: usize,
) -> (r: FileRead)
    ensures
        r@ == text_read(path@, content@, offset, limit, remaining),
{
    let lines = str_lines(content);
    let total: usize = lines.len();
    assert(lines.deep_view().len() == total);
    let wanted: usize = if offset < 1 {
        0
    } else {
        offset - 1
    };
    let start: usize = if wanted < total {
        wanted
    } else {
        total
    };
    let end: usize = match limit {
        Some(l) => if l < total - start {
            start + l
        } else {
            total
        },
        None => total,
    };
    let anchors = hash_lines_with_disambiguators(&lines);
    assert(lines.deep_view().len() == lines.len() && anchors.deep_view().len() == anchors.len());
    let mut body = format_hashed(&lines, &anchors, start, end);
    let ghost shown = body@;
    if end < total {
        body.append("\n\n[");
        body.append(usize_text(total - end).as_str());
        body.append(" more lines in file. Use offset=");
        body.append(usize_text(end + 1).as_str());
        body.append(" to continue.]");
        assert(body@ =~= shown + rest_notice((total - end) as nat, (end + 1) as nat));
    }
    let body: String = if str_len(body.as_str()) > remaining {
        let mut cut: String = truncate_str(body.as_str(), remaining).to_owned();
        cut.append("\n\n[truncated: per-call byte cap reached]");
        cut
    } else {
        body
    };
    let bytes: usize = str_len(body.as_str());
    let range: Option<(usize, usize)> = if start == 0 && end == total {
        None
    } else {
        Some((start + 1, end))
    };
    FileRead {
        path: path.to_owned(),
        body: FileBody::Text(body),
        total_lines: total,
        bytes,
        range,
    }
}

/// Show one file.
pub fn read_one(
    cwd: &str,
    path: &str,
    offset: usize,
    limit: Option<usize>,
    remaining: usize,
    input: &FileInput,
) -> (r: FileRead)
    requires
        input_fits(path@, input@),
    ensures
        r@ == file_read(cwd@, path@, offset, limit, remaining, input@),
{
    let target = resolve_path(cwd, path);
    match input {
        FileInput::Failed(e) => {
            let mut out: String = "failed to read ".to_owned();
            out.append(target.as_str());
            out.append(": ");
            out.append(e.as_str());
            fail(path, out)
        },
        FileInput::Oversized { size } => fail(path, oversized_message(target.as_str(), *size)),
        FileInput::Image { size, data } => {
            let mime: &'static str = match image_mime_from_path(path) {
                Some(m) => m,
                None => "",
            };
            read_image(
                target.as_str(),
                path,
                mime,
                *size,
                encode_base64(data),
                offset != 1 || limit.is_some(),
                remaining,
            )
        },
        FileInput::Text(content) => read_text(path, content.as_str(), offset, limit, remaining),
    }
}

/// The lines that a read shows, each behind its anchor.
pub open spec fn page(content: Seq<char>, offset: usize, limit: Option<usize>) -> Seq<Seq<char>> {
    let lines = crate::text::lines(content);
    let start = first_line(offset, lines.len() as int);
    let end = last_line(start, limit, lines.len() as int);
    Seq::new(
        (end - start) as nat,
        |i: int| crate::tools::line_hash::anchor(lines, start + i) + "§"@ + lines[start + i],
    )
}

/// The offset at which a read says to go on, where lines are left.
pub open spec fn next_page(content: Seq<char>, offset: usize, limit: Option<usize>) -> Option<
    usize,
> {
    let total = crate::text::lines(content).len() as int;
    let end = last_line(first_line(offset, total), limit, total);
    if end < total {
        Some((end + 1) as usize)
    } else {
        None
    }
}

/// The lines that are shown by reading on from an offset, `size` lines at a time, each time at the
/// offset that the read before says.
pub open spec fn paged(content: Seq<char>, offset: usize, size: usize) -> Seq<Seq<char>>
    decreases
            crate::text::lines(content).len() - first_line(
                offset,
                crate::text::lines(content).len() as int,
            ),
    when size >= 1 && crate::text::lines(content).len() <= usize::MAX
{
    let shown = page(content, offset, Some(size));
    match next_page(content, offset, Some(size)) {
        Some(next) => shown + paged(content, next, size),
        None => shown,
    }
}

/// A full read shows every line of the text behind its anchor, and names no offset to go on at.
pub proof fn law_full_read(cwd: Seq<char>, path: Seq<char>, content: Seq<char>, remaining: usize)
    requires
        crate::text::byte_len(text_body(content, 1, None)) <= remaining,
    ensures
        file_read(cwd, path, 1, None, remaining, FileInputView::Text(content)).body
            == FileBodyView::Text(crate::text::join(page(content, 1, None), "\n"@)),
        page(content, 1, None).len() == crate::text::lines(content).len(),
        forall|i: int|
            0 <= i < crate::text::lines(content).len() ==> #[trigger] page(content, 1, None)[i]
                == crate::tools::line_hash::anchor(crate::text::lines(content), i) + "§"@
                + crate::text::lines(content)[i],
{
    lemma_page_body(content, 1, None);
}

/// A read of `size` lines from an offset shows the lines from that offset on, at most `size` of
/// them, each as a full read shows it. Where lines are left it says how many, and the offset of the
/// first line that it does not show.
pub proof fn law_page_shows_its_lines(
    cwd: Seq<char>,
    path: Seq<char>,
    content: Seq<char>,
    offset: usize,
    size: usize,
    remaining: usize,
)
    requires
        offset >= 1,
        size >= 1,
        crate::text::byte_len(text_body(content, offset, Some(size))) <= remaining,
    ensures
        ({
            let n = crate::text::lines(content).len() as int;
            let from = if offset - 1 < n {
                offset - 1
            } else {
                n
            };
            let to = if offset - 1 + size < n {
                offset - 1 + size
            } else {
                n
            };
            let shown = page(content, 1, None).subrange(from, to);
            let body = file_read(
                cwd,
                path,
                offset,
                Some(size),
                remaining,
                FileInputView::Text(content),
            ).body;
            &&& page(content, offset, Some(size)) == shown
            &&& to < n ==> body == FileBodyView::Text(
                crate::text::join(shown, "\n"@) + rest_notice((n - to) as nat, (to + 1) as nat),
            )
            &&& to == n ==> body == FileBodyView::Text(crate::text::join(shown, "\n"@))
            &&& next_page(content, offset, Some(size)) == if to < n {
                Some((to + 1) as usize)
            } else {
                None
            }
        }),
{
    lemma_page_body(content, offset, Some(size));
    lemma_page_of_full(content, offset, size);
}

/// Reading on at the offset that each read says shows every line from the first offset on exactly
/// once, in order, each as a full read shows it.
pub proof fn law_pages_show_each_line_once(content: Seq<char>, offset: usize, size: usize)
    requires
        offset >= 1,
        size >= 1,
        crate::text::lines(content).len() <= usize::MAX,
    ensures
        offset <= crate::text::lines(content).len() ==> paged(content, offset, size) == page(
            content,
            1,
            None,
        ).subrange(offset - 1, crate::text::lines(content).len() as int),
        offset > crate::text::lines(content).len() ==> paged(content, offset, size).len() == 0,
        paged(content, 1, size) == page(content, 1, None),
{
    lemma_paged(content, offset, size);
    lemma_paged(content, 1, size);
    let n = crate::text::lines(content).len() as int;
    let whole = page(content, 1, None);
    assert(whole.subrange(0, n) =~= whole);
}

proof fn lemma_page_body(content: Seq<char>, offset: usize, limit: Option<usize>)
    ensures
        crate::tools::line_hash::anchored(
            crate::text::lines(content),
            first_line(offset, crate::text::lines(content).len() as int),
            last_line(
                first_line(offset, crate::text::lines(content).len() as int),
                limit,
                crate::text::lines(content).len() as int,
            ),
        ) == crate::text::join(page(content, offset, limit), "\n"@),
{
    let lines = crate::text::lines(content);
    let start = first_line(offset, lines.len() as int);
    let end = last_line(start, limit, lines.len() as int);
    let anchors = Seq::new(lines.len(), |i: int| crate::tools::line_hash::anchor(lines, i));
    let shown = Seq::new((end - start) as nat, |i: int| anchors[start + i] + "§"@ + lines[start + i]);
    assert(shown =~= page(content, offset, limit));
}

proof fn lemma_page_of_full(content: Seq<char>, offset: usize, size: usize)
    ensures
        ({
            let n = crate::text::lines(content).len() as int;
            let from = first_line(offset, n);
            page(content, offset, Some(size)) == page(content, 1, None).subrange(
                from,
                last_line(from, Some(size), n),
            )
        }),
{
    let n = crate::text::lines(content).len() as int;
    let from = first_line(offset, n);
    assert(page(content, offset, Some(size)) =~= page(content, 1, None).subrange(
        from,
        last_line(from, Some(size), n),
    ));
}

proof fn lemma_paged(content: Seq<char>, offset: usize, size: usize)
    requires
        size >= 1,
        crate::text::lines(content).len() <= usize::MAX,
    ensures
        paged(content, offset, size) == page(content, 1, None).subrange(
            first_line(offset, crate::text::lines(content).len() as int),
            crate::text::lines(content).len() as int,
        ),
    decreases
            crate::text::lines(content).len() - first_line(
                offset,
                crate::text::lines(content).len() as int,
            ),
{
    let n = crate::text::lines(content).len() as int;
    let from = first_line(offset, n);
    let to = last_line(from, Some(size), n);
    let whole = page(content, 1, None);
    lemma_page_of_full(content, offset, size);
    if to < n {
        lemma_paged(content, (to + 1) as usize, size);
        assert(whole.subrange(from, n) =~= whole.subrange(from, to) + whole.subrange(to, n));
    }
}

/// Whether an image is small enough to be read.
pub fn admits_image(size: usize) -> (r: bool)
    ensures
        r == (size <= MAX_IMAGE_BYTES),
{
    size <= MAX_IMAGE_BYTES
}

// ---------------------------------------------------------------------------
// All files
// ---------------------------------------------------------------------------

/// What has been read so far.
#[verifier::ext_equal]
pub struct Progress {
    pub results: Seq<FileReadView>,
    pub used_text: int,
    pub used_image: int,
    pub cap_reached: bool,
    pub skipped: int,
}

/// A budget less what is used.
pub open spec fn left(budget: usize, used: int) -> usize {
    if used < budget {
        (budget - used) as usize
    } else {
        0
    }
}

/// A sum that stops at the largest size.
pub open spec fn capped_sum(a: int, b: int) -> int {
    if a + b <= usize::MAX {
        a + b
    } else {
        usize::MAX as int
    }
}

/// One more file. Once the cap is reached, files are skipped.
pub open spec fn read_next(
    p: Progress,
    cwd: Seq<char>,
    path: Seq<char>,
    offset: usize,
    limit: Option<usize>,
    input: FileInputView,
) -> Progress {
    if p.cap_reached {
        Progress { skipped: p.skipped + 1, ..p }
    } else {
        let remaining = if mime_of(path) is Some {
            left(MAX_TOTAL_IMAGE_BYTES, p.used_image)
        } else {
            left(MAX_TOTAL_BYTES, p.used_text)
        };
        let r = file_read(cwd, path, offset, limit, remaining, input);
        let used_image = if r.body is Image {
            capped_sum(p.used_image, r.bytes as int)
        } else {
            p.used_image
        };
        let used_text = if r.body is Text {
            capped_sum(p.used_text, r.bytes as int)
        } else {
            p.used_text
        };
        Progress {
            results: p.results.push(r),
            used_text,
            used_image,
            cap_reached: (r.body is Image && used_image >= MAX_TOTAL_IMAGE_BYTES) || (r.body is Text
                && used_text >= MAX_TOTAL_BYTES),
            skipped: p.skipped,
        }
    }
}

/// The first `n` files.
pub open spec fn read_first(
    q: ReadRequestView,
    cwd: Seq<char>,
    inputs: Seq<FileInputView>,
    n: int,
) -> Progress
    decreases n,
{
    if n <= 0 {
        Progress {
            results: seq![],
            used_text: 0,
            used_image: 0,
            cap_reached: false,
            skipped: 0,
        }
    } else {
        read_next(
            read_first(q, cwd, inputs, n - 1),
            cwd,
            q.paths[n - 1],
            q.offset,
            q.limit,
            inputs[n - 1],
        )
    }
}

/// The line that introduces an image.
pub open spec fn image_line(path: Seq<char>, mime: Seq<char>, raw_bytes: usize) -> Seq<char> {
    "image: "@ + path + " ("@ + label_of(mime) + ", "@ + crate::text::decimal(
        (raw_bytes / 1024) as nat,
    ) + " KB)"@
}

/// The answer for a single file.
pub open spec fn single_output(r: FileReadView) -> ToolOutputView {
    match r.body {
        FileBodyView::Text(body) => crate::tools::summarized(
            crate::tools::text_output(body, false),
            match r.range {
                None => "read: "@ + r.path + " ("@ + crate::text::decimal(r.total_lines as nat)
                    + " lines)"@,
                Some((s, e)) => "read: "@ + r.path + " (lines "@ + crate::text::decimal(s as nat)
                    + "-"@ + crate::text::decimal(e as nat) + ", "@ + crate::text::decimal(
                    r.total_lines as nat,
                ) + " total)"@,
            },
        ),
        FileBodyView::Image { data, mime, raw_bytes, args_ignored } => {
            let image = ToolResultContentView::Image(ImageContentView { data, mime_type: mime });
            ToolOutputView {
                content: if args_ignored {
                    seq![
                        ToolResultContentView::Text(
                            crate::types::plain_text(
                                "[note: offset/limit ignored for image inputs]"@,
                            ),
                        ),
                        image,
                    ]
                } else {
                    seq![image]
                },
                is_error: false,
                summary: Some(image_line(r.path, mime, raw_bytes)),
            }
        },
        FileBodyView::Error(msg) => crate::tools::text_output(msg, true),
    }
}

/// The blocks and the pending text of an answer.
#[verifier::ext_equal]
pub struct Draft {
    pub content: Seq<ToolResultContentView>,
    pub pending: Seq<char>,
}

/// Pending text becomes a block.
pub open spec fn flushed(d: Draft) -> Draft {
    if d.pending.len() > 0 {
        Draft {
            content: d.content.push(
                ToolResultContentView::Text(crate::types::plain_text(d.pending)),
            ),
            pending: seq![],
        }
    } else {
        d
    }
}

/// One more file in an answer for several files.
pub open spec fn drafted(d: Draft, r: FileReadView, first: bool) -> Draft {
    let gap: Seq<char> = if first {
        seq![]
    } else {
        "\n\n"@
    };
    let head = d.pending + gap + "===== "@ + r.path + " =====\n"@;
    match r.body {
        FileBodyView::Text(body) => Draft { pending: head + body, ..d },
        FileBodyView::Image { data, mime, raw_bytes, args_ignored } => {
            let note: Seq<char> = if args_ignored {
                "[note: offset/limit ignored for image inputs]\n"@
            } else {
                seq![]
            };
            let f = flushed(
                Draft {
                    pending: head + image_line(r.path, mime, raw_bytes) + "\n"@ + note,
                    ..d
                },
            );
            Draft {
                content: f.content.push(
                    ToolResultContentView::Image(ImageContentView { data, mime_type: mime }),
                ),
                ..f
            }
        },
        FileBodyView::Error(msg) => Draft { pending: head + "error: "@ + msg, ..d },
    }
}

/// The first `n` files in an answer for several files.
pub open spec fn draft_of(results: Seq<FileReadView>, n: int) -> Draft
    decreases n,
{
    if n <= 0 {
        Draft { content: seq![], pending: seq![] }
    } else {
        drafted(draft_of(results, n - 1), results[n - 1], n == 1)
    }
}

/// The lines of the first `n` files.
pub open spec fn lines_of(results: Seq<FileReadView>, n: int) -> int
    decreases n,
{
    if n <= 0 {
        0
    } else if results[n - 1].body is Text {
        capped_sum(lines_of(results, n - 1), results[n - 1].total_lines as int)
    } else {
        lines_of(results, n - 1)
    }
}

/// How many of the first `n` files are images.
pub open spec fn images_of(results: Seq<FileReadView>, n: int) -> nat
    decreases n,
{
    if n <= 0 {
        0
    } else {
        images_of(results, n - 1) + if results[n - 1].body is Image {
            1nat
        } else {
            0
        }
    }
}

/// How many of the first `n` files failed.
pub open spec fn errors_of(results: Seq<FileReadView>, n: int) -> nat
    decreases n,
{
    if n <= 0 {
        0
    } else {
        errors_of(results, n - 1) + if results[n - 1].body is Error {
            1nat
        } else {
            0
        }
    }
}

/// A count of things in a summary, unless there are none.
pub open spec fn counted(n: nat, name: Seq<char>) -> Seq<char> {
    if n == 0 {
        seq![]
    } else {
        ", "@ + crate::text::decimal(n) + name + if n == 1 {
            Seq::<char>::empty()
        } else {
            "s"@
        }
    }
}

/// The answer for several files. It is an error when no file could be shown.
pub open spec fn several_output(p: Progress, files: nat) -> ToolOutputView {
    let n = p.results.len() as int;
    let d = draft_of(p.results, n);
    let done = flushed(
        if p.cap_reached && p.skipped > 0 {
            Draft {
                pending: d.pending + "\n\n[truncated: byte cap reached, "@ + crate::text::decimal(
                    p.skipped as nat,
                ) + " file(s) not read]"@,
                ..d
            }
        } else {
            d
        },
    );
    ToolOutputView {
        content: done.content,
        is_error: errors_of(p.results, n) == n,
        summary: Some(
            "read: "@ + crate::text::decimal(files) + " files ("@ + crate::text::decimal(
                lines_of(p.results, n) as nat,
            ) + " total lines"@ + counted(images_of(p.results, n), " image"@) + counted(
                errors_of(p.results, n),
                " error"@,
            ) + ")"@,
        ),
    }
}

/// The answer to a call.
pub open spec fn read_output(q: ReadRequestView, cwd: Seq<char>, inputs: Seq<FileInputView>) ->
    ToolOutputView {
    let p = read_first(q, cwd, inputs, q.paths.len() as int);
    if q.paths.len() == 1 {
        single_output(p.results[0])
    } else {
        several_output(p, q.paths.len())
    }
}

/// The line that introduces an image.
fn image_line_text(path: &str, mime: &str, raw_bytes: usize) -> (r: String)
    ensures
        r@ == image_line(path@, mime@, raw_bytes),
{
    let mut out: String = "image: ".to_owned();
    out.append(path);
    out.append(" (");
    out.append(mime_label(mime));
    out.append(", ");
    out.append(usize_text(raw_bytes / 1024).as_str());
    out.append(" KB)");
    out
}

/// The answer for a single file.
fn answer_single(f: FileRead) -> (r: ToolOutput)
    ensures
        r@ == single_output(f@),
{
    match f.body {
        FileBody::Text(body) => {
            let mut summary: String = "read: ".to_owned();
            summary.append(f.path.as_str());
            match f.range {
                None => {
                    summary.append(" (");
                    summary.append(usize_text(f.total_lines).as_str());
                    summary.append(" lines)");
                },
                Some((s, e)) => {
                    summary.append(" (lines ");
                    summary.append(usize_text(s).as_str());
                    summary.append("-");
                    summary.append(usize_text(e).as_str());
                    summary.append(", ");
                    summary.append(usize_text(f.total_lines).as_str());
                    summary.append(" total)");
                },
            }
            ToolOutput::text(body.as_str()).with_summary(summary.as_str())
        },
        FileBody::Image { data, mime, raw_bytes, args_ignored } => {
            let summary = image_line_text(f.path.as_str(), mime, raw_bytes);
            let mut content: Vec<ToolResultContent> = Vec::new();
            if args_ignored {
                content.push(
                    ToolResultContent::Text(
                        TextContent::plain(
                            "[note: offset/limit ignored for image inputs]".to_owned(),
                        ),
                    ),
                );
            }
            content.push(
                ToolResultContent::Image(ImageContent { data, mime_type: mime.to_owned() }),
            );
            let r = ToolOutput { content, is_error: false, summary: Some(summary) };
            assert(r@.content =~= single_output(f@).content);
            r
        },
        FileBody::Error(msg) => ToolOutput::error(msg.as_str()),
    }
}

/// Pending text becomes a block.
fn flush(content: &mut Vec<ToolResultContent>, pending: String)
    ensures
        final(content).deep_view() == flushed(
            Draft { content: old(content).deep_view(), pending: pending@ },
        ).content,
{
    if !pending.as_str().is_empty() {
        let block = ToolResultContent::Text(TextContent::plain(pending));
        content.push(block);
        assert(content.deep_view() =~= old(content).deep_view().push(block@));
    }
}

/// One more file in an answer for several files.
fn draft_one(content: &mut Vec<ToolResultContent>, pending: String, f: &FileRead, first: bool) -> (r:
    String)
    ensures
        ({
            let d = drafted(
                Draft { content: old(content).deep_view(), pending: pending@ },
                f@,
                first,
            );
            final(content).deep_view() == d.content && r@ == d.pending
        }),
{
    let mut buf = pending;
    let ghost start = buf@;
    if !first {
        buf.append("\n\n");
    } else {
        assert(start + Seq::<char>::empty() =~= start);
    }
    buf.append("===== ");
    buf.append(f.path.as_str());
    buf.append(" =====\n");
    match &f.body {
        FileBody::Text(body) => {
            buf.append(body.as_str());
            buf
        },
        FileBody::Image { data, mime, raw_bytes, args_ignored } => {
            buf.append(image_line_text(f.path.as_str(), mime, *raw_bytes).as_str());
            buf.append("\n");
            let ghost line = buf@;
            if *args_ignored {
                buf.append("[note: offset/limit ignored for image inputs]\n");
            } else {
                assert(line + Seq::<char>::empty() =~= line);
            }
            let ghost d = Draft { content: content.deep_view(), pending: buf@ };
            proof {
                reveal_strlit("===== ");
            }
            flush(content, buf);
            let ghost blocks = content.deep_view();
            let image = ToolResultContent::Image(
                ImageContent { data: data.clone(), mime_type: (*mime).to_owned() },
            );
            content.push(image);
            assert(content.deep_view() =~= blocks.push(image@));
            let none: String = String::new();
            assert(d.pending.len() > 0);
            assert(none@ =~= flushed(d).pending);
            none
        },
        FileBody::Error(msg) => {
            buf.append("error: ");
            buf.append(msg.as_str());
            buf
        },
    }
}

/// A count of things in a summary, unless there are none.
fn append_count(out: &mut String, n: usize, name: &str)
    ensures
        final(out)@ == old(out)@ + counted(n as nat, name@),
{
    if n == 0 {
        assert(old(out)@ + Seq::<char>::empty() =~= old(out)@);
        return;
    }
    out.append(", ");
    out.append(usize_text(n).as_str());
    out.append(name);
    if n != 1 {
        out.append("s");
    }
    assert(out@ =~= old(out)@ + counted(n as nat, name@));
}

/// The answer for several files.
fn answer_several(results: &Vec<FileRead>, files: usize, cap_reached: bool, skipped: usize) -> (r:
    ToolOutput)
    ensures
        forall|p: Progress|
            p.results == results.deep_view() && p.cap_reached == cap_reached && p.skipped == skipped
                ==> r@ == #[trigger] several_output(p, files as nat),
{
    let ghost all = results.deep_view();
    let mut content: Vec<ToolResultContent> = Vec::new();
    let mut buf: String = String::new();
    let mut total_lines: usize = 0;
    let mut images: usize = 0;
    let mut errors: usize = 0;
    let mut i: usize = 0;
    assert(content.deep_view() =~= seq![]);
    while i < results.len()
        invariant
            i <= results.len(),
            all == results.deep_view(),
            content.deep_view() == draft_of(all, i as int).content,
            buf@ == draft_of(all, i as int).pending,
            total_lines == lines_of(all, i as int),
            images == images_of(all, i as int),
            errors == errors_of(all, i as int),
            images <= i,
            errors <= i,
        decreases results.len() - i,
    {
        assert(all[i as int] == results[i as int]@);
        let ghost d = Draft { content: content.deep_view(), pending: buf@ };
        assert(d =~= draft_of(all, i as int));
        buf = draft_one(&mut content, buf, &results[i], i == 0);
        match &results[i].body {
            FileBody::Text(_) => {
                total_lines = total_lines.saturating_add(results[i].total_lines);
            },
            FileBody::Image { .. } => {
                images = images + 1;
            },
            FileBody::Error(_) => {
                errors = errors + 1;
            },
        }
        i = i + 1;
    }
    let ghost d = Draft { content: content.deep_view(), pending: buf@ };
    assert(d =~= draft_of(all, i as int));
    if cap_reached && skipped > 0 {
        buf.append("\n\n[truncated: byte cap reached, ");
        buf.append(usize_text(skipped).as_str());
        buf.append(" file(s) not read]");
    }
    flush(&mut content, buf);
    let mut summary: String = "read: ".to_owned();
    summary.append(usize_text(files).as_str());
    summary.append(" files (");
    summary.append(usize_text(total_lines).as_str());
    summary.append(" total lines");
    append_count(&mut summary, images, " image");
    append_count(&mut summary, errors, " error");
    summary.append(")");
    ToolOutput { content, is_error: errors == results.len(), summary: Some(summary) }
}

/// The answer to a call, given what reading each file gave. Once the budget of the call is used
/// up, the remaining files are not shown.
pub fn execute(request: &ReadRequest, cwd: &str, inputs: &Vec<FileInput>) -> (r: ToolOutput)
    requires
        request@.paths.len() > 0,
        inputs.deep_view().len() == request@.paths.len(),
        forall|i: int|
            0 <= i < request@.paths.len() ==> input_fits(
                request@.paths[i],
                #[trigger] inputs.deep_view()[i],
            ),
    ensures
        r@ == read_output(request@, cwd@, inputs.deep_view()),
{
    let ghost q = request@;
    let ghost given = inputs.deep_view();
    let mut results: Vec<FileRead> = Vec::new();
    let mut used_text: usize = 0;
    let mut used_image: usize = 0;
    let mut cap_reached: bool = false;
    let mut skipped: usize = 0;
    let mut i: usize = 0;
    assert(results.deep_view() =~= seq![]);
    while i < request.paths.len()
        invariant
            i <= request.paths.len(),
            q == request@,
            given == inputs.deep_view(),
            given.len() == q.paths.len(),
            forall|i: int|
                0 <= i < q.paths.len() ==> input_fits(q.paths[i], #[trigger] given[i]),
            ({
                let p = read_first(q, cwd@, given, i as int);
                &&& results.deep_view() == p.results
                &&& used_text == p.used_text
                &&& used_image == p.used_image
                &&& cap_reached == p.cap_reached
                &&& skipped == p.skipped
            }),
            skipped + results.len() == i,
            i == 0 ==> !cap_reached,
            i > 0 ==> results.len() > 0,
        decreases request.paths.len() - i,
    {
        assert(q.paths[i as int] == request.paths[i as int]@);
        assert(given[i as int] == inputs[i as int]@);
        if cap_reached {
            skipped = skipped + 1;
        } else {
            let path = request.paths[i].as_str();
            let remaining: usize = if image_mime_from_path(path).is_some() {
                MAX_TOTAL_IMAGE_BYTES.saturating_sub(used_image)
            } else {
                MAX_TOTAL_BYTES.saturating_sub(used_text)
            };
            let f = read_one(cwd, path, request.offset, request.limit, remaining, &inputs[i]);
            match &f.body {
                FileBody::Image { .. } => {
                    used_image = used_image.saturating_add(f.bytes);
                    cap_reached = used_image >= MAX_TOTAL_IMAGE_BYTES;
                },
                FileBody::Text(_) => {
                    used_text = used_text.saturating_add(f.bytes);
                    cap_reached = used_text >= MAX_TOTAL_BYTES;
                },
                FileBody::Error(_) => {},
            }
            let ghost before = results.deep_view();
            results.push(f);
            assert(results.deep_view() =~= before.push(f@));
        }
        i = i + 1;
    }
    let ghost p = read_first(q, cwd@, given, i as int);
    if request.paths.len() == 1 {
        assert(results.deep_view()[0] == results[0]@);
        answer_single(results.remove(0))
    } else {
        answer_several(&results, request.paths.len(), cap_reached, skipped)
    }
}

/// Images never exceed their budget.
pub proof fn law_image_budget(
    q: ReadRequestView,
    cwd: Seq<char>,
    inputs: Seq<FileInputView>,
    n: int,
)
    requires
        0 <= n <= q.paths.len(),
        inputs.len() == q.paths.len(),
        forall|i: int|
            0 <= i < q.paths.len() ==> input_fits(q.paths[i], #[trigger] inputs[i]),
    ensures
        0 <= read_first(q, cwd, inputs, n).used_image <= MAX_TOTAL_IMAGE_BYTES,
    decreases n,
{
    if n > 0 {
        law_image_budget(q, cwd, inputs, n - 1);
        assert(input_fits(q.paths[n - 1], inputs[n - 1]));
    }
}

proof fn lemma_result_text_push(
    content: Seq<ToolResultContentView>,
    c: ToolResultContentView,
)
    ensures
        crate::types::result_text(content.push(c)) == crate::types::result_text(content) + c.text(),
{
    let all = content.push(c);
    let parts = Seq::new(all.len(), |i: int| all[i].text());
    assert(parts.subrange(0, parts.len() - 1) =~= Seq::new(
        content.len(),
        |i: int| content[i].text(),
    ));
}

/// All text of an answer that is being made.
pub open spec fn draft_text(d: Draft) -> Seq<char> {
    crate::types::result_text(d.content) + d.pending
}

proof fn lemma_flushed(d: Draft)
    ensures
        draft_text(flushed(d)) == draft_text(d),
        crate::types::result_text(flushed(d).content) == draft_text(d),
{
    if d.pending.len() > 0 {
        lemma_result_text_push(
            d.content,
            ToolResultContentView::Text(crate::types::plain_text(d.pending)),
        );
    }
    assert(draft_text(flushed(d)) =~= draft_text(d));
    assert(crate::types::result_text(flushed(d).content) =~= draft_text(d));
}

/// What an answer for several files says of one of them.
pub open spec fn said_of(r: FileReadView) -> Seq<char> {
    "===== "@ + r.path + " =====\n"@ + match r.body {
        FileBodyView::Text(body) => body,
        FileBodyView::Error(msg) => "error: "@ + msg,
        FileBodyView::Image { mime, raw_bytes, .. } => image_line(r.path, mime, raw_bytes),
    }
}

/// What stands between two files in an answer.
spec fn gap_before(first: bool) -> Seq<char> {
    if first {
        seq![]
    } else {
        "\n\n"@
    }
}

proof fn lemma_drafted_image(d: Draft, r: FileReadView, first: bool) -> (tail: Seq<char>)
    requires
        r.body is Image,
    ensures
        ({
            let q = drafted(d, r, first);
            let image = ToolResultContentView::Image(
                ImageContentView { data: r.body->Image_data, mime_type: r.body->Image_mime },
            );
            &&& draft_text(q) == draft_text(d) + gap_before(first) + said_of(r) + tail
            &&& q.content.len() > d.content.len()
            &&& q.content.subrange(0, d.content.len() as int) == d.content
            &&& q.content.last() == image
        }),
{
    let data = r.body->Image_data;
    let mime = r.body->Image_mime;
    let raw_bytes = r.body->Image_raw_bytes;
    let args_ignored = r.body->Image_args_ignored;
    let gap = gap_before(first);
    let head = d.pending + gap + "===== "@ + r.path + " =====\n"@;
    let note: Seq<char> = if args_ignored {
        "[note: offset/limit ignored for image inputs]\n"@
    } else {
        seq![]
    };
    let e = Draft { pending: head + image_line(r.path, mime, raw_bytes) + "\n"@ + note, ..d };
    let f = flushed(e);
    let image = ToolResultContentView::Image(ImageContentView { data, mime_type: mime });
    let q = drafted(d, r, first);
    lemma_flushed(e);
    lemma_result_text_push(f.content, image);
    assert(image.text() =~= Seq::empty());
    assert(q.content == f.content.push(image));
    assert(q.pending == f.pending);
    assert(draft_text(q) =~= draft_text(f));
    let tail = "\n"@ + note;
    assert(draft_text(e) =~= draft_text(d) + gap + said_of(r) + tail);
    assert(q.content.subrange(0, d.content.len() as int) =~= d.content);
    tail
}

proof fn lemma_drafted(d: Draft, r: FileReadView, first: bool) -> (tail: Seq<char>)
    ensures
        ({
            let q = drafted(d, r, first);
            &&& draft_text(q) == draft_text(d) + gap_before(first) + said_of(r) + tail
            &&& q.content.len() >= d.content.len()
            &&& q.content.subrange(0, d.content.len() as int) == d.content
            &&& r.body matches FileBodyView::Image { data, mime, .. } ==> q.content.len() > 0
                && q.content.last() == ToolResultContentView::Image(
                ImageContentView { data, mime_type: mime },
            )
        }),
{
    if r.body is Image {
        lemma_drafted_image(d, r, first)
    } else {
        let q = drafted(d, r, first);
        let tail = Seq::<char>::empty();
        assert(draft_text(q) =~= draft_text(d) + gap_before(first) + said_of(r) + tail);
        assert(q.content.subrange(0, d.content.len() as int) =~= d.content);
        tail
    }
}

proof fn lemma_part_of(a: Seq<char>, b: Seq<char>, piece: Seq<char>, tail: Seq<char>)
    ensures
        crate::text::starts_with(a + b + piece + tail, a),
        crate::text::contains(a + b + piece + tail, piece),
{
    let all = a + b + piece + tail;
    let at = (a.len() + b.len()) as int;
    assert(all.subrange(0, a.len() as int) =~= a);
    assert(all.subrange(at, at + piece.len()) =~= piece);
    assert(crate::text::occurs_at(all, piece, at));
}

proof fn lemma_contains_longer(a: Seq<char>, b: Seq<char>, piece: Seq<char>)
    requires
        crate::text::contains(a, piece),
        crate::text::starts_with(b, a),
    ensures
        crate::text::contains(b, piece),
{
    let i = choose|i: int| crate::text::occurs_at(a, piece, i);
    assert(b.subrange(0, a.len() as int) == a);
    assert(b.subrange(i, i + piece.len()) =~= a.subrange(i, i + piece.len()));
    assert(crate::text::occurs_at(b, piece, i));
}

proof fn lemma_draft(results: Seq<FileReadView>, k: int, n: int)
    requires
        0 <= k < n <= results.len(),
    ensures
        crate::text::contains(draft_text(draft_of(results, n)), said_of(results[k])),
        results[k].body matches FileBodyView::Image { data, mime, .. } ==> draft_of(
            results,
            n,
        ).content.contains(
            ToolResultContentView::Image(ImageContentView { data, mime_type: mime }),
        ),
    decreases n,
{
    let d = draft_of(results, n - 1);
    let r = results[n - 1];
    let q = draft_of(results, n);
    let tail = lemma_drafted(d, r, n == 1);
    lemma_part_of(draft_text(d), gap_before(n == 1), said_of(r), tail);
    if k < n - 1 {
        lemma_draft(results, k, n - 1);
        lemma_contains_longer(draft_text(d), draft_text(q), said_of(results[k]));
        if let FileBodyView::Image { data, mime, .. } = results[k].body {
            let image = ToolResultContentView::Image(ImageContentView { data, mime_type: mime });
            let i = d.content.index_of(image);
            assert(q.content.subrange(0, d.content.len() as int)[i] == image);
            assert(q.content[i] == image);
        }
    } else if let FileBodyView::Image { data, mime, .. } = r.body {
        let image = ToolResultContentView::Image(ImageContentView { data, mime_type: mime });
        assert(q.content[q.content.len() - 1] == image);
    }
}

/// `r` is what the file at `k` reads as, within some budget.
spec fn reads(
    q: ReadRequestView,
    cwd: Seq<char>,
    inputs: Seq<FileInputView>,
    k: int,
    r: FileReadView,
) -> bool {
    exists|remaining: usize|
        r == #[trigger] file_read(cwd, q.paths[k], q.offset, q.limit, remaining, inputs[k])
}

proof fn lemma_read_next(
    p: Progress,
    q: ReadRequestView,
    cwd: Seq<char>,
    inputs: Seq<FileInputView>,
    k: int,
)
    ensures
        ({
            let next = read_next(p, cwd, q.paths[k], q.offset, q.limit, inputs[k]);
            if p.cap_reached {
                next.results == p.results && next.skipped == p.skipped + 1 && next.cap_reached
            } else {
                &&& next.results.len() == p.results.len() + 1
                &&& next.results == p.results.push(next.results.last())
                &&& reads(q, cwd, inputs, k, next.results.last())
                &&& next.skipped == p.skipped
            }
        }),
{
    if !p.cap_reached {
        let remaining = if mime_of(q.paths[k]) is Some {
            left(MAX_TOTAL_IMAGE_BYTES, p.used_image)
        } else {
            left(MAX_TOTAL_BYTES, p.used_text)
        };
        let next = read_next(p, cwd, q.paths[k], q.offset, q.limit, inputs[k]);
        let r = file_read(cwd, q.paths[k], q.offset, q.limit, remaining, inputs[k]);
        assert(next.results == p.results.push(r));
        assert(next.results.last() == r);
    }
}

proof fn lemma_results(q: ReadRequestView, cwd: Seq<char>, inputs: Seq<FileInputView>, n: int)
    requires
        0 <= n <= q.paths.len(),
    ensures
        ({
            let p = read_first(q, cwd, inputs, n);
            &&& p.results.len() + p.skipped == n
            &&& 0 <= p.skipped
            &&& p.skipped > 0 ==> p.cap_reached
            &&& forall|k: int|
                0 <= k < p.results.len() ==> reads(q, cwd, inputs, k, #[trigger] p.results[k])
        }),
    decreases n,
{
    if n > 0 {
        lemma_results(q, cwd, inputs, n - 1);
        lemma_read_next(read_first(q, cwd, inputs, n - 1), q, cwd, inputs, n - 1);
    }
}

/// An answer shows what a file reads as, under its name: its text, why it cannot be read, or what
/// image it is, with the image itself.
pub open spec fn shows(answer: ToolOutputView, r: FileReadView) -> bool {
    &&& crate::text::contains(crate::types::result_text(answer.content), said_of(r))
    &&& r.body matches FileBodyView::Image { data, mime, .. } ==> answer.content.contains(
        ToolResultContentView::Image(ImageContentView { data, mime_type: mime }),
    )
}

proof fn lemma_several(p: Progress, files: nat, k: int)
    requires
        0 <= p.skipped,
        p.skipped > 0 ==> p.cap_reached,
    ensures
        0 <= k < p.results.len() ==> shows(several_output(p, files), p.results[k]),
        p.skipped > 0 ==> crate::text::ends_with(
            crate::types::result_text(several_output(p, files).content),
            "\n\n[truncated: byte cap reached, "@ + crate::text::decimal(p.skipped as nat)
                + " file(s) not read]"@,
        ),
{
    let m = p.results.len() as int;
    let d = draft_of(p.results, m);
    let note = "\n\n[truncated: byte cap reached, "@ + crate::text::decimal(p.skipped as nat)
        + " file(s) not read]"@;
    let e = if p.cap_reached && p.skipped > 0 {
        Draft {
            pending: d.pending + "\n\n[truncated: byte cap reached, "@ + crate::text::decimal(
                p.skipped as nat,
            ) + " file(s) not read]"@,
            ..d
        }
    } else {
        d
    };
    lemma_flushed(e);
    let answer = several_output(p, files);
    let text = crate::types::result_text(answer.content);
    assert(answer.content == flushed(e).content);
    if p.skipped > 0 {
        assert(text =~= draft_text(d) + note);
        assert(text.subrange(text.len() - note.len(), text.len() as int) =~= note);
    }
    assert(text.subrange(0, draft_text(d).len() as int) =~= draft_text(d));
    if 0 <= k < m {
        lemma_draft(p.results, k, m);
        lemma_contains_longer(draft_text(d), text, said_of(p.results[k]));
        if let FileBodyView::Image { data, mime, .. } = p.results[k].body {
            let image = ToolResultContentView::Image(ImageContentView { data, mime_type: mime });
            let i = d.content.index_of(image);
            assert(flushed(e).content[i] == image);
        }
    }
}

/// The answer for several files shows each of them, until the budget is used up; how many files were
/// left out is said at the end.
pub proof fn law_every_file_is_shown(
    q: ReadRequestView,
    cwd: Seq<char>,
    inputs: Seq<FileInputView>,
    k: int,
)
    requires
        q.paths.len() > 1,
        inputs.len() == q.paths.len(),
        0 <= k < q.paths.len(),
    ensures
        ({
            let shown = read_first(q, cwd, inputs, q.paths.len() as int).results.len();
            let answer = read_output(q, cwd, inputs);
            &&& k < shown ==> exists|remaining: usize|
                shows(
                    answer,
                    #[trigger] file_read(
                        cwd,
                        q.paths[k],
                        q.offset,
                        q.limit,
                        remaining,
                        inputs[k],
                    ),
                )
            &&& shown < q.paths.len() ==> crate::text::ends_with(
                crate::types::result_text(answer.content),
                "\n\n[truncated: byte cap reached, "@ + crate::text::decimal(
                    (q.paths.len() - shown) as nat,
                ) + " file(s) not read]"@,
            )
        }),
{
    let n = q.paths.len() as int;
    let p = read_first(q, cwd, inputs, n);
    lemma_results(q, cwd, inputs, n);
    lemma_several(p, q.paths.len(), k);
    if k < p.results.len() {
        assert(reads(q, cwd, inputs, k, p.results[k]));
    }
}

/// The answer for one file is its text as it is shown, or the image; a file that cannot be read is an
/// error that says why.
pub proof fn law_one_file_is_shown(q: ReadRequestView, cwd: Seq<char>, inputs: Seq<FileInputView>)
    requires
        q.paths.len() == 1,
        inputs.len() == 1,
    ensures
        ({
            let answer = read_output(q, cwd, inputs);
            match inputs[0] {
                FileInputView::Text(content) => {
                    &&& !answer.is_error
                    &&& answer.content.len() == 1
                    &&& answer.content[0] matches ToolResultContentView::Text(t)
                    &&& mime_of(q.paths[0]) is None && crate::text::byte_len(
                        text_body(content, q.offset, q.limit),
                    ) <= MAX_TOTAL_BYTES ==> t.text == text_body(content, q.offset, q.limit)
                },
                FileInputView::Failed(e) => answer.is_error && answer.content.len() == 1 && (
                answer.content[0] matches ToolResultContentView::Text(t) && crate::text::ends_with(
                    t.text,
                    e,
                )),
                FileInputView::Oversized { .. } => answer.is_error,
                FileInputView::Image { size, data } => !answer.is_error
                    ==> answer.content.last() == ToolResultContentView::Image(
                    ImageContentView { data: base64_text(data), mime_type: mime_of(q.paths[0])->0 },
                ),
            }
        }),
{
    let p = read_first(q, cwd, inputs, 1);
    assert(read_first(q, cwd, inputs, 0).results =~= Seq::empty());
    if let FileInputView::Failed(e) = inputs[0] {
        let text = read_output(q, cwd, inputs).content[0]->Text_0.text;
        assert(text.subrange(text.len() - e.len(), text.len() as int) =~= e);
    }
}

/// A single path may be given in place of a list of them; other arguments stay.
pub proof fn law_single_path(fields: Map<Seq<char>, Json>, path: Seq<char>)
    requires
        fields.contains_key("path"@),
        fields["path"@] == Json::Str(path),
        !fields.contains_key("paths"@),
    ensures
        crate::json::field(prepared(Json::Obj(fields)), "paths"@) == Some(
            Json::Arr(seq![Json::Str(path)]),
        ),
        forall|key: Seq<char>|
            key != "path"@ && key != "paths"@ ==> #[trigger] crate::json::field(
                prepared(Json::Obj(fields)),
                key,
            ) == crate::json::field(Json::Obj(fields), key),
{
}

/// Which files are images is told by their extension, whatever the case of its letters.
pub proof fn law_images_by_extension(path: Seq<char>)
    ensures
        mime_of(path) is Some <==> (crate::path::extension_of(path) matches Some(e) && ({
            let ext = crate::text::ascii_lower(e);
            ext == "png"@ || ext == "jpg"@ || ext == "jpeg"@ || ext == "gif"@ || ext == "webp"@
        })),
        crate::path::extension_of(path) matches Some(e) ==> ({
            let ext = crate::text::ascii_lower(e);
            &&& ext == "png"@ ==> mime_of(path) == Some("image/png"@)
            &&& ext == "jpg"@ || ext == "jpeg"@ ==> mime_of(path) == Some("image/jpeg"@)
            &&& ext == "gif"@ ==> mime_of(path) == Some("image/gif"@)
            &&& ext == "webp"@ ==> mime_of(path) == Some("image/webp"@)
        }),
{
    reveal_strlit("png");
    reveal_strlit("jpg");
    reveal_strlit("jpeg");
    reveal_strlit("gif");
    reveal_strlit("webp");
    assert("png"@[0] != "jpg"@[0]);
    assert("png"@[0] != "gif"@[0]);
    assert("jpg"@[0] != "gif"@[0]);
    assert("jpeg"@[0] != "webp"@[0]);
}

/// A call reads the paths in its list, in order; lines count from one, and start at the first unless told
/// otherwise.
pub proof fn law_requested(paths: Seq<Seq<char>>, fields: Map<Seq<char>, Json>)
    requires
        0 < paths.len() <= MAX_PATHS,
        fields.contains_key("paths"@),
        fields["paths"@] == Json::Arr(Seq::new(paths.len(), |i: int| Json::Str(paths[i]))),
    ensures
        argument_error(Json::Obj(fields)) is None,
        requested(Json::Obj(fields)).paths == paths,
        fields.contains_key("offset"@) && fields["offset"@] == Json::Int(0) ==> requested(
            Json::Obj(fields),
        ).offset == 1,
        !fields.contains_key("offset"@) ==> requested(Json::Obj(fields)).offset == 1,
        !fields.contains_key("limit"@) ==> requested(Json::Obj(fields)).limit is None,
        fields.contains_key("offset"@) ==> (fields["offset"@] matches Json::Int(n) ==> 1 <= n
            <= usize::MAX ==> requested(Json::Obj(fields)).offset == n),
        fields.contains_key("limit"@) ==> (fields["limit"@] matches Json::Int(n) ==> 0 <= n
            <= usize::MAX ==> requested(Json::Obj(fields)).limit == Some(n as usize)),
{
    let elems = Seq::new(paths.len(), |i: int| Json::Str(paths[i]));
    lemma_all_texts(elems);
    assert(requested(Json::Obj(fields)).paths =~= paths);
}

proof fn lemma_all_texts(elems: Seq<Json>)
    requires
        forall|i: int| 0 <= i < elems.len() ==> (#[trigger] elems[i]) is Str,
    ensures
        first_non_text(elems) == elems.len(),
    decreases elems.len(),
{
    if elems.len() > 0 {
        let rest = elems.subrange(1, elems.len() as int);
        assert forall|i: int| 0 <= i < rest.len() implies (#[trigger] rest[i]) is Str by {
            assert(rest[i] == elems[i + 1]);
        }
        lemma_all_texts(rest);
    }
}

/// A text that fits the budget is shown whole; a longer one is cut to the longest start that fits, and
/// that is said.
pub proof fn law_text_budget(body: Seq<char>, remaining: usize)
    ensures
        crate::text::byte_len(body) <= remaining ==> capped(body, remaining) == body,
        crate::text::byte_len(body) > remaining ==> crate::text::ends_with(
            capped(body, remaining),
            "\n\n[truncated: per-call byte cap reached]"@,
        ) && crate::text::starts_with(
            capped(body, remaining),
            crate::text::longest_prefix(body, remaining as nat),
        ),
{
    let note = "\n\n[truncated: per-call byte cap reached]"@;
    let c = capped(body, remaining);
    if crate::text::byte_len(body) > remaining {
        let head = crate::text::longest_prefix(body, remaining as nat);
        assert(c.subrange(c.len() - note.len(), c.len() as int) =~= note);
        assert(c.subrange(0, head.len() as int) =~= head);
    }
}

/// An answer for several files is an error only where every file that was read failed.
pub proof fn law_error_only_if_all_failed(
    q: ReadRequestView,
    cwd: Seq<char>,
    inputs: Seq<FileInputView>,
)
    requires
        q.paths.len() > 1,
    ensures
        ({
            let results = read_first(q, cwd, inputs, q.paths.len() as int).results;
            read_output(q, cwd, inputs).is_error <==> forall|i: int|
                0 <= i < results.len() ==> (#[trigger] results[i]).body is Error
        }),
{
    let results = read_first(q, cwd, inputs, q.paths.len() as int).results;
    lemma_errors(results, results.len() as int);
}

proof fn lemma_errors(results: Seq<FileReadView>, n: int)
    requires
        0 <= n <= results.len(),
    ensures
        errors_of(results, n) <= n,
        errors_of(results, n) == n <==> forall|i: int|
            0 <= i < n ==> (#[trigger] results[i]).body is Error,
    decreases n,
{
    if n > 0 {
        lemma_errors(results, n - 1);
        if forall|i: int| 0 <= i < n ==> (#[trigger] results[i]).body is Error {
            assert(results[n - 1].body is Error);
        }
    }
}

/// The bytes that the images among the first `n` files take, or those that the others take.
pub open spec fn taken(results: Seq<FileReadView>, images: bool, n: int) -> nat
    decreases n,
{
    if n <= 0 {
        0
    } else {
        taken(results, images, n - 1) + if (images && results[n - 1].body is Image) || (!images
            && results[n - 1].body is Text) {
            results[n - 1].bytes as nat
        } else {
            0
        }
    }
}

proof fn lemma_taken(q: ReadRequestView, cwd: Seq<char>, inputs: Seq<FileInputView>, n: int)
    requires
        0 <= n <= q.paths.len(),
    ensures
        ({
            let p = read_first(q, cwd, inputs, n);
            let m = p.results.len() as int;
            &&& 0 <= p.used_text <= taken(p.results, false, m)
            &&& 0 <= p.used_image <= taken(p.results, true, m)
            &&& p.cap_reached ==> p.used_text >= MAX_TOTAL_BYTES || p.used_image
                >= MAX_TOTAL_IMAGE_BYTES
        }),
    decreases n,
{
    if n > 0 {
        lemma_taken(q, cwd, inputs, n - 1);
        let p = read_first(q, cwd, inputs, n - 1);
        if !p.cap_reached {
            let remaining = if mime_of(q.paths[n - 1]) is Some {
                left(MAX_TOTAL_IMAGE_BYTES, p.used_image)
            } else {
                left(MAX_TOTAL_BYTES, p.used_text)
            };
            let r = file_read(cwd, q.paths[n - 1], q.offset, q.limit, remaining, inputs[n - 1]);
            lemma_taken_push(p.results, r, false, p.results.len() as int);
            lemma_taken_push(p.results, r, true, p.results.len() as int);
            lemma_taken_step(p, r);
            let after = p.results.push(r);
            assert(after[after.len() - 1] == r);
        }
    }
}

proof fn lemma_taken_step(p: Progress, r: FileReadView)
    ensures
        r.body is Text ==> capped_sum(p.used_text, r.bytes as int) <= p.used_text + r.bytes,
        r.body is Image ==> capped_sum(p.used_image, r.bytes as int) <= p.used_image + r.bytes,
{
}

proof fn lemma_taken_push(results: Seq<FileReadView>, r: FileReadView, images: bool, n: int)
    requires
        0 <= n <= results.len(),
    ensures
        taken(results.push(r), images, n) == taken(results, images, n),
    decreases n,
{
    if n > 0 {
        lemma_taken_push(results, r, images, n - 1);
        assert(results.push(r)[n - 1] == results[n - 1]);
    }
}

/// Files are left out only once what was read takes all that a call may take, in text or in images.
pub proof fn law_files_are_left_out_only_when_full(
    q: ReadRequestView,
    cwd: Seq<char>,
    inputs: Seq<FileInputView>,
)
    ensures
        ({
            let results = read_first(q, cwd, inputs, q.paths.len() as int).results;
            results.len() < q.paths.len() ==> taken(results, false, results.len() as int)
                >= MAX_TOTAL_BYTES || taken(results, true, results.len() as int)
                >= MAX_TOTAL_IMAGE_BYTES
        }),
{
    lemma_taken(q, cwd, inputs, q.paths.len() as int);
    lemma_results(q, cwd, inputs, q.paths.len() as int);
}

/// The summary of a file says how many lines it has, and which of them are shown where that is not all.
pub proof fn law_summary_of_a_file(
    path: Seq<char>,
    content: Seq<char>,
    offset: usize,
    limit: Option<usize>,
    remaining: usize,
)
    requires
        crate::text::lines(content).len() <= usize::MAX,
    ensures
        ({
            let total = crate::text::lines(content).len();
            let r = text_read(path, content, offset, limit, remaining);
            let s = single_output(r).summary;
            &&& offset <= 1 && (limit is None || limit->0 >= total) ==> s == Some(
                "read: "@ + path + " ("@ + crate::text::decimal(total) + " lines)"@,
            )
            &&& 1 <= offset <= total ==> (limit matches Some(n) ==> offset + n <= total ==> s
                == Some(
                "read: "@ + path + " (lines "@ + crate::text::decimal(offset as nat) + "-"@
                    + crate::text::decimal((offset + n - 1) as nat) + ", "@ + crate::text::decimal(
                    total,
                ) + " total)"@,
            ))
        }),
{
}

} // verus!
