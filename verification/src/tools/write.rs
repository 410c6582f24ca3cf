//! The `write` tool: create or overwrite a file.

use vstd::prelude::*;

use crate::json::{as_str, empty_object_value, get, with_entry, Json};
use crate::text::{str_len, str_lines, usize_text};
use crate::tools::{
    object_value, property_value, resolve_path, ToolOutput, ToolOutputView,
};
use crate::types::{Tool, ToolView};

verus! {

/// What a call asks for.
#[derive(Debug, PartialEq)]
pub struct WriteRequest {
    /// The path as it was given.
    pub path: String,
    /// The file to write.
    pub target: String,
    pub content: String,
}

/// A text argument.
pub open spec fn text_argument(args: Json, key: Seq<char>) -> Option<Seq<char>> {
    match crate::json::field(args, key) {
        Some(v) => crate::json::as_string(v),
        None => None,
    }
}

/// A text argument.
pub(crate) fn get_text(args: &serde_json::Value, key: &str) -> (r: Option<String>)
    ensures
        r.deep_view() == text_argument(crate::json::json_of(*args), key@),
{
    match get(args, key) {
        Some(v) => match as_str(v) {
            Some(s) => Some(s.to_owned()),
            None => None,
        },
        None => None,
    }
}

/// Whether this describes the tool.
pub open spec fn is_tool(t: crate::types::ToolView) -> bool {
    &&& t.name == "write"@
    &&& t.description
        == "Write content to a file. Creates the file if it doesn't exist, overwrites if it does. Automatically creates parent directories."@
    &&& t.parameters.value == crate::tools::object_schema(
        map![
            "path"@ => crate::tools::property("string"@, "Path to the file to write"@),
            "content"@ => crate::tools::property("string"@, "Content to write to the file"@),
        ],
        seq!["path"@, "content"@],
    )
}

/// The description of the tool.
pub fn tool() -> (r: Tool)
    ensures
        is_tool(r@),
{
    let p = with_entry(
        empty_object_value(),
        "path".to_owned(),
        property_value("string", "Path to the file to write"),
    );
    let p = with_entry(
        p,
        "content".to_owned(),
        property_value("string", "Content to write to the file"),
    );
    let required: Vec<String> = vec!["path".to_owned(), "content".to_owned()];
    assert(required.deep_view() =~= seq!["path"@, "content"@]);
    Tool {
        name: "write".to_owned(),
        description: "Write content to a file. Creates the file if it doesn't exist, overwrites if it does. Automatically creates parent directories.".to_owned(),
        parameters: object_value(p, &required),
    }
}

/// What a call asks for, or why it cannot be done.
pub fn parse(args: &serde_json::Value, cwd: &str) -> (r: core::result::Result<
    WriteRequest,
    ToolOutput,
>)
    ensures
        ({
            let json = crate::json::json_of(*args);
            let path = text_argument(json, "path"@);
            let content = text_argument(json, "content"@);
            match r {
                Ok(w) => path == Some(w.path@) && content == Some(w.content@) && w.target@
                    == crate::path::joined(cwd@, w.path@),
                Err(o) => (path is None && o@ == crate::tools::text_output(
                    "missing 'path' argument"@,
                    true,
                )) || (path is Some && content is None && o@ == crate::tools::text_output(
                    "missing 'content' argument"@,
                    true,
                )),
            }
        }),
{
    let path = match get_text(args, "path") {
        Some(p) => p,
        None => {
            return Err(ToolOutput::error("missing 'path' argument"));
        },
    };
    let content = match get_text(args, "content") {
        Some(c) => c,
        None => {
            return Err(ToolOutput::error("missing 'content' argument"));
        },
    };
    let target = resolve_path(cwd, path.as_str());
    Ok(WriteRequest { path, target, content })
}

/// The answer to a write that succeeded.
pub open spec fn written_output(w: WriteRequest) -> ToolOutputView {
    let bytes = crate::text::decimal(crate::text::byte_len(w.content@));
    crate::tools::summarized(
        crate::tools::text_output(
            "Successfully wrote "@ + bytes + " bytes to "@ + w.target@,
            false,
        ),
        "write: "@ + w.path@ + " ("@ + crate::text::decimal(crate::text::lines(w.content@).len())
            + " lines, "@ + bytes + " bytes)"@,
    )
}

/// The answer to a write: what was written, or why not.
pub open spec fn outcome(
    w: WriteRequest,
    directory: Option<Seq<char>>,
    write: Option<Seq<char>>,
) -> ToolOutputView {
    match directory {
        Some(e) => crate::tools::text_output("failed to create directory: "@ + e, true),
        None => match write {
            Some(e) => crate::tools::text_output(
                "failed to write "@ + w.target@ + ": "@ + e,
                true,
            ),
            None => written_output(w),
        },
    }
}

/// The answer to a write, given the error of creating its directory and that of writing the file.
pub fn report(
    request: &WriteRequest,
    directory_error: Option<String>,
    write_error: Option<String>,
) -> (r: ToolOutput)
    ensures
        r@ == outcome(*request, directory_error.deep_view(), write_error.deep_view()),
{
    if let Some(e) = directory_error {
        let mut text: String = "failed to create directory: ".to_owned();
        text.append(e.as_str());
        return ToolOutput::error(text.as_str());
    }
    if let Some(e) = write_error {
        let mut text: String = "failed to write ".to_owned();
        text.append(request.target.as_str());
        text.append(": ");
        text.append(e.as_str());
        return ToolOutput::error(text.as_str());
    }
    let bytes = usize_text(str_len(request.content.as_str()));
    let mut summary: String = "write: ".to_owned();
    summary.append(request.path.as_str());
    summary.append(" (");
    let lines = str_lines(request.content.as_str());
    assert(lines.deep_view().len() == lines.len());
    summary.append(usize_text(lines.len()).as_str());
    summary.append(" lines, ");
    summary.append(bytes.as_str());
    summary.append(" bytes)");
    let mut text: String = "Successfully wrote ".to_owned();
    text.append(bytes.as_str());
    text.append(" bytes to ");
    text.append(request.target.as_str());
    ToolOutput::text(text.as_str()).with_summary(summary.as_str())
}

/// The answer to a write is an error exactly when the directory could not be made or the file not be
/// written, and then it says why; else it says where the text went and how many bytes it has.
pub proof fn law_write_is_reported(
    w: WriteRequest,
    directory: Option<Seq<char>>,
    write: Option<Seq<char>>,
)
    ensures
        ({
            let r = outcome(w, directory, write);
            let text = r.content[0]->Text_0.text;
            &&& r.content.len() == 1
            &&& r.content[0] is Text
            &&& r.is_error <==> directory is Some || write is Some
            &&& directory matches Some(e) ==> crate::text::ends_with(text, e)
            &&& directory is None ==> (write matches Some(e) ==> crate::text::ends_with(text, e)
                && crate::text::contains(text, w.target@))
            &&& !r.is_error ==> text == "Successfully wrote "@ + crate::text::decimal(
                vstd::utf8::encode_utf8(w.content@).len(),
            ) + " bytes to "@ + w.target@
        }),
{
    let r = outcome(w, directory, write);
    let text = r.content[0]->Text_0.text;
    crate::text::law_byte_len_is_utf8(w.content@);
    match directory {
        Some(e) => {
            assert(text.subrange(text.len() - e.len(), text.len() as int) =~= e);
        },
        None => match write {
            Some(e) => {
                assert(text.subrange(text.len() - e.len(), text.len() as int) =~= e);
                let at = "failed to write "@.len() as int;
                assert(text.subrange(at, at + w.target@.len()) =~= w.target@);
                assert(crate::text::occurs_at(text, w.target@, at));
            },
            None => {},
        },
    }
}

} // verus!
