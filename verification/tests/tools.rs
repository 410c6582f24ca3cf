use serde_json::Value;
use tars::cancel::CancelToken;
use tars::tools::bash::{
    check_cwd, format_output, parse as parse_bash, precheck, spawn_failure, tool as bash_tool,
    wait_action, wait_failure, CwdState, WaitAction,
};
use tars::tools::diagnostics_scan::{
    command_line, compare_paths, configured_tool, parse as parse_scan, parse_cargo_check, plan,
    split_short_line, Diagnostic, FileFacts, PathOrder, ScanRun,
};
use tars::tools::edit::{
    apply as apply_edits, parse as parse_edit, report as report_edit, target as edit_target, Edit,
};
use tars::tools::get_function::{
    execute as run_function, normalize, parse as parse_function, qualified_ends_with,
};
use tars::tools::line_hash::{fnv1a_8hex, hash_lines_with_disambiguators};
use tars::tools::read::{
    admits_image, execute as run_read, image_mime_from_path, mime_label, parse as parse_read,
    prepare_arguments, read_one, FileBody, FileInput,
};
use tars::tools::skeleton::{
    execute as run_skeleton, extract, parse as parse_skeleton, SourceInput,
};
use tars::tools::tree_sitter_support::{analyze, Lang};
use tars::tools::write::{parse as parse_write, report as report_write};
use tars::tools::{
    default_tools, execute_call, execute_tool, tool_schemas, Dispatch, InProcessWorker, ToolDef,
    ToolOutput,
};
use tars::types::{Tool, ToolCall, ToolResultContent, ToolResultMessage};

fn json(text: &str) -> Value {
    serde_json::from_str(text).unwrap()
}

fn shown(out: &ToolOutput) -> String {
    out.content[0].text().to_string()
}

fn call(id: &str, name: &str, args: &str) -> ToolCall {
    ToolCall {
        id: id.into(),
        name: name.into(),
        arguments: json(args),
    }
}

// -- dispatch --

fn dummy_tool(name: &str) -> Tool {
    Tool {
        name: name.into(),
        description: format!("dummy {name}"),
        parameters: json(r#"{"type":"object"}"#),
    }
}

fn run_dummy(tc: &ToolCall, cancelled: bool) -> ToolResultMessage {
    let def = ToolDef {
        tool: dummy_tool("echo"),
        execute: |args: Value, _: &str, _: &CancelToken| {
            ToolOutput::text(&format!("executed with {args}"))
        },
        prepare_arguments: None::<fn(Value) -> Value>,
    };
    execute_call(&[def], tc, "/tmp", &CancelToken::new(), cancelled)
}

#[test]
fn dispatch_known_tool() {
    let tc = call("tc1", "echo", r#"{"msg":"hi"}"#);
    assert!(matches!(execute_tool(&[dummy_tool("echo")], &tc, false), Dispatch::Run(0)));
    let res = run_dummy(&tc, false);
    assert!(!res.is_error);
    assert_eq!(res.tool_call_id, "tc1");
    assert!(res.text().contains("hi"));
}

#[test]
fn dispatch_unknown_tool() {
    let tc = call("tc2", "unknown", "{}");
    let res = run_dummy(&tc, false);
    assert!(res.is_error);
    assert!(res.text().contains("unknown tool"));
    match execute_tool(&[dummy_tool("echo")], &tc, false) {
        Dispatch::Answer(res) => assert_eq!(res.text(), "unknown tool: unknown"),
        other => panic!("expected an answer, got {other:?}"),
    }
}

#[test]
fn dispatch_pre_cancelled() {
    let tc = call("tc3", "echo", "{}");
    let res = run_dummy(&tc, true);
    assert!(res.is_error);
    assert_eq!(res.text(), "error: cancelled before execution");
    assert_eq!(res.tool_name, "echo");
}

#[test]
fn prepare_arguments_hook() {
    let tool = ToolDef {
        tool: dummy_tool("legacy"),
        // expects normalized field "path"
        execute: |args: Value, _: &str, _: &CancelToken| {
            ToolOutput::text(args.get("path").and_then(|v| v.as_str()).unwrap_or(""))
        },
        // legacy used "file" instead of "path"
        prepare_arguments: Some(|mut v: Value| {
            if let Some(obj) = v.as_object_mut() {
                if let Some(file) = obj.remove("file") {
                    obj.insert("path".to_string(), file);
                }
            }
            v
        }),
    };
    let tc = call("tc4", "legacy", r#"{"file":"old.txt"}"#);
    let res = execute_call(&[tool], &tc, "/tmp", &CancelToken::new(), false);
    assert!(!res.is_error);
    assert_eq!(res.text(), "old.txt");
}

#[test]
fn read_takes_a_single_path() {
    let prepared = prepare_arguments(json(r#"{"path":"old.txt"}"#));
    assert_eq!(prepared, json(r#"{"paths":["old.txt"]}"#));
    let untouched = json(r#"{"paths":["a"],"offset":2}"#);
    assert_eq!(prepare_arguments(untouched.clone()), untouched);
}

#[test]
fn pages_show_each_line_once() {
    let file = FileInput::Text("a\nb\na\nc\nd\n".into());
    let body = |offset: usize, limit: Option<usize>| {
        match read_one("/w", "f.txt", offset, limit, 10_000, &file).body {
            FileBody::Text(t) => t,
            other => panic!("expected text, got {other:?}"),
        }
    };
    let whole = body(1, None);
    let whole: Vec<&str> = whole.split('\n').collect();
    assert_eq!(whole.len(), 5);
    for (line, text) in whole.iter().zip(["a", "b", "a", "c", "d"]) {
        assert!(line.ends_with(&format!("§{text}")), "{line}");
    }
    let first = body(1, Some(2));
    assert_eq!(
        first,
        format!(
            "{}\n{}\n\n[3 more lines in file. Use offset=3 to continue.]",
            whole[0], whole[1]
        )
    );
    let second = body(3, Some(2));
    assert_eq!(
        second,
        format!(
            "{}\n{}\n\n[1 more lines in file. Use offset=5 to continue.]",
            whole[2], whole[3]
        )
    );
    assert_eq!(body(5, Some(2)), whole[4]);
    assert_eq!(body(6, Some(2)), "");
}

#[test]
fn default_tools_contains_bash() {
    let tools = default_tools();
    assert!(tools.iter().any(|t| t.name == "bash"));
    assert_eq!(bash_tool().name, "bash");
}

#[test]
fn tool_schemas_extracts_tools() {
    let tools = vec![dummy_tool("a"), dummy_tool("b")];
    let schemas = tool_schemas(&tools);
    assert_eq!(schemas.len(), 2);
    assert_eq!(schemas[0].name, "a");
    assert_eq!(schemas[1].name, "b");
}

#[test]
fn worker_keeps_its_directory() {
    let mut worker = InProcessWorker::new("/work");
    assert_eq!(worker.cwd(), "/work");
    worker.set_cwd("/other");
    assert_eq!(worker.cwd(), "/other");
    let run = worker.execute(&call("t", "write", "{}"), false);
    assert!(matches!(run, Dispatch::Run(i) if default_tools()[i].name == "write"));
    assert_eq!(InProcessWorker::default().cwd(), "/tmp");
}

#[test]
fn worker_with_other_tools() {
    let worker = InProcessWorker::with_tools("/work", vec![dummy_tool("a"), dummy_tool("b")]);
    assert_eq!(worker.cwd(), "/work");
    let run = worker.execute(&call("t", "b", "{}"), false);
    assert!(matches!(run, Dispatch::Run(1)));
    let run = worker.execute(&call("t", "bash", "{}"), false);
    assert!(!matches!(run, Dispatch::Run(_)));
}

#[test]
fn output_with_image() {
    let out = ToolOutput::text("seen").with_image("aGk=".into(), "image/png".into());
    assert_eq!(out.content.len(), 2);
    assert_eq!(shown(&out), "seen");
    assert!(matches!(
        &out.content[1],
        ToolResultContent::Image(i) if i.data == "aGk=" && i.mime_type == "image/png"
    ));
    assert!(!out.is_error);
}

// -- bash --

#[test]
fn bash_simple_command() {
    let request = parse_bash(&json(r#"{"command": "echo hello"}"#)).unwrap();
    assert_eq!(request.command, "echo hello");
    assert_eq!(request.timeout_secs, 120);
    let out = format_output("hello\n".into(), "", 0, false, false, &request.command);
    assert!(!out.is_error);
    assert!(shown(&out).contains("hello"));
}

#[test]
fn bash_pipe_command() {
    let request = parse_bash(&json(r#"{"command": "echo hello | tr a-z A-Z"}"#)).unwrap();
    let out = format_output("HELLO\n".into(), "", 0, false, false, &request.command);
    assert!(!out.is_error);
    assert!(shown(&out).contains("HELLO"));
}

#[test]
fn bash_timeout_kills_process() {
    let request = parse_bash(&json(r#"{"command": "sleep 60", "timeout": 1}"#)).unwrap();
    assert_eq!(request.timeout_secs, 1);
    assert_eq!(wait_action(false, true, true), WaitAction::KillTimedOut);
    let out = format_output(String::new(), "", -1, true, false, &request.command);
    assert!(out.is_error);
    assert!(shown(&out).contains("timed out"));
}

#[test]
fn bash_cancel_flag_kills_quickly() {
    assert_eq!(wait_action(true, false, true), WaitAction::KillCancelled);
    assert_eq!(wait_action(false, false, false), WaitAction::Collect);
    let out = format_output(String::new(), "", -1, false, true, "sleep 10");
    assert!(out.is_error);
    assert!(shown(&out).contains("cancelled"));
}

#[test]
fn bash_prefire_cancel_returns_immediately() {
    let out = precheck("/tmp", &CwdState::Directory, true).unwrap();
    assert!(out.is_error);
    assert!(shown(&out).contains("cancelled"));
    assert!(precheck("/tmp", &CwdState::Directory, false).is_none());
}

#[test]
fn bash_missing_cwd_error() {
    let bogus = "/tmp/tars-bash-bogus-1";
    let out = precheck(bogus, &CwdState::Missing, false).unwrap();
    assert!(out.is_error);
    assert!(shown(&out).contains(bogus));
    assert!(shown(&out).contains("no longer exists"));
    assert!(check_cwd("/f", &CwdState::NotADirectory).unwrap().contains("/f"));
    assert_eq!(check_cwd("/f", &CwdState::Directory), None);
}

#[test]
fn bash_formatting_exit_code() {
    let out = format_output(String::new(), "", 2, false, false, "exit 2");
    assert!(out.is_error);
    assert!(shown(&out).contains("(exit code: 2)"));
}

#[test]
fn bash_stdout_stderr_combined() {
    let out = format_output(
        "out\n".into(),
        "err\n",
        0,
        false,
        false,
        "echo out; echo err >&2",
    );
    let text = shown(&out);
    assert!(text.contains("out"));
    assert!(text.contains("STDERR:"));
    assert!(text.contains("err"));
}

#[test]
fn bash_failures_name_their_cause() {
    assert_eq!(shown(&spawn_failure("no sh")), "failed to execute command: no sh");
    assert_eq!(shown(&wait_failure("gone")), "failed to wait for command: gone");
    assert!(parse_bash(&json("{}")).is_err());
}

// -- write --

#[test]
fn write_creates_file() {
    let request = parse_write(
        &json(r#"{"path": "/d/sub/file.txt", "content": "hello\nworld\n"}"#),
        "/tmp",
    )
    .unwrap();
    assert_eq!(request.target, "/d/sub/file.txt");
    assert_eq!(request.content, "hello\nworld\n");
    let out = report_write(&request, None, None);
    assert!(!out.is_error);
    assert!(out.summary.unwrap().contains("write:"));
}

#[test]
fn write_overwrites() {
    let request = parse_write(&json(r#"{"path": "file.txt", "content": "new"}"#), "/tmp").unwrap();
    assert_eq!(request.target, "/tmp/file.txt");
    assert_eq!(request.content, "new");
    assert!(!report_write(&request, None, None).is_error);
    assert!(report_write(&request, Some("read-only".into()), None).is_error);
    assert!(report_write(&request, None, Some("disk full".into())).is_error);
}

#[test]
fn write_missing_args() {
    let out = parse_write(&json(r#"{"path": "a.txt"}"#), "/tmp").unwrap_err();
    assert!(out.is_error);
    assert!(shown(&out).contains("content"));
}

// -- read --

fn read(args: &str, inputs: Vec<FileInput>) -> ToolOutput {
    match parse_read(&json(args)) {
        Ok(request) => run_read(&request, "/tmp", &inputs),
        Err(out) => out,
    }
}

#[test]
fn single_file_hashed() {
    let out = read(
        r#"{"paths": ["f.txt"]}"#,
        vec![FileInput::Text("line1\nline2\n".into())],
    );
    assert!(!out.is_error);
    let h1 = fnv1a_8hex("line1");
    let h2 = fnv1a_8hex("line2");
    assert_eq!(shown(&out), format!("{h1}§line1\n{h2}§line2"));
}

#[test]
fn offset_limit() {
    let out = read(
        r#"{"paths": ["f.txt"], "offset": 2, "limit": 2}"#,
        vec![FileInput::Text("a\nb\nc\nd\n".into())],
    );
    assert!(!out.is_error);
    let text = shown(&out);
    let hb = fnv1a_8hex("b");
    let hc = fnv1a_8hex("c");
    assert!(text.contains(&format!("{hb}§b")));
    assert!(text.contains(&format!("{hc}§c")));
    assert!(!text.contains("§a"));
}

#[test]
fn images_are_encoded() {
    let out = read(
        r#"{"paths": ["dot.png"]}"#,
        vec![FileInput::Image { size: 5, data: b"hello".to_vec() }],
    );
    assert!(!out.is_error);
    assert!(out.content.iter().any(|c| matches!(
        c,
        ToolResultContent::Image(i) if i.data == "aGVsbG8=" && i.mime_type == "image/png"
    )));
    assert_eq!(image_mime_from_path("a/B.JPEG"), Some("image/jpeg"));
    assert_eq!(image_mime_from_path("a.txt"), None);
    assert_eq!(mime_label("image/png"), "PNG");
    assert!(admits_image(5_242_880) && !admits_image(5_242_881));
}

#[test]
fn failed_reads_are_reported() {
    let out = read(
        r#"{"paths": ["gone.txt"]}"#,
        vec![FileInput::Failed("No such file".into())],
    );
    assert!(out.is_error);
    assert!(shown(&out).contains("failed to read /tmp/gone.txt: No such file"));
    assert!(read("{}", Vec::new()).is_error);
}

// -- line hashes --

#[test]
fn line_hash_is_fnv1a() {
    // The offset basis of 32-bit FNV-1a, and a published value.
    assert_eq!(fnv1a_8hex(""), "811c9dc5");
    assert_eq!(fnv1a_8hex("a"), "e40c292c");
    assert_eq!(fnv1a_8hex("foobar"), "bf9cf968");
}

#[test]
fn repeated_lines_are_told_apart() {
    let lines = vec!["x".to_string(), "y".to_string(), "x".to_string()];
    let anchors = hash_lines_with_disambiguators(&lines);
    assert_eq!(anchors.len(), 3);
    assert_ne!(anchors[0], anchors[2]);
    assert_eq!(anchors[1], fnv1a_8hex("y"));
}

// -- tree-sitter --

#[test]
fn extension_dispatch() {
    assert_eq!(Lang::from_extension("rs"), Some(Lang::Rust));
    assert_eq!(Lang::from_extension("py"), Some(Lang::Python));
    assert_eq!(Lang::from_extension("pyi"), Some(Lang::Python));
    assert_eq!(Lang::from_extension("tsx"), Some(Lang::Tsx));
    assert_eq!(Lang::from_extension("md"), None);
}

#[test]
fn rust_parses() {
    let syntax = analyze(Lang::Rust, "fn main() {}").unwrap();
    assert_eq!(syntax.nodes[0].kind, "source_file");
    assert!(syntax.nodes.iter().all(|n| n.kind != "ERROR"));
}

#[test]
fn python_parses() {
    let syntax = analyze(Lang::Python, "def f():\n    pass\n").unwrap();
    assert_eq!(syntax.nodes[0].kind, "module");
    assert!(syntax.nodes.iter().all(|n| n.kind != "ERROR"));
}

// -- skeleton --

fn outline(files: &[(&str, &str)]) -> ToolOutput {
    let names: Vec<String> = files.iter().map(|(n, _)| format!("\"{n}\"")).collect();
    let args = format!(r#"{{"paths": [{}]}}"#, names.join(", "));
    let paths = parse_skeleton(&json(&args), "/tmp").unwrap();
    let inputs = files
        .iter()
        .map(|(_, source)| SourceInput::Content(source.to_string()))
        .collect();
    run_skeleton(&paths, &inputs)
}

#[test]
fn rust_skeleton_outline() {
    let src = r#"
use std::fmt;

/// Docs on the struct
#[derive(Debug)]
pub struct Point {
    pub x: f64,
    pub y: f64,
}

pub enum Shape {
    Circle,
    Square,
}

impl Point {
    pub fn new(x: f64, y: f64) -> Self {
        Point { x, y }
    }

    fn distance(&self) -> f64 {
        (self.x * self.x + self.y * self.y).sqrt()
    }
}

pub trait Drawable {
    fn draw(&self);
}

pub type Meters = f64;

mod internal {
    pub fn helper() {}
}
"#;
    let out = outline(&[("lib.rs", src)]);
    assert!(!out.is_error, "expected success, got {:?}", out.content);
    let text = shown(&out);

    assert!(text.contains("===== "), "header present");
    assert!(text.contains("pub struct Point"), "struct: {text}");
    assert!(text.contains("pub enum Shape"), "enum: {text}");
    assert!(text.contains("impl Point"), "impl: {text}");
    assert!(
        text.contains("pub fn new(x: f64, y: f64) -> Self"),
        "method: {text}"
    );
    assert!(
        text.contains("fn distance(&self) -> f64"),
        "private method: {text}"
    );
    assert!(text.contains("pub trait Drawable"), "trait: {text}");
    assert!(text.contains("fn draw(&self)"), "trait method: {text}");
    assert!(text.contains("pub type Meters"), "type alias: {text}");
    assert!(text.contains("mod internal"), "module: {text}");
    assert!(text.contains("pub fn helper()"), "nested fn: {text}");

    // Bodies must not leak
    assert!(!text.contains("sqrt"), "no impl bodies: {text}");
    assert!(!text.contains("Point { x, y }"), "no method bodies: {text}");
}

#[test]
fn rust_multiline_signature_collapses() {
    let src = r#"
pub fn long_function(
    first: String,
    second: u64,
) -> Result<String, Error> {
    Ok(first)
}
"#;
    let out = outline(&[("a.rs", src)]);
    assert!(!out.is_error);
    let text = shown(&out);
    assert!(
        text.contains("pub fn long_function(first: String, second: u64) -> Result<String, Error>"),
        "collapsed: {text}"
    );
}

#[test]
fn python_skeleton_outline() {
    let src = "import os\n\n@decorator\nclass Widget:\n    def __init__(self, name):\n        self.name = name\n\n    def render(self):\n        return self.name\n\ndef helper(x):\n    return x\n";
    let out = outline(&[("w.py", src)]);
    assert!(!out.is_error, "{:?}", out.content);
    let text = shown(&out);
    assert!(text.contains("class Widget:"), "class: {text}");
    assert!(text.contains("def __init__(self, name):"), "init: {text}");
    assert!(text.contains("def render(self):"), "method: {text}");
    assert!(text.contains("def helper(x):"), "fn: {text}");
    // Bodies must not leak
    assert!(!text.contains("return self.name"), "no bodies: {text}");
    assert!(!text.contains("@decorator"), "decorators excluded: {text}");
}

#[test]
fn typescript_skeleton_outline() {
    let src = r#"
export interface Shape {
    area(): number;
}

export class Circle implements Shape {
    constructor(private r: number) {}

    area(): number {
        return Math.PI * this.r * this.r;
    }
}

export function areaOf(s: Shape): number {
    return s.area();
}

const shrink = (f: number): number => f * 0.5;
"#;
    let out = outline(&[("a.ts", src)]);
    assert!(!out.is_error, "{:?}", out.content);
    let text = shown(&out);
    assert!(text.contains("interface Shape"), "interface: {text}");
    assert!(text.contains("class Circle"), "class: {text}");
    assert!(
        text.contains("constructor(private r: number)"),
        "ctor: {text}"
    );
    assert!(text.contains("area(): number"), "method: {text}");
    assert!(text.contains("function areaOf"), "fn: {text}");
    assert!(text.contains("const shrink"), "arrow fn: {text}");
    assert!(!text.contains("Math.PI"), "no bodies: {text}");
}

#[test]
fn unsupported_extension_errors_per_file() {
    let out = outline(&[("notes.md", "# hi")]);
    assert!(out.is_error, "all-fail call is an error");
    let text = shown(&out);
    assert!(text.contains("no skeleton support for .md"), "{text}");
    assert!(text.contains("use `read` instead"), "{text}");
}

#[test]
fn partial_success_is_not_error() {
    let out = outline(&[("notes.md", "# hi"), ("ok.rs", "fn main() {}")]);
    assert!(!out.is_error, "one success keeps the call successful");
    let text = shown(&out);
    assert!(text.contains("no skeleton support"), "{text}");
    assert!(text.contains("fn main()"), "{text}");
}

#[test]
fn missing_file_errors_per_file() {
    let paths = parse_skeleton(&json(r#"{"paths": ["/nonexistent/file.rs"]}"#), "/tmp").unwrap();
    let out = run_skeleton(&paths, &vec![SourceInput::Failed("No such file".into())]);
    assert!(out.is_error);
    let text = shown(&out);
    assert!(text.contains("error:"), "{text}");
}

#[test]
fn paths_validation() {
    let out = parse_skeleton(&json("{}"), "/tmp").unwrap_err();
    assert!(out.is_error);
    let out = parse_skeleton(&json(r#"{"paths": []}"#), "/tmp").unwrap_err();
    assert!(out.is_error);
}

#[test]
fn empty_definitions_file() {
    let out = outline(&[("empty.rs", "// just a comment")]);
    assert!(!out.is_error);
    assert!(
        shown(&out).contains("no definitions found"),
        "{:?}",
        out.content
    );
}

#[test]
fn outline_is_in_source_order() {
    let lines = extract("fn b() {}\nfn a() {}\nstruct C;\n", Lang::Rust).unwrap();
    let order: Vec<usize> = ["fn b()", "fn a()", "struct C"]
        .iter()
        .map(|s| lines.iter().position(|l| l.contains(s)).unwrap())
        .collect();
    assert!(order[0] < order[1] && order[1] < order[2]);
}

// -- get_function --

fn function(file: &str, source: &str, names: &[&str]) -> ToolOutput {
    let quoted: Vec<String> = names.iter().map(|n| format!("\"{n}\"")).collect();
    let args = format!(
        r#"{{"paths": ["{file}"], "function_names": [{}]}}"#,
        quoted.join(", ")
    );
    let request = parse_function(&json(&args), "/tmp").unwrap();
    run_function(&request, &vec![SourceInput::Content(source.into())])
}

#[test]
fn rust_bare_and_qualified() {
    let src = r#"
struct Point { x: f64, y: f64 }

impl Point {
    /// Docs for new
    pub fn new(x: f64, y: f64) -> Self {
        Point { x, y }
    }

    fn distance(&self) -> f64 {
        (self.x * self.x + self.y * self.y).sqrt()
    }
}

mod outer {
    pub fn helper() -> u8 {
        42
    }
}

fn free(x: u8) -> u8 { x + 1 }
"#;
    // Bare method name matches any `.new`
    let out = function("lib.rs", src, &["new"]);
    assert!(!out.is_error, "{:?}", out.content);
    let text = shown(&out);
    assert!(text.contains("Point.new"), "qualified name: {text}");
    assert!(text.contains("Point { x, y }"), "body: {text}");
    assert!(text.contains("/// Docs for new"), "docs included: {text}");
    assert!(text.contains("(lines 5-8)"), "line numbers: {text}");

    // Qualified dotted path
    let out = function("lib.rs", src, &["Point.distance"]);
    assert!(!out.is_error);
    assert!(shown(&out).contains("sqrt"));

    // Rust :: alias
    let out = function("lib.rs", src, &["Point::distance"]);
    assert!(!out.is_error);
    assert!(shown(&out).contains("sqrt"), "{:?}", out.content);

    // Mod-prefixed
    let out = function("lib.rs", src, &["outer.helper"]);
    assert!(!out.is_error);
    assert!(shown(&out).contains("42"), "{:?}", out.content);

    // A name that is not there
    let out = function("lib.rs", src, &["free_nothing"]);
    assert!(out.is_error);
}

#[test]
fn rust_free_function_by_bare_name() {
    let out = function("a.rs", "fn double(x: u8) -> u8 {\n    x * 2\n}\n", &["double"]);
    assert!(!out.is_error, "{:?}", out.content);
    let text = shown(&out);
    assert!(text.contains("x * 2"), "{text}");
    assert!(text.contains("double"), "{text}");
}

#[test]
fn python_class_method() {
    let src = "class Widget:\n    def render(self):\n        return self.name\n\ndef top_level():\n    pass\n";
    let out = function("w.py", src, &["Widget.render"]);
    assert!(!out.is_error, "{:?}", out.content);
    assert!(shown(&out).contains("return self.name"));

    let out = function("w.py", src, &["top_level"]);
    assert!(!out.is_error);

    let out = function("w.py", src, &["Widget.nope"]);
    assert!(out.is_error, "all-miss is error: {:?}", out.content);
    assert!(shown(&out).contains("not found"), "{:?}", out.content);
}

#[test]
fn typescript_class_method() {
    let src = r#"
export class Circle {
    area(): number {
        return 1;
    }

    private scale(f: number): number {
        return f;
    }
}
"#;
    let out = function("a.ts", src, &["Circle.area"]);
    assert!(!out.is_error, "{:?}", out.content);
    assert!(shown(&out).contains("return 1"));

    let out = function("a.ts", src, &["Circle.scale"]);
    assert!(!out.is_error, "{:?}", out.content);
}

#[test]
fn ambiguous_bare_name_returns_all_matches() {
    let src = "class A:\n    def run(self):\n        pass\n\nclass B:\n    def run(self):\n        return 2\n";
    let out = function("m.py", src, &["run"]);
    assert!(!out.is_error);
    let text = shown(&out);
    assert!(text.contains("A.run"), "{text}");
    assert!(text.contains("B.run"), "{text}");
    assert!(text.contains("return 2"), "{text}");
}

#[test]
fn miss_reported_in_footer_not_error_when_partial() {
    let out = function("a.py", "def exists():\n    pass\n", &["exists", "missing"]);
    assert!(!out.is_error, "partial success: {:?}", out.content);
    let text = shown(&out);
    assert!(text.contains("exists"), "{text}");
    assert!(text.contains("not found"), "{text}");
    assert!(text.contains("missing"), "{text}");
}

#[test]
fn get_function_args_validation() {
    assert!(parse_function(&json("{}"), "/tmp").unwrap_err().is_error);
    assert!(parse_function(&json(r#"{"paths": ["a.rs"]}"#), "/tmp").unwrap_err().is_error);
}

#[test]
fn names_are_matched_by_suffix() {
    assert_eq!(normalize("Point::new"), "Point.new");
    assert!(qualified_ends_with("outer.Point.new", "new"));
    assert!(qualified_ends_with("outer.Point.new", "Point.new"));
    assert!(!qualified_ends_with("outer.Point.renew", "new"));
}

// -- diagnostics --

#[test]
fn parse_short_format_basics() {
    let stderr = "\
src/main.rs:2:9: warning: unused variable: `x`
src/lib.rs:10:5: error[E0308]: mismatched types
error: could not compile `proj` (bin \"proj\") due to 1 previous error
";
    let diags = parse_cargo_check(stderr, "/proj");
    assert_eq!(diags.len(), 3);
    assert_eq!(diags[0].file, "/proj/src/main.rs");
    assert_eq!(diags[0].line, 2);
    assert_eq!(diags[0].column, 9);
    assert_eq!(diags[0].severity, "warning");
    assert!(diags[1].message.contains("mismatched types"));
    assert_eq!(diags[1].severity, "error");
    // Location-less cargo error keeps its text.
    assert!(diags[2].message.contains("could not compile"));
    assert_eq!(diags[2].line, 0);
    assert!(split_short_line("    Checking proj v0.1.0").is_none());
    let line = split_short_line("a.rs:1:2: warning: x: error: y").unwrap();
    assert_eq!(line.location, "a.rs:1:2");
    assert_eq!(line.severity, "warning");
    assert_eq!(line.message, "x: error: y");
    let line = split_short_line("a.rs:1:2: error[E0308]: x: note: y").unwrap();
    assert_eq!((line.severity.as_str(), line.message.as_str()), ("error", "x: note: y"));
    // The first severity decides, and without a code it needs a line number before it.
    assert!(split_short_line("x: error: a: b: error[E1]: m").is_none());
    assert!(split_short_line("a:b:c: note: y: error[E1]: m").is_none());
    assert!(split_short_line("a:b:c: error: m").is_none());
    assert!(split_short_line("a.rs:5: error: b: error: y").is_none());
    let line = split_short_line("foo:bar:baz: error[E1]: m").unwrap();
    assert_eq!((line.location.as_str(), line.severity.as_str()), ("foo:bar:baz", "error"));
    let line = split_short_line("a.rs:7:b: error[E1]: m").unwrap();
    assert_eq!((line.location.as_str(), line.message.as_str()), ("a.rs:7:b", "m"));
    let line = split_short_line("error: a: b: warning: c").unwrap();
    assert_eq!((line.location.as_str(), line.message.as_str()), ("", "a: b: warning: c"));
}

fn facts(path: &str, cargo_root: Option<&str>) -> FileFacts {
    FileFacts {
        path: path.into(),
        full: path.into(),
        is_file: true,
        cargo_root: cargo_root.map(String::from),
        config_root: None,
        tools: Vec::new(),
    }
}

/// Scan one file of a project, with the output that cargo gives.
fn scan_project(stderr: &str) -> ScanRun {
    let planned = plan(&vec![facts("/p/src/lib.rs", Some("/p"))], "/tmp");
    assert_eq!(planned.cargo.len(), 1);
    assert_eq!(planned.cargo[0].root, "/p");
    assert_eq!(planned.cargo[0].files, ["/p/src/lib.rs"]);
    let mut run = ScanRun::new(planned.skipped);
    let found = parse_cargo_check(stderr, "/p");
    let canonical: Vec<String> = found.iter().map(|d| d.file.clone()).collect();
    run.cargo_ran(&planned.cargo[0], &found, &canonical, &vec!["/p/src/lib.rs".into()]);
    run
}

#[test]
fn cargo_project_scan() {
    let run = scan_project(
        "src/lib.rs:3:7: error[E0277]: cannot add `&str` to `i32`\nerror: could not compile `bad`\n",
    );
    let summary = run.summary();
    assert_eq!(summary.errors, 1);
    let diag = &run.diagnostics[0];
    assert_eq!(diag.severity, "error");
    assert!(diag.file.ends_with("src/lib.rs"));
    assert!(!run.answer("{}").is_error, "diagnostics present but call succeeds");
}

#[test]
fn clean_project_zero_diagnostics() {
    let run = scan_project("");
    let summary = run.summary();
    assert_eq!(summary.files_scanned, 1);
    assert_eq!(summary.errors, 0);
    assert_eq!(run.diagnostics.len(), 0);
    let out = run.answer("{}");
    assert!(!out.is_error);
    assert_eq!(
        out.summary.as_deref(),
        Some("1 file(s) scanned: 0 errors, 0 warnings")
    );
}

#[test]
fn unconfigured_extension_skipped() {
    let planned = plan(&vec![facts("/d/script.py", None)], "/tmp");
    let run = ScanRun::new(planned.skipped);
    assert_eq!(run.summary().files_scanned, 0);
    assert!(run.skipped[0].reason.contains("configure a tool"));
    assert!(run.answer("{}").is_error, "nothing scanned");
}

#[test]
fn configured_tool_runs() {
    let mut file = facts("/d/script.py", None);
    file.config_root = Some("/d".into());
    file.tools = vec![configured_tool(&vec![".py".into()], "echo checked {file}")];
    let planned = plan(&vec![file], "/tmp");
    assert_eq!(planned.configured.len(), 1);
    assert_eq!(planned.configured[0].root, "/d");
    let entry = &planned.configured[0].entries[0];
    assert_eq!(command_line(entry), "echo checked /d/script.py");
    let mut run = ScanRun::new(planned.skipped);
    run.tool_ran(entry, "checked /d/script.py\n", "");
    assert!(!run.answer("{}").is_error);
    assert_eq!(run.summary().files_scanned, 1);
    assert!(run.diagnostics[0].message.contains("checked"));
    assert_eq!(run.diagnostics[0].severity, "info");
    run.tool_failed(entry, "no sh");
    assert_eq!(run.skipped[0].reason, "failed to run configured tool: no sh");
}

#[test]
fn missing_file_skipped() {
    let mut gone = facts("/nope/missing.rs", None);
    gone.is_file = false;
    let run = ScanRun::new(plan(&vec![gone], "/tmp").skipped);
    assert_eq!(run.summary().files_skipped, 1);
    assert!(run.answer("{}").is_error);
}

#[test]
fn diagnostics_scan_args_validation() {
    assert!(parse_scan(&json("{}")).unwrap_err().is_error);
}

#[test]
fn failed_cargo_skips_its_files() {
    let planned = plan(&vec![facts("/p/a.rs", Some("/p")), facts("/p/b.rs", Some("/p"))], "/");
    let mut run = ScanRun::new(Vec::new());
    run.cargo_failed(&planned.cargo[0]);
    assert_eq!(run.summary().files_skipped, 2);
    assert_eq!(run.skipped[0].reason, "failed to run cargo check");
}

#[test]
fn other_files_findings_are_dropped() {
    let run = scan_project("src/other.rs:1:1: warning: unused\nsrc/lib.rs:2:2: warning: unused\n");
    assert_eq!(
        run.diagnostics,
        [Diagnostic {
            file: "/p/src/lib.rs".into(),
            line: 2,
            column: 2,
            severity: "warning".into(),
            message: "unused".into(),
        }]
    );
}

#[test]
fn paths_are_ordered_by_component() {
    assert_eq!(compare_paths("/a/b", "/a-b"), PathOrder::Before);
    assert_eq!(compare_paths("/a//b", "/a/b"), PathOrder::Same);
    assert_eq!(compare_paths("/b", "/a/z"), PathOrder::After);
}

// -- edit --

#[test]
fn edit_roundtrip() {
    let args = json(
        r#"{"files": [{"path": "edit.txt", "edits": [{"old_text": "world", "new_text": "there"}]}]}"#,
    );
    let files = parse_edit(&args).unwrap();
    assert_eq!(edit_target(&files[0], "/tmp"), "/tmp/edit.txt");
    assert_eq!(apply_edits("hello world", &files[0].edits).unwrap(), "hello there");
    let out = report_edit(&files, &vec![None]);
    assert!(!out.is_error);
    assert_eq!(shown(&out), "edited edit.txt (1 edits)");
    assert_eq!(out.summary.as_deref(), Some("edit: 1 of 1 files"));
}

#[test]
fn edit_by_anchor() {
    let lines = vec!["a".to_string(), "b".to_string(), "a".to_string()];
    let anchors = hash_lines_with_disambiguators(&lines);
    let edit = |anchor: &str, new_text: &str| {
        vec![Edit::Line { anchor: anchor.into(), new_text: new_text.into() }]
    };
    assert_eq!(apply_edits("a\r\nb\na", &edit(&anchors[0], "x")).unwrap(), "x\r\nb\na");
    assert_eq!(apply_edits("a\nb\na\n", &edit(&anchors[1], "y")).unwrap(), "a\ny\na\n");
    assert_eq!(apply_edits("a\nb\na", &edit(&anchors[2], "z")).unwrap(), "a\nb\nz");
    let missing = apply_edits("a\nb", &edit("00000000", "z")).unwrap_err();
    assert_eq!(missing, "no line has the anchor 00000000");
}

#[test]
fn edits_are_all_made_or_none() {
    let edit = |old: &str, new: &str| Edit::Text { old_text: old.into(), new_text: new.into() };
    let two = vec![edit("one", "two"), edit("two three", "four")];
    assert_eq!(apply_edits("one three", &two).unwrap(), "four");
    let failing = vec![edit("one", "two"), edit("absent", "x")];
    assert_eq!(apply_edits("one", &failing).unwrap_err(), "old_text not found");
    assert_eq!(
        apply_edits("aaa", &vec![edit("aa", "b")]).unwrap_err(),
        "old_text occurs more than once"
    );
    assert_eq!(apply_edits("a", &vec![edit("", "b")]).unwrap_err(), "old_text is empty");
}

#[test]
fn edit_arguments_are_checked() {
    for args in [
        "{}",
        r#"{"files": []}"#,
        r#"{"files": [{"path": "a", "edits": []}]}"#,
        r#"{"files": [{"path": "a", "edits": [{"new_text": "x"}]}]}"#,
        r#"{"files": [{"edits": [{"old_text": "a", "new_text": "x"}]}]}"#,
    ] {
        assert!(parse_edit(&json(args)).unwrap_err().is_error, "{args}");
    }
    let args = json(r#"{"files": [{"path": "a", "edits": [{"anchor": "h", "new_text": "x"}]}]}"#);
    let files = parse_edit(&args).unwrap();
    assert_eq!(files[0].edits[0], Edit::Line { anchor: "h".into(), new_text: "x".into() });
    let out = report_edit(&files, &vec![Some("gone".into())]);
    assert!(out.is_error);
    assert_eq!(shown(&out), "error: a: gone");
    assert!(default_tools().iter().any(|t| t.name == "edit"));
}
