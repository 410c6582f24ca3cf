//! The `diagnostics_scan` tool: lint/syntax diagnostics on specific files.
//!
//! Built-in: Rust files are grouped by their enclosing cargo project and checked with
//! `cargo check --message-format=short` (one invocation per project, output filtered to the
//! requested files). Other extensions are skipped unless a `.tars/diagnostics.toml` file found in
//! a nearest ancestor directory defines a command for them. `{file}` in a command is substituted
//! with the requested path; its combined output becomes one `info`-severity diagnostic for the file.
//!
//! A call is no error even when diagnostics are present. It only fails when no file at all could
//! be scanned.

use vstd::prelude::*;

use crate::json::{empty_object_value, with_entry};
use crate::path::{extension, join};
use crate::text::{
    chars_of, find_chars, occurs_at_exec, str_ascii_lower, str_count_char, str_eq, str_lines,
    str_parse_u64, str_replace, str_split, str_strip_prefix, str_trim, str_trim_start_char,
    string_of, usize_text,
};
use crate::tools::skeleton::{collect_texts, get_list, length_message, missing_message};
use crate::tools::{object_value, text_list_value, ToolOutput};
use crate::types::Tool;

verus! {

/// The most files of a call.
pub const MAX_PATHS: usize = 20;

/// One cargo-check (or configured-tool) finding.
#[derive(Debug, PartialEq)]
pub struct Diagnostic {
    pub file: String,
    pub line: u64,
    pub column: u64,
    pub severity: String,
    pub message: String,
}

/// What a [`Diagnostic`] holds.
#[verifier::ext_equal]
pub struct DiagnosticView {
    pub file: Seq<char>,
    pub line: u64,
    pub column: u64,
    pub severity: Seq<char>,
    pub message: Seq<char>,
}

impl View for Diagnostic {
    type V = DiagnosticView;

    open spec fn view(&self) -> DiagnosticView {
        DiagnosticView {
            file: self.file@,
            line: self.line,
            column: self.column,
            severity: self.severity@,
            message: self.message@,
        }
    }
}

impl DeepView for Diagnostic {
    type V = DiagnosticView;

    open spec fn deep_view(&self) -> DiagnosticView {
        self@
    }
}

impl Clone for Diagnostic {
    fn clone(&self) -> (r: Self)
        ensures
            r@ == self@,
    {
        let r = Diagnostic {
            file: self.file.clone(),
            line: self.line,
            column: self.column,
            severity: self.severity.clone(),
            message: self.message.clone(),
        };
        r
    }
}

/// A file that was not scanned, and why.
#[derive(Debug, PartialEq)]
pub struct SkippedEntry {
    pub path: String,
    pub reason: String,
}

/// What a [`SkippedEntry`] holds.
#[verifier::ext_equal]
pub struct SkippedEntryView {
    pub path: Seq<char>,
    pub reason: Seq<char>,
}

impl View for SkippedEntry {
    type V = SkippedEntryView;

    open spec fn view(&self) -> SkippedEntryView {
        SkippedEntryView {
            path: self.path@,
            reason: self.reason@,
        }
    }
}

impl DeepView for SkippedEntry {
    type V = SkippedEntryView;

    open spec fn deep_view(&self) -> SkippedEntryView {
        self@
    }
}

impl Clone for SkippedEntry {
    fn clone(&self) -> (r: Self)
        ensures
            r@ == self@,
    {
        let r = SkippedEntry {
            path: self.path.clone(),
            reason: self.reason.clone(),
        };
        r
    }
}

/// A command for files with certain extensions.
#[derive(Debug, PartialEq)]
pub struct ConfiguredTool {
    pub extensions: Vec<String>,
    pub command: String,
}

/// What a [`ConfiguredTool`] holds.
#[verifier::ext_equal]
pub struct ConfiguredToolView {
    pub extensions: Seq<Seq<char>>,
    pub command: Seq<char>,
}

impl View for ConfiguredTool {
    type V = ConfiguredToolView;

    open spec fn view(&self) -> ConfiguredToolView {
        ConfiguredToolView {
            extensions: self.extensions.deep_view(),
            command: self.command@,
        }
    }
}

impl DeepView for ConfiguredTool {
    type V = ConfiguredToolView;

    open spec fn deep_view(&self) -> ConfiguredToolView {
        self@
    }
}

impl Clone for ConfiguredTool {
    fn clone(&self) -> (r: Self)
        ensures
            r@ == self@,
    {
        let r = ConfiguredTool {
            extensions: self.extensions.clone(),
            command: self.command.clone(),
        };
        assert(r.extensions.deep_view() =~= self.extensions.deep_view());
        r
    }
}

/// What the file system says of a requested file.
#[derive(Debug, PartialEq)]
pub struct FileFacts {
    /// The path as it was given.
    pub path: String,
    /// The path inside the working directory.
    pub full: String,
    pub is_file: bool,
    /// The nearest directory above it that holds a `Cargo.toml`.
    pub cargo_root: Option<String>,
    /// The nearest directory above it that holds a `.tars/diagnostics.toml`.
    pub config_root: Option<String>,
    /// The commands configured there, or in the working directory.
    pub tools: Vec<ConfiguredTool>,
}

/// What a [`FileFacts`] holds.
#[verifier::ext_equal]
pub struct FileFactsView {
    pub path: Seq<char>,
    pub full: Seq<char>,
    pub is_file: bool,
    pub cargo_root: Option<Seq<char>>,
    pub config_root: Option<Seq<char>>,
    pub tools: Seq<ConfiguredToolView>,
}

impl View for FileFacts {
    type V = FileFactsView;

    open spec fn view(&self) -> FileFactsView {
        FileFactsView {
            path: self.path@,
            full: self.full@,
            is_file: self.is_file,
            cargo_root: self.cargo_root.deep_view(),
            config_root: self.config_root.deep_view(),
            tools: self.tools.deep_view(),
        }
    }
}

impl DeepView for FileFacts {
    type V = FileFactsView;

    open spec fn deep_view(&self) -> FileFactsView {
        self@
    }
}

/// The files of a cargo project.
#[derive(Debug, PartialEq)]
pub struct CargoJob {
    pub root: String,
    pub files: Vec<String>,
}

/// What a [`CargoJob`] holds.
#[verifier::ext_equal]
pub struct CargoJobView {
    pub root: Seq<char>,
    pub files: Seq<Seq<char>>,
}

impl View for CargoJob {
    type V = CargoJobView;

    open spec fn view(&self) -> CargoJobView {
        CargoJobView {
            root: self.root@,
            files: self.files.deep_view(),
        }
    }
}

impl DeepView for CargoJob {
    type V = CargoJobView;

    open spec fn deep_view(&self) -> CargoJobView {
        self@
    }
}

impl Clone for CargoJob {
    fn clone(&self) -> (r: Self)
        ensures
            r@ == self@,
    {
        let r = CargoJob {
            root: self.root.clone(),
            files: self.files.clone(),
        };
        assert(r.files.deep_view() =~= self.files.deep_view());
        r
    }
}

/// A file and the command for it.
#[derive(Debug, PartialEq)]
pub struct ToolEntry {
    pub file: String,
    pub command: String,
}

/// What a [`ToolEntry`] holds.
#[verifier::ext_equal]
pub struct ToolEntryView {
    pub file: Seq<char>,
    pub command: Seq<char>,
}

impl View for ToolEntry {
    type V = ToolEntryView;

    open spec fn view(&self) -> ToolEntryView {
        ToolEntryView {
            file: self.file@,
            command: self.command@,
        }
    }
}

impl DeepView for ToolEntry {
    type V = ToolEntryView;

    open spec fn deep_view(&self) -> ToolEntryView {
        self@
    }
}

impl Clone for ToolEntry {
    fn clone(&self) -> (r: Self)
        ensures
            r@ == self@,
    {
        let r = ToolEntry {
            file: self.file.clone(),
            command: self.command.clone(),
        };
        r
    }
}

/// The files whose commands run in a directory.
#[derive(Debug, PartialEq)]
pub struct ToolJob {
    pub root: String,
    pub entries: Vec<ToolEntry>,
}

/// What a [`ToolJob`] holds.
#[verifier::ext_equal]
pub struct ToolJobView {
    pub root: Seq<char>,
    pub entries: Seq<ToolEntryView>,
}

impl View for ToolJob {
    type V = ToolJobView;

    open spec fn view(&self) -> ToolJobView {
        ToolJobView {
            root: self.root@,
            entries: self.entries.deep_view(),
        }
    }
}

impl DeepView for ToolJob {
    type V = ToolJobView;

    open spec fn deep_view(&self) -> ToolJobView {
        self@
    }
}

impl Clone for ToolJob {
    fn clone(&self) -> (r: Self)
        ensures
            r@ == self@,
    {
        let r = ToolJob {
            root: self.root.clone(),
            entries: self.entries.clone(),
        };
        assert(r.entries.deep_view() =~= self.entries.deep_view());
        r
    }
}

/// What is to be run.
#[derive(Debug, PartialEq)]
pub struct ScanPlan {
    pub cargo: Vec<CargoJob>,
    pub configured: Vec<ToolJob>,
    pub skipped: Vec<SkippedEntry>,
}

/// What a [`ScanPlan`] holds.
#[verifier::ext_equal]
pub struct ScanPlanView {
    pub cargo: Seq<CargoJobView>,
    pub configured: Seq<ToolJobView>,
    pub skipped: Seq<SkippedEntryView>,
}

impl View for ScanPlan {
    type V = ScanPlanView;

    open spec fn view(&self) -> ScanPlanView {
        ScanPlanView {
            cargo: self.cargo.deep_view(),
            configured: self.configured.deep_view(),
            skipped: self.skipped.deep_view(),
        }
    }
}

impl DeepView for ScanPlan {
    type V = ScanPlanView;

    open spec fn deep_view(&self) -> ScanPlanView {
        self@
    }
}

/// What has been found so far.
#[derive(Debug, PartialEq)]
pub struct ScanRun {
    pub diagnostics: Vec<Diagnostic>,
    pub skipped: Vec<SkippedEntry>,
    pub files_scanned: usize,
}

/// What a [`ScanRun`] holds.
#[verifier::ext_equal]
pub struct ScanRunView {
    pub diagnostics: Seq<DiagnosticView>,
    pub skipped: Seq<SkippedEntryView>,
    pub files_scanned: usize,
}

impl View for ScanRun {
    type V = ScanRunView;

    open spec fn view(&self) -> ScanRunView {
        ScanRunView {
            diagnostics: self.diagnostics.deep_view(),
            skipped: self.skipped.deep_view(),
            files_scanned: self.files_scanned,
        }
    }
}

impl DeepView for ScanRun {
    type V = ScanRunView;

    open spec fn deep_view(&self) -> ScanRunView {
        self@
    }
}

/// Whether this describes the tool.
pub open spec fn is_tool(t: crate::types::ToolView) -> bool {
    &&& t.name == "diagnostics_scan"@
    &&& t.description
        == "Run lint/syntax diagnostics on specific files and get structured per-file feedback (built-in: Rust via cargo check; configurable via .tars/diagnostics.toml). Pass only the files you actually changed; the tool resolves project context automatically. Output is structured JSON ({summary, diagnostics[], skipped[]}); is_error is false even when diagnostics are present."@
    &&& t.parameters.value == crate::tools::object_schema(
        map![
            "paths"@ => crate::tools::text_list(
                MAX_PATHS as nat,
                "Files to diagnose (1-20)."@,
            ),
        ],
        seq!["paths"@],
    )
}

/// The description of the tool.
pub fn tool() -> (r: Tool)
    ensures
        is_tool(r@),
{
    let p = with_entry(
        empty_object_value(),
        "paths".to_owned(),
        text_list_value(MAX_PATHS, "Files to diagnose (1-20)."),
    );
    let required: Vec<String> = vec!["paths".to_owned()];
    assert(required.deep_view() =~= seq!["paths"@]);
    Tool {
        name: "diagnostics_scan".to_owned(),
        description: "Run lint/syntax diagnostics on specific files and get structured per-file feedback (built-in: Rust via cargo check; configurable via .tars/diagnostics.toml). Pass only the files you actually changed; the tool resolves project context automatically. Output is structured JSON ({summary, diagnostics[], skipped[]}); is_error is false even when diagnostics are present.".to_owned(),
        parameters: object_value(p, &required),
    }
}

/// The paths of a call, or why it cannot be done.
pub fn parse(args: &serde_json::Value) -> (r: core::result::Result<Vec<String>, ToolOutput>)
    ensures
        ({
            let elems = crate::tools::skeleton::list_argument(
                crate::json::json_of(*args),
                "paths"@,
            );
            let error = crate::tools::skeleton::list_error(elems, "paths"@, MAX_PATHS as nat);
            match r {
                Ok(paths) => error is None && paths.deep_view()
                    == crate::tools::skeleton::texts_of(elems->0, elems->0.len() as int),
                Err(o) => error is Some && o@ == crate::tools::text_output(error->0, true),
            }
        }),
{
    let elems = match get_list(args, "paths") {
        Some(e) => e,
        None => {
            return Err(ToolOutput::error(missing_message("paths").as_str()));
        },
    };
    assert(crate::json::jsons(elems@).len() == elems.len());
    if elems.len() == 0 || elems.len() > MAX_PATHS {
        return Err(ToolOutput::error(length_message("paths", MAX_PATHS).as_str()));
    }
    Ok(collect_texts(elems))
}

// ---------------------------------------------------------------------------
// cargo check
// ---------------------------------------------------------------------------

/// A line that reports something: where, how severe, and what.
#[verifier::ext_equal]
pub struct ShortLine {
    pub location: Seq<char>,
    pub severity: Seq<char>,
    pub message: Seq<char>,
}

/// Whether a location has at least a file, a line and a column.
pub open spec fn has_columns(location: Seq<char>) -> bool {
    crate::text::count_char(location, ':') >= 2
}

/// Whether the second part of a location is a number.
pub open spec fn has_line(location: Seq<char>) -> bool {
    let parts = crate::text::split(location, ':');
    parts.len() >= 2 && crate::text::parse_u64(parts[1]) is Some
}

/// Whether a severity stands at a place, with a message or a bracketed code behind it.
pub open spec fn marks(line: Seq<char>, sev: Seq<char>, i: int) -> bool {
    crate::text::occurs_at(line, ": "@ + sev + ": "@, i) || crate::text::occurs_at(
        line,
        ": "@ + sev + "["@,
        i,
    )
}

/// The severity that stands at a place.
pub open spec fn severity_at(line: Seq<char>, i: int) -> Option<Seq<char>> {
    if marks(line, "error"@, i) {
        Some("error"@)
    } else if marks(line, "warning"@, i) {
        Some("warning"@)
    } else if marks(line, "help"@, i) {
        Some("help"@)
    } else if marks(line, "note"@, i) {
        Some("note"@)
    } else {
        None
    }
}

/// The first place at or behind `from` at which a severity stands.
pub open spec fn mark_from(line: Seq<char>, from: int) -> Option<int>
    decreases line.len() - from,
{
    if from >= line.len() {
        None
    } else if severity_at(line, from) is Some {
        Some(from)
    } else {
        mark_from(line, from + 1)
    }
}

/// A line with a severity at a place: `path:line:col: severity: message`, or with a bracketed code
/// behind the severity. Without such a code, the line has to be a number.
pub open spec fn line_at(line: Seq<char>, sev: Seq<char>, i: int) -> Option<ShortLine> {
    let plain = ": "@ + sev + ": "@;
    let bracket = ": "@ + sev + "["@;
    let loc = line.subrange(0, i);
    if !has_columns(loc) {
        None
    } else if crate::text::occurs_at(line, plain, i) {
        if has_line(loc) {
            Some(
                ShortLine {
                    location: loc,
                    severity: sev,
                    message: crate::text::trim(line.subrange(i + plain.len(), line.len() as int)),
                },
            )
        } else {
            None
        }
    } else {
        let rest = line.subrange(i + bracket.len(), line.len() as int);
        match crate::text::find(rest, "]: "@) {
            Some(c) => Some(
                ShortLine {
                    location: loc,
                    severity: sev,
                    message: rest.subrange(c + "]: "@.len(), rest.len() as int),
                },
            ),
            None => None,
        }
    }
}

/// A line with a location. The first severity in the line decides, whatever the message holds.
pub open spec fn located_line(line: Seq<char>) -> Option<ShortLine> {
    match mark_from(line, 0) {
        Some(i) => line_at(line, severity_at(line, i)->0, i),
        None => None,
    }
}

proof fn lemma_mark_from(line: Seq<char>, from: int, k: int)
    requires
        0 <= from <= k < line.len(),
        severity_at(line, k) is Some,
        forall|i: int| from <= i < k ==> #[trigger] severity_at(line, i) is None,
    ensures
        mark_from(line, from) == Some(k),
    decreases k - from,
{
    if from < k {
        assert(severity_at(line, from) is None);
        lemma_mark_from(line, from + 1, k);
    }
}

/// The severities are told apart by how they start.
proof fn lemma_severity(line: Seq<char>, sev: Seq<char>, k: int)
    requires
        0 <= k,
        marks(line, sev, k),
        sev == "error"@ || sev == "warning"@ || sev == "help"@ || sev == "note"@,
    ensures
        severity_at(line, k) == Some(sev),
{
    reveal_strlit("error");
    reveal_strlit("warning");
    reveal_strlit("help");
    reveal_strlit("note");
    reveal_strlit(": ");
    reveal_strlit("[");
    assert forall|s: Seq<char>| s.len() > 0 && #[trigger] marks(line, s, k) implies line[k + 2]
        == s[0] by {
        let plain = ": "@ + s + ": "@;
        let bracket = ": "@ + s + "["@;
        if crate::text::occurs_at(line, plain, k) {
            assert(line.subrange(k, k + plain.len())[2] == plain[2]);
        } else {
            assert(line.subrange(k, k + bracket.len())[2] == bracket[2]);
        }
    }
    assert(line[k + 2] == sev[0]);
}

/// The severity of a line is the one that stands behind its location, and the rest is the message,
/// whatever it holds.
pub proof fn law_message_does_not_decide(
    location: Seq<char>,
    sev: Seq<char>,
    message: Seq<char>,
)
    requires
        sev == "error"@ || sev == "warning"@ || sev == "help"@ || sev == "note"@,
        has_columns(location),
        has_line(location),
        forall|i: int|
            0 <= i < location.len() ==> #[trigger] severity_at(
                location + (": "@ + sev + ": "@) + message,
                i,
            ) is None,
    ensures
        short_line(location + (": "@ + sev + ": "@) + message) == Some(
            ShortLine { location, severity: sev, message: crate::text::trim(message) },
        ),
{
    let mark = ": "@ + sev + ": "@;
    let line = location + mark + message;
    let k = location.len() as int;
    reveal_strlit(": ");
    assert(line.subrange(k, k + mark.len()) =~= mark);
    assert(crate::text::occurs_at(line, mark, k));
    lemma_severity(line, sev, k);
    assert(line.subrange(0, k) =~= location);
    lemma_mark_from(line, 0, k);
    assert(line.subrange(k + mark.len(), line.len() as int) =~= message);
}

/// A line without a location, of some severity.
pub open spec fn bare_line(line: Seq<char>, sev: Seq<char>) -> Option<ShortLine> {
    match crate::text::strip_prefix(line, sev + ": "@) {
        Some(rest) => Some(ShortLine { location: seq![], severity: sev, message: rest }),
        None => None,
    }
}

/// The first of two that is something.
pub open spec fn or_else(a: Option<ShortLine>, b: Option<ShortLine>) -> Option<ShortLine> {
    if a is Some {
        a
    } else {
        b
    }
}

/// What a line reports.
pub open spec fn short_line(line: Seq<char>) -> Option<ShortLine> {
    or_else(
        located_line(line),
        or_else(bare_line(line, "error"@), bare_line(line, "warning"@)),
    )
}

/// The finding that a line reports.
pub open spec fn diagnostic_of(s: ShortLine) -> DiagnosticView {
    let parts = crate::text::split(s.location, ':');
    let placed = parts.len() >= 3 && crate::text::parse_u64(parts[1]) is Some;
    DiagnosticView {
        file: if parts.len() > 0 {
            parts[0]
        } else {
            seq![]
        },
        line: if placed {
            crate::text::parse_u64(parts[1])->0
        } else {
            0
        },
        column: if placed && crate::text::parse_u64(parts[2]) is Some {
            crate::text::parse_u64(parts[2])->0
        } else {
            0
        },
        severity: s.severity,
        message: s.message,
    }
}

/// The findings of the first `n` lines.
pub open spec fn findings(lines: Seq<Seq<char>>, n: int) -> Seq<DiagnosticView>
    decreases n,
{
    if n <= 0 {
        seq![]
    } else {
        let init = findings(lines, n - 1);
        let line = crate::text::trim(lines[n - 1]);
        if line.len() == 0 {
            init
        } else {
            match short_line(line) {
                Some(s) => init.push(diagnostic_of(s)),
                None => init,
            }
        }
    }
}

/// The findings in the output of cargo.
pub open spec fn parsed(stderr: Seq<char>) -> Seq<DiagnosticView> {
    findings(crate::text::lines(stderr), crate::text::lines(stderr).len() as int)
}

/// A finding with its file inside the project.
pub open spec fn rooted(d: DiagnosticView, root: Seq<char>) -> DiagnosticView {
    if d.file.len() == 0 {
        d
    } else {
        DiagnosticView { file: crate::path::joined(root, d.file), ..d }
    }
}

/// What a line reports.
#[derive(Debug)]
pub struct ShortReport {
    pub location: String,
    pub severity: String,
    pub message: String,
}

/// What an optional [`ShortReport`] holds.
pub open spec fn report_view(r: Option<ShortReport>) -> Option<ShortLine> {
    match r {
        Some(s) => Some(
            ShortLine { location: s.location@, severity: s.severity@, message: s.message@ },
        ),
        None => None,
    }
}

/// A text between colons.
fn severity_mark(sev: &str, end: &str) -> (r: String)
    ensures
        r@ == ": "@ + sev@ + end@,
{
    let mut out: String = ": ".to_owned();
    out.append(sev);
    out.append(end);
    out
}

/// Whether the second part of a location is a number.
fn check_line(location: &str) -> (r: bool)
    ensures
        r == has_line(location@),
{
    let parts = str_split(location, ':');
    assert(parts.deep_view().len() == parts.len());
    if parts.len() < 2 {
        return false;
    }
    assert(parts.deep_view()[1] == parts[1]@);
    str_parse_u64(parts[1].as_str()).is_some()
}

/// The first occurrence of a text.
fn locate(v: &Vec<char>, pat: &str) -> (r: Option<usize>)
    ensures
        match r {
            Some(i) => crate::text::find(v@, pat@) == Some(i as int) && i + pat@.len() <= v.len(),
            None => crate::text::find(v@, pat@) is None,
        },
{
    let p = chars_of(pat);
    let r = find_chars(v, &p, 0);
    proof {
        crate::text::lemma_find(v@, pat@);
    }
    r
}

/// Whether a text stands at a place.
fn stands_at(v: &Vec<char>, pat: &str, i: usize) -> (r: bool)
    requires
        i <= v.len(),
    ensures
        r == crate::text::occurs_at(v@, pat@, i as int),
{
    let p = chars_of(pat);
    occurs_at_exec(v, &p, i)
}

/// Whether a severity stands at a place.
fn is_marked(v: &Vec<char>, sev: &str, i: usize) -> (r: bool)
    requires
        i <= v.len(),
    ensures
        r == marks(v@, sev@, i as int),
{
    stands_at(v, severity_mark(sev, ": ").as_str(), i) || stands_at(
        v,
        severity_mark(sev, "[").as_str(),
        i,
    )
}

/// The severity that stands at a place.
fn find_severity(v: &Vec<char>, i: usize) -> (r: Option<&'static str>)
    requires
        i <= v.len(),
    ensures
        match r {
            Some(s) => severity_at(v@, i as int) == Some(s@),
            None => severity_at(v@, i as int) is None,
        },
{
    if is_marked(v, "error", i) {
        Some("error")
    } else if is_marked(v, "warning", i) {
        Some("warning")
    } else if is_marked(v, "help", i) {
        Some("help")
    } else if is_marked(v, "note", i) {
        Some("note")
    } else {
        None
    }
}

/// A line with a severity at a place.
fn split_at_mark(v: &Vec<char>, sev: &str, i: usize) -> (r: Option<ShortReport>)
    requires
        i <= v.len(),
        marks(v@, sev@, i as int),
    ensures
        report_view(r) == line_at(v@, sev@, i as int),
{
    let loc = string_of(v, 0, i);
    if str_count_char(loc.as_str(), ':') < 2 {
        return None;
    }
    let plain = severity_mark(sev, ": ");
    if stands_at(v, plain.as_str(), i) {
        if !check_line(loc.as_str()) {
            return None;
        }
        let skip: usize = chars_of(plain.as_str()).len();
        let rest = string_of(v, i + skip, v.len());
        return Some(
            ShortReport {
                location: loc,
                severity: sev.to_owned(),
                message: str_trim(rest.as_str()),
            },
        );
    }
    let bracket = severity_mark(sev, "[");
    let skip: usize = chars_of(bracket.as_str()).len();
    let rest = string_of(v, i + skip, v.len());
    let w = chars_of(rest.as_str());
    match locate(&w, "]: ") {
        Some(c) => {
            let end: usize = chars_of("]: ").len();
            Some(
                ShortReport {
                    location: loc,
                    severity: sev.to_owned(),
                    message: string_of(&w, c + end, w.len()),
                },
            )
        },
        None => None,
    }
}

/// A line with a location.
fn split_located(line: &str) -> (r: Option<ShortReport>)
    ensures
        report_view(r) == located_line(line@),
{
    let v = chars_of(line);
    let mut i: usize = 0;
    while i < v.len()
        invariant
            v@ == line@,
            i <= v.len(),
            mark_from(line@, 0) == mark_from(line@, i as int),
        decreases v.len() - i,
    {
        if let Some(sev) = find_severity(&v, i) {
            assert(mark_from(line@, 0) == Some(i as int));
            return split_at_mark(&v, sev, i);
        }
        i = i + 1;
    }
    None
}

/// A line without a location.
fn split_bare(line: &str, sev: &str) -> (r: Option<ShortReport>)
    ensures
        report_view(r) == bare_line(line@, sev@),
{
    let mut prefix: String = sev.to_owned();
    prefix.append(": ");
    match str_strip_prefix(line, prefix.as_str()) {
        Some(rest) => {
            let none: String = String::new();
            assert(none@ =~= seq![]);
            Some(ShortReport { location: none, severity: sev.to_owned(), message: rest })
        },
        None => None,
    }
}

/// Locate `path:line:col: severity: message` in one cargo short-format line. Handles bracketed
/// error codes (`error[E0308]:`) and bare cargo-level lines (`error: could not compile ...`).
pub fn split_short_line(line: &str) -> (r: Option<ShortReport>)
    ensures
        report_view(r) == short_line(line@),
{
    let a = split_located(line);
    if a.is_some() {
        return a;
    }
    let b = split_bare(line, "error");
    if b.is_some() {
        return b;
    }
    split_bare(line, "warning")
}

/// The finding that a line reports.
fn make_diagnostic(s: ShortReport) -> (r: Diagnostic)
    ensures
        r@ == diagnostic_of(
            (ShortLine { location: s.location@, severity: s.severity@, message: s.message@ }),
        ),
{
    let parts = str_split(s.location.as_str(), ':');
    assert(parts.deep_view().len() == parts.len());
    assert(forall|i: int|
        0 <= i < parts.len() ==> #[trigger] parts.deep_view()[i] == parts@[i]@);
    let file: String = if parts.len() > 0 {
        parts[0].clone()
    } else {
        String::new()
    };
    let mut line: u64 = 0;
    let mut column: u64 = 0;
    if parts.len() >= 3 {
        if let Some(l) = str_parse_u64(parts[1].as_str()) {
            line = l;
            if let Some(c) = str_parse_u64(parts[2].as_str()) {
                column = c;
            }
        }
    }
    Diagnostic { file, line, column, severity: s.severity, message: s.message }
}

/// The findings in the output of cargo.
pub fn parse_short_format(stderr: &str) -> (r: Vec<Diagnostic>)
    ensures
        r.deep_view() == parsed(stderr@),
{
    let lines = str_lines(stderr);
    let ghost all = lines.deep_view();
    let mut out: Vec<Diagnostic> = Vec::new();
    let mut i: usize = 0;
    assert(out.deep_view() =~= seq![]);
    while i < lines.len()
        invariant
            i <= lines.len(),
            all == lines.deep_view(),
            out.deep_view() == findings(all, i as int),
        decreases lines.len() - i,
    {
        assert(all[i as int] == lines[i as int]@);
        let line = str_trim(lines[i].as_str());
        let ghost before = out.deep_view();
        if !line.as_str().is_empty() {
            if let Some(s) = split_short_line(line.as_str()) {
                let d = make_diagnostic(s);
                out.push(d);
                assert(out.deep_view() =~= before.push(d@));
            }
        }
        i = i + 1;
    }
    out
}

/// Parse cargo short-format output, resolving relative file paths against the project root.
pub fn parse_cargo_check(stderr: &str, root: &str) -> (r: Vec<Diagnostic>)
    ensures
        r.deep_view() == Seq::new(
            parsed(stderr@).len(),
            |i: int| rooted(parsed(stderr@)[i], root@),
        ),
{
    let found = parse_short_format(stderr);
    let ghost all = parsed(stderr@);
    let mut out: Vec<Diagnostic> = Vec::new();
    let mut i: usize = 0;
    while i < found.len()
        invariant
            i <= found.len(),
            all == found.deep_view(),
            out.len() == i,
            forall|j: int| 0 <= j < i ==> (#[trigger] out@[j])@ == rooted(all[j], root@),
        decreases found.len() - i,
    {
        assert(all[i as int] == found[i as int]@);
        let mut d = found[i].clone();
        if !d.file.as_str().is_empty() {
            d.file = join(root, d.file.as_str());
        }
        out.push(d);
        i = i + 1;
    }
    assert(out.deep_view() =~= Seq::new(all.len(), |i: int| rooted(all[i], root@)));
    out
}

// ---------------------------------------------------------------------------
// The order of paths
// ---------------------------------------------------------------------------

/// How two things compare.
#[derive(Debug, Clone, Copy, PartialEq, Eq, Structural)]
pub enum PathOrder {
    Before,
    Same,
    After,
}

/// How two texts compare, character by character.
pub open spec fn text_order(a: Seq<char>, b: Seq<char>) -> PathOrder
    decreases a.len(),
{
    if a.len() == 0 && b.len() == 0 {
        PathOrder::Same
    } else if a.len() == 0 {
        PathOrder::Before
    } else if b.len() == 0 {
        PathOrder::After
    } else if a[0] < b[0] {
        PathOrder::Before
    } else if a[0] > b[0] {
        PathOrder::After
    } else {
        text_order(a.subrange(1, a.len() as int), b.subrange(1, b.len() as int))
    }
}

/// Where a component sorts among components of other kinds: the current directory, then the
/// parent directory, then names.
pub open spec fn rank(c: Seq<char>) -> int {
    if c == "."@ {
        0
    } else if c == ".."@ {
        1
    } else {
        2
    }
}

/// How two components compare.
pub open spec fn component_order(a: Seq<char>, b: Seq<char>) -> PathOrder {
    if rank(a) < rank(b) {
        PathOrder::Before
    } else if rank(a) > rank(b) {
        PathOrder::After
    } else {
        text_order(a, b)
    }
}

/// How two lists of components compare.
pub open spec fn list_order(a: Seq<Seq<char>>, b: Seq<Seq<char>>) -> PathOrder
    decreases a.len(),
{
    if a.len() == 0 && b.len() == 0 {
        PathOrder::Same
    } else if a.len() == 0 {
        PathOrder::Before
    } else if b.len() == 0 {
        PathOrder::After
    } else if component_order(a[0], b[0]) != PathOrder::Same {
        component_order(a[0], b[0])
    } else {
        list_order(a.subrange(1, a.len() as int), b.subrange(1, b.len() as int))
    }
}

/// The components among the first `n` parts of a path: empty parts do not count, nor does `.`
/// unless a relative path starts with it.
pub open spec fn components(parts: Seq<Seq<char>>, n: int) -> Seq<Seq<char>>
    decreases n,
{
    if n <= 0 {
        seq![]
    } else {
        let init = components(parts, n - 1);
        let c = parts[n - 1];
        if c.len() == 0 || (c == "."@ && n > 1) {
            init
        } else {
            init.push(c)
        }
    }
}

/// Whether a path starts at the root.
pub open spec fn is_absolute(path: Seq<char>) -> bool {
    path.len() > 0 && path[0] == '/'
}

/// How two paths compare: by their components, absolute paths first.
pub open spec fn path_order(a: Seq<char>, b: Seq<char>) -> PathOrder {
    let pa = crate::text::split(a, '/');
    let pb = crate::text::split(b, '/');
    let ca = components(pa, pa.len() as int);
    let cb = components(pb, pb.len() as int);
    if is_absolute(a) && !is_absolute(b) {
        if b.len() == 0 {
            PathOrder::After
        } else {
            PathOrder::Before
        }
    } else if !is_absolute(a) && is_absolute(b) {
        if a.len() == 0 {
            PathOrder::Before
        } else {
            PathOrder::After
        }
    } else {
        list_order(ca, cb)
    }
}

/// How two texts compare.
fn compare_text(a: &str, b: &str) -> (r: PathOrder)
    ensures
        r == text_order(a@, b@),
{
    let x = chars_of(a);
    let y = chars_of(b);
    let mut i: usize = 0;
    assert(x@.subrange(0, x@.len() as int) =~= x@);
    assert(y@.subrange(0, y@.len() as int) =~= y@);
    while i < x.len() && i < y.len()
        invariant
            x@ == a@,
            y@ == b@,
            i <= x.len(),
            i <= y.len(),
            text_order(x@, y@) == text_order(
                x@.subrange(i as int, x@.len() as int),
                y@.subrange(i as int, y@.len() as int),
            ),
        decreases x.len() - i,
    {
        let ghost p = x@.subrange(i as int, x@.len() as int);
        let ghost q = y@.subrange(i as int, y@.len() as int);
        assert(p.subrange(1, p.len() as int) =~= x@.subrange(i + 1, x@.len() as int));
        assert(q.subrange(1, q.len() as int) =~= y@.subrange(i + 1, y@.len() as int));
        if x[i] < y[i] {
            return PathOrder::Before;
        }
        if x[i] > y[i] {
            return PathOrder::After;
        }
        i = i + 1;
    }
    if i < x.len() {
        PathOrder::After
    } else if i < y.len() {
        PathOrder::Before
    } else {
        PathOrder::Same
    }
}

/// Where a component sorts.
fn find_rank(c: &str) -> (r: u8)
    ensures
        r == rank(c@),
{
    if str_eq(c, ".") {
        0
    } else if str_eq(c, "..") {
        1
    } else {
        2
    }
}

/// How two components compare.
fn compare_component(a: &str, b: &str) -> (r: PathOrder)
    ensures
        r == component_order(a@, b@),
{
    let x: u8 = find_rank(a);
    let y: u8 = find_rank(b);
    if x < y {
        PathOrder::Before
    } else if x > y {
        PathOrder::After
    } else {
        compare_text(a, b)
    }
}

/// The components of a path.
fn collect_components(path: &str) -> (r: Vec<String>)
    ensures
        ({
            let parts = crate::text::split(path@, '/');
            r.deep_view() == components(parts, parts.len() as int)
        }),
{
    let parts = str_split(path, '/');
    let ghost all = parts.deep_view();
    let mut out: Vec<String> = Vec::new();
    let mut i: usize = 0;
    assert(out.deep_view() =~= seq![]);
    while i < parts.len()
        invariant
            i <= parts.len(),
            all == parts.deep_view(),
            out.deep_view() == components(all, i as int),
        decreases parts.len() - i,
    {
        assert(all[i as int] == parts[i as int]@);
        let ghost before = out.deep_view();
        if !(parts[i].as_str().is_empty() || (str_eq(parts[i].as_str(), ".") && i > 0)) {
            let c = parts[i].clone();
            out.push(c);
            assert(out.deep_view() =~= before.push(c@));
        }
        i = i + 1;
    }
    out
}

/// How two paths compare.
pub fn compare_paths(a: &str, b: &str) -> (r: PathOrder)
    ensures
        r == path_order(a@, b@),
{
    let va = chars_of(a);
    let vb = chars_of(b);
    let abs_a: bool = va.len() > 0 && va[0] == '/';
    let abs_b: bool = vb.len() > 0 && vb[0] == '/';
    if abs_a && !abs_b {
        return if vb.len() == 0 {
            PathOrder::After
        } else {
            PathOrder::Before
        };
    }
    if !abs_a && abs_b {
        return if va.len() == 0 {
            PathOrder::Before
        } else {
            PathOrder::After
        };
    }
    let x = collect_components(a);
    let y = collect_components(b);
    let ghost p0 = x.deep_view();
    let ghost q0 = y.deep_view();
    let mut i: usize = 0;
    assert(p0.subrange(0, p0.len() as int) =~= p0);
    assert(q0.subrange(0, q0.len() as int) =~= q0);
    while i < x.len() && i < y.len()
        invariant
            i <= x.len(),
            i <= y.len(),
            p0 == x.deep_view(),
            q0 == y.deep_view(),
            path_order(a@, b@) == list_order(p0, q0),
            list_order(p0, q0) == list_order(
                p0.subrange(i as int, p0.len() as int),
                q0.subrange(i as int, q0.len() as int),
            ),
        decreases x.len() - i,
    {
        let ghost p = p0.subrange(i as int, p0.len() as int);
        let ghost q = q0.subrange(i as int, q0.len() as int);
        assert(p[0] == x[i as int]@);
        assert(q[0] == y[i as int]@);
        assert(p.subrange(1, p.len() as int) =~= p0.subrange(i + 1, p0.len() as int));
        assert(q.subrange(1, q.len() as int) =~= q0.subrange(i + 1, q0.len() as int));
        let o = compare_component(x[i].as_str(), y[i].as_str());
        if o != PathOrder::Same {
            return o;
        }
        i = i + 1;
    }
    if i < x.len() {
        PathOrder::After
    } else if i < y.len() {
        PathOrder::Before
    } else {
        PathOrder::Same
    }
}

// ---------------------------------------------------------------------------
// Planning
// ---------------------------------------------------------------------------

/// Paths in their order, with one more unless it is there.
pub open spec fn with_path(files: Seq<Seq<char>>, f: Seq<char>) -> Seq<Seq<char>>
    decreases files.len(),
{
    if files.len() == 0 {
        seq![f]
    } else {
        match path_order(f, files[0]) {
            PathOrder::Same => files,
            PathOrder::Before => seq![f] + files,
            PathOrder::After => seq![files[0]] + with_path(
                files.subrange(1, files.len() as int),
                f,
            ),
        }
    }
}

/// Cargo projects in the order of their roots, with one more file.
pub open spec fn with_cargo(jobs: Seq<CargoJobView>, root: Seq<char>, f: Seq<char>) -> Seq<
    CargoJobView,
>
    decreases jobs.len(),
{
    if jobs.len() == 0 {
        seq![CargoJobView { root, files: seq![f] }]
    } else {
        match path_order(root, jobs[0].root) {
            PathOrder::Same => seq![
                CargoJobView { files: with_path(jobs[0].files, f), ..jobs[0] },
            ] + jobs.subrange(1, jobs.len() as int),
            PathOrder::Before => seq![CargoJobView { root, files: seq![f] }] + jobs,
            PathOrder::After => seq![jobs[0]] + with_cargo(
                jobs.subrange(1, jobs.len() as int),
                root,
                f,
            ),
        }
    }
}

/// Directories with commands in their order, with one more file.
pub open spec fn with_tool(jobs: Seq<ToolJobView>, root: Seq<char>, e: ToolEntryView) -> Seq<
    ToolJobView,
>
    decreases jobs.len(),
{
    if jobs.len() == 0 {
        seq![ToolJobView { root, entries: seq![e] }]
    } else {
        match path_order(root, jobs[0].root) {
            PathOrder::Same => seq![
                ToolJobView { entries: jobs[0].entries.push(e), ..jobs[0] },
            ] + jobs.subrange(1, jobs.len() as int),
            PathOrder::Before => seq![ToolJobView { root, entries: seq![e] }] + jobs,
            PathOrder::After => seq![jobs[0]] + with_tool(
                jobs.subrange(1, jobs.len() as int),
                root,
                e,
            ),
        }
    }
}

/// Whether an extension is among those of a command, whatever the case of its letters.
pub open spec fn serves(t: ConfiguredToolView, ext: Seq<char>) -> bool {
    exists|i: int|
        0 <= i < t.extensions.len() && crate::text::ascii_lower(#[trigger] t.extensions[i])
            == crate::text::ascii_lower(ext)
}

/// The first command for an extension, among those from `i` on.
pub open spec fn command_for(tools: Seq<ConfiguredToolView>, ext: Seq<char>, i: int) -> Option<
    Seq<char>,
>
    decreases tools.len() - i,
{
    if i >= tools.len() {
        None
    } else if serves(tools[i], ext) {
        Some(tools[i].command)
    } else {
        command_for(tools, ext, i + 1)
    }
}

/// A directory, or the working directory where there is none.
pub open spec fn root_or(root: Option<Seq<char>>, cwd: Seq<char>) -> Seq<char> {
    match root {
        Some(r) => r,
        None => cwd,
    }
}

/// Why a file with an extension is skipped.
pub open spec fn no_tool(ext: Seq<char>) -> Seq<char> {
    "no built-in diagnostics for ."@ + ext + "; configure a tool in .tars/diagnostics.toml"@
}

/// A plan with one more file.
pub open spec fn planned(p: ScanPlanView, f: FileFactsView, cwd: Seq<char>) -> ScanPlanView {
    let ext = crate::tools::skeleton::lower_extension(f.full);
    if !f.is_file {
        p
    } else if crate::path::extension_of(f.full) == Some("rs"@) {
        ScanPlanView { cargo: with_cargo(p.cargo, root_or(f.cargo_root, cwd), f.full), ..p }
    } else {
        match command_for(f.tools, ext, 0) {
            Some(command) => ScanPlanView {
                configured: with_tool(
                    p.configured,
                    root_or(f.config_root, cwd),
                    ToolEntryView { file: f.full, command },
                ),
                ..p
            },
            None => ScanPlanView {
                skipped: p.skipped.push(
                    SkippedEntryView { path: f.full, reason: no_tool(ext) },
                ),
                ..p
            },
        }
    }
}

/// The files among the first `n` that do not exist.
pub open spec fn missing(facts: Seq<FileFactsView>, n: int) -> Seq<SkippedEntryView>
    decreases n,
{
    if n <= 0 {
        seq![]
    } else {
        let init = missing(facts, n - 1);
        if facts[n - 1].is_file {
            init
        } else {
            init.push(
                SkippedEntryView { path: facts[n - 1].path, reason: "file does not exist"@ },
            )
        }
    }
}

/// The plan for the first `n` files. Files that do not exist are listed first among those
/// skipped.
pub open spec fn plan_of(facts: Seq<FileFactsView>, cwd: Seq<char>, n: int) -> ScanPlanView
    decreases n,
{
    if n <= 0 {
        ScanPlanView {
            cargo: seq![],
            configured: seq![],
            skipped: missing(facts, facts.len() as int),
        }
    } else {
        planned(plan_of(facts, cwd, n - 1), facts[n - 1], cwd)
    }
}

proof fn lemma_with_path(files: Seq<Seq<char>>, f: Seq<char>, k: int)
    requires
        0 <= k <= files.len(),
        forall|j: int| 0 <= j < k ==> path_order(f, #[trigger] files[j]) == PathOrder::After,
        k < files.len() ==> path_order(f, files[k]) != PathOrder::After,
    ensures
        with_path(files, f) == (if k < files.len() && path_order(f, files[k]) == PathOrder::Same {
            files
        } else {
            files.insert(k, f)
        }),
    decreases files.len(),
{
    if files.len() == 0 {
        assert(files.insert(k, f) =~= seq![f]);
    } else if k == 0 {
        assert(files.insert(0, f) =~= seq![f] + files);
    } else {
        let rest = files.subrange(1, files.len() as int);
        assert(path_order(f, files[0]) == PathOrder::After);
        assert forall|j: int| 0 <= j < k - 1 implies path_order(f, #[trigger] rest[j])
            == PathOrder::After by {
            assert(rest[j] == files[j + 1]);
        }
        lemma_with_path(rest, f, k - 1);
        if k < files.len() && path_order(f, files[k]) == PathOrder::Same {
            assert(seq![files[0]] + rest =~= files);
        } else {
            assert(seq![files[0]] + rest.insert(k - 1, f) =~= files.insert(k, f));
        }
    }
}

proof fn lemma_with_cargo(jobs: Seq<CargoJobView>, root: Seq<char>, f: Seq<char>, k: int)
    requires
        0 <= k <= jobs.len(),
        forall|j: int| 0 <= j < k ==> path_order(root, (#[trigger] jobs[j]).root)
            == PathOrder::After,
        k < jobs.len() ==> path_order(root, jobs[k].root) != PathOrder::After,
    ensures
        with_cargo(jobs, root, f) == (if k < jobs.len() && path_order(root, jobs[k].root)
            == PathOrder::Same {
            jobs.update(k, CargoJobView { files: with_path(jobs[k].files, f), ..jobs[k] })
        } else {
            jobs.insert(k, CargoJobView { root, files: seq![f] })
        }),
    decreases jobs.len(),
{
    let job = CargoJobView { root, files: seq![f] };
    if jobs.len() == 0 {
        assert(jobs.insert(k, job) =~= seq![job]);
    } else if k == 0 {
        let grown = CargoJobView { files: with_path(jobs[0].files, f), ..jobs[0] };
        assert(jobs.insert(0, job) =~= seq![job] + jobs);
        assert(jobs.update(0, grown) =~= seq![grown] + jobs.subrange(1, jobs.len() as int));
    } else {
        let rest = jobs.subrange(1, jobs.len() as int);
        assert(path_order(root, jobs[0].root) == PathOrder::After);
        assert forall|j: int| 0 <= j < k - 1 implies path_order(root, (#[trigger] rest[j]).root)
            == PathOrder::After by {
            assert(rest[j] == jobs[j + 1]);
        }
        lemma_with_cargo(rest, root, f, k - 1);
        if k < jobs.len() && path_order(root, jobs[k].root) == PathOrder::Same {
            let grown = CargoJobView { files: with_path(jobs[k].files, f), ..jobs[k] };
            assert(seq![jobs[0]] + rest.update(k - 1, grown) =~= jobs.update(k, grown));
        } else {
            assert(seq![jobs[0]] + rest.insert(k - 1, job) =~= jobs.insert(k, job));
        }
    }
}

proof fn lemma_with_tool(jobs: Seq<ToolJobView>, root: Seq<char>, e: ToolEntryView, k: int)
    requires
        0 <= k <= jobs.len(),
        forall|j: int| 0 <= j < k ==> path_order(root, (#[trigger] jobs[j]).root)
            == PathOrder::After,
        k < jobs.len() ==> path_order(root, jobs[k].root) != PathOrder::After,
    ensures
        with_tool(jobs, root, e) == (if k < jobs.len() && path_order(root, jobs[k].root)
            == PathOrder::Same {
            jobs.update(k, ToolJobView { entries: jobs[k].entries.push(e), ..jobs[k] })
        } else {
            jobs.insert(k, ToolJobView { root, entries: seq![e] })
        }),
    decreases jobs.len(),
{
    let job = ToolJobView { root, entries: seq![e] };
    if jobs.len() == 0 {
        assert(jobs.insert(k, job) =~= seq![job]);
    } else if k == 0 {
        let grown = ToolJobView { entries: jobs[0].entries.push(e), ..jobs[0] };
        assert(jobs.insert(0, job) =~= seq![job] + jobs);
        assert(jobs.update(0, grown) =~= seq![grown] + jobs.subrange(1, jobs.len() as int));
    } else {
        let rest = jobs.subrange(1, jobs.len() as int);
        assert(path_order(root, jobs[0].root) == PathOrder::After);
        assert forall|j: int| 0 <= j < k - 1 implies path_order(root, (#[trigger] rest[j]).root)
            == PathOrder::After by {
            assert(rest[j] == jobs[j + 1]);
        }
        lemma_with_tool(rest, root, e, k - 1);
        if k < jobs.len() && path_order(root, jobs[k].root) == PathOrder::Same {
            let grown = ToolJobView { entries: jobs[k].entries.push(e), ..jobs[k] };
            assert(seq![jobs[0]] + rest.update(k - 1, grown) =~= jobs.update(k, grown));
        } else {
            assert(seq![jobs[0]] + rest.insert(k - 1, job) =~= jobs.insert(k, job));
        }
    }
}

/// One more path, unless it is there.
fn add_path(files: &mut Vec<String>, f: &str)
    ensures
        final(files).deep_view() == with_path(old(files).deep_view(), f@),
{
    let ghost all = files.deep_view();
    let mut k: usize = 0;
    while k < files.len()
        invariant_except_break
            k <= files.len(),
            all == files.deep_view(),
            forall|j: int| 0 <= j < k ==> path_order(f@, #[trigger] all[j]) == PathOrder::After,
        ensures
            k <= files.len(),
            all == files.deep_view(),
            forall|j: int| 0 <= j < k ==> path_order(f@, #[trigger] all[j]) == PathOrder::After,
            k < files.len() ==> path_order(f@, all[k as int]) != PathOrder::After,
        decreases files.len() - k,
    {
        assert(all[k as int] == files[k as int]@);
        if compare_paths(f, files[k].as_str()) != PathOrder::After {
            break;
        }
        k = k + 1;
    }
    proof {
        lemma_with_path(all, f@, k as int);
    }
    if k < files.len() {
        assert(all[k as int] == files[k as int]@);
        if compare_paths(f, files[k].as_str()) == PathOrder::Same {
            return;
        }
    }
    let x = f.to_owned();
    files.insert(k, x);
    assert(files.deep_view() =~= all.insert(k as int, x@));
}

/// One more file of a cargo project.
fn add_cargo(jobs: &mut Vec<CargoJob>, root: &str, f: &str)
    ensures
        final(jobs).deep_view() == with_cargo(old(jobs).deep_view(), root@, f@),
{
    let ghost all = jobs.deep_view();
    let mut k: usize = 0;
    while k < jobs.len()
        invariant_except_break
            k <= jobs.len(),
            all == jobs.deep_view(),
            forall|j: int|
                0 <= j < k ==> path_order(root@, (#[trigger] all[j]).root) == PathOrder::After,
        ensures
            k <= jobs.len(),
            all == jobs.deep_view(),
            forall|j: int|
                0 <= j < k ==> path_order(root@, (#[trigger] all[j]).root) == PathOrder::After,
            k < jobs.len() ==> path_order(root@, all[k as int].root) != PathOrder::After,
        decreases jobs.len() - k,
    {
        assert(all[k as int] == jobs[k as int]@);
        if compare_paths(root, jobs[k].root.as_str()) != PathOrder::After {
            break;
        }
        k = k + 1;
    }
    proof {
        lemma_with_cargo(all, root@, f@, k as int);
    }
    if k < jobs.len() {
        assert(all[k as int] == jobs[k as int]@);
        if compare_paths(root, jobs[k].root.as_str()) == PathOrder::Same {
            let mut job = jobs[k].clone();
            add_path(&mut job.files, f);
            let ghost grown = job@;
            jobs.set(k, job);
            assert(jobs.deep_view() =~= all.update(k as int, grown));
            return;
        }
    }
    let files: Vec<String> = vec![f.to_owned()];
    assert(files.deep_view() =~= seq![f@]);
    let job = CargoJob { root: root.to_owned(), files };
    jobs.insert(k, job);
    assert(jobs.deep_view() =~= all.insert(k as int, job@));
}

/// One more file with a command.
fn add_tool(jobs: &mut Vec<ToolJob>, root: &str, e: ToolEntry)
    ensures
        final(jobs).deep_view() == with_tool(old(jobs).deep_view(), root@, e@),
{
    let ghost all = jobs.deep_view();
    let ghost ev = e@;
    let mut k: usize = 0;
    while k < jobs.len()
        invariant_except_break
            k <= jobs.len(),
            all == jobs.deep_view(),
            forall|j: int|
                0 <= j < k ==> path_order(root@, (#[trigger] all[j]).root) == PathOrder::After,
        ensures
            k <= jobs.len(),
            all == jobs.deep_view(),
            forall|j: int|
                0 <= j < k ==> path_order(root@, (#[trigger] all[j]).root) == PathOrder::After,
            k < jobs.len() ==> path_order(root@, all[k as int].root) != PathOrder::After,
        decreases jobs.len() - k,
    {
        assert(all[k as int] == jobs[k as int]@);
        if compare_paths(root, jobs[k].root.as_str()) != PathOrder::After {
            break;
        }
        k = k + 1;
    }
    proof {
        lemma_with_tool(all, root@, ev, k as int);
    }
    if k < jobs.len() {
        assert(all[k as int] == jobs[k as int]@);
        if compare_paths(root, jobs[k].root.as_str()) == PathOrder::Same {
            let mut job = jobs[k].clone();
            let ghost before = job@.entries;
            job.entries.push(e);
            assert(job@.entries =~= before.push(ev));
            let ghost grown = job@;
            jobs.set(k, job);
            assert(jobs.deep_view() =~= all.update(k as int, grown));
            return;
        }
    }
    let entries: Vec<ToolEntry> = vec![e];
    assert(entries.deep_view() =~= seq![ev]);
    let job = ToolJob { root: root.to_owned(), entries };
    jobs.insert(k, job);
    assert(jobs.deep_view() =~= all.insert(k as int, job@));
}

/// A command for files with certain extensions, given with or without a dot.
pub fn configured_tool(extensions: &Vec<String>, command: &str) -> (r: ConfiguredTool)
    ensures
        r@ == (ConfiguredToolView {
            extensions: Seq::new(
                extensions.deep_view().len(),
                |i: int| crate::text::trim_start_char(extensions.deep_view()[i], '.'),
            ),
            command: command@,
        }),
{
    let mut out: Vec<String> = Vec::new();
    let mut i: usize = 0;
    while i < extensions.len()
        invariant
            i <= extensions.len(),
            out.len() == i,
            forall|j: int|
                0 <= j < i ==> (#[trigger] out@[j])@ == crate::text::trim_start_char(
                    extensions@[j]@,
                    '.',
                ),
        decreases extensions.len() - i,
    {
        out.push(str_trim_start_char(extensions[i].as_str(), '.'));
        i = i + 1;
    }
    let r = ConfiguredTool { extensions: out, command: command.to_owned() };
    assert(r@.extensions =~= Seq::new(
        extensions.deep_view().len(),
        |i: int| crate::text::trim_start_char(extensions.deep_view()[i], '.'),
    ));
    r
}

/// Whether an extension is among those of a command.
fn check_serves(t: &ConfiguredTool, ext: &str) -> (r: bool)
    ensures
        r == serves(t@, ext@),
{
    let lower = str_ascii_lower(ext);
    let mut i: usize = 0;
    while i < t.extensions.len()
        invariant
            i <= t.extensions.len(),
            lower@ == crate::text::ascii_lower(ext@),
            forall|j: int|
                0 <= j < i ==> crate::text::ascii_lower(#[trigger] t@.extensions[j])
                    != crate::text::ascii_lower(ext@),
        decreases t.extensions.len() - i,
    {
        assert(t@.extensions[i as int] == t.extensions[i as int]@);
        if str_eq(str_ascii_lower(t.extensions[i].as_str()).as_str(), lower.as_str()) {
            assert(serves(t@, ext@));
            return true;
        }
        i = i + 1;
    }
    false
}

/// The first command for an extension.
fn find_command(tools: &Vec<ConfiguredTool>, ext: &str) -> (r: Option<String>)
    ensures
        r.deep_view() == command_for(tools.deep_view(), ext@, 0),
{
    let ghost all = tools.deep_view();
    let mut i: usize = 0;
    while i < tools.len()
        invariant
            i <= tools.len(),
            all == tools.deep_view(),
            command_for(all, ext@, 0) == command_for(all, ext@, i as int),
        decreases tools.len() - i,
    {
        assert(all[i as int] == tools[i as int]@);
        if check_serves(&tools[i], ext) {
            return Some(tools[i].command.clone());
        }
        i = i + 1;
    }
    None
}

/// A directory, or the working directory where there is none.
fn choose_root(root: &Option<String>, cwd: &str) -> (r: String)
    ensures
        r@ == root_or(root.deep_view(), cwd@),
{
    match root {
        Some(x) => x.clone(),
        None => cwd.to_owned(),
    }
}

/// The files that do not exist.
fn collect_missing(facts: &Vec<FileFacts>) -> (r: Vec<SkippedEntry>)
    ensures
        r.deep_view() == missing(facts.deep_view(), facts.deep_view().len() as int),
{
    let ghost all = facts.deep_view();
    let mut out: Vec<SkippedEntry> = Vec::new();
    let mut i: usize = 0;
    assert(out.deep_view() =~= seq![]);
    while i < facts.len()
        invariant
            i <= facts.len(),
            all == facts.deep_view(),
            out.deep_view() == missing(all, i as int),
        decreases facts.len() - i,
    {
        assert(all[i as int] == facts[i as int]@);
        let ghost before = out.deep_view();
        if !facts[i].is_file {
            let e = SkippedEntry {
                path: facts[i].path.clone(),
                reason: "file does not exist".to_owned(),
            };
            out.push(e);
            assert(out.deep_view() =~= before.push(e@));
        }
        i = i + 1;
    }
    out
}

/// Group the requested files: Rust files by their cargo project, others by the directory whose
/// configuration has a command for them.
pub fn plan(facts: &Vec<FileFacts>, cwd: &str) -> (r: ScanPlan)
    ensures
        r@ == plan_of(facts.deep_view(), cwd@, facts.deep_view().len() as int),
{
    let ghost all = facts.deep_view();
    let mut cargo: Vec<CargoJob> = Vec::new();
    let mut configured: Vec<ToolJob> = Vec::new();
    let mut skipped = collect_missing(facts);
    let mut i: usize = 0;
    assert(cargo.deep_view() =~= seq![]);
    assert(configured.deep_view() =~= seq![]);
    while i < facts.len()
        invariant
            i <= facts.len(),
            all == facts.deep_view(),
            ({
                let p = plan_of(all, cwd@, i as int);
                cargo.deep_view() == p.cargo && configured.deep_view() == p.configured
                    && skipped.deep_view() == p.skipped
            }),
        decreases facts.len() - i,
    {
        let f = &facts[i];
        assert(all[i as int] == f@);
        if f.is_file {
            let rust: bool = match extension(f.full.as_str()) {
                Some(e) => str_eq(e.as_str(), "rs"),
                None => false,
            };
            if rust {
                let root = choose_root(&f.cargo_root, cwd);
                add_cargo(&mut cargo, root.as_str(), f.full.as_str());
            } else {
                let ext = crate::tools::skeleton::find_extension(f.full.as_str());
                match find_command(&f.tools, ext.as_str()) {
                    Some(command) => {
                        let root = choose_root(&f.config_root, cwd);
                        add_tool(
                            &mut configured,
                            root.as_str(),
                            ToolEntry { file: f.full.clone(), command },
                        );
                    },
                    None => {
                        let ghost before = skipped.deep_view();
                        let mut reason: String = "no built-in diagnostics for .".to_owned();
                        reason.append(ext.as_str());
                        reason.append("; configure a tool in .tars/diagnostics.toml");
                        let e = SkippedEntry { path: f.full.clone(), reason };
                        skipped.push(e);
                        assert(skipped.deep_view() =~= before.push(e@));
                    },
                }
            }
        }
        i = i + 1;
    }
    ScanPlan { cargo, configured, skipped }
}

// ---------------------------------------------------------------------------
// Running
// ---------------------------------------------------------------------------

/// The command line for a file.
pub fn command_line(entry: &ToolEntry) -> (r: String)
    ensures
        r@ == crate::text::replace(entry@.command, "{file}"@, entry@.file),
{
    str_replace(entry.command.as_str(), "{file}", entry.file.as_str())
}

/// A count that stops at the largest size.
pub open spec fn counted(n: usize, more: int) -> usize {
    if n + more <= usize::MAX {
        (n + more) as usize
    } else {
        usize::MAX
    }
}

/// Whether a list holds a text.
pub open spec fn lists(list: Seq<Seq<char>>, s: Seq<char>) -> bool {
    exists|i: int| 0 <= i < list.len() && #[trigger] list[i] == s
}

/// Those of the first `n` findings whose file is wanted.
pub open spec fn wanted_findings(
    found: Seq<DiagnosticView>,
    canonical: Seq<Seq<char>>,
    wanted: Seq<Seq<char>>,
    n: int,
) -> Seq<DiagnosticView>
    decreases n,
{
    if n <= 0 {
        seq![]
    } else {
        let init = wanted_findings(found, canonical, wanted, n - 1);
        if lists(wanted, canonical[n - 1]) {
            init.push(found[n - 1])
        } else {
            init
        }
    }
}

/// What a configured tool said on both its outputs.
pub open spec fn tool_message(stdout: Seq<char>, stderr: Seq<char>) -> Seq<char> {
    crate::text::trim(stdout + stderr)
}

/// How many findings have a severity, among the first `n`.
pub open spec fn count_severity(ds: Seq<DiagnosticView>, sev: Seq<char>, n: int) -> nat
    decreases n,
{
    if n <= 0 {
        0
    } else {
        count_severity(ds, sev, n - 1) + if ds[n - 1].severity == sev {
            1nat
        } else {
            0
        }
    }
}

/// Whether a list holds a text.
fn check_lists(list: &Vec<String>, s: &str) -> (r: bool)
    ensures
        r == lists(list.deep_view(), s@),
{
    let mut i: usize = 0;
    while i < list.len()
        invariant
            i <= list.len(),
            forall|j: int| 0 <= j < i ==> #[trigger] list.deep_view()[j] != s@,
        decreases list.len() - i,
    {
        assert(list.deep_view()[i as int] == list[i as int]@);
        if str_eq(list[i].as_str(), s) {
            return true;
        }
        i = i + 1;
    }
    false
}

/// The counts of a report.
#[derive(Debug, PartialEq, Eq, Structural, Clone, Copy)]
pub struct ScanSummary {
    pub files_scanned: usize,
    pub errors: usize,
    pub warnings: usize,
    pub files_skipped: usize,
}

impl ScanRun {
    /// Nothing found yet; what the plan skipped stays skipped.
    pub fn new(skipped: Vec<SkippedEntry>) -> (r: Self)
        ensures
            r@ == (ScanRunView {
                diagnostics: seq![],
                skipped: skipped.deep_view(),
                files_scanned: 0,
            }),
    {
        let r = ScanRun { diagnostics: Vec::new(), skipped, files_scanned: 0 };
        assert(r@.diagnostics =~= seq![]);
        r
    }

    /// Cargo could not be run for a project: its files are skipped.
    pub fn cargo_failed(&mut self, job: &CargoJob)
        ensures
            final(self)@ == (ScanRunView {
                skipped: old(self)@.skipped + Seq::new(
                    job@.files.len(),
                    |i: int|
                        SkippedEntryView {
                            path: job@.files[i],
                            reason: "failed to run cargo check"@,
                        },
                ),
                ..old(self)@
            }),
    {
        let ghost before = self@.skipped;
        let ghost new = Seq::new(
            job@.files.len(),
            |i: int|
                SkippedEntryView { path: job@.files[i], reason: "failed to run cargo check"@ },
        );
        let mut i: usize = 0;
        assert(self@.skipped =~= before + new.subrange(0, 0));
        while i < job.files.len()
            invariant
                i <= job.files.len(),
                before == old(self)@.skipped,
                new == Seq::new(
                    job@.files.len(),
                    |i: int|
                        SkippedEntryView {
                            path: job@.files[i],
                            reason: "failed to run cargo check"@,
                        },
                ),
                self@ == (ScanRunView {
                    skipped: before + new.subrange(0, i as int),
                    ..old(self)@
                }),
            decreases job.files.len() - i,
        {
            assert(job@.files[i as int] == job.files[i as int]@);
            let ghost now = self@.skipped;
            let e = SkippedEntry {
                path: job.files[i].clone(),
                reason: "failed to run cargo check".to_owned(),
            };
            self.skipped.push(e);
            assert(self@.skipped =~= now.push(e@));
            assert(self@.skipped =~= before + new.subrange(0, i + 1));
            i = i + 1;
        }
        assert(new.subrange(0, i as int) =~= new);
    }

    /// Cargo ran for a project: of its findings, those in the requested files are kept.
    /// `canonical` gives the canonical file of each finding, `wanted` those of the project's files.
    pub fn cargo_ran(
        &mut self,
        job: &CargoJob,
        found: &Vec<Diagnostic>,
        canonical: &Vec<String>,
        wanted: &Vec<String>,
    )
        requires
            found.deep_view().len() == canonical.deep_view().len(),
        ensures
            final(self)@ == (ScanRunView {
                diagnostics: old(self)@.diagnostics + wanted_findings(
                    found.deep_view(),
                    canonical.deep_view(),
                    wanted.deep_view(),
                    found.deep_view().len() as int,
                ),
                files_scanned: counted(old(self)@.files_scanned, job@.files.len() as int),
                ..old(self)@
            }),
    {
        assert(job@.files.len() == job.files.len());
        self.files_scanned = self.files_scanned.saturating_add(job.files.len());
        let ghost ds = found.deep_view();
        let ghost cs = canonical.deep_view();
        let ghost ws = wanted.deep_view();
        let ghost start = self@;
        let mut i: usize = 0;
        assert(self@.diagnostics =~= start.diagnostics + wanted_findings(ds, cs, ws, 0));
        while i < found.len()
            invariant
                i <= found.len(),
                ds == found.deep_view(),
                cs == canonical.deep_view(),
                ws == wanted.deep_view(),
                ds.len() == cs.len(),
                self@ == (ScanRunView {
                    diagnostics: start.diagnostics + wanted_findings(ds, cs, ws, i as int),
                    ..start
                }),
            decreases found.len() - i,
        {
            assert(ds[i as int] == found[i as int]@);
            assert(cs[i as int] == canonical[i as int]@);
            let ghost now = self@.diagnostics;
            if check_lists(wanted, canonical[i].as_str()) {
                let d = found[i].clone();
                self.diagnostics.push(d);
                assert(self@.diagnostics =~= now.push(d@));
                assert(self@.diagnostics =~= start.diagnostics + wanted_findings(
                    ds,
                    cs,
                    ws,
                    i + 1,
                ));
            }
            i = i + 1;
        }
    }

    /// A configured tool ran for a file.
    pub fn tool_ran(&mut self, entry: &ToolEntry, stdout: &str, stderr: &str)
        ensures
            final(self)@ == (ScanRunView {
                diagnostics: old(self)@.diagnostics.push(
                    DiagnosticView {
                        file: entry@.file,
                        line: 0,
                        column: 0,
                        severity: "info"@,
                        message: tool_message(stdout@, stderr@),
                    },
                ),
                files_scanned: counted(old(self)@.files_scanned, 1),
                ..old(self)@
            }),
    {
        let mut both: String = stdout.to_owned();
        both.append(stderr);
        let message: String = str_trim(both.as_str());
        let d = Diagnostic {
            file: entry.file.clone(),
            line: 0,
            column: 0,
            severity: "info".to_owned(),
            message,
        };
        let ghost now = self@.diagnostics;
        self.diagnostics.push(d);
        assert(self@.diagnostics =~= now.push(d@));
        self.files_scanned = self.files_scanned.saturating_add(1);
    }

    /// A configured tool could not be run. Its file counts as scanned and is listed as skipped.
    pub fn tool_failed(&mut self, entry: &ToolEntry, error: &str)
        ensures
            final(self)@ == (ScanRunView {
                skipped: old(self)@.skipped.push(
                    SkippedEntryView {
                        path: entry@.file,
                        reason: "failed to run configured tool: "@ + error@,
                    },
                ),
                files_scanned: counted(old(self)@.files_scanned, 1),
                ..old(self)@
            }),
    {
        let mut reason: String = "failed to run configured tool: ".to_owned();
        reason.append(error);
        let e = SkippedEntry { path: entry.file.clone(), reason };
        let ghost now = self@.skipped;
        self.skipped.push(e);
        assert(self@.skipped =~= now.push(e@));
        self.files_scanned = self.files_scanned.saturating_add(1);
    }

    /// How many findings have a severity.
    pub fn count(&self, severity: &str) -> (r: usize)
        ensures
            r == count_severity(
                self@.diagnostics,
                severity@,
                self@.diagnostics.len() as int,
            ),
    {
        let ghost all = self@.diagnostics;
        let mut n: usize = 0;
        let mut i: usize = 0;
        while i < self.diagnostics.len()
            invariant
                i <= self.diagnostics.len(),
                all == self.diagnostics.deep_view(),
                n <= i,
                n == count_severity(all, severity@, i as int),
            decreases self.diagnostics.len() - i,
        {
            assert(all[i as int] == self.diagnostics[i as int]@);
            if str_eq(self.diagnostics[i].severity.as_str(), severity) {
                n = n + 1;
            }
            i = i + 1;
        }
        n
    }

    /// The counts of the report.
    pub fn summary(&self) -> (r: ScanSummary)
        ensures
            ({
                let n = self@.diagnostics.len() as int;
                &&& r.files_scanned == self@.files_scanned
                &&& r.errors == count_severity(self@.diagnostics, "error"@, n)
                &&& r.warnings == count_severity(self@.diagnostics, "warning"@, n)
                &&& r.files_skipped == self@.skipped.len()
            }),
    {
        ScanSummary {
            files_scanned: self.files_scanned,
            errors: self.count("error"),
            warnings: self.count("warning"),
            files_skipped: self.skipped.len(),
        }
    }

    /// The answer to a call, with the report as `json`. It is an error when nothing was scanned.
    pub fn answer(&self, json: &str) -> (r: ToolOutput)
        ensures
            r@ == (if self@.files_scanned == 0 {
                crate::tools::summarized(
                    crate::tools::text_output(json@, true),
                    "no file could be scanned"@,
                )
            } else {
                let n = self@.diagnostics.len() as int;
                crate::tools::summarized(
                    crate::tools::text_output(json@, false),
                    crate::text::decimal(self@.files_scanned as nat) + " file(s) scanned: "@
                        + crate::text::decimal(
                        count_severity(self@.diagnostics, "error"@, n),
                    ) + " errors, "@ + crate::text::decimal(
                        count_severity(self@.diagnostics, "warning"@, n),
                    ) + " warnings"@,
                )
            }),
    {
        if self.files_scanned == 0 {
            return ToolOutput::error(json).with_summary("no file could be scanned");
        }
        let counts = self.summary();
        let mut summary: String = usize_text(counts.files_scanned);
        summary.append(" file(s) scanned: ");
        summary.append(usize_text(counts.errors).as_str());
        summary.append(" errors, ");
        summary.append(usize_text(counts.warnings).as_str());
        summary.append(" warnings");
        ToolOutput::text(json).with_summary(summary.as_str())
    }
}

/// Where a finding is, is read off its location: the file, the line and the column.
pub proof fn law_location_is_read(
    file: Seq<char>,
    line: u64,
    column: u64,
    severity: Seq<char>,
    message: Seq<char>,
)
    requires
        !file.contains(':'),
    ensures
        ({
            let location = file.push(':') + (crate::text::decimal(line as nat).push(':')
                + crate::text::decimal(column as nat));
            let d = diagnostic_of(ShortLine { location, severity, message });
            &&& d.file == file
            &&& d.line == line
            &&& d.column == column
            &&& d.severity == severity
            &&& d.message == message
            &&& has_line(location)
        }),
{
    let l = crate::text::decimal(line as nat);
    let c = crate::text::decimal(column as nat);
    let location = file.push(':') + (l.push(':') + c);
    crate::text::law_decimal_digits(line as nat, ':');
    crate::text::law_decimal_digits(column as nat, ':');
    crate::text::law_decimal_round_trip(line);
    crate::text::law_decimal_round_trip(column);
    crate::text::law_split_first(file, ':', l.push(':') + c);
    crate::text::law_split_first(l, ':', c);
    crate::text::law_split_first(c, ':', Seq::empty());
    let parts = crate::text::split(location, ':');
    assert(parts =~= seq![file, l, c]);
}

/// A code in brackets behind the severity is left out of the message, whatever the message holds.
pub proof fn law_code_is_left_out(
    location: Seq<char>,
    sev: Seq<char>,
    code: Seq<char>,
    message: Seq<char>,
)
    requires
        sev == "error"@ || sev == "warning"@ || sev == "help"@ || sev == "note"@,
        has_columns(location),
        !code.contains(']'),
        ({
            let line = location + (": "@ + sev + "["@) + (code + "]: "@ + message);
            forall|i: int| 0 <= i < location.len() ==> #[trigger] severity_at(line, i) is None
        }),
    ensures
        short_line(location + (": "@ + sev + "["@) + (code + "]: "@ + message)) == Some(
            ShortLine { location, severity: sev, message },
        ),
{
    let mark = ": "@ + sev + "["@;
    let rest = code + "]: "@ + message;
    let line = location + mark + rest;
    let k = location.len() as int;
    reveal_strlit(": ");
    reveal_strlit("[");
    reveal_strlit("]: ");
    assert(line.subrange(k, k + mark.len()) =~= mark);
    assert(crate::text::occurs_at(line, mark, k));
    lemma_severity(line, sev, k);
    assert(line.subrange(0, k) =~= location);
    lemma_mark_from(line, 0, k);
    let plain = ": "@ + sev + ": "@;
    assert(!crate::text::occurs_at(line, plain, k)) by {
        if crate::text::occurs_at(line, plain, k) {
            let at = 2 + sev.len() as int;
            assert(line.subrange(k, k + plain.len())[at] == plain[at]);
            assert(line.subrange(k, k + mark.len())[at] == mark[at]);
        }
    }
    assert(line.subrange(k + mark.len(), line.len() as int) =~= rest);
    crate::text::lemma_find(rest, "]: "@);
    let at = code.len() as int;
    assert(rest.subrange(at, at + 3) =~= "]: "@);
    assert(crate::text::occurs_at(rest, "]: "@, at));
    assert forall|i: int| 0 <= i < at implies !crate::text::occurs_at(rest, "]: "@, i) by {
        if crate::text::occurs_at(rest, "]: "@, i) {
            assert(rest.subrange(i, i + 3)[0] == "]: "@[0]);
            assert(rest[i] == code[i]);
            assert(code.contains(code[i]));
        }
    }
    assert(crate::text::find(rest, "]: "@) == Some(at));
    assert(rest.subrange(at + 3, rest.len() as int) =~= message);
}

/// A line that only starts with its severity is an error or a warning without a location; a line without
/// any severity reports nothing.
pub proof fn law_lines_without_a_location(message: Seq<char>, line: Seq<char>)
    ensures
        located_line("error: "@ + message) is None ==> short_line("error: "@ + message) == Some(
            ShortLine { location: seq![], severity: "error"@, message },
        ),
        located_line("warning: "@ + message) is None ==> short_line("warning: "@ + message) == Some(
            ShortLine { location: seq![], severity: "warning"@, message },
        ),
        !crate::text::starts_with(line, "error: "@) && !crate::text::starts_with(line, "warning: "@)
            && (forall|i: int| 0 <= i < line.len() ==> #[trigger] severity_at(line, i) is None)
            ==> short_line(line) is None,
{
    reveal_strlit("error: ");
    reveal_strlit("warning: ");
    reveal_strlit("error");
    reveal_strlit("warning");
    reveal_strlit(": ");
    assert("error"@ + ": "@ =~= "error: "@);
    assert("warning"@ + ": "@ =~= "warning: "@);
    let e = "error: "@ + message;
    let w = "warning: "@ + message;
    assert(e.subrange(0, 7) =~= "error: "@);
    assert(e.subrange(7, e.len() as int) =~= message);
    assert(w.subrange(0, 9) =~= "warning: "@);
    assert(w.subrange(9, w.len() as int) =~= message);
    assert(!crate::text::starts_with(w, "error: "@)) by {
        if crate::text::starts_with(w, "error: "@) {
            assert(w.subrange(0, 7)[0] == "error: "@[0]);
            assert(w[0] == "warning: "@[0]);
        }
    }
    if forall|i: int| 0 <= i < line.len() ==> #[trigger] severity_at(line, i) is None {
        lemma_no_mark(line, 0);
    }
}

proof fn lemma_no_mark(line: Seq<char>, from: int)
    requires
        0 <= from,
        forall|i: int| 0 <= i < line.len() ==> #[trigger] severity_at(line, i) is None,
    ensures
        mark_from(line, from) is None,
    decreases line.len() - from,
{
    if from < line.len() {
        assert(severity_at(line, from) is None);
        lemma_no_mark(line, from + 1);
    }
}

/// Lines are read one by one, in order: what a line reports does not depend on the lines around it.
pub proof fn law_findings_line_by_line(lines: Seq<Seq<char>>, more: Seq<Seq<char>>, line: Seq<char>)
    ensures
        findings(lines + more, (lines + more).len() as int) == findings(lines, lines.len() as int)
            + findings(more, more.len() as int),
        findings(seq![line], 1) == match short_line(crate::text::trim(line)) {
            Some(s) => if crate::text::trim(line).len() > 0 {
                seq![diagnostic_of(s)]
            } else {
                seq![]
            },
            None => seq![],
        },
    decreases more.len(),
{
    let one = seq![line];
    assert(findings(one, 0) =~= seq![]);
    assert(one[0] == line);
    assert(findings(one, 1) =~= match short_line(crate::text::trim(line)) {
        Some(s) => if crate::text::trim(line).len() > 0 {
            seq![diagnostic_of(s)]
        } else {
            seq![]
        },
        None => seq![],
    });
    let all = lines + more;
    if more.len() == 0 {
        assert(all =~= lines);
        assert(findings(lines, lines.len() as int) + findings(more, 0) =~= findings(
            lines,
            lines.len() as int,
        ));
    } else {
        let init = more.drop_last();
        law_findings_line_by_line(lines, init, line);
        lemma_findings_prefix(all, lines + init, (lines + init).len() as int);
        lemma_findings_prefix(more, init, init.len() as int);
        assert(all[all.len() - 1] == more[more.len() - 1]);
        assert(findings(all, all.len() as int) =~= findings(lines, lines.len() as int) + findings(
            more,
            more.len() as int,
        ));
    }
}

proof fn lemma_findings_prefix(all: Seq<Seq<char>>, init: Seq<Seq<char>>, n: int)
    requires
        0 <= n <= init.len() <= all.len(),
        forall|i: int| 0 <= i < init.len() ==> init[i] == all[i],
    ensures
        findings(all, n) == findings(init, n),
    decreases n,
{
    if n > 0 {
        lemma_findings_prefix(all, init, n - 1);
    }
}

/// Of what cargo found, a finding is kept exactly when its file was asked for.
pub proof fn law_asked_files_are_kept(
    found: Seq<DiagnosticView>,
    canonical: Seq<Seq<char>>,
    wanted: Seq<Seq<char>>,
    n: int,
)
    requires
        0 <= n <= found.len(),
        found.len() == canonical.len(),
    ensures
        forall|i: int|
            0 <= i < n && wanted.contains(canonical[i]) ==> wanted_findings(
                found,
                canonical,
                wanted,
                n,
            ).contains(#[trigger] found[i]),
        forall|d: DiagnosticView|
            wanted_findings(found, canonical, wanted, n).contains(d) ==> exists|i: int|
                0 <= i < n && #[trigger] found[i] == d && wanted.contains(canonical[i]),
    decreases n,
{
    if n > 0 {
        law_asked_files_are_kept(found, canonical, wanted, n - 1);
        let init = wanted_findings(found, canonical, wanted, n - 1);
        let all = wanted_findings(found, canonical, wanted, n);
        assert(lists(wanted, canonical[n - 1]) == wanted.contains(canonical[n - 1]));
        assert forall|i: int| 0 <= i < n && wanted.contains(canonical[i]) implies all.contains(
            #[trigger] found[i],
        ) by {
            if i < n - 1 {
                let k = init.index_of(found[i]);
                assert(all[k] == found[i]);
            } else {
                assert(all[all.len() - 1] == found[i]);
            }
        }
        assert forall|d: DiagnosticView| all.contains(d) implies exists|i: int|
            0 <= i < n && #[trigger] found[i] == d && wanted.contains(canonical[i]) by {
            let k = all.index_of(d);
            if k < init.len() {
                assert(init[k] == d);
                assert(init.contains(d));
            } else {
                assert(found[n - 1] == d);
            }
        }
    }
}

/// The counts are of the findings that have the severity.
pub proof fn law_counts_by_severity(ds: Seq<DiagnosticView>, sev: Seq<char>)
    ensures
        count_severity(ds, sev, ds.len() as int) == ds.filter(
            |d: DiagnosticView| d.severity == sev,
        ).len(),
    decreases ds.len(),
{
    reveal(Seq::filter);
    if ds.len() > 0 {
        let init = ds.drop_last();
        law_counts_by_severity(init, sev);
        lemma_count_prefix(ds, init, sev, init.len() as int);
    }
}

proof fn lemma_count_prefix(
    all: Seq<DiagnosticView>,
    init: Seq<DiagnosticView>,
    sev: Seq<char>,
    n: int,
)
    requires
        0 <= n <= init.len() <= all.len(),
        forall|i: int| 0 <= i < init.len() ==> init[i] == all[i],
    ensures
        count_severity(all, sev, n) == count_severity(init, sev, n),
    decreases n,
{
    if n > 0 {
        lemma_count_prefix(all, init, sev, n - 1);
    }
}

/// The opposite order.
pub open spec fn flipped(o: PathOrder) -> PathOrder {
    match o {
        PathOrder::Before => PathOrder::After,
        PathOrder::Same => PathOrder::Same,
        PathOrder::After => PathOrder::Before,
    }
}

proof fn lemma_text_order(a: Seq<char>, b: Seq<char>)
    ensures
        text_order(b, a) == flipped(text_order(a, b)),
        text_order(a, b) == PathOrder::Same <==> a == b,
    decreases a.len(),
{
    if a.len() > 0 && b.len() > 0 && a[0] == b[0] {
        let x = a.subrange(1, a.len() as int);
        let y = b.subrange(1, b.len() as int);
        lemma_text_order(x, y);
        if x == y {
            assert(a =~= seq![a[0]] + x);
            assert(b =~= seq![b[0]] + y);
        }
    } else if a.len() == 0 && b.len() == 0 {
        assert(a =~= b);
    }
}

proof fn lemma_list_order(a: Seq<Seq<char>>, b: Seq<Seq<char>>)
    ensures
        list_order(b, a) == flipped(list_order(a, b)),
        list_order(a, b) == PathOrder::Same <==> a == b,
    decreases a.len(),
{
    if a.len() > 0 && b.len() > 0 {
        lemma_text_order(a[0], b[0]);
        let x = a.subrange(1, a.len() as int);
        let y = b.subrange(1, b.len() as int);
        if component_order(a[0], b[0]) == PathOrder::Same {
            lemma_list_order(x, y);
            if x == y {
                assert(a =~= seq![a[0]] + x);
                assert(b =~= seq![b[0]] + y);
            }
        }
    } else if a.len() == 0 && b.len() == 0 {
        assert(a =~= b);
    }
}

/// Paths are ordered the same way from either side, and a path is the same as itself. Two paths are the
/// same exactly when both or neither start at the root and their components are equal.
pub proof fn law_path_order(a: Seq<char>, b: Seq<char>)
    ensures
        path_order(b, a) == flipped(path_order(a, b)),
        path_order(a, a) == PathOrder::Same,
        path_order(a, b) == PathOrder::Same <==> is_absolute(a) == is_absolute(b) && components(
            crate::text::split(a, '/'),
            crate::text::split(a, '/').len() as int,
        ) == components(crate::text::split(b, '/'), crate::text::split(b, '/').len() as int),
{
    let pa = crate::text::split(a, '/');
    let pb = crate::text::split(b, '/');
    let ca = components(pa, pa.len() as int);
    let cb = components(pb, pb.len() as int);
    lemma_list_order(ca, cb);
    lemma_list_order(ca, ca);
}

/// A file is among paths.
pub open spec fn has_path(files: Seq<Seq<char>>, f: Seq<char>) -> bool {
    exists|i: int| 0 <= i < files.len() && path_order(f, #[trigger] files[i]) == PathOrder::Same
}

/// A file is checked in the project at `root`.
pub open spec fn checks(jobs: Seq<CargoJobView>, root: Seq<char>, f: Seq<char>) -> bool {
    exists|j: int|
        0 <= j < jobs.len() && path_order(root, (#[trigger] jobs[j]).root) == PathOrder::Same
            && has_path(jobs[j].files, f)
}

/// A command is run for a file in the directory `root`.
pub open spec fn runs(jobs: Seq<ToolJobView>, root: Seq<char>, e: ToolEntryView) -> bool {
    exists|j: int|
        0 <= j < jobs.len() && path_order(root, (#[trigger] jobs[j]).root) == PathOrder::Same
            && jobs[j].entries.contains(e)
}

proof fn lemma_keeps_paths(files: Seq<Seq<char>>, f: Seq<char>, g: Seq<char>)
    ensures
        has_path(with_path(files, f), f),
        has_path(files, g) ==> has_path(with_path(files, f), g),
    decreases files.len(),
{
    law_path_order(f, f);
    let all = with_path(files, f);
    if files.len() == 0 {
        assert(path_order(f, all[0]) == PathOrder::Same);
    } else {
        let rest = files.subrange(1, files.len() as int);
        match path_order(f, files[0]) {
            PathOrder::Same => {
                assert(path_order(f, all[0]) == PathOrder::Same);
            },
            PathOrder::Before => {
                assert(path_order(f, all[0]) == PathOrder::Same);
                if has_path(files, g) {
                    let i = choose|i: int|
                        0 <= i < files.len() && path_order(g, #[trigger] files[i])
                            == PathOrder::Same;
                    assert(all[i + 1] == files[i]);
                }
            },
            PathOrder::After => {
                lemma_keeps_paths(rest, f, g);
                let later = with_path(rest, f);
                let i = choose|i: int|
                    0 <= i < later.len() && path_order(f, #[trigger] later[i]) == PathOrder::Same;
                assert(all[i + 1] == later[i]);
                if has_path(files, g) {
                    let k = choose|k: int|
                        0 <= k < files.len() && path_order(g, #[trigger] files[k])
                            == PathOrder::Same;
                    if k == 0 {
                        assert(all[0] == files[0]);
                    } else {
                        assert(rest[k - 1] == files[k]);
                        assert(has_path(rest, g));
                        let m = choose|m: int|
                            0 <= m < later.len() && path_order(g, #[trigger] later[m])
                                == PathOrder::Same;
                        assert(all[m + 1] == later[m]);
                    }
                }
            },
        }
    }
}

proof fn lemma_keeps_checks(
    jobs: Seq<CargoJobView>,
    root: Seq<char>,
    f: Seq<char>,
    other: Seq<char>,
    g: Seq<char>,
)
    ensures
        checks(with_cargo(jobs, root, f), root, f),
        checks(jobs, other, g) ==> checks(with_cargo(jobs, root, f), other, g),
    decreases jobs.len(),
{
    law_path_order(root, root);
    law_path_order(f, f);
    let all = with_cargo(jobs, root, f);
    let fresh = CargoJobView { root, files: seq![f] };
    assert(fresh.files[0] == f);
    assert(has_path(fresh.files, f));
    if jobs.len() == 0 {
        assert(all[0] == fresh);
    } else {
        let rest = jobs.subrange(1, jobs.len() as int);
        let there = choose|j: int|
            0 <= j < jobs.len() && path_order(other, (#[trigger] jobs[j]).root) == PathOrder::Same
                && has_path(jobs[j].files, g);
        match path_order(root, jobs[0].root) {
            PathOrder::Same => {
                lemma_keeps_paths(jobs[0].files, f, g);
                assert(all[0] == CargoJobView { files: with_path(jobs[0].files, f), ..jobs[0] });
                assert(checks(all, root, f));
                if checks(jobs, other, g) {
                    if there > 0 {
                        assert(all[there] == jobs[there]);
                    }
                    assert(path_order(other, all[there].root) == PathOrder::Same);
                }
            },
            PathOrder::Before => {
                assert(all[0] == fresh);
                if checks(jobs, other, g) {
                    assert(all[there + 1] == jobs[there]);
                }
            },
            PathOrder::After => {
                lemma_keeps_checks(rest, root, f, other, g);
                let later = with_cargo(rest, root, f);
                let i = choose|i: int|
                    0 <= i < later.len() && path_order(root, (#[trigger] later[i]).root)
                        == PathOrder::Same && has_path(later[i].files, f);
                assert(all[i + 1] == later[i]);
                if checks(jobs, other, g) {
                    if there == 0 {
                        assert(all[0] == jobs[0]);
                    } else {
                        assert(rest[there - 1] == jobs[there]);
                        assert(checks(rest, other, g));
                        let m = choose|m: int|
                            0 <= m < later.len() && path_order(other, (#[trigger] later[m]).root)
                                == PathOrder::Same && has_path(later[m].files, g);
                        assert(all[m + 1] == later[m]);
                    }
                }
            },
        }
    }
}

proof fn lemma_keeps_runs(
    jobs: Seq<ToolJobView>,
    root: Seq<char>,
    e: ToolEntryView,
    other: Seq<char>,
    g: ToolEntryView,
)
    ensures
        runs(with_tool(jobs, root, e), root, e),
        runs(jobs, other, g) ==> runs(with_tool(jobs, root, e), other, g),
    decreases jobs.len(),
{
    law_path_order(root, root);
    let all = with_tool(jobs, root, e);
    let fresh = ToolJobView { root, entries: seq![e] };
    assert(fresh.entries[0] == e);
    if jobs.len() == 0 {
        assert(all[0] == fresh);
    } else {
        let rest = jobs.subrange(1, jobs.len() as int);
        let there = choose|j: int|
            0 <= j < jobs.len() && path_order(other, (#[trigger] jobs[j]).root) == PathOrder::Same
                && jobs[j].entries.contains(g);
        match path_order(root, jobs[0].root) {
            PathOrder::Same => {
                let grown = jobs[0].entries.push(e);
                assert(grown[grown.len() - 1] == e);
                assert(all[0] == ToolJobView { entries: grown, ..jobs[0] });
                if runs(jobs, other, g) {
                    if there > 0 {
                        assert(all[there] == jobs[there]);
                    } else {
                        let k = jobs[0].entries.index_of(g);
                        assert(grown[k] == g);
                    }
                    assert(path_order(other, all[there].root) == PathOrder::Same);
                }
            },
            PathOrder::Before => {
                assert(all[0] == fresh);
                if runs(jobs, other, g) {
                    assert(all[there + 1] == jobs[there]);
                }
            },
            PathOrder::After => {
                lemma_keeps_runs(rest, root, e, other, g);
                let later = with_tool(rest, root, e);
                let i = choose|i: int|
                    0 <= i < later.len() && path_order(root, (#[trigger] later[i]).root)
                        == PathOrder::Same && later[i].entries.contains(e);
                assert(all[i + 1] == later[i]);
                if runs(jobs, other, g) {
                    if there == 0 {
                        assert(all[0] == jobs[0]);
                    } else {
                        assert(rest[there - 1] == jobs[there]);
                        assert(runs(rest, other, g));
                        let m = choose|m: int|
                            0 <= m < later.len() && path_order(other, (#[trigger] later[m]).root)
                                == PathOrder::Same && later[m].entries.contains(g);
                        assert(all[m + 1] == later[m]);
                    }
                }
            },
        }
    }
}

/// The first command whose extensions hold the one asked for is the one that is run.
pub proof fn law_first_command_serves(tools: Seq<ConfiguredToolView>, ext: Seq<char>, from: int)
    requires
        0 <= from <= tools.len(),
    ensures
        match command_for(tools, ext, from) {
            Some(c) => exists|i: int|
                from <= i < tools.len() && (#[trigger] tools[i]).command == c && serves(
                    tools[i],
                    ext,
                ) && forall|k: int| from <= k < i ==> !serves(#[trigger] tools[k], ext),
            None => forall|k: int| from <= k < tools.len() ==> !serves(#[trigger] tools[k], ext),
        },
    decreases tools.len() - from,
{
    if from < tools.len() {
        if serves(tools[from], ext) {
            assert(tools[from].command == command_for(tools, ext, from)->0);
        } else {
            law_first_command_serves(tools, ext, from + 1);
            if let Some(c) = command_for(tools, ext, from + 1) {
                let i = choose|i: int|
                    from + 1 <= i < tools.len() && (#[trigger] tools[i]).command == c && serves(
                        tools[i],
                        ext,
                    ) && forall|k: int| from + 1 <= k < i ==> !serves(#[trigger] tools[k], ext);
                assert(tools[i].command == c);
            }
        }
    }
}

/// What becomes of a file in a plan: a Rust file is checked in its project, a file with a command is
/// handed to that command in its directory, and any other is skipped, with the reason.
pub open spec fn is_planned(p: ScanPlanView, f: FileFactsView, cwd: Seq<char>) -> bool {
    let ext = crate::tools::skeleton::lower_extension(f.full);
    if !f.is_file {
        p.skipped.contains(SkippedEntryView { path: f.path, reason: "file does not exist"@ })
    } else if crate::path::extension_of(f.full) == Some("rs"@) {
        match f.cargo_root {
            Some(root) => checks(p.cargo, root, f.full),
            None => checks(p.cargo, cwd, f.full),
        }
    } else {
        match command_for(f.tools, ext, 0) {
            Some(command) => match f.config_root {
                Some(root) => runs(p.configured, root, ToolEntryView { file: f.full, command }),
                None => runs(p.configured, cwd, ToolEntryView { file: f.full, command }),
            },
            None => p.skipped.contains(
                SkippedEntryView {
                    path: f.full,
                    reason: "no built-in diagnostics for ."@ + ext
                        + "; configure a tool in .tars/diagnostics.toml"@,
                },
            ),
        }
    }
}

/// Every file that is asked for is planned, or skipped with a reason.
pub proof fn law_every_file_is_planned(facts: Seq<FileFactsView>, cwd: Seq<char>, n: int, k: int)
    requires
        0 <= k < n <= facts.len(),
    ensures
        is_planned(plan_of(facts, cwd, n), facts[k], cwd),
    decreases n,
{
    let p = plan_of(facts, cwd, n - 1);
    let q = plan_of(facts, cwd, n);
    let f = facts[n - 1];
    let g = facts[k];
    if !g.is_file {
        lemma_missing(facts, cwd, n, k);
    }
    let ext = crate::tools::skeleton::lower_extension(f.full);
    let rust = f.is_file && crate::path::extension_of(f.full) == Some("rs"@);
    let g_root = root_or(g.cargo_root, cwd);
    let g_dir = root_or(g.config_root, cwd);
    let g_ext = crate::tools::skeleton::lower_extension(g.full);
    let g_entry = ToolEntryView { file: g.full, command: command_for(g.tools, g_ext, 0)->0 };
    if rust {
        lemma_keeps_checks(p.cargo, root_or(f.cargo_root, cwd), f.full, g_root, g.full);
    } else if f.is_file {
        if let Some(command) = command_for(f.tools, ext, 0) {
            lemma_keeps_runs(
                p.configured,
                root_or(f.config_root, cwd),
                ToolEntryView { file: f.full, command },
                g_dir,
                g_entry,
            );
        } else {
            assert(q.skipped[q.skipped.len() - 1] == SkippedEntryView {
                path: f.full,
                reason: no_tool(ext),
            });
        }
    }
    if k < n - 1 {
        law_every_file_is_planned(facts, cwd, n - 1, k);
        assert forall|s: SkippedEntryView| p.skipped.contains(s) implies #[trigger] q.skipped.contains(
            s,
        ) by {
            let i = p.skipped.index_of(s);
            assert(q.skipped[i] == s);
        }
    }
}

proof fn lemma_missing(facts: Seq<FileFactsView>, cwd: Seq<char>, n: int, k: int)
    requires
        0 <= k < facts.len(),
        0 <= n <= facts.len(),
        !facts[k].is_file,
    ensures
        plan_of(facts, cwd, n).skipped.contains(
            SkippedEntryView { path: facts[k].path, reason: "file does not exist"@ },
        ),
    decreases n,
{
    let e = SkippedEntryView { path: facts[k].path, reason: "file does not exist"@ };
    if n > 0 {
        lemma_missing(facts, cwd, n - 1, k);
        let before = plan_of(facts, cwd, n - 1).skipped;
        let i = before.index_of(e);
        assert(plan_of(facts, cwd, n).skipped[i] == e);
    } else {
        lemma_is_missing(facts, facts.len() as int, k);
    }
}

proof fn lemma_is_missing(facts: Seq<FileFactsView>, n: int, k: int)
    requires
        0 <= k < n <= facts.len(),
        !facts[k].is_file,
    ensures
        missing(facts, n).contains(
            SkippedEntryView { path: facts[k].path, reason: "file does not exist"@ },
        ),
    decreases n,
{
    let e = SkippedEntryView { path: facts[k].path, reason: "file does not exist"@ };
    let all = missing(facts, n);
    if k < n - 1 {
        lemma_is_missing(facts, n - 1, k);
        let i = missing(facts, n - 1).index_of(e);
        assert(all[i] == e);
    } else {
        assert(all[all.len() - 1] == e);
    }
}

/// A finding names its file inside the project; nothing else of it changes, and one without a file stays.
pub proof fn law_findings_are_in_the_project(d: DiagnosticView, root: Seq<char>)
    ensures
        ({
            let r = rooted(d, root);
            &&& d.file.len() > 0 ==> r.file == crate::path::joined(root, d.file)
            &&& d.file.len() == 0 ==> r.file == d.file
            &&& r.line == d.line
            &&& r.column == d.column
            &&& r.severity == d.severity
            &&& r.message == d.message
        }),
{
}

/// What a configured tool said is all that it wrote, on both outputs, without blanks around it.
pub proof fn law_tool_message(stdout: Seq<char>, stderr: Seq<char>)
    ensures
        crate::text::contains(stdout + stderr, tool_message(stdout, stderr)),
        tool_message(stdout, stderr).len() == 0 <==> forall|i: int|
            0 <= i < (stdout + stderr).len() ==> crate::text::is_ws(#[trigger] (stdout + stderr)[i]),
{
    let s = stdout + stderr;
    let t = crate::text::trim_start(s);
    let u = crate::text::trim_end(t);
    crate::text::law_trim_start(s);
    crate::text::law_trim_end(t);
    let k = s.len() - t.len();
    assert(s.subrange(k, k + u.len()) =~= u);
    assert(crate::text::occurs_at(s, u, k));
    if u.len() == 0 {
        assert forall|i: int| 0 <= i < s.len() implies crate::text::is_ws(#[trigger] s[i]) by {
            if i >= k {
                assert(t[i - k] == s[i]);
            }
        }
    } else {
        assert(s[k + u.len() - 1] == t[u.len() - 1]);
    }
}

} // verus!
