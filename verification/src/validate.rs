//! Validation outcomes and the output of the `validate` command.

use vstd::prelude::*;
use vstd::string::StringExecFns;
use crate::listing::{json_quote, json_quoted};

verus! {

/// How serious a diagnostic is.
#[derive(Debug, Clone, Copy, PartialEq, Eq, Structural)]
pub enum Severity {
    /// A blocking problem.
    Error,
    /// A problem worth fixing that does not block.
    Warning,
    /// Information about the document.
    Advisory,
}

/// One finding of a validation pass.
#[derive(Debug, Clone)]
pub struct Diagnostic {
    /// Machine-readable code, e.g. `"id.duplicate"`.
    pub code: String,
    /// How serious it is.
    pub severity: Severity,
    /// Human-readable description.
    pub message: String,
    /// The id of the node or token it concerns, when there is one.
    pub subject_id: Option<String>,
}

/// The outcome of a full document validation pass.
#[derive(Debug, Clone)]
pub struct ValidationReport {
    /// All diagnostics collected during validation.
    pub diagnostics: Vec<Diagnostic>,
}

impl ValidationReport {
    /// Whether any diagnostic has [`Severity::Error`].
    pub fn has_errors(&self) -> (r: bool)
        ensures
            r <==> exists|i: int|
                0 <= i < self.diagnostics@.len() && #[trigger] self.diagnostics@[i].severity
                    == Severity::Error,
    {
        let mut i: usize = 0;
        while i < self.diagnostics.len()
            invariant
                i <= self.diagnostics@.len(),
                forall|j: int| 0 <= j < i ==> #[trigger] self.diagnostics@[j].severity != Severity::Error,
            decreases self.diagnostics@.len() - i,
        {
            if self.diagnostics[i].severity == Severity::Error {
                return true;
            }
            i = i + 1;
        }
        false
    }
}

/// The outcome of a validate run.
#[derive(Debug)]
pub struct CmdOutput {
    /// Text to write to stdout.
    pub stdout: String,
    /// Exit code: 0 = no errors, 1 = validation errors, 2 = parse/io error.
    pub exit_code: u8,
}

/// The human form of a run stopped by one error: `error[<code>]: <msg>`.
pub open spec fn stopped_human(code: Seq<char>, msg: Seq<char>) -> Seq<char> {
    "error["@ + code + "]: "@ + msg
}

/// The JSON form of a run stopped by one error: a `zenith-validate-v1`
/// envelope, not valid, holding that one error diagnostic (pretty-printed
/// with two-space indentation).
pub open spec fn stopped_json(code: Seq<char>, msg: Seq<char>) -> Seq<char> {
    "{\n  \"schema\": \"zenith-validate-v1\",\n  \"valid\": false,\n  \"diagnostics\": [\n    {\n      \"code\": \""@
        + code + "\",\n      \"severity\": \"error\",\n      \"message\": "@ + json_quoted(msg)
        + ",\n      \"subject_id\": null\n    }\n  ]\n}"@
}

/// The exit-2 output of a run stopped by the error `code` with message
/// `msg`, in the JSON or the human shape.
fn stopped(code: &str, msg: &str, json: bool) -> (r: CmdOutput)
    ensures
        r.exit_code == 2,
        r.stdout@ == if json {
            stopped_json(code@, msg@)
        } else {
            stopped_human(code@, msg@)
        },
{
    let mut out = String::new();
    if json {
        out.append("{\n  \"schema\": \"zenith-validate-v1\",\n  \"valid\": false,\n  \"diagnostics\": [\n    {\n      \"code\": \"");
        out.append(code);
        out.append("\",\n      \"severity\": \"error\",\n      \"message\": ");
        let quoted = json_quote(msg);
        out.append(quoted.as_str());
        out.append(",\n      \"subject_id\": null\n    }\n  ]\n}");
    } else {
        out.append("error[");
        out.append(code);
        out.append("]: ");
        out.append(msg);
    }
    CmdOutput { stdout: out, exit_code: 2 }
}

/// The exit-2 output for a config-load failure, in the JSON or the human
/// shape.
pub fn config_error(msg: &str, json: bool) -> (r: CmdOutput)
    ensures
        r.exit_code == 2,
        r.stdout@ == if json {
            stopped_json("config.error"@, msg@)
        } else {
            stopped_human("config.error"@, msg@)
        },
{
    stopped("config.error", msg, json)
}

/// The exit-2 output for a document that does not parse, in the JSON or
/// the human shape.
pub fn parse_error(msg: &str, json: bool) -> (r: CmdOutput)
    ensures
        r.exit_code == 2,
        r.stdout@ == if json {
            stopped_json("parse.error"@, msg@)
        } else {
            stopped_human("parse.error"@, msg@)
        },
{
    stopped("parse.error", msg, json)
}

/// The exit code of a run that got as far as validating: 1 when a
/// diagnostic is an error, 0 otherwise.
pub fn validated_exit_code(report: &ValidationReport) -> (r: u8)
    ensures
        r == if exists|i: int|
            0 <= i < report.diagnostics@.len() && #[trigger] report.diagnostics@[i].severity
                == Severity::Error {
            1u8
        } else {
            0u8
        },
{
    if report.has_errors() {
        1
    } else {
        0
    }
}

/// How far a validate run got.
#[derive(Debug, Clone)]
pub enum RunStage {
    /// A global or local config file could not be loaded.
    ConfigFailed,
    /// The document did not parse.
    ParseFailed,
    /// The document was validated, with this report.
    Validated(ValidationReport),
}

/// The exit code of a validate run: 2 when it stopped on a config or parse
/// error, else 1 when a diagnostic is an error, else 0.
pub fn run_exit_code(stage: &RunStage) -> (r: u8)
    ensures
        r == match stage {
            RunStage::ConfigFailed => 2u8,
            RunStage::ParseFailed => 2u8,
            RunStage::Validated(report) => if exists|i: int|
                0 <= i < report.diagnostics@.len() && #[trigger] report.diagnostics@[i].severity
                    == Severity::Error {
                1u8
            } else {
                0u8
            },
        },
{
    match stage {
        RunStage::ConfigFailed => 2,
        RunStage::ParseFailed => 2,
        RunStage::Validated(report) => validated_exit_code(report),
    }
}

} // verus!
