//! The command lines of the external tools (StyLua, Selene, Rojo, Wally,
//! Moonwave, Lune, luau-lsp) and what their runs mean.
//!
//! Running a tool is the caller's: it starts the command with the arguments
//! given here, under the time limit, and hands back what the process reported.
use vstd::prelude::*;
use crate::error::{is_timeout_error, map_launch_error, ErrorModel, RobloxMcpError};
use crate::filesystem::{path_pushed, push_path};
use crate::search::{lines_of, split_lines};
use crate::text::{chars_of, from_utf8_lossy, push_str, str_eq, string_from_chars, trim, trim_chars, utf8_lossy};

verus! {

/// Default time limit for an external tool run, in seconds.
pub const DEFAULT_TOOL_TIMEOUT_SECS: u64 = 30;

/// What a finished tool process reported.
#[derive(Debug)]
pub struct ProcessOutput {
    /// Whether it exited with status 0.
    pub success: bool,
    /// Its exit code, if it exited normally.
    pub code: Option<i32>,
    /// The signal that ended it, if any.
    pub signal: Option<i32>,
    pub stdout: Vec<u8>,
    pub stderr: Vec<u8>,
}

pub open spec fn strings_view(v: Seq<String>) -> Seq<Seq<char>> {
    v.map_values(|s: String| s@)
}

/// A stream's text, or nothing when it is empty.
pub open spec fn text_or_none(b: Seq<u8>) -> Option<Seq<char>> {
    if utf8_lossy(b).len() == 0 {
        None
    } else {
        Some(utf8_lossy(b))
    }
}

pub open spec fn opt_str_view(o: Option<String>) -> Option<Seq<char>> {
    match o {
        Some(s) => Some(s@),
        None => None,
    }
}

fn text_or_none_exec(b: &[u8]) -> (r: Option<String>)
    ensures
        opt_str_view(r) == text_or_none(b@),
{
    let s = from_utf8_lossy(b);
    if s.as_str().is_empty() {
        None
    } else {
        Some(s)
    }
}

fn push_arg(args: &mut Vec<String>, a: &str)
    ensures
        strings_view(final(args)@) == strings_view(old(args)@).push(a@),
{
    let ghost before = args@;
    args.push(String::from_str(a));
    assert(strings_view(args@) =~= strings_view(before).push(a@));
}

fn push_arg2(args: &mut Vec<String>, prefix: &str, a: &str)
    ensures
        strings_view(final(args)@) == strings_view(old(args)@).push(prefix@ + a@),
{
    let mut v: Vec<char> = Vec::new();
    push_str(&mut v, prefix);
    push_str(&mut v, a);
    let ghost before = args@;
    args.push(string_from_chars(&v));
    assert(strings_view(args@) =~= strings_view(before).push(prefix@ + a@));
}

// ---------------------------------------------------------------------------
// StyLua
// ---------------------------------------------------------------------------

/// Result from formatting a Luau script.
#[derive(Debug, Clone)]
pub struct FormatResult {
    /// Path to the formatted file.
    pub file_path: String,
    /// Whether the file was formatted (changed), or in check mode whether it
    /// needs formatting.
    pub formatted: bool,
    /// What the check reported, when the file needs formatting.
    pub diff: Option<String>,
    /// Original content before formatting.
    pub original: Option<String>,
    /// Formatted content.
    pub formatted_content: Option<String>,
}

/// Whether two byte runs are equal.
fn bytes_eq(a: &[u8], b: &[u8]) -> (r: bool)
    ensures
        r == (a@ == b@),
{
    if a.len() != b.len() {
        return false;
    }
    let mut i: usize = 0;
    while i < a.len()
        invariant
            i <= a.len() == b.len(),
            a@.subrange(0, i as int) == b@.subrange(0, i as int),
        decreases a.len() - i,
    {
        if a[i] != b[i] {
            assert(a@[i as int] != b@[i as int]);
            return false;
        }
        assert(a@.subrange(0, i + 1) =~= a@.subrange(0, i as int).push(a@[i as int]));
        assert(b@.subrange(0, i + 1) =~= b@.subrange(0, i as int).push(b@[i as int]));
        i += 1;
    }
    assert(a@ =~= a@.subrange(0, i as int));
    assert(b@ =~= b@.subrange(0, i as int));
    true
}

/// The StyLua formatter.
#[derive(Debug, Default, Clone)]
pub struct StyLuaFormatter;

impl StyLuaFormatter {
    pub fn new() -> Self {
        StyLuaFormatter
    }

    /// The `stylua` arguments: the config file if given, `--check` in check
    /// mode, then the file.
    pub fn args(file_path: &str, config_path: Option<&str>, check_only: bool) -> (r: Vec<String>)
        ensures
            strings_view(r@) == (match config_path {
                Some(c) => seq!["--config-path"@, c@],
                None => Seq::empty(),
            }) + (if check_only { seq!["--check"@] } else { Seq::empty() }) + seq![file_path@],
    {
        let mut args: Vec<String> = Vec::new();
        if let Some(c) = config_path {
            push_arg(&mut args, "--config-path");
            push_arg(&mut args, c);
        }
        if check_only {
            push_arg(&mut args, "--check");
        }
        push_arg(&mut args, file_path);
        let ghost pre = match config_path {
            Some(c) => seq!["--config-path"@, c@],
            None => Seq::<Seq<char>>::empty(),
        };
        assert(strings_view(args@) =~= pre + (if check_only { seq!["--check"@] } else { Seq::empty() }) + seq![file_path@]);
        args
    }

    /// How a failure to run `stylua` is reported: a timeout as it is, any
    /// other failure as the tool not being installed.
    pub fn launch_failure(e: RobloxMcpError) -> (r: RobloxMcpError)
        ensures
            is_timeout_error(e) ==> r == e,
            !is_timeout_error(e) ==> r@ == (ErrorModel::ToolNotInstalled {
                tool: "stylua"@,
                install_hint: "Install via: cargo install stylua"@,
            }),
    {
        map_launch_error(e, "stylua", "Install via: cargo install stylua")
    }

    /// What a `stylua` run means. In check mode the exit status tells
    /// whether the file needs formatting, and the error stream, if any, is
    /// the diff. Otherwise a failed run is an error carrying the error
    /// stream (or a fixed message when it is empty), and a successful one
    /// formatted the file when its contents changed: `before` and `after`
    /// are the file's contents before and after the run.
    pub fn outcome(
        file_path: &str,
        check_only: bool,
        out: &ProcessOutput,
        before: &[u8],
        after: &[u8],
    ) -> (r: Result<FormatResult, RobloxMcpError>)
        ensures
            check_only ==> (r matches Ok(f) && f.file_path@ == file_path@ && f.formatted == !out.success
                && opt_str_view(f.diff) == (if !out.success { text_or_none(out.stderr@) } else { None })
                && f.original is None && f.formatted_content is None),
            !check_only && out.success ==> (r matches Ok(f) && f.file_path@ == file_path@ && f.formatted
                == (before@ != after@) && f.diff is None && f.original is None && f.formatted_content is None),
            !check_only && !out.success ==> (r matches Err(e) && e@ == (ErrorModel::ToolExecutionError {
                tool: "stylua"@,
                message: if utf8_lossy(out.stderr@).len() == 0 {
                    "Formatting failed"@
                } else {
                    utf8_lossy(out.stderr@)
                },
            })),
    {
        if check_only {
            let needs = !out.success;
            let diff = if needs {
                text_or_none_exec(out.stderr.as_slice())
            } else {
                None
            };
            Ok(FormatResult { file_path: String::from_str(file_path), formatted: needs, diff, original: None, formatted_content: None })
        } else {
            if !out.success {
                let stderr = from_utf8_lossy(out.stderr.as_slice());
                let message = if stderr.as_str().is_empty() {
                    String::from_str("Formatting failed")
                } else {
                    stderr
                };
                return Err(RobloxMcpError::ToolExecutionError { tool: String::from_str("stylua"), message });
            }
            let changed = !bytes_eq(before, after);
            Ok(FormatResult { file_path: String::from_str(file_path), formatted: changed, diff: None, original: None, formatted_content: None })
        }
    }
}

// ---------------------------------------------------------------------------
// Selene
// ---------------------------------------------------------------------------

/// Result from linting a Luau script.
#[derive(Debug, Clone)]
pub struct LintResult {
    pub file_path: String,
    pub diagnostics: Vec<LintDiagnostic>,
    pub error_count: usize,
    pub warning_count: usize,
}

/// One lint diagnostic.
#[derive(Debug, Clone)]
pub struct LintDiagnostic {
    /// Severity level ("error" or "warning").
    pub severity: String,
    /// Lint rule code (e.g., "unused_variable").
    pub code: String,
    pub message: String,
    /// Line number (1-indexed).
    pub line: u32,
    /// Column number (1-indexed).
    pub column: u32,
    pub end_line: Option<u32>,
    pub end_column: Option<u32>,
}

/// One JSON document of Selene's output.
#[derive(Debug)]
pub struct SeleneOutput {
    pub diagnostics: Vec<SeleneDiagnostic>,
}

#[derive(Debug)]
pub struct SeleneDiagnostic {
    pub severity: String,
    pub code: String,
    pub message: String,
    pub primary_label: SeleneLabel,
}

#[derive(Debug)]
pub struct SeleneLabel {
    pub span: SeleneSpan,
}

#[derive(Debug)]
pub struct SeleneSpan {
    pub start_line: u32,
    pub start_column: u32,
    pub end_line: u32,
    pub end_column: u32,
}

pub struct LintModel {
    pub severity: Seq<char>,
    pub code: Seq<char>,
    pub message: Seq<char>,
    pub line: u32,
    pub column: u32,
    pub end_line: Option<u32>,
    pub end_column: Option<u32>,
}

pub open spec fn lint_view(d: LintDiagnostic) -> LintModel {
    LintModel {
        severity: d.severity@,
        code: d.code@,
        message: d.message@,
        line: d.line,
        column: d.column,
        end_line: d.end_line,
        end_column: d.end_column,
    }
}

pub open spec fn lints_view(v: Seq<LintDiagnostic>) -> Seq<LintModel> {
    v.map_values(|d: LintDiagnostic| lint_view(d))
}

/// The diagnostic a Selene report stands for: positions from its primary span.
pub open spec fn selene_lint(d: SeleneDiagnostic) -> LintModel {
    LintModel {
        severity: d.severity@,
        code: d.code@,
        message: d.message@,
        line: d.primary_label.span.start_line,
        column: d.primary_label.span.start_column,
        end_line: Some(d.primary_label.span.end_line),
        end_column: Some(d.primary_label.span.end_column),
    }
}

/// All diagnostics of the parsed documents, in order.
pub open spec fn selene_lints(outs: Seq<SeleneOutput>) -> Seq<LintModel>
    decreases outs.len(),
{
    if outs.len() == 0 {
        Seq::empty()
    } else {
        selene_lints(outs.drop_last()) + outs.last().diagnostics@.map_values(|d: SeleneDiagnostic| selene_lint(d))
    }
}

/// How many diagnostics have exactly the given severity.
pub open spec fn count_lints(ds: Seq<LintModel>, sev: Seq<char>) -> nat
    decreases ds.len(),
{
    if ds.len() == 0 {
        0
    } else {
        count_lints(ds.drop_last(), sev) + if ds.last().severity == sev {
            1nat
        } else {
            0nat
        }
    }
}

proof fn lemma_count_bound(ds: Seq<LintModel>, sev: Seq<char>)
    ensures
        count_lints(ds, sev) <= ds.len(),
    decreases ds.len(),
{
    if ds.len() > 0 {
        lemma_count_bound(ds.drop_last(), sev);
    }
}

/// The Selene linter.
#[derive(Debug, Default, Clone)]
pub struct SeleneLinter;

impl SeleneLinter {
    pub fn new() -> Self {
        SeleneLinter
    }

    /// The `selene` arguments: JSON output, the config file if given, then
    /// the file.
    pub fn args(file_path: &str, config_path: Option<&str>) -> (r: Vec<String>)
        ensures
            strings_view(r@) == seq!["--display-style=json2"@] + (match config_path {
                Some(c) => seq!["--config"@, c@],
                None => Seq::empty(),
            }) + seq![file_path@],
    {
        let mut args: Vec<String> = Vec::new();
        push_arg(&mut args, "--display-style=json2");
        if let Some(c) = config_path {
            push_arg(&mut args, "--config");
            push_arg(&mut args, c);
        }
        push_arg(&mut args, file_path);
        let ghost mid = match config_path {
            Some(c) => seq!["--config"@, c@],
            None => Seq::<Seq<char>>::empty(),
        };
        assert(strings_view(args@) =~= seq!["--display-style=json2"@] + mid + seq![file_path@]);
        args
    }

    /// How a failure to start `selene` is reported.
    pub fn launch_failure(cause: &str) -> (r: RobloxMcpError)
        ensures
            r@ == ErrorModel::ConfigError(
                "Failed to run selene: "@ + cause@ + ". Is selene installed? Install with: cargo install selene"@,
            ),
    {
        let mut v: Vec<char> = Vec::new();
        push_str(&mut v, "Failed to run selene: ");
        push_str(&mut v, cause);
        push_str(&mut v, ". Is selene installed? Install with: cargo install selene");
        RobloxMcpError::ConfigError(string_from_chars(&v))
    }

    /// What a `selene` run means. With no output but an error stream, Selene
    /// failed to run. Otherwise `outputs` are the documents parsed from the
    /// output's non-blank lines (those that parsed), and their diagnostics
    /// are counted by severity.
    pub fn outcome(file_path: &str, stdout: &[u8], stderr: &[u8], outputs: &Vec<SeleneOutput>) -> (r: Result<
        LintResult,
        RobloxMcpError,
    >)
        ensures
            utf8_lossy(stdout@).len() == 0 && utf8_lossy(stderr@).len() != 0 ==> (r matches Err(e) && e@
                == ErrorModel::ConfigError("Selene error: "@ + trim(utf8_lossy(stderr@)))),
            !(utf8_lossy(stdout@).len() == 0 && utf8_lossy(stderr@).len() != 0) ==> (r matches Ok(l)
                && l.file_path@ == file_path@
                && lints_view(l.diagnostics@) == selene_lints(outputs@)
                && l.error_count == count_lints(selene_lints(outputs@), "error"@)
                && l.warning_count == count_lints(selene_lints(outputs@), "warning"@)),
    {
        let out_text = from_utf8_lossy(stdout);
        let err_text = from_utf8_lossy(stderr);
        if out_text.as_str().is_empty() && !err_text.as_str().is_empty() {
            let ev = crate::text::chars_of(err_text.as_str());
            let t = trim_chars(&ev);
            let mut v: Vec<char> = Vec::new();
            push_str(&mut v, "Selene error: ");
            crate::text::push_chars(&mut v, &t);
            return Err(RobloxMcpError::ConfigError(string_from_chars(&v)));
        }
        let mut diagnostics: Vec<LintDiagnostic> = Vec::new();
        let mut errors: usize = 0;
        let mut warnings: usize = 0;
        let mut i: usize = 0;
        while i < outputs.len()
            invariant
                i <= outputs.len(),
                lints_view(diagnostics@) == selene_lints(outputs@.subrange(0, i as int)),
                errors == count_lints(lints_view(diagnostics@), "error"@),
                warnings == count_lints(lints_view(diagnostics@), "warning"@),
            decreases outputs.len() - i,
        {
            let ds = &outputs[i].diagnostics;
            let ghost base = lints_view(diagnostics@);
            let mut j: usize = 0;
            while j < ds.len()
                invariant
                    j <= ds.len(),
                    lints_view(diagnostics@) == base + ds@.subrange(0, j as int).map_values(|d: SeleneDiagnostic| selene_lint(d)),
                    errors == count_lints(lints_view(diagnostics@), "error"@),
                    warnings == count_lints(lints_view(diagnostics@), "warning"@),
                decreases ds.len() - j,
            {
                let d = &ds[j];
                let is_error = str_eq(d.severity.as_str(), "error");
                let is_warning = str_eq(d.severity.as_str(), "warning");
                let ghost before = diagnostics@;
                proof {
                    lemma_count_bound(lints_view(diagnostics@), "error"@);
                    lemma_count_bound(lints_view(diagnostics@), "warning"@);
                }
                diagnostics.push(LintDiagnostic {
                    severity: d.severity.clone(),
                    code: d.code.clone(),
                    message: d.message.clone(),
                    line: d.primary_label.span.start_line,
                    column: d.primary_label.span.start_column,
                    end_line: Some(d.primary_label.span.end_line),
                    end_column: Some(d.primary_label.span.end_column),
                });
                proof {
                    assert(diagnostics@.drop_last() =~= before);
                    assert(lint_view(diagnostics@.last()) == selene_lint(ds@[j as int]));
                    assert(lints_view(diagnostics@) =~= lints_view(before).push(selene_lint(ds@[j as int])));
                    assert(ds@.subrange(0, j + 1).map_values(|d: SeleneDiagnostic| selene_lint(d)) =~= ds@.subrange(
                        0,
                        j as int,
                    ).map_values(|d: SeleneDiagnostic| selene_lint(d)).push(selene_lint(ds@[j as int])));
                    assert(lints_view(diagnostics@).drop_last() =~= lints_view(before));
                }
                let n = diagnostics.len();
                proof {
                    lemma_count_bound(lints_view(diagnostics@), "error"@);
                    lemma_count_bound(lints_view(diagnostics@), "warning"@);
                    assert(lints_view(diagnostics@).len() == n);
                }
                if is_error {
                    errors += 1;
                }
                if is_warning {
                    warnings += 1;
                }
                j += 1;
            }
            proof {
                assert(ds@.subrange(0, ds.len() as int) =~= ds@);
                assert(outputs@.subrange(0, i + 1).drop_last() =~= outputs@.subrange(0, i as int));
            }
            i += 1;
        }
        assert(outputs@.subrange(0, outputs.len() as int) =~= outputs@);
        Ok(LintResult { file_path: String::from_str(file_path), diagnostics, error_count: errors, warning_count: warnings })
    }
}


/// The non-blank lines, in order.
pub open spec fn nonblank_lines(ls: Seq<Seq<char>>) -> Seq<Seq<char>>
    decreases ls.len(),
{
    if ls.len() == 0 {
        Seq::empty()
    } else {
        nonblank_lines(ls.drop_last()) + if trim(ls.last()).len() > 0 {
            seq![ls.last()]
        } else {
            Seq::empty()
        }
    }
}

impl SeleneLinter {
    /// The lines of Selene's output that hold a JSON document each: the
    /// non-blank ones.
    pub fn document_lines(stdout: &[u8]) -> (r: Vec<String>)
        ensures
            strings_view(r@) == nonblank_lines(lines_of(utf8_lossy(stdout@))),
    {
        let text = from_utf8_lossy(stdout);
        let ls = split_lines(text.as_str());
        let ghost lv = ls@.map_values(|l: String| l@);
        let mut out: Vec<String> = Vec::new();
        let mut i: usize = 0;
        while i < ls.len()
            invariant
                i <= ls.len(),
                lv == ls@.map_values(|l: String| l@),
                strings_view(out@) == nonblank_lines(lv.subrange(0, i as int)),
            decreases ls.len() - i,
        {
            let lc = chars_of(ls[i].as_str());
            let t = trim_chars(&lc);
            let ghost before = out@;
            proof {
                assert(lv.subrange(0, i + 1).drop_last() =~= lv.subrange(0, i as int));
                assert(lv.subrange(0, i + 1).last() == ls@[i as int]@);
            }
            if t.len() > 0 {
                out.push(ls[i].clone());
                assert(strings_view(out@) =~= strings_view(before).push(ls@[i as int]@));
            } else {
                assert(strings_view(out@) =~= strings_view(before));
            }
            i += 1;
        }
        assert(lv.subrange(0, ls.len() as int) =~= lv);
        out
    }
}

// ---------------------------------------------------------------------------
// Rojo
// ---------------------------------------------------------------------------

/// Result from building a Rojo project.
#[derive(Debug, Clone)]
pub struct RojoBuildResult {
    pub output_path: String,
    pub success: bool,
    pub stdout: Option<String>,
    pub stderr: Option<String>,
}

/// Result from generating a Rojo sourcemap.
#[derive(Debug, Clone)]
pub struct RojoSourcemapResult {
    /// The sourcemap content (JSON).
    pub sourcemap: String,
    /// Path to the sourcemap file if saved.
    pub output_path: Option<String>,
    pub success: bool,
}

/// The Rojo runner.
#[derive(Debug, Default, Clone)]
pub struct DefaultRojoRunner;

pub open spec fn rojo_not_installed() -> ErrorModel {
    ErrorModel::ToolNotInstalled { tool: "rojo"@, install_hint: "Install via: aftman install rojo-rbx/rojo"@ }
}

impl DefaultRojoRunner {
    pub fn new() -> Self {
        DefaultRojoRunner
    }

    /// `rojo build <project> --output <output>`.
    pub fn build_args(project_path: &str, output_path: &str) -> (r: Vec<String>)
        ensures
            strings_view(r@) == seq!["build"@, project_path@, "--output"@, output_path@],
    {
        let mut args: Vec<String> = Vec::new();
        push_arg(&mut args, "build");
        push_arg(&mut args, project_path);
        push_arg(&mut args, "--output");
        push_arg(&mut args, output_path);
        assert(strings_view(args@) =~= seq!["build"@, project_path@, "--output"@, output_path@]);
        args
    }

    /// `rojo sourcemap <project>`, with `--output <output>` when given.
    pub fn sourcemap_args(project_path: &str, output_path: Option<&str>) -> (r: Vec<String>)
        ensures
            strings_view(r@) == seq!["sourcemap"@, project_path@] + match output_path {
                Some(o) => seq!["--output"@, o@],
                None => Seq::empty(),
            },
    {
        let mut args: Vec<String> = Vec::new();
        push_arg(&mut args, "sourcemap");
        push_arg(&mut args, project_path);
        if let Some(o) = output_path {
            push_arg(&mut args, "--output");
            push_arg(&mut args, o);
        }
        let ghost tail = match output_path {
            Some(o) => seq!["--output"@, o@],
            None => Seq::<Seq<char>>::empty(),
        };
        assert(strings_view(args@) =~= seq!["sourcemap"@, project_path@] + tail);
        args
    }

    /// How a failure to run `rojo` is reported.
    pub fn launch_failure(e: RobloxMcpError) -> (r: RobloxMcpError)
        ensures
            is_timeout_error(e) ==> r == e,
            !is_timeout_error(e) ==> r@ == rojo_not_installed(),
    {
        map_launch_error(e, "rojo", "Install via: aftman install rojo-rbx/rojo")
    }

    /// What a `rojo build` run means: its status and its non-empty streams.
    pub fn build_outcome(output_path: &str, out: &ProcessOutput) -> (r: RojoBuildResult)
        ensures
            r.output_path@ == output_path@,
            r.success == out.success,
            opt_str_view(r.stdout) == text_or_none(out.stdout@),
            opt_str_view(r.stderr) == text_or_none(out.stderr@),
    {
        RojoBuildResult {
            output_path: String::from_str(output_path),
            success: out.success,
            stdout: text_or_none_exec(out.stdout.as_slice()),
            stderr: text_or_none_exec(out.stderr.as_slice()),
        }
    }

    /// What a `rojo sourcemap` run means: the sourcemap on success, else an
    /// error carrying the error stream (or a fixed message when it is empty).
    pub fn sourcemap_outcome(output_path: Option<&str>, out: &ProcessOutput) -> (r: Result<RojoSourcemapResult, RobloxMcpError>)
        ensures
            out.success ==> (r matches Ok(m) && m.sourcemap@ == utf8_lossy(out.stdout@) && m.success
                && opt_str_view(m.output_path) == match output_path {
                    Some(o) => Some(o@),
                    None => None,
                }),
            !out.success ==> (r matches Err(e) && e@ == (ErrorModel::ToolExecutionError {
                tool: "rojo sourcemap"@,
                message: if utf8_lossy(out.stderr@).len() == 0 {
                    "Sourcemap generation failed"@
                } else {
                    utf8_lossy(out.stderr@)
                },
            })),
    {
        let stdout = from_utf8_lossy(out.stdout.as_slice());
        let stderr = from_utf8_lossy(out.stderr.as_slice());
        if !out.success {
            let message = if stderr.as_str().is_empty() {
                String::from_str("Sourcemap generation failed")
            } else {
                stderr
            };
            return Err(RobloxMcpError::ToolExecutionError { tool: String::from_str("rojo sourcemap"), message });
        }
        let output_path = match output_path {
            Some(o) => Some(String::from_str(o)),
            None => None,
        };
        Ok(RojoSourcemapResult { sourcemap: stdout, output_path, success: true })
    }
}

// ---------------------------------------------------------------------------
// Wally
// ---------------------------------------------------------------------------

/// Result from installing Wally packages.
#[derive(Debug, Clone)]
pub struct WallyInstallResult {
    /// Where the packages went.
    pub packages_dir: String,
    pub success: bool,
    pub stdout: Option<String>,
    pub stderr: Option<String>,
}

/// Result from updating Wally packages.
#[derive(Debug, Clone)]
pub struct WallyUpdateResult {
    pub success: bool,
    pub stdout: Option<String>,
    pub stderr: Option<String>,
}

/// The Wally runner (`wally install` / `wally update`, run in the project
/// directory).
#[derive(Debug, Default, Clone)]
pub struct DefaultWallyRunner;

impl DefaultWallyRunner {
    pub fn new() -> Self {
        DefaultWallyRunner
    }

    /// How a failure to run `wally` is reported.
    pub fn launch_failure(e: RobloxMcpError) -> (r: RobloxMcpError)
        ensures
            is_timeout_error(e) ==> r == e,
            !is_timeout_error(e) ==> r@ == (ErrorModel::ToolNotInstalled {
                tool: "wally"@,
                install_hint: "Install via: aftman install UpliftGames/wally"@,
            }),
    {
        map_launch_error(e, "wally", "Install via: aftman install UpliftGames/wally")
    }

    /// What a `wally install` run in `project_path` means; the packages go
    /// to its `Packages` directory.
    pub fn install_outcome(project_path: &str, out: &ProcessOutput) -> (r: WallyInstallResult)
        ensures
            r.packages_dir@ == path_pushed(project_path@, "Packages"@),
            r.success == out.success,
            opt_str_view(r.stdout) == text_or_none(out.stdout@),
            opt_str_view(r.stderr) == text_or_none(out.stderr@),
    {
        WallyInstallResult {
            packages_dir: push_path(project_path, "Packages"),
            success: out.success,
            stdout: text_or_none_exec(out.stdout.as_slice()),
            stderr: text_or_none_exec(out.stderr.as_slice()),
        }
    }

    /// What a `wally update` run means.
    pub fn update_outcome(out: &ProcessOutput) -> (r: WallyUpdateResult)
        ensures
            r.success == out.success,
            opt_str_view(r.stdout) == text_or_none(out.stdout@),
            opt_str_view(r.stderr) == text_or_none(out.stderr@),
    {
        WallyUpdateResult {
            success: out.success,
            stdout: text_or_none_exec(out.stdout.as_slice()),
            stderr: text_or_none_exec(out.stderr.as_slice()),
        }
    }
}

// ---------------------------------------------------------------------------
// Moonwave
// ---------------------------------------------------------------------------

/// Result from building Moonwave documentation.
#[derive(Debug, Clone)]
pub struct MoonwaveBuildResult {
    pub output_dir: String,
    pub success: bool,
    pub stdout: Option<String>,
    pub stderr: Option<String>,
}

/// The Moonwave runner (`moonwave build`, run in the project directory).
#[derive(Debug, Default, Clone)]
pub struct DefaultMoonwaveRunner;

impl DefaultMoonwaveRunner {
    pub fn new() -> Self {
        DefaultMoonwaveRunner
    }

    /// `moonwave build`, with `--out <dir>` when given.
    pub fn args(output_dir: Option<&str>) -> (r: Vec<String>)
        ensures
            strings_view(r@) == seq!["build"@] + match output_dir {
                Some(o) => seq!["--out"@, o@],
                None => Seq::empty(),
            },
    {
        let mut args: Vec<String> = Vec::new();
        push_arg(&mut args, "build");
        if let Some(o) = output_dir {
            push_arg(&mut args, "--out");
            push_arg(&mut args, o);
        }
        let ghost tail = match output_dir {
            Some(o) => seq!["--out"@, o@],
            None => Seq::<Seq<char>>::empty(),
        };
        assert(strings_view(args@) =~= seq!["build"@] + tail);
        args
    }

    /// How a failure to run `moonwave` is reported.
    pub fn launch_failure(e: RobloxMcpError) -> (r: RobloxMcpError)
        ensures
            is_timeout_error(e) ==> r == e,
            !is_timeout_error(e) ==> r@ == (ErrorModel::ToolNotInstalled {
                tool: "moonwave"@,
                install_hint: "Install via: npm install -g moonwave"@,
            }),
    {
        map_launch_error(e, "moonwave", "Install via: npm install -g moonwave")
    }

    /// What a `moonwave build` run means; the docs go to the given directory
    /// or to the project's `build` directory.
    pub fn outcome(project_path: &str, output_dir: Option<&str>, out: &ProcessOutput) -> (r: MoonwaveBuildResult)
        ensures
            r.output_dir@ == match output_dir {
                Some(o) => o@,
                None => path_pushed(project_path@, "build"@),
            },
            r.success == out.success,
            opt_str_view(r.stdout) == text_or_none(out.stdout@),
            opt_str_view(r.stderr) == text_or_none(out.stderr@),
    {
        let dir = match output_dir {
            Some(o) => String::from_str(o),
            None => push_path(project_path, "build"),
        };
        MoonwaveBuildResult {
            output_dir: dir,
            success: out.success,
            stdout: text_or_none_exec(out.stdout.as_slice()),
            stderr: text_or_none_exec(out.stderr.as_slice()),
        }
    }
}

// ---------------------------------------------------------------------------
// Lune
// ---------------------------------------------------------------------------

/// Result from running a Lune script.
#[derive(Debug, Clone)]
pub struct LuneRunResult {
    pub success: bool,
    pub exit_code: Option<i32>,
    pub signal: Option<i32>,
    pub stdout: Option<String>,
    pub stderr: Option<String>,
    pub duration_ms: u64,
}

/// Time limit for evaluating a code snippet, in seconds, when none is given.
pub const LUNE_EVAL_TIMEOUT_SECS: u64 = 10;

/// The Lune runner.
#[derive(Debug, Default, Clone)]
pub struct DefaultLuneRunner;

impl DefaultLuneRunner {
    pub fn new() -> Self {
        DefaultLuneRunner
    }

    /// `lune run <script>`, followed by `--` and the script's arguments when
    /// there are any.
    pub fn run_args(script_path: &str, args: &Vec<String>) -> (r: Vec<String>)
        ensures
            strings_view(r@) == seq!["run"@, script_path@] + if args.len() == 0 {
                Seq::empty()
            } else {
                seq!["--"@] + strings_view(args@)
            },
    {
        let mut out: Vec<String> = Vec::new();
        push_arg(&mut out, "run");
        push_arg(&mut out, script_path);
        if args.len() > 0 {
            push_arg(&mut out, "--");
            let ghost base = strings_view(out@);
            let mut i: usize = 0;
            while i < args.len()
                invariant
                    i <= args.len(),
                    strings_view(out@) == base + strings_view(args@.subrange(0, i as int)),
                decreases args.len() - i,
            {
                let ghost before = out@;
                out.push(args[i].clone());
                assert(strings_view(out@) =~= strings_view(before).push(args@[i as int]@));
                assert(strings_view(args@.subrange(0, i + 1)) =~= strings_view(args@.subrange(0, i as int)).push(args@[i as int]@));
                i += 1;
            }
            assert(args@.subrange(0, args.len() as int) =~= args@);
        } else {
            assert(strings_view(out@) =~= seq!["run"@, script_path@] + Seq::<Seq<char>>::empty());
        }
        out
    }

    /// How a failure to run `lune` is reported.
    pub fn launch_failure(e: RobloxMcpError) -> (r: RobloxMcpError)
        ensures
            is_timeout_error(e) ==> r == e,
            !is_timeout_error(e) ==> r@ == (ErrorModel::ToolNotInstalled {
                tool: "lune"@,
                install_hint: "Install via: rokit add lune-org/lune"@,
            }),
    {
        map_launch_error(e, "lune", "Install via: rokit add lune-org/lune")
    }

    /// What a `lune` run that took `duration_ms` means.
    pub fn run_outcome(out: &ProcessOutput, duration_ms: u64) -> (r: LuneRunResult)
        ensures
            r.success == out.success,
            r.exit_code == out.code,
            r.signal == out.signal,
            opt_str_view(r.stdout) == text_or_none(out.stdout@),
            opt_str_view(r.stderr) == text_or_none(out.stderr@),
            r.duration_ms == duration_ms,
    {
        LuneRunResult {
            success: out.success,
            exit_code: out.code,
            signal: out.signal,
            stdout: text_or_none_exec(out.stdout.as_slice()),
            stderr: text_or_none_exec(out.stderr.as_slice()),
            duration_ms,
        }
    }

    /// The time limit for evaluating a snippet: the one given, else
    /// `LUNE_EVAL_TIMEOUT_SECS` seconds (in milliseconds).
    pub fn eval_timeout_ms(timeout_ms: Option<u64>) -> (r: u64)
        ensures
            r == match timeout_ms {
                Some(t) => t as int,
                None => LUNE_EVAL_TIMEOUT_SECS * 1000,
            },
    {
        match timeout_ms {
            Some(t) => t,
            None => LUNE_EVAL_TIMEOUT_SECS * 1000,
        }
    }
}

// ---------------------------------------------------------------------------
// luau-lsp
// ---------------------------------------------------------------------------

/// The luau-lsp analyzer.
#[derive(Debug, Default, Clone)]
pub struct DefaultLuauLspRunner;

impl DefaultLuauLspRunner {
    pub fn new() -> Self {
        DefaultLuauLspRunner
    }

    /// `luau-lsp analyze`, the sourcemap if given, each definitions file,
    /// then the path.
    pub fn args(path: &str, sourcemap_path: Option<&str>, definitions: &Vec<String>) -> (r: Vec<String>)
        ensures
            strings_view(r@) == seq!["analyze"@] + (match sourcemap_path {
                Some(s) => seq!["--sourcemap="@ + s@],
                None => Seq::empty(),
            }) + strings_view(definitions@).map_values(|d: Seq<char>| "--definitions="@ + d) + seq![path@],
    {
        let mut out: Vec<String> = Vec::new();
        push_arg(&mut out, "analyze");
        if let Some(s) = sourcemap_path {
            push_arg2(&mut out, "--sourcemap=", s);
        }
        let ghost base = strings_view(out@);
        let mut i: usize = 0;
        while i < definitions.len()
            invariant
                i <= definitions.len(),
                strings_view(out@) == base + strings_view(definitions@.subrange(0, i as int)).map_values(
                    |d: Seq<char>| "--definitions="@ + d,
                ),
            decreases definitions.len() - i,
        {
            let ghost before = out@;
            push_arg2(&mut out, "--definitions=", definitions[i].as_str());
            assert(strings_view(definitions@.subrange(0, i + 1)).map_values(|d: Seq<char>| "--definitions="@ + d)
                =~= strings_view(definitions@.subrange(0, i as int)).map_values(|d: Seq<char>| "--definitions="@ + d).push(
                "--definitions="@ + definitions@[i as int]@,
            ));
            i += 1;
        }
        assert(definitions@.subrange(0, definitions.len() as int) =~= definitions@);
        let ghost mid = strings_view(out@);
        push_arg(&mut out, path);
        let ghost sm = match sourcemap_path {
            Some(s) => seq!["--sourcemap="@ + s@],
            None => Seq::<Seq<char>>::empty(),
        };
        assert(base =~= seq!["analyze"@] + sm);
        assert(strings_view(out@) =~= seq!["analyze"@] + sm + strings_view(definitions@).map_values(
            |d: Seq<char>| "--definitions="@ + d,
        ) + seq![path@]);
        out
    }

    /// How a failure to run `luau-lsp` is reported.
    pub fn launch_failure(e: RobloxMcpError) -> (r: RobloxMcpError)
        ensures
            is_timeout_error(e) ==> r == e,
            !is_timeout_error(e) ==> r@ == (ErrorModel::ToolNotInstalled {
                tool: "luau-lsp"@,
                install_hint: "Install via: aftman add johnnymorganz/luau-lsp"@,
            }),
    {
        map_launch_error(e, "luau-lsp", "Install via: aftman add johnnymorganz/luau-lsp")
    }
}

/// A reported output stream is the whole of what the process wrote, read
/// as lossy UTF-8: nothing when that text is empty, else all of it.
pub proof fn law_stream_is_whole_output(b: Seq<u8>)
    ensures
        (text_or_none(b) is None) == (utf8_lossy(b).len() == 0),
        text_or_none(b) matches Some(t) ==> t == utf8_lossy(b) && t.len() == utf8_lossy(b).len(),
{
}

/// Whether lint diagnostic `l` reports Selene diagnostic `d`: placed at the
/// start of its primary span (line and column), ending at the span's end,
/// with its severity, code and message.
pub open spec fn reports(l: LintModel, d: SeleneDiagnostic) -> bool {
    &&& l.line == d.primary_label.span.start_line
    &&& l.column == d.primary_label.span.start_column
    &&& l.end_line == Some(d.primary_label.span.end_line)
    &&& l.end_column == Some(d.primary_label.span.end_column)
    &&& l.severity == d.severity@
    &&& l.code == d.code@
    &&& l.message == d.message@
}

/// Whether the `k`-th lint diagnostic of `outs` reports one of their Selene
/// diagnostics.
pub open spec fn lint_has_source(outs: Seq<SeleneOutput>, k: int) -> bool {
    exists|i: int, j: int|
        0 <= i < outs.len() && 0 <= j < outs[i].diagnostics@.len() && #[trigger] reports(
            selene_lints(outs)[k],
            outs[i].diagnostics@[j],
        )
}

/// Whether Selene diagnostic `j` of document `i` is reported by one of the
/// lint diagnostics of `outs`.
pub open spec fn diag_is_reported(outs: Seq<SeleneOutput>, i: int, j: int) -> bool {
    exists|k: int| 0 <= k < selene_lints(outs).len() && #[trigger] reports(selene_lints(outs)[k], outs[i].diagnostics@[j])
}

proof fn lemma_selene_sound(outs: Seq<SeleneOutput>)
    ensures
        forall|k: int| 0 <= k < selene_lints(outs).len() ==> #[trigger] lint_has_source(outs, k),
    decreases outs.len(),
{
    if outs.len() > 0 {
        let init = outs.drop_last();
        lemma_selene_sound(init);
        let prev = selene_lints(init);
        let n = outs.len() - 1;
        let last = outs[n].diagnostics@.map_values(|d: SeleneDiagnostic| selene_lint(d));
        assert(selene_lints(outs) == prev + last);
        assert forall|k: int| 0 <= k < selene_lints(outs).len() implies #[trigger] lint_has_source(outs, k) by {
            if k < prev.len() {
                assert(selene_lints(outs)[k] == prev[k]);
                assert(lint_has_source(init, k));
                let (i0, j0) = choose|i: int, j: int|
                    0 <= i < init.len() && 0 <= j < init[i].diagnostics@.len() && #[trigger] reports(
                        selene_lints(init)[k],
                        init[i].diagnostics@[j],
                    );
                assert(outs[i0] == init[i0]);
                assert(reports(selene_lints(outs)[k], outs[i0].diagnostics@[j0]));
            } else {
                let j0 = k - prev.len();
                assert(selene_lints(outs)[k] == last[j0]);
                assert(reports(selene_lints(outs)[k], outs[n].diagnostics@[j0]));
            }
        }
    }
}

proof fn lemma_selene_complete(outs: Seq<SeleneOutput>)
    ensures
        forall|i: int, j: int|
            0 <= i < outs.len() && 0 <= j < outs[i].diagnostics@.len() ==> #[trigger] diag_is_reported(outs, i, j),
    decreases outs.len(),
{
    if outs.len() > 0 {
        let init = outs.drop_last();
        lemma_selene_complete(init);
        let prev = selene_lints(init);
        let n = outs.len() - 1;
        let last = outs[n].diagnostics@.map_values(|d: SeleneDiagnostic| selene_lint(d));
        assert(selene_lints(outs) == prev + last);
        assert forall|i: int, j: int| 0 <= i < outs.len() && 0 <= j < outs[i].diagnostics@.len() implies #[trigger] diag_is_reported(
            outs,
            i,
            j,
        ) by {
            if i < n {
                assert(outs[i] == init[i]);
                assert(diag_is_reported(init, i, j));
                let k = choose|k: int| 0 <= k < prev.len() && #[trigger] reports(selene_lints(init)[k], init[i].diagnostics@[j]);
                assert(selene_lints(outs)[k] == prev[k]);
                assert(reports(selene_lints(outs)[k], outs[i].diagnostics@[j]));
            } else {
                let k = prev.len() + j;
                assert(selene_lints(outs)[k] == last[j]);
                assert(reports(selene_lints(outs)[k], outs[i].diagnostics@[j]));
            }
        }
    }
}

/// Every lint diagnostic reports one of Selene's diagnostics (placed at
/// the start of its primary span), and every one of those is reported.
pub proof fn law_selene_positions(outs: Seq<SeleneOutput>)
    ensures
        forall|k: int| 0 <= k < selene_lints(outs).len() ==> #[trigger] lint_has_source(outs, k),
        forall|i: int, j: int|
            0 <= i < outs.len() && 0 <= j < outs[i].diagnostics@.len() ==> #[trigger] diag_is_reported(outs, i, j),
{
    lemma_selene_sound(outs);
    lemma_selene_complete(outs);
}

} // verus!
