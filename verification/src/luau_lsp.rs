//! Reading `luau-lsp analyze` output.
//!
//! Each diagnostic line has the form `file.luau(line,col): severity: message`
//! or `file.luau(line,col-endcol): severity: message`; a message may start
//! with a `[Code]`.

use vstd::prelude::*;
use crate::error::RobloxMcpError;
use crate::text::{
    after_char, before_char, chars_of, contains_char, copy_range, find_char, find_char_exec,
    find_char_from, from_utf8_lossy, lemma_find_char, lowercase, parse_u32, parse_u32_exec,
    string_from_chars, to_lowercase, trim, trim_chars, utf8_lossy,
};

verus! {

/// Result from analyzing Luau scripts
#[derive(Debug, Clone)]
pub struct AnalyzeResult {
    /// Root path that was analyzed
    pub path: String,
    /// List of diagnostics found
    pub diagnostics: Vec<AnalyzeDiagnostic>,
    /// Total error count
    pub error_count: usize,
    /// Total warning count
    pub warning_count: usize,
    /// Files analyzed count
    pub files_analyzed: usize,
}

/// Individual diagnostic from luau-lsp analyze
#[derive(Debug, Clone)]
pub struct AnalyzeDiagnostic {
    /// Severity: "Error", "Warning", "Information", "Hint"
    pub severity: String,
    /// Diagnostic code (e.g., "TypeError", "UnknownGlobal")
    pub code: String,
    /// Human-readable message
    pub message: String,
    /// File path where diagnostic occurred
    pub file: String,
    /// Start line (1-indexed)
    pub start_line: u32,
    /// Start column (1-indexed)
    pub start_column: u32,
    /// End line (1-indexed)
    pub end_line: Option<u32>,
    /// End column (1-indexed)
    pub end_column: Option<u32>,
}

/// A diagnostic with its text fields as sequences.
pub struct DiagModel {
    pub severity: Seq<char>,
    pub code: Seq<char>,
    pub message: Seq<char>,
    pub file: Seq<char>,
    pub start_line: u32,
    pub start_column: u32,
    pub end_line: Option<u32>,
    pub end_column: Option<u32>,
}

pub open spec fn diag_view(d: AnalyzeDiagnostic) -> DiagModel {
    DiagModel {
        severity: d.severity@,
        code: d.code@,
        message: d.message@,
        file: d.file@,
        start_line: d.start_line,
        start_column: d.start_column,
        end_line: d.end_line,
        end_column: d.end_column,
    }
}

/// `str::trim_start_matches(':')`.
pub open spec fn trim_start_colons(s: Seq<char>) -> Seq<char>
    decreases s.len(),
{
    if s.len() > 0 && s[0] == ':' {
        trim_start_colons(s.drop_first())
    } else {
        s
    }
}

/// Start column and optional end column of `col` or `col-endcol`.
pub open spec fn parse_columns(col: Seq<char>) -> Option<(u32, Option<u32>)> {
    if contains_char(col, '-') {
        match (
            parse_u32(trim(before_char(col, '-'))),
            parse_u32(trim(before_char(after_char(col, '-'), '-'))),
        ) {
            (Some(s), Some(e)) => Some((s, Some(e))),
            _ => None,
        }
    } else {
        match parse_u32(col) {
            Some(c) => Some((c, None)),
            None => None,
        }
    }
}

/// Splits `[Code] text` into its code and the trimmed text; other messages
/// get the code `Unknown`.
pub open spec fn split_code(message: Seq<char>) -> (Seq<char>, Seq<char>) {
    if message.len() > 0 && message[0] == '[' {
        match find_char(message, ']') {
            Some(e) => (message.subrange(1, e), trim(message.subrange(e + 1, message.len() as int))),
            None => ("Unknown"@, message),
        }
    } else {
        ("Unknown"@, message)
    }
}

/// The diagnostic a line describes, if it is a diagnostic line.
pub open spec fn parse_diagnostic_spec(line: Seq<char>) -> Option<DiagModel> {
    match (find_char(line, '('), find_char(line, ')')) {
        (Some(a), Some(b)) => if b <= a {
            None
        } else {
            let pos = line.subrange(a + 1, b);
            if !contains_char(pos, ',') {
                None
            } else {
                match parse_u32(trim(before_char(pos, ','))) {
                    None => None,
                    Some(start_line) => match parse_columns(
                        trim(before_char(after_char(pos, ','), ',')),
                    ) {
                        None => None,
                        Some((start_column, end_column)) => {
                            let rest = trim(trim_start_colons(line.subrange(b + 1, line.len() as int)));
                            match find_char(rest, ':') {
                                None => None,
                                Some(k) => {
                                    let message = trim(rest.subrange(k + 1, rest.len() as int));
                                    Some(
                                        DiagModel {
                                            severity: trim(rest.subrange(0, k)),
                                            code: split_code(message).0,
                                            message: split_code(message).1,
                                            file: line.subrange(0, a),
                                            start_line,
                                            start_column,
                                            end_line: Some(start_line),
                                            end_column,
                                        },
                                    )
                                },
                            }
                        },
                    },
                }
            }
        },
        _ => None,
    }
}

fn trim_start_colons_exec(v: &Vec<char>, from: usize) -> (r: usize)
    requires
        from <= v.len(),
    ensures
        from <= r <= v.len(),
        trim_start_colons(v@.subrange(from as int, v.len() as int)) == v@.subrange(r as int, v.len() as int),
{
    let len = v.len();
    let mut i = from;
    while i < len && v[i] == ':'
        invariant
            from <= i <= len == v.len(),
            trim_start_colons(v@.subrange(from as int, len as int)) == trim_start_colons(
                v@.subrange(i as int, len as int),
            ),
        decreases len - i,
    {
        assert(v@.subrange(i + 1, len as int) =~= v@.subrange(i as int, len as int).drop_first());
        i += 1;
    }
    i
}

fn parse_columns_exec(col: &Vec<char>) -> (r: Option<(u32, Option<u32>)>)
    ensures
        r == parse_columns(col@),
{
    proof {
        lemma_find_char(col@, '-');
    }
    match find_char_exec(col, '-') {
        Some(i) => {
            let first = copy_range(col, 0, i);
            let first = trim_chars(&first);
            let after = copy_range(col, i + 1, col.len());
            proof {
                lemma_find_char(after@, '-');
            }
            let second = match find_char_exec(&after, '-') {
                Some(j) => copy_range(&after, 0, j),
                None => copy_range(&after, 0, after.len()),
            };
            assert(second@ == before_char(after_char(col@, '-'), '-')) by {
                assert(after@ == after_char(col@, '-'));
                assert(after@.subrange(0, after@.len() as int) =~= after@);
            }
            let second = trim_chars(&second);
            let s = parse_u32_exec(&first);
            let e = parse_u32_exec(&second);
            match (s, e) {
                (Some(s), Some(e)) => Some((s, Some(e))),
                _ => None,
            }
        },
        None => match parse_u32_exec(col) {
            Some(c) => Some((c, None)),
            None => None,
        },
    }
}

fn split_code_exec(message: &Vec<char>) -> (r: (Vec<char>, Vec<char>))
    ensures
        (r.0@, r.1@) == split_code(message@),
{
    if message.len() > 0 && message[0] == '[' {
        proof {
            lemma_find_char(message@, ']');
        }
        match find_char_exec(message, ']') {
            Some(e) => {
                let code = copy_range(message, 1, e);
                let rest = copy_range(message, e + 1, message.len());
                (code, trim_chars(&rest))
            },
            None => (chars_of("Unknown"), copy_range(message, 0, message.len())),
        }
    } else {
        let r = (chars_of("Unknown"), copy_range(message, 0, message.len()));
        assert(message@.subrange(0, message@.len() as int) =~= message@);
        r
    }
}

/// Parse a single diagnostic line from luau-lsp output
///
/// Format: `file.luau(line,col-endcol): severity: message`
/// Or:     `file.luau(line,col): severity: message`
pub fn parse_diagnostic_line(line: &str) -> (r: Option<AnalyzeDiagnostic>)
    ensures
        match r {
            Some(d) => parse_diagnostic_spec(line@) == Some(diag_view(d)),
            None => parse_diagnostic_spec(line@) is None,
        },
{
    let v = chars_of(line);
    parse_diagnostic_chars(&v)
}

fn parse_diagnostic_chars(v: &Vec<char>) -> (r: Option<AnalyzeDiagnostic>)
    ensures
        match r {
            Some(d) => parse_diagnostic_spec(v@) == Some(diag_view(d)),
            None => parse_diagnostic_spec(v@) is None,
        },
{
    proof {
        lemma_find_char(v@, '(');
        lemma_find_char(v@, ')');
    }
    let a = match find_char_exec(v, '(') {
        Some(a) => a,
        None => return None,
    };
    let b = match find_char_exec(v, ')') {
        Some(b) => b,
        None => return None,
    };
    if b <= a {
        return None;
    }
    let pos = copy_range(v, a + 1, b);
    proof {
        lemma_find_char(pos@, ',');
    }
    let comma = match find_char_exec(&pos, ',') {
        Some(c) => c,
        None => return None,
    };
    let p0 = copy_range(&pos, 0, comma);
    let p0 = trim_chars(&p0);
    let start_line = match parse_u32_exec(&p0) {
        Some(n) => n,
        None => return None,
    };
    let after = copy_range(&pos, comma + 1, pos.len());
    proof {
        lemma_find_char(after@, ',');
    }
    let p1 = match find_char_exec(&after, ',') {
        Some(j) => copy_range(&after, 0, j),
        None => copy_range(&after, 0, after.len()),
    };
    assert(p1@ == before_char(after_char(pos@, ','), ',')) by {
        assert(after@.subrange(0, after@.len() as int) =~= after@);
    }
    let col = trim_chars(&p1);
    let (start_column, end_column) = match parse_columns_exec(&col) {
        Some(c) => c,
        None => return None,
    };
    let r0 = trim_start_colons_exec(v, b + 1);
    let rest = copy_range(v, r0, v.len());
    let rest = trim_chars(&rest);
    proof {
        lemma_find_char(rest@, ':');
    }
    let k = match find_char_exec(&rest, ':') {
        Some(k) => k,
        None => return None,
    };
    let sev = copy_range(&rest, 0, k);
    let sev = trim_chars(&sev);
    let msg = copy_range(&rest, k + 1, rest.len());
    let msg = trim_chars(&msg);
    let (code, clean) = split_code_exec(&msg);
    let file = copy_range(v, 0, a);
    Some(
        AnalyzeDiagnostic {
            severity: string_from_chars(&sev),
            code: string_from_chars(&code),
            message: string_from_chars(&clean),
            file: string_from_chars(&file),
            start_line,
            start_column,
            end_line: Some(start_line),
            end_column,
        },
    )
}

/// The diagnostics in a block of output, one line at a time: each line is
/// trimmed, blank lines are skipped and lines that are not diagnostics ignored.
pub open spec fn diags_of_text(s: Seq<char>) -> Seq<DiagModel>
    decreases s.len(),
{
    let line = trim(before_char(s, '\n'));
    let head: Seq<DiagModel> = if line.len() == 0 {
        Seq::empty()
    } else {
        match parse_diagnostic_spec(line) {
            Some(d) => seq![d],
            None => Seq::empty(),
        }
    };
    if contains_char(s, '\n') {
        proof {
            lemma_find_char(s, '\n');
        }
        head + diags_of_text(after_char(s, '\n'))
    } else {
        head
    }
}

/// How many diagnostics have a severity whose lower-case form is `sev`.
pub open spec fn count_severity(ds: Seq<DiagModel>, sev: Seq<char>) -> nat
    decreases ds.len(),
{
    if ds.len() == 0 {
        0
    } else {
        count_severity(ds.drop_last(), sev) + if lowercase(ds.last().severity) == sev {
            1nat
        } else {
            0nat
        }
    }
}

/// Number of distinct values in a sequence.
pub open spec fn distinct_count(fs: Seq<Seq<char>>) -> nat
    decreases fs.len(),
{
    if fs.len() == 0 {
        0
    } else {
        distinct_count(fs.drop_last()) + if fs.drop_last().contains(fs.last()) {
            0nat
        } else {
            1nat
        }
    }
}

/// stdout when it has any text, else stderr.
pub open spec fn combined_output(stdout: Seq<u8>, stderr: Seq<u8>) -> Seq<char> {
    if utf8_lossy(stdout).len() == 0 {
        utf8_lossy(stderr)
    } else {
        utf8_lossy(stdout)
    }
}

/// The diagnostics of an analyze run.
pub open spec fn output_diags(stdout: Seq<u8>, stderr: Seq<u8>) -> Seq<DiagModel> {
    diags_of_text(combined_output(stdout, stderr))
}

fn parse_lines(v: &Vec<char>) -> (r: Vec<AnalyzeDiagnostic>)
    ensures
        r@.map_values(|d: AnalyzeDiagnostic| diag_view(d)) == diags_of_text(v@),
{
    let len = v.len();
    let mut out: Vec<AnalyzeDiagnostic> = Vec::new();
    let mut start: usize = 0;
    assert(v@.subrange(0, len as int) =~= v@);
    loop
        invariant
            start <= len == v.len(),
            diags_of_text(v@) == out@.map_values(|d: AnalyzeDiagnostic| diag_view(d)) + diags_of_text(
                v@.subrange(start as int, len as int),
            ),
        decreases len - start,
    {
        let ghost rest = v@.subrange(start as int, len as int);
        proof {
            lemma_find_char(rest, '\n');
        }
        let nl = find_char_from(v, '\n', start);
        let end = match nl {
            Some(i) => i,
            None => len,
        };
        let line = copy_range(v, start, end);
        assert(line@ == before_char(rest, '\n')) by {
            if nl is None {
                assert(rest =~= v@.subrange(start as int, len as int));
            }
        }
        let t = trim_chars(&line);
        let ghost head: Seq<DiagModel> = if t@.len() == 0 {
            Seq::empty()
        } else {
            match parse_diagnostic_spec(t@) {
                Some(d) => seq![d],
                None => Seq::empty(),
            }
        };
        let ghost before = out@.map_values(|d: AnalyzeDiagnostic| diag_view(d));
        if t.len() > 0 {
            match parse_diagnostic_chars(&t) {
                Some(d) => {
                    out.push(d);
                    assert(out@.map_values(|d: AnalyzeDiagnostic| diag_view(d)) =~= before + head);
                },
                None => {
                    assert(out@.map_values(|d: AnalyzeDiagnostic| diag_view(d)) =~= before + head);
                },
            }
        } else {
            assert(out@.map_values(|d: AnalyzeDiagnostic| diag_view(d)) =~= before + head);
        }
        match nl {
            Some(i) => {
                assert(after_char(rest, '\n') =~= v@.subrange(i + 1, len as int));
                assert(diags_of_text(rest) == head + diags_of_text(v@.subrange(i + 1, len as int)));
                assert(before + (head + diags_of_text(v@.subrange(i + 1, len as int))) =~= (before + head)
                    + diags_of_text(v@.subrange(i + 1, len as int)));
                start = i + 1;
            },
            None => {
                assert(diags_of_text(rest) == head);
                assert(diags_of_text(v@) =~= out@.map_values(|d: AnalyzeDiagnostic| diag_view(d)));
                return out;
            },
        }
    }
}

fn count_severity_exec(ds: &Vec<AnalyzeDiagnostic>, sev: &str) -> (n: usize)
    ensures
        n == count_severity(ds@.map_values(|d: AnalyzeDiagnostic| diag_view(d)), sev@),
{
    let target = String::from_str(sev);
    let mut n: usize = 0;
    let mut i: usize = 0;
    while i < ds.len()
        invariant
            i <= ds.len(),
            n <= i,
            target@ == sev@,
            n == count_severity(ds@.subrange(0, i as int).map_values(|d: AnalyzeDiagnostic| diag_view(d)), sev@),
        decreases ds.len() - i,
    {
        let lower = to_lowercase(ds[i].severity.as_str());
        let ghost prev = ds@.subrange(0, i as int).map_values(|d: AnalyzeDiagnostic| diag_view(d));
        let ghost next = ds@.subrange(0, i + 1).map_values(|d: AnalyzeDiagnostic| diag_view(d));
        assert(next.drop_last() =~= prev);
        if lower == target {
            n += 1;
        }
        i += 1;
    }
    assert(ds@.subrange(0, ds.len() as int) =~= ds@);
    n
}

fn distinct_files(ds: &Vec<AnalyzeDiagnostic>) -> (n: usize)
    ensures
        n == distinct_count(ds@.map_values(|d: AnalyzeDiagnostic| d.file@)),
{
    let mut n: usize = 0;
    let mut i: usize = 0;
    while i < ds.len()
        invariant
            i <= ds.len(),
            n <= i,
            n == distinct_count(ds@.subrange(0, i as int).map_values(|d: AnalyzeDiagnostic| d.file@)),
        decreases ds.len() - i,
    {
        let ghost prev = ds@.subrange(0, i as int).map_values(|d: AnalyzeDiagnostic| d.file@);
        let ghost next = ds@.subrange(0, i + 1).map_values(|d: AnalyzeDiagnostic| d.file@);
        assert(next.drop_last() =~= prev);
        let mut seen = false;
        let mut j: usize = 0;
        while j < i
            invariant
                j <= i < ds.len(),
                prev == ds@.subrange(0, i as int).map_values(|d: AnalyzeDiagnostic| d.file@),
                seen == exists|k: int| 0 <= k < j && prev[k] == ds@[i as int].file@,
            decreases i - j,
        {
            assert(prev[j as int] == ds@[j as int].file@);
            if ds[j].file == ds[i].file {
                seen = true;
            }
            j += 1;
        }
        assert(next.last() == ds@[i as int].file@);
        assert(seen == prev.contains(next.last())) by {
            if seen {
                let k = choose|k: int| 0 <= k < i && prev[k] == ds@[i as int].file@;
                assert(prev[k] == next.last());
            }
            if prev.contains(next.last()) {
                let k = choose|k: int| 0 <= k < prev.len() && prev[k] == next.last();
                assert(0 <= k < i && prev[k] == ds@[i as int].file@);
            }
        }
        if !seen {
            n += 1;
        }
        i += 1;
    }
    assert(ds@.subrange(0, ds.len() as int) =~= ds@);
    n
}

/// The analyze result for a run's output.
pub struct AnalyzeModel {
    pub path: Seq<char>,
    pub diagnostics: Seq<DiagModel>,
    pub error_count: nat,
    pub warning_count: nat,
    pub files_analyzed: nat,
}

pub open spec fn analyze_spec(stdout: Seq<u8>, stderr: Seq<u8>, path: Seq<char>) -> AnalyzeModel {
    let ds = output_diags(stdout, stderr);
    AnalyzeModel {
        path,
        diagnostics: ds,
        error_count: count_severity(ds, "error"@),
        warning_count: count_severity(ds, "warning"@),
        files_analyzed: distinct_count(ds.map_values(|d: DiagModel| d.file)),
    }
}

pub open spec fn analyze_view(r: AnalyzeResult) -> AnalyzeModel {
    AnalyzeModel {
        path: r.path@,
        diagnostics: r.diagnostics@.map_values(|d: AnalyzeDiagnostic| diag_view(d)),
        error_count: r.error_count as nat,
        warning_count: r.warning_count as nat,
        files_analyzed: r.files_analyzed as nat,
    }
}

/// Parse luau-lsp output into AnalyzeResult
///
/// luau-lsp analyze outputs diagnostics in a plain text format by default:
/// `file.luau(line,col): severity: message`; it may write them to stdout or
/// to stderr.
pub fn parse_luau_lsp_output(stdout: &[u8], stderr: &[u8], path: &str) -> (r: Result<AnalyzeResult, RobloxMcpError>)
    ensures
        r matches Ok(res) && analyze_view(res) == analyze_spec(stdout@, stderr@, path@),
{
    let out_s = from_utf8_lossy(stdout);
    let err_s = from_utf8_lossy(stderr);
    let combined = if out_s.as_str().is_empty() {
        err_s
    } else {
        out_s
    };
    let text = chars_of(combined.as_str());
    let diagnostics = parse_lines(&text);
    let error_count = count_severity_exec(&diagnostics, "error");
    let warning_count = count_severity_exec(&diagnostics, "warning");
    let files_analyzed = distinct_files(&diagnostics);
    let ghost ds = diagnostics@.map_values(|d: AnalyzeDiagnostic| diag_view(d));
    assert(ds.map_values(|d: DiagModel| d.file) =~= diagnostics@.map_values(|d: AnalyzeDiagnostic| d.file@));
    Ok(
        AnalyzeResult {
            path: String::from_str(path),
            diagnostics,
            error_count,
            warning_count,
            files_analyzed,
        },
    )
}

/// The tail of a diagnostic line after its position: the text after the
/// closing parenthesis, with leading colons and surrounding blanks removed.
pub open spec fn after_position(line: Seq<char>, b: int) -> Seq<char> {
    trim(trim_start_colons(line.subrange(b + 1, line.len() as int)))
}

/// A parsed diagnostic line `file(line,col): severity: message` names the
/// file before its first `(`; past the position (up to the first `)`), everything before the first colon
/// is the severity and everything after it is the message: a message that
/// does not open with `[` is kept whole (colons included) with the code
/// `Unknown`, and a leading `[Code]` gives the code and the text after it.
pub proof fn law_diagnostic_message(line: Seq<char>)
    ensures
        parse_diagnostic_spec(line) matches Some(d) ==> exists|a: int, b: int, sev: Seq<char>, m: Seq<char>|
            #![trigger after_position(line, b), line.subrange(0, a), sev + seq![':'] + m]
            0 <= a < b < line.len() && line[a] == '(' && line[b] == ')' && (forall|i: int|
                0 <= i < a ==> line[i] != '(') && (forall|i: int| 0 <= i < b ==> line[i] != ')')
                && d.file == line.subrange(0, a)
                && after_position(line, b) == sev + seq![':'] + m && (forall|i: int|
                0 <= i < sev.len() ==> sev[i] != ':') && d.severity == trim(sev) && (trim(m).len() == 0
                || trim(m)[0] != '[' ==> d.message == trim(m) && d.code == "Unknown"@) && (trim(m).len() > 0
                && trim(m)[0] == '[' && contains_char(trim(m), ']') ==> d.code == trim(m).subrange(
                1,
                find_char(trim(m), ']')->0,
            ) && d.message == trim(trim(m).subrange(find_char(trim(m), ']')->0 + 1, trim(m).len() as int))),
{
    if let Some(d) = parse_diagnostic_spec(line) {
        let a = find_char(line, '(')->0;
        let b = find_char(line, ')')->0;
        lemma_find_char(line, '(');
        lemma_find_char(line, ')');
        let rest = after_position(line, b);
        lemma_find_char(rest, ':');
        let k = find_char(rest, ':')->0;
        let sev = rest.subrange(0, k);
        let m = rest.subrange(k + 1, rest.len() as int);
        assert(rest =~= sev + seq![':'] + m);
        lemma_find_char(trim(m), ']');
        if contains_char(trim(m), ']') {
            lemma_find_char(trim(m), ']');
        }
        assert(line.subrange(0, a) == d.file);
    }
}

} // verus!
