use roblox_studio_mcp::luau_lsp::{parse_diagnostic_line, parse_luau_lsp_output};
use roblox_studio_mcp::runners::DefaultLuauLspRunner;

#[test]
fn test_parse_empty_output() {
    let result = parse_luau_lsp_output(b"", b"", "src/");
    assert!(result.is_ok());
    let res = result.unwrap();
    assert!(res.diagnostics.is_empty());
    assert_eq!(res.error_count, 0);
    assert_eq!(res.warning_count, 0);
}

#[test]
fn test_parse_single_error() {
    let output = b"src/main.luau(10,5): Error: Type 'string' could not be converted into 'number'";
    let result = parse_luau_lsp_output(output, b"", "src/");
    assert!(result.is_ok());

    let res = result.unwrap();
    assert_eq!(res.diagnostics.len(), 1);
    assert_eq!(res.error_count, 1);
    assert_eq!(res.warning_count, 0);

    let diag = &res.diagnostics[0];
    assert_eq!(diag.severity, "Error");
    assert_eq!(diag.file, "src/main.luau");
    assert_eq!(diag.start_line, 10);
    assert_eq!(diag.start_column, 5);
}

#[test]
fn test_parse_warning() {
    let output = b"src/utils.luau(25,1): Warning: Variable 'x' is unused";
    let result = parse_luau_lsp_output(output, b"", "src/");
    assert!(result.is_ok());

    let res = result.unwrap();
    assert_eq!(res.diagnostics.len(), 1);
    assert_eq!(res.error_count, 0);
    assert_eq!(res.warning_count, 1);
}

#[test]
fn test_parse_multiple_diagnostics() {
    let output = b"src/a.luau(1,1): Error: First error\nsrc/b.luau(2,2): Warning: A warning\nsrc/a.luau(3,3): Error: Second error";
    let result = parse_luau_lsp_output(output, b"", "src/");
    assert!(result.is_ok());

    let res = result.unwrap();
    assert_eq!(res.diagnostics.len(), 3);
    assert_eq!(res.error_count, 2);
    assert_eq!(res.warning_count, 1);
    assert_eq!(res.files_analyzed, 2);
}

#[test]
fn test_parse_with_column_range() {
    let output = b"test.luau(15,10-25): Error: Invalid syntax";
    let result = parse_luau_lsp_output(output, b"", "test.luau");
    assert!(result.is_ok());

    let res = result.unwrap();
    assert_eq!(res.diagnostics.len(), 1);

    let diag = &res.diagnostics[0];
    assert_eq!(diag.start_column, 10);
    assert_eq!(diag.end_column, Some(25));
}

#[test]
fn test_parse_with_code_in_message() {
    let output = b"test.luau(1,1): Error: [TypeError] Type mismatch";
    let result = parse_luau_lsp_output(output, b"", "test.luau");
    assert!(result.is_ok());

    let res = result.unwrap();
    assert_eq!(res.diagnostics.len(), 1);

    let diag = &res.diagnostics[0];
    assert_eq!(diag.code, "TypeError");
    assert_eq!(diag.message, "Type mismatch");
}

#[test]
fn test_parse_stderr_output() {
    let result = parse_luau_lsp_output(b"", b"src/main.luau(1,1): Error: Parse error", "src/");
    assert!(result.is_ok());

    let res = result.unwrap();
    assert_eq!(res.diagnostics.len(), 1);
}

#[test]
fn test_parse_ignores_invalid_lines() {
    let output = b"Some random text\nsrc/main.luau(5,1): Error: Real error\nAnother random line";
    let result = parse_luau_lsp_output(output, b"", "src/");
    assert!(result.is_ok());

    let res = result.unwrap();
    assert_eq!(res.diagnostics.len(), 1);
}

#[test]
fn test_parse_path_preserved() {
    let result = parse_luau_lsp_output(b"", b"", "my/custom/path");
    assert!(result.is_ok());
    assert!(result.unwrap().path.contains("my"));
}

#[test]
fn test_parse_diagnostic_line_basic() {
    let line = "file.luau(10,5): Error: Something went wrong";
    let diag = parse_diagnostic_line(line);
    assert!(diag.is_some());

    let d = diag.unwrap();
    assert_eq!(d.file, "file.luau");
    assert_eq!(d.start_line, 10);
    assert_eq!(d.start_column, 5);
    assert_eq!(d.severity, "Error");
    assert_eq!(d.message, "Something went wrong");
}

#[test]
fn test_parse_diagnostic_line_with_path() {
    let line = "src/game/main.luau(1,1): Warning: Unused import";
    let diag = parse_diagnostic_line(line);
    assert!(diag.is_some());

    let d = diag.unwrap();
    assert_eq!(d.file, "src/game/main.luau");
}

#[test]
fn test_parse_diagnostic_line_invalid() {
    assert!(parse_diagnostic_line("random text").is_none());
    assert!(parse_diagnostic_line("file.luau: no position").is_none());
    assert!(parse_diagnostic_line("").is_none());
}

#[test]
fn test_default_runner_new() {
    let runner = DefaultLuauLspRunner::new();
    assert!(format!("{:?}", runner).contains("DefaultLuauLspRunner"));
}

#[test]
fn test_default_runner_default() {
    let runner = DefaultLuauLspRunner;
    assert!(format!("{:?}", runner).contains("DefaultLuauLspRunner"));
}

#[test]
fn test_default_runner_clone() {
    let runner = DefaultLuauLspRunner::new();
    let _ = runner.clone();
}

/// A stand-in analyzer that hands out queued results.
struct MockLuauLspRunner {
    queued: std::cell::RefCell<Vec<roblox_studio_mcp::luau_lsp::AnalyzeResult>>,
    calls: std::cell::Cell<usize>,
}

impl MockLuauLspRunner {
    fn new() -> Self {
        MockLuauLspRunner { queued: std::cell::RefCell::new(Vec::new()), calls: std::cell::Cell::new(0) }
    }
}

impl std::fmt::Debug for MockLuauLspRunner {
    fn fmt(&self, f: &mut std::fmt::Formatter<'_>) -> std::fmt::Result {
        f.debug_struct("MockLuauLspRunner")
            .field("queued_responses", &self.queued.borrow().len())
            .field("calls", &self.calls.get())
            .finish()
    }
}

#[test]
fn test_mock_runner_debug() {
    let mock = MockLuauLspRunner::new();
    let debug = format!("{:?}", mock);
    assert!(debug.contains("MockLuauLspRunner"));
}

#[test]
fn analyze_args_list_sourcemap_definitions_then_path() {
    let defs = vec!["types/roblox.d.luau".to_string(), "types/extra.d.luau".to_string()];
    let args = DefaultLuauLspRunner::args("src/", Some("sourcemap.json"), &defs);
    assert_eq!(
        args,
        vec![
            "analyze".to_string(),
            "--sourcemap=sourcemap.json".to_string(),
            "--definitions=types/roblox.d.luau".to_string(),
            "--definitions=types/extra.d.luau".to_string(),
            "src/".to_string(),
        ]
    );
    let bare = DefaultLuauLspRunner::args("a.luau", None, &Vec::new());
    assert_eq!(bare, vec!["analyze".to_string(), "a.luau".to_string()]);
}

#[test]
fn analyze_counts_severities_case_insensitively() {
    let output = b"a.luau(1,1): ERROR: x\nb.luau(2,2): warning: y\n\n   \nb.luau(3,3): Info: z";
    let res = parse_luau_lsp_output(output, b"ignored", "p").unwrap();
    assert_eq!(res.diagnostics.len(), 3);
    assert_eq!(res.error_count, 1);
    assert_eq!(res.warning_count, 1);
    assert_eq!(res.files_analyzed, 2);
}

#[test]
fn analyze_reads_invalid_utf8_lossily() {
    let output = b"bad\xff.luau(4,2): Error: broken";
    let res = parse_luau_lsp_output(output, b"", "p").unwrap();
    assert_eq!(res.diagnostics.len(), 1);
    assert_eq!(res.diagnostics[0].file, "bad\u{FFFD}.luau");
}
