use roblox_studio_mcp::error::RobloxMcpError;
use roblox_studio_mcp::runners::{
    DefaultLuneRunner, DefaultMoonwaveRunner, DefaultRojoRunner, DefaultWallyRunner, FormatResult,
    LuneRunResult, MoonwaveBuildResult, ProcessOutput, RojoBuildResult, RojoSourcemapResult, SeleneDiagnostic,
    SeleneLabel, SeleneLinter, SeleneOutput, SeleneSpan, StyLuaFormatter, WallyInstallResult, WallyUpdateResult,
    DEFAULT_TOOL_TIMEOUT_SECS,
};

fn run(success: bool, stdout: &str, stderr: &str) -> ProcessOutput {
    ProcessOutput {
        success,
        code: Some(if success { 0 } else { 1 }),
        signal: None,
        stdout: stdout.as_bytes().to_vec(),
        stderr: stderr.as_bytes().to_vec(),
    }
}

#[test]
fn test_format_result_clone() {
    let result = FormatResult {
        file_path: "test.luau".to_string(),
        formatted: true,
        diff: Some("diff".to_string()),
        original: None,
        formatted_content: None,
    };
    let cloned = result.clone();
    assert_eq!(cloned.file_path, result.file_path);
    assert_eq!(cloned.formatted, result.formatted);
    assert_eq!(cloned.diff, result.diff);
}

#[test]
fn test_stylua_formatter_new() {
    let formatter = StyLuaFormatter::new();
    assert!(format!("{:?}", formatter).contains("StyLuaFormatter"));
}

#[test]
fn test_stylua_formatter_default() {
    let formatter = StyLuaFormatter::default();
    assert!(format!("{:?}", formatter).contains("StyLuaFormatter"));
}

#[test]
fn test_selene_linter_new() {
    let linter = SeleneLinter::new();
    let debug = format!("{:?}", linter);
    assert!(debug.contains("SeleneLinter"));
}

#[test]
fn test_selene_linter_clone() {
    let linter = SeleneLinter::new();
    let cloned = linter.clone();
    let _ = format!("{:?}", cloned);
}

#[test]
fn test_selene_linter_default() {
    let linter = SeleneLinter::default();
    let _ = format!("{:?}", linter);
}

#[test]
fn test_lune_run_result_clone() {
    let result = LuneRunResult {
        success: true,
        exit_code: Some(0),
        signal: None,
        stdout: Some("out".to_string()),
        stderr: None,
        duration_ms: 5,
    };
    let cloned = result.clone();
    assert_eq!(cloned.success, result.success);
    assert_eq!(cloned.exit_code, result.exit_code);
    assert_eq!(cloned.signal, result.signal);
    assert_eq!(cloned.stdout, result.stdout);
    assert_eq!(cloned.duration_ms, result.duration_ms);
}

#[test]
fn test_default_lune_runner_new() {
    let runner = DefaultLuneRunner::new();
    assert!(format!("{:?}", runner).contains("DefaultLuneRunner"));
}

#[test]
fn test_default_lune_runner_default() {
    let runner = DefaultLuneRunner::default();
    assert!(format!("{:?}", runner).contains("DefaultLuneRunner"));
}

#[test]
fn test_default_moonwave_runner_new() {
    let runner = DefaultMoonwaveRunner::new();
    assert!(format!("{:?}", runner).contains("DefaultMoonwaveRunner"));
}

#[test]
fn test_moonwave_build_result_clone() {
    let result = MoonwaveBuildResult {
        output_dir: "build".to_string(),
        success: true,
        stdout: Some("Built".to_string()),
        stderr: None,
    };
    let cloned = result.clone();
    assert_eq!(cloned.output_dir, result.output_dir);
    assert_eq!(cloned.success, result.success);
}

#[test]
fn test_default_rojo_runner_new() {
    let runner = DefaultRojoRunner::new();
    assert!(format!("{:?}", runner).contains("DefaultRojoRunner"));
}

#[test]
fn test_rojo_build_result_clone() {
    let result = RojoBuildResult {
        output_path: "game.rbxl".to_string(),
        success: true,
        stdout: Some("Built".to_string()),
        stderr: None,
    };
    let cloned = result.clone();
    assert_eq!(cloned.output_path, result.output_path);
    assert_eq!(cloned.success, result.success);
}

#[test]
fn test_rojo_sourcemap_result_clone() {
    let result = RojoSourcemapResult { sourcemap: "{}".to_string(), output_path: None, success: true };
    let cloned = result.clone();
    assert_eq!(cloned.sourcemap, result.sourcemap);
    assert_eq!(cloned.success, result.success);
}

#[test]
fn test_default_wally_runner_new() {
    let runner = DefaultWallyRunner::new();
    assert!(format!("{:?}", runner).contains("DefaultWallyRunner"));
}

#[test]
fn test_wally_install_result_clone() {
    let result = WallyInstallResult {
        packages_dir: "Packages".to_string(),
        success: true,
        stdout: Some("Installed".to_string()),
        stderr: None,
    };
    let cloned = result.clone();
    assert_eq!(cloned.packages_dir, result.packages_dir);
    assert_eq!(cloned.success, result.success);
}

#[test]
fn test_wally_update_result_clone() {
    let result = WallyUpdateResult { success: true, stdout: Some("Updated".to_string()), stderr: None };
    let cloned = result.clone();
    assert_eq!(cloned.success, result.success);
    assert_eq!(cloned.stdout, result.stdout);
}

#[test]
fn test_tool_execution_error_display() {
    let err = RobloxMcpError::ToolExecutionError {
        tool: "selene".to_string(),
        message: "Tool execution timed out after 30 seconds".to_string(),
    };
    let msg = err.message();
    assert!(msg.contains("selene"));
    assert!(msg.contains("timed out"));
}

fn strings(v: &[&str]) -> Vec<String> {
    v.iter().map(|s| s.to_string()).collect()
}

#[test]
fn command_lines() {
    assert_eq!(StyLuaFormatter::args("a.luau", Some("stylua.toml"), true), strings(&["--config-path", "stylua.toml", "--check", "a.luau"]));
    assert_eq!(StyLuaFormatter::args("a.luau", None, false), strings(&["a.luau"]));
    assert_eq!(SeleneLinter::args("a.luau", Some("selene.toml")), strings(&["--display-style=json2", "--config", "selene.toml", "a.luau"]));
    assert_eq!(DefaultRojoRunner::build_args("default.project.json", "out.rbxl"), strings(&["build", "default.project.json", "--output", "out.rbxl"]));
    assert_eq!(DefaultRojoRunner::sourcemap_args("p", None), strings(&["sourcemap", "p"]));
    assert_eq!(DefaultMoonwaveRunner::args(Some("docs")), strings(&["build", "--out", "docs"]));
    assert_eq!(DefaultLuneRunner::run_args("s.luau", &strings(&["x", "y"])), strings(&["run", "s.luau", "--", "x", "y"]));
    assert_eq!(DefaultLuneRunner::run_args("s.luau", &Vec::new()), strings(&["run", "s.luau"]));
    assert_eq!(DEFAULT_TOOL_TIMEOUT_SECS, 30);
    assert_eq!(DefaultLuneRunner::eval_timeout_ms(None), 10_000);
    assert_eq!(DefaultLuneRunner::eval_timeout_ms(Some(250)), 250);
}

#[test]
fn stylua_outcomes() {
    let checked = StyLuaFormatter::outcome("a.luau", true, &run(false, "", "Diff in a.luau"), b"", b"").unwrap();
    assert!(checked.formatted);
    assert_eq!(checked.diff.as_deref(), Some("Diff in a.luau"));
    let clean = StyLuaFormatter::outcome("a.luau", true, &run(true, "", "noise"), b"", b"").unwrap();
    assert!(!clean.formatted);
    assert!(clean.diff.is_none());
    let changed = StyLuaFormatter::outcome("a.luau", false, &run(true, "", ""), b"x=1", b"x = 1\n").unwrap();
    assert!(changed.formatted);
    let unchanged = StyLuaFormatter::outcome("a.luau", false, &run(true, "", ""), b"x = 1\n", b"x = 1\n").unwrap();
    assert!(!unchanged.formatted);
    assert!(unchanged.diff.is_none());
    match StyLuaFormatter::outcome("a.luau", false, &run(false, "", ""), b"x", b"x") {
        Err(RobloxMcpError::ToolExecutionError { tool, message }) => {
            assert_eq!(tool, "stylua");
            assert_eq!(message, "Formatting failed");
        }
        other => panic!("unexpected {:?}", other),
    }
}

#[test]
fn launch_failures_keep_timeouts() {
    let timeout = RobloxMcpError::ToolExecutionError { tool: "rojo".to_string(), message: "Tool execution timed out after 30 seconds. x".to_string() };
    assert!(matches!(DefaultRojoRunner::launch_failure(timeout), RobloxMcpError::ToolExecutionError { .. }));
    let missing = RobloxMcpError::ToolExecutionError { tool: "wally".to_string(), message: "Failed to execute: No such file".to_string() };
    match DefaultWallyRunner::launch_failure(missing) {
        RobloxMcpError::ToolNotInstalled { tool, install_hint } => {
            assert_eq!(tool, "wally");
            assert_eq!(install_hint, "Install via: aftman install UpliftGames/wally");
        }
        other => panic!("unexpected {:?}", other),
    }
    assert!(matches!(SeleneLinter::launch_failure("not found"), RobloxMcpError::ConfigError(ref m) if m == "Failed to run selene: not found. Is selene installed? Install with: cargo install selene"));
}

fn diag(sev: &str, line: u32) -> SeleneDiagnostic {
    SeleneDiagnostic {
        severity: sev.to_string(),
        code: "unused_variable".to_string(),
        message: "x is unused".to_string(),
        primary_label: SeleneLabel { span: SeleneSpan { start_line: line, start_column: 3, end_line: line, end_column: 9 } },
    }
}

#[test]
fn selene_outcomes() {
    let outs = vec![SeleneOutput { diagnostics: vec![diag("warning", 1), diag("error", 2)] }, SeleneOutput { diagnostics: vec![diag("Error", 5)] }];
    let r = SeleneLinter::outcome("a.luau", b"{...}", b"", &outs).unwrap();
    assert_eq!(r.diagnostics.len(), 3);
    assert_eq!(r.error_count, 1);
    assert_eq!(r.warning_count, 1);
    assert_eq!(r.diagnostics[1].line, 2);
    assert_eq!(r.diagnostics[1].end_column, Some(9));
    match SeleneLinter::outcome("a.luau", b"", b"  config broken \n", &Vec::new()) {
        Err(RobloxMcpError::ConfigError(m)) => assert_eq!(m, "Selene error: config broken"),
        other => panic!("unexpected {:?}", other),
    }
    assert_eq!(SeleneLinter::document_lines(b"{\"a\":1}\n\n  \n{\"b\":2}\r\n"), strings(&["{\"a\":1}", "{\"b\":2}"]));
}

#[test]
fn rojo_wally_moonwave_lune_outcomes() {
    let b = DefaultRojoRunner::build_outcome("out.rbxl", &run(true, "Built", ""));
    assert_eq!(b.stdout.as_deref(), Some("Built"));
    assert!(b.stderr.is_none());
    let s = DefaultRojoRunner::sourcemap_outcome(Some("map.json"), &run(true, "{}", "")).unwrap();
    assert_eq!(s.sourcemap, "{}");
    assert_eq!(s.output_path.as_deref(), Some("map.json"));
    assert!(matches!(DefaultRojoRunner::sourcemap_outcome(None, &run(false, "", "boom")), Err(RobloxMcpError::ToolExecutionError { ref tool, ref message }) if tool == "rojo sourcemap" && message == "boom"));
    let w = DefaultWallyRunner::install_outcome("proj", &run(true, "ok", ""));
    assert_eq!(w.packages_dir, "proj/Packages");
    assert_eq!(DefaultWallyRunner::install_outcome("proj/", &run(true, "", "")).packages_dir, "proj/Packages");
    assert!(!DefaultWallyRunner::update_outcome(&run(false, "", "e")).success);
    let m = DefaultMoonwaveRunner::outcome("proj", None, &run(true, "", ""));
    assert_eq!(m.output_dir, "proj/build");
    assert_eq!(DefaultMoonwaveRunner::outcome("proj", Some("site"), &run(true, "", "")).output_dir, "site");
    let l = DefaultLuneRunner::run_outcome(&ProcessOutput { success: false, code: None, signal: Some(9), stdout: vec![], stderr: b"killed".to_vec() }, 12);
    assert_eq!(l.signal, Some(9));
    assert_eq!(l.exit_code, None);
    assert_eq!(l.stderr.as_deref(), Some("killed"));
    assert_eq!(l.duration_ms, 12);
}
