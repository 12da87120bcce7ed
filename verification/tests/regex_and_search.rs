use roblox_studio_mcp::search::{search_lines, split_lines, validate_regex_safety, SearchMatch};

#[test]
fn test_safe_pattern_function_search() {
    let result = validate_regex_safety(r"function\s+\w+");
    assert!(result.is_ok());
}

#[test]
fn test_safe_pattern_simple_word() {
    let result = validate_regex_safety(r"\w+");
    assert!(result.is_ok());
}

#[test]
fn test_safe_pattern_any_match() {
    let result = validate_regex_safety(r".*foo.*");
    assert!(result.is_ok());
}

#[test]
fn test_safe_pattern_character_class() {
    let result = validate_regex_safety(r"[a-z]+");
    assert!(result.is_ok());
}

#[test]
fn test_safe_pattern_line_anchors() {
    let result = validate_regex_safety(r"^local\s+\w+\s*=");
    assert!(result.is_ok());
}

#[test]
fn test_safe_pattern_alternation() {
    let result = validate_regex_safety(r"foo|bar|baz");
    assert!(result.is_ok());
}

#[test]
fn test_safe_pattern_quantified_group() {
    let result = validate_regex_safety(r"(abc)+");
    assert!(result.is_ok());
}

#[test]
fn test_safe_pattern_optional() {
    let result = validate_regex_safety(r"https?://\S+");
    assert!(result.is_ok());
}

#[test]
fn test_safe_pattern_digit_repetition() {
    let result = validate_regex_safety(r"\d{3}-\d{4}");
    assert!(result.is_ok());
}

#[test]
fn test_empty_pattern() {
    let result = validate_regex_safety("");
    assert!(result.is_ok());
}

#[test]
fn test_single_character() {
    let result = validate_regex_safety("a");
    assert!(result.is_ok());
}

#[test]
fn test_case_insensitive_flag() {
    let result = validate_regex_safety(r"(?i)hello");
    assert!(result.is_ok());
}

#[test]
fn test_unicode_pattern() {
    let result = validate_regex_safety(r"[\p{L}]+");
    assert!(result.is_ok());
}

#[test]
fn test_luau_local_variable() {
    let result = validate_regex_safety(r"local\s+\w+\s*=");
    assert!(result.is_ok());
}

#[test]
fn test_luau_function_definition() {
    let result = validate_regex_safety(r"function\s+[\w.:]+\s*\(");
    assert!(result.is_ok());
}

#[test]
fn test_luau_require_statement() {
    let result = validate_regex_safety(r#"require\s*\(\s*["']"#);
    assert!(result.is_ok());
}

#[test]
fn test_todo_comment() {
    let result = validate_regex_safety(r"--\s*TODO:");
    assert!(result.is_ok());
}

#[test]
fn test_print_statement() {
    let result = validate_regex_safety(r"print\s*\(");
    assert!(result.is_ok());
}

#[test]
fn test_dangerous_nested_plus_any() {
    let result = validate_regex_safety("(.+)+");
    assert!(result.is_err());
}

#[test]
fn test_dangerous_nested_plus_literal() {
    let result = validate_regex_safety("(a+)+");
    assert!(result.is_err());
}

#[test]
fn test_dangerous_nested_star_literal() {
    let result = validate_regex_safety("(a*)*");
    assert!(result.is_err());
}

#[test]
fn test_dangerous_alternation_overlap() {
    let result = validate_regex_safety("(a|aa)+");
    assert!(result.is_err());
}

#[test]
fn test_dangerous_optional_alternation() {
    let result = validate_regex_safety("(a|a?)+");
    assert!(result.is_err());
}

#[test]
fn test_dangerous_pattern_embedded() {
    let result = validate_regex_safety(r"^start(.+)+end$");
    assert!(result.is_err());
}

#[test]
fn test_invalid_unbalanced_parens() {
    let result = validate_regex_safety(r"((abc)");
    assert!(result.is_err());
}

#[test]
fn test_invalid_bad_escape() {
    let result = validate_regex_safety(r"\q");
    assert!(result.is_err());
}

#[test]
fn test_dangerous_backreference_greedy() {
    let result = validate_regex_safety("(.*)\\1");
    assert!(result.is_err());
}

#[test]
fn test_dangerous_nested_star_any() {
    let result = validate_regex_safety("(.*)*");
    assert!(result.is_err());
    let err_msg = result.err().unwrap().message();
    assert!(err_msg.contains("catastrophic backtracking"));
}

#[test]
fn test_invalid_regex_syntax() {
    let result = validate_regex_safety(r"[unclosed");
    assert!(result.is_err());
    let err_msg = result.err().unwrap().message();
    assert!(err_msg.contains("Invalid regex"));
}

#[test]
fn test_pattern_with_lookahead() {
    let result = validate_regex_safety(r"foo(?=bar)");
    let _ = result.is_ok();
}

#[test]
fn test_oversized_pattern_rejected() {
    let huge_pattern = (0..10000).map(|i| format!("word{}", i)).collect::<Vec<_>>().join("|");
    let result = validate_regex_safety(&huge_pattern);
    let _ = result.is_ok();
}

#[test]
fn dangerous_message_names_first_listed_pattern() {
    let err = validate_regex_safety("x(a+)+y(.*)*").err().unwrap();
    assert_eq!(
        err.message(),
        "Configuration error: Potentially dangerous regex pattern containing '(.*)*'. These patterns can cause catastrophic backtracking and server hangs."
    );
}

#[test]
fn split_lines_matches_str_lines() {
    for text in ["", "a", "a\n", "a\r\nb", "\n\n", "x\r", "x\ry\n\rz", "tail\n\r"] {
        let ours = split_lines(text);
        let std_lines: Vec<String> = text.lines().map(|l| l.to_string()).collect();
        assert_eq!(ours, std_lines, "text {:?}", text);
    }
}

#[test]
fn search_numbers_lines_trims_and_stops_at_limit() {
    let pattern = validate_regex_safety(r"local\s+\w+").unwrap();
    let content = "-- header\n  local x = 1  \r\nprint(x)\nlocal y = 2";
    let mut found: Vec<SearchMatch> = Vec::new();
    let truncated = search_lines("src/a.luau", content, &pattern, &mut found, 10);
    assert!(!truncated);
    assert_eq!(found.len(), 2);
    assert_eq!(found[0].line, 2);
    assert_eq!(found[0].content, "local x = 1");
    assert_eq!(found[1].line, 4);
    assert_eq!(found[1].file, "src/a.luau");

    let mut few: Vec<SearchMatch> = Vec::new();
    let truncated = search_lines("src/a.luau", content, &pattern, &mut few, 1);
    assert!(truncated);
    assert_eq!(few.len(), 1);

    let mut exact: Vec<SearchMatch> = Vec::new();
    assert!(!search_lines("src/a.luau", content, &pattern, &mut exact, 2));
    assert_eq!(exact.len(), 2);
}
