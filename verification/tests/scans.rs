use roblox_studio_mcp::search::{validate_regex_safety, ChangeScan, ContentSearch, TimeError, WalkEntry, MAX_FILE_ENTRIES};

fn entry(path: &str, is_dir: bool, ext: Option<&str>) -> WalkEntry {
    WalkEntry::Entry {
        path: path.to_string(),
        is_dir,
        extension: ext.map(|e| e.to_string()),
        file_name: Some(path.rsplit('/').next().unwrap().to_string()),
    }
}

#[test]
fn content_search_over_a_walk() {
    let pattern = validate_regex_safety(r"TODO").unwrap();
    let mut s = ContentSearch::new(pattern, "luau");
    let walk = vec![
        entry("/p", true, None),
        entry("/p/a.luau", false, Some("luau")),
        entry("/p/b.txt", false, Some("txt")),
        entry("/p/.c.luau", false, Some("luau")),
        entry("/p/d.luau", false, Some("luau")),
        WalkEntry::Failed { path: Some("/p/x".to_string()), error: "denied".to_string() },
    ];
    let contents = ["", "-- TODO: one\nok\n-- TODO two", "", "", "", ""];
    for (i, e) in walk.iter().enumerate() {
        let content = if s.wants_content(e) {
            if i == 4 { Some(Err("unreadable".to_string())) } else { Some(Ok(contents[i].to_string())) }
        } else {
            None
        };
        s.add_entry(e, content);
    }
    let (results, issues, truncated) = s.finish();
    assert!(!truncated);
    assert_eq!(results.len(), 2);
    assert_eq!(results[0].line, 1);
    assert_eq!(results[1].line, 3);
    assert_eq!(results[1].content, "-- TODO two");
    let kinds: Vec<&str> = issues.iter().map(|i| i.kind.as_str()).collect();
    assert_eq!(kinds, vec!["skipped_hidden", "read_error", "enumeration_error"]);
    assert_eq!(issues[1].error.as_deref(), Some("unreadable"));
    assert_eq!(issues[2].path.as_deref(), Some("/p/x"));
}

#[test]
fn change_scan_records_mtimes_and_problems() {
    let mut scan = ChangeScan::new();
    let walk = vec![
        entry("/p/a.luau", false, Some("luau")),
        entry("/p/b.luau", false, Some("luau")),
        entry("/p/c.lua", false, Some("lua")),
        entry("/p/.d.luau", false, Some("luau")),
    ];
    for (i, e) in walk.iter().enumerate() {
        let mtime = if scan.wants_mtime(e) {
            if i == 0 { Some(Ok(1_700_000_000)) } else { Some(Err(TimeError::Modified("unsupported".to_string()))) }
        } else {
            None
        };
        scan.add_entry(e, mtime);
    }
    let (files, issues, truncated) = scan.finish();
    assert!(!truncated);
    assert_eq!(files, vec![("/p/a.luau".to_string(), 1_700_000_000)]);
    assert_eq!(issues[0].kind, "modified_time_error");
    assert_eq!(issues[1].kind, "skipped_hidden");
}

#[test]
fn change_scan_stops_at_limit() {
    let mut scan = ChangeScan::new();
    for i in 0..MAX_FILE_ENTRIES {
        let e = entry(&format!("/p/f{}.luau", i), false, Some("luau"));
        assert!(scan.wants_mtime(&e));
        scan.add_entry(&e, Some(Ok(i as u64)));
    }
    assert!(!scan.is_done());
    let e = entry("/p/one_more.luau", false, Some("luau"));
    assert!(!scan.wants_mtime(&e));
    scan.add_entry(&e, None);
    assert!(scan.is_done());
    let (files, _, truncated) = scan.finish();
    assert!(truncated);
    assert_eq!(files.len(), MAX_FILE_ENTRIES);
}
