use roblox_studio_mcp::filesystem::{check_write_symlink, WriteTargetProbe};
use roblox_studio_mcp::error::RobloxMcpError;
use roblox_studio_mcp::filesystem::{
    check_write_target, decide_delete, decide_write, ParentState,
    check_script_extension, reject_if_symlink, validate_path, AncestorProbe, ScriptContent,
    WriteResult,
};
use roblox_studio_mcp::tree::FileTree;

fn probe(exists: bool, name: Option<&str>, canonical: Result<&str, &str>) -> AncestorProbe {
    AncestorProbe {
        exists,
        file_name: name.map(|n| n.to_string()),
        canonical: canonical.map(|c| c.to_string()).map_err(|e| e.to_string()),
    }
}

#[test]
fn test_validate_path_project_root_cannot_canonicalize() {
    let root = Err("No such file or directory (os error 2)".to_string());
    let ancestors = vec![
        probe(false, Some("script.luau"), Err("No such file or directory (os error 2)")),
        probe(false, Some("anywhere"), Err("No such file or directory (os error 2)")),
        probe(true, None, Ok("/")),
    ];
    let result = validate_path("/this/path/definitely/does/not/exist/anywhere/script.luau", &root, &ancestors);
    assert!(result.is_err());
    match result {
        Err(RobloxMcpError::InvalidPath(msg)) => {
            assert!(msg.contains("canonicalize") || msg.contains("Cannot"), "Error should mention canonicalization: {}", msg);
        }
        _ => panic!("Expected InvalidPath error for bad project root"),
    }
}

#[test]
fn test_filetree_debug() {
    let tree = FileTree { path: "/project/src".to_string(), name: "src".to_string(), is_file: false, children: None };
    let debug = format!("{:?}", tree);
    assert!(debug.contains("FileTree"));
    assert!(debug.contains("src"));
}

#[test]
fn test_security_violation_error_display() {
    let err = RobloxMcpError::SecurityViolation("test symlink attack".to_string());
    let msg = err.message();
    assert!(msg.contains("Security violation"));
    assert!(msg.contains("test symlink attack"));
}

fn root() -> Result<String, String> {
    Ok("/proj".to_string())
}

#[test]
fn existing_path_inside_root_is_its_canonical_form() {
    let r = validate_path("/proj/src/../src/a.luau", &root(), &vec![probe(true, Some("a.luau"), Ok("/proj/src/a.luau"))]);
    assert_eq!(r.unwrap(), "/proj/src/a.luau");
}

#[test]
fn existing_path_outside_root_is_traversal() {
    let r = validate_path("/etc/passwd", &root(), &vec![probe(true, Some("passwd"), Ok("/etc/passwd"))]);
    assert!(matches!(r, Err(RobloxMcpError::PathTraversal(ref p)) if p == "/etc/passwd"));
    // a sibling whose name starts with the root's is outside too
    let r = validate_path("/project2/a", &root(), &vec![probe(true, Some("a"), Ok("/project2/a"))]);
    assert!(matches!(r, Err(RobloxMcpError::PathTraversal(_))));
}

#[test]
fn missing_path_is_rebuilt_from_nearest_ancestor() {
    let ancestors = vec![
        probe(false, Some("file.luau"), Err("missing")),
        probe(false, Some("nonexistent_dir"), Err("missing")),
        probe(true, Some("proj"), Ok("/proj")),
    ];
    let r = validate_path("/proj/nonexistent_dir/file.luau", &root(), &ancestors);
    assert_eq!(r.unwrap(), "/proj/nonexistent_dir/file.luau");
}

#[test]
fn missing_names_with_dot_dot_are_traversal() {
    let ancestors = vec![probe(false, Some("a..b"), Err("missing")), probe(true, Some("proj"), Ok("/proj"))];
    let r = validate_path("/proj/a..b", &root(), &ancestors);
    assert!(matches!(r, Err(RobloxMcpError::PathTraversal(ref p)) if p == "/proj/a..b"));
}

#[test]
fn walk_errors() {
    let r = validate_path("", &root(), &vec![probe(false, None, Err("missing"))]);
    assert!(matches!(r, Err(RobloxMcpError::InvalidPath(ref m)) if m == "Path has no valid components"));
    let r = validate_path("x", &root(), &vec![probe(false, Some("x"), Err("missing"))]);
    assert!(matches!(r, Err(RobloxMcpError::InvalidPath(ref m)) if m == "Cannot find existing ancestor directory"));
    let r = validate_path("/proj/x", &root(), &vec![probe(false, Some("x"), Err("m")), probe(true, Some("proj"), Err("denied"))]);
    assert!(matches!(r, Err(RobloxMcpError::InvalidPath(ref m)) if m == "Cannot canonicalize ancestor: denied"));
    let r = validate_path("/tmp/x", &root(), &vec![probe(false, Some("x"), Err("m")), probe(true, Some("tmp"), Ok("/tmp"))]);
    assert!(matches!(r, Err(RobloxMcpError::PathTraversal(ref p)) if p == "/tmp"));
}

#[test]
fn validation_compares_whole_components() {
    // A sibling whose name only starts like the root is outside it.
    let r = validate_path("/projx/a.luau", &root(), &vec![probe(true, Some("a.luau"), Ok("/projx/a.luau"))]);
    assert!(matches!(r, Err(RobloxMcpError::PathTraversal(ref p)) if p == "/projx/a.luau"));
    let r = validate_path("/proj/a.luau", &root(), &vec![probe(true, Some("a.luau"), Ok("/proj/a.luau"))]);
    assert_eq!(r.unwrap(), "/proj/a.luau");
}

#[test]
fn symlinks_and_extensions() {
    assert!(reject_if_symlink("a.luau", &Ok(false)).is_ok());
    assert!(matches!(reject_if_symlink("a.luau", &Ok(true)), Err(RobloxMcpError::SecurityViolation(ref m)) if m == "Symlinks are not allowed for security reasons: a.luau"));
    assert!(matches!(reject_if_symlink("a.luau", &Err("gone".to_string())), Err(RobloxMcpError::FileSystemError { ref operation, ref path, ref source }) if operation == "symlink_metadata" && path == "a.luau" && source == "gone"));
    assert!(check_script_extension(Some("luau")).is_ok());
    assert!(matches!(check_script_extension(Some("lua")), Err(RobloxMcpError::InvalidPath(ref m)) if m == "Only .luau files supported"));
    assert!(check_script_extension(None).is_err());
}

#[test]
fn script_sizes_are_utf8_bytes() {
    let c = ScriptContent::new("a.luau", "print('é')".to_string());
    assert_eq!(c.size_bytes, 11);
    assert_eq!(WriteResult::new("a.luau", "local x = 42").bytes_written, 12);
}

#[test]
fn write_without_parent_is_refused() {
    let r = check_write_target("", &ParentState::NoParent, true, "/proj", None);
    assert_eq!(r, Err("Invalid file path: no parent directory".to_string()));
}

#[test]
fn write_into_missing_parent_needs_create_directories() {
    let parent = ParentState::Missing("/proj/new".to_string());
    let r = check_write_target("/proj/new/a.luau", &parent, false, "/proj", Some("luau"));
    assert_eq!(
        r,
        Err("Parent directory does not exist: /proj/new. Set create_directories=true to create it.".to_string())
    );
}

#[test]
fn write_into_missing_parent_outside_root_is_traversal() {
    let parent = ParentState::Missing("/other/dir".to_string());
    let r = check_write_target("/other/dir/a.luau", &parent, true, "/proj", Some("luau"));
    assert_eq!(r, Err("Path traversal detected: /other/dir/a.luau".to_string()));
    // A sibling whose name only starts like the root is not under it.
    let parent = ParentState::Missing("/project/dir".to_string());
    let r = check_write_target("/project/dir/a.luau", &parent, true, "/proj", Some("luau"));
    assert_eq!(r, Err("Path traversal detected: /project/dir/a.luau".to_string()));
}

#[test]
fn write_relative_path_lands_under_root() {
    let parent = ParentState::Missing("sub/dir".to_string());
    assert_eq!(check_write_target("sub/dir/a.luau", &parent, true, "/proj", Some("luau")), Ok(()));
    // Whole components are compared: a trailing separator on the root matters not.
    let parent = ParentState::Missing("/proj/dir".to_string());
    assert_eq!(check_write_target("/proj/dir/a.luau", &parent, true, "/proj/", Some("luau")), Ok(()));
}

#[test]
fn write_checks_extension_last() {
    let parent = ParentState::Missing("sub".to_string());
    let r = check_write_target("sub/a.lua", &parent, true, "/proj", Some("lua"));
    assert_eq!(r, Err("Only .luau files are supported".to_string()));
    let r = check_write_target("/proj/a.luau", &ParentState::Exists(Ok("/proj".to_string())), false, "/proj", None);
    assert_eq!(r, Err("Only .luau files are supported".to_string()));
    let r = check_write_target("/proj/a.luau", &ParentState::Exists(Ok("/proj".to_string())), false, "/proj", Some("luau"));
    assert_eq!(r, Ok(()));
}

#[test]
fn write_into_existing_parent_reports_its_validation() {
    let parent = ParentState::Exists(Err(RobloxMcpError::PathTraversal("/etc".to_string())));
    let r = decide_write(&parent, false, "/etc/a.luau", false, Some("luau"));
    assert_eq!(r, Err("Path traversal detected: /etc".to_string()));
}

#[test]
fn delete_decisions() {
    let bad: Result<String, RobloxMcpError> = Err(RobloxMcpError::InvalidPath("Path has no valid components".to_string()));
    assert_eq!(decide_delete(&bad, Some("luau"), true), Err("Invalid path: Path has no valid components".to_string()));
    let ok: Result<String, RobloxMcpError> = Ok("/proj/a.txt".to_string());
    assert_eq!(decide_delete(&ok, Some("txt"), true), Err("Only .luau files can be deleted".to_string()));
    let ok: Result<String, RobloxMcpError> = Ok("/proj/a.luau".to_string());
    assert_eq!(decide_delete(&ok, Some("luau"), false), Err("File not found: /proj/a.luau".to_string()));
    assert_eq!(decide_delete(&ok, Some("luau"), true), Ok("/proj/a.luau".to_string()));
}

#[test]
fn writes_never_go_through_symlinks() {
    assert!(check_write_symlink("/proj/new.luau", &WriteTargetProbe::Absent).is_ok());
    assert!(check_write_symlink("/proj/a.luau", &WriteTargetProbe::Present(false)).is_ok());
    match check_write_symlink("/proj/link.luau", &WriteTargetProbe::Present(true)) {
        Err(RobloxMcpError::SecurityViolation(m)) => {
            assert_eq!(m, "Symlinks are not allowed for security reasons: /proj/link.luau")
        }
        other => panic!("unexpected {:?}", other),
    }
    assert!(check_write_symlink("/proj/a.luau", &WriteTargetProbe::Unreadable("denied".to_string())).is_ok());
}

#[test]
fn deeply_nested_missing_path_stays_under_root() {
    let r = validate_path(
        "/proj/a/b/c/file.luau",
        &root(),
        &vec![
            probe(false, Some("file.luau"), Err("m")),
            probe(false, Some("c"), Err("m")),
            probe(false, Some("b"), Err("m")),
            probe(false, Some("a"), Err("m")),
            probe(true, Some("proj"), Ok("/proj")),
        ],
    );
    let p = r.unwrap();
    assert_eq!(p, "/proj/a/b/c/file.luau");
    assert!(std::path::Path::new(&p).starts_with("/proj"));
}
