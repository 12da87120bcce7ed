use roblox_studio_mcp::error::{launch_error, map_launch_error, timeout_error, RobloxMcpError};

#[test]
fn error_texts() {
    assert_eq!(RobloxMcpError::ConfigError("x".to_string()).message(), "Configuration error: x");
    assert_eq!(RobloxMcpError::InvalidPath("p".to_string()).message(), "Invalid path: p");
    assert_eq!(RobloxMcpError::PathTraversal("p".to_string()).message(), "Path traversal detected: p");
    assert_eq!(
        RobloxMcpError::FileSystemError { operation: "read".to_string(), path: "a".to_string(), source: "gone".to_string() }.message(),
        "File system error during read on a: gone"
    );
    assert_eq!(
        RobloxMcpError::ToolNotInstalled { tool: "rojo".to_string(), install_hint: "get it".to_string() }.message(),
        "Tool not installed: rojo. get it"
    );
    assert_eq!(RobloxMcpError::WatcherError("w".to_string()).message(), "File watcher error: w");
}

#[test]
fn timeout_and_launch_errors() {
    match timeout_error("stylua", 30) {
        RobloxMcpError::ToolExecutionError { tool, message } => {
            assert_eq!(tool, "stylua");
            assert_eq!(message, "Tool execution timed out after 30 seconds. The tool may be hanging or processing very large input.");
        }
        other => panic!("unexpected {:?}", other),
    }
    match launch_error("lune", "No such file or directory") {
        RobloxMcpError::ToolExecutionError { tool, message } => {
            assert_eq!(tool, "lune");
            assert_eq!(message, "Failed to execute: No such file or directory");
        }
        other => panic!("unexpected {:?}", other),
    }
    let t = timeout_error("x", 1);
    assert!(matches!(map_launch_error(t, "x", "h"), RobloxMcpError::ToolExecutionError { .. }));
    let l = launch_error("x", "boom");
    assert!(matches!(map_launch_error(l, "x", "h"), RobloxMcpError::ToolNotInstalled { ref tool, ref install_hint } if tool == "x" && install_hint == "h"));
}
