use roblox_studio_mcp::params::{
    AiSearchCodebaseParams, CloudDatastoreSetParams, CloudMessagingPublishParams,
    StudioCreateInstanceParams, StudioSetPropertyParams,
    CloudPublishPlaceParams, FsGetTreeParams, FsWatchChangesParams, FsWriteScriptParams,
    StudioGetDataModelPaginatedParams, StudioModifyScriptParams, StyluaFormatParams,
};
use roblox_studio_mcp::startup::{bind_error_message, format_bind_error, startup_messages};

#[test]
fn test_fs_get_tree_params_debug() {
    let params = FsGetTreeParams { path: "src".to_string(), max_depth: Some(3) };
    let debug = format!("{:?}", params);
    assert!(debug.contains("FsGetTreeParams"));
    assert!(debug.contains("src"));
}

#[test]
fn test_cloud_publish_place_params_debug() {
    let params = CloudPublishPlaceParams { universe_id: 123, place_id: 456, rbxl_path: "game.rbxl".to_string() };
    let debug = format!("{:?}", params);
    assert!(debug.contains("CloudPublishPlaceParams"));
    assert!(debug.contains("123"));
}

#[test]
fn tool_defaults() {
    assert_eq!(FsGetTreeParams { path: "src".to_string(), max_depth: None }.depth(), 5);
    assert_eq!(FsGetTreeParams { path: "src".to_string(), max_depth: Some(2) }.depth(), 2);
    assert!(!FsWriteScriptParams { file_path: "a.luau".to_string(), content: String::new(), create_directories: None }.create_dirs());
    assert_eq!(FsWatchChangesParams { limit: None }.take_limit(), 100);
    assert!(!StyluaFormatParams { file_path: "a".to_string(), config_path: None, check_only: None }.check());
    assert!(StudioModifyScriptParams { path: "p".to_string(), new_source: String::new(), record_undo: None }.undo());
    let paged = StudioGetDataModelPaginatedParams { max_depth: None, start_path: None, limit: Some(5000), cursor: None };
    assert_eq!(paged.page_limit(), 1000);
    assert_eq!(paged.depth(), 3);
    assert_eq!(paged.start(), "game");
    let default_page = StudioGetDataModelPaginatedParams { max_depth: None, start_path: Some("game.Workspace".to_string()), limit: None, cursor: None };
    assert_eq!(default_page.page_limit(), 500);
    assert_eq!(default_page.start(), "game.Workspace");
}

#[test]
fn test_format_bind_error_contains_address() {
    let error = std::io::Error::new(std::io::ErrorKind::AddrInUse, "address in use");
    let msg = format_bind_error("127.0.0.1:8080", &error);
    assert!(msg.contains("127.0.0.1:8080"));
}

#[test]
fn test_format_bind_error_contains_error_message() {
    let error = std::io::Error::new(std::io::ErrorKind::AddrInUse, "address already in use");
    let msg = format_bind_error("127.0.0.1:8080", &error);
    assert!(msg.contains("address already in use"));
}

#[test]
fn test_format_bind_error_contains_port_suggestion() {
    let error = std::io::Error::new(std::io::ErrorKind::AddrInUse, "in use");
    let msg = format_bind_error("127.0.0.1:8080", &error);
    assert!(msg.contains("ROBLOX_MCP_PORT"));
}

#[test]
fn test_format_bind_error_mentions_plugin_unavailable() {
    let error = std::io::Error::new(std::io::ErrorKind::AddrInUse, "in use");
    let msg = format_bind_error("127.0.0.1:8080", &error);
    assert!(msg.contains("Studio plugin communication will be unavailable"));
}

#[test]
fn bind_error_message_is_exact() {
    assert_eq!(
        bind_error_message("0.0.0.0:1", "denied"),
        "Failed to bind HTTP bridge to 0.0.0.0:1: denied. Studio plugin communication will be unavailable. Ensure the port is not in use, or set ROBLOX_MCP_PORT to a different port."
    );
}

#[test]
fn test_log_startup_info_does_not_panic() {
    for root in ["/test/project", ".", ""] {
        let lines = startup_messages(root);
        assert_eq!(lines.len(), 2);
        assert_eq!(lines[0], "Roblox Studio MCP Server starting...");
        assert_eq!(lines[1], format!("Project root: {}", root));
    }
}

#[test]
fn json_carrying_params_keep_their_values() {
    let create = StudioCreateInstanceParams {
        class_name: "Part".to_string(),
        parent: "game.Workspace".to_string(),
        name: "Floor".to_string(),
        properties: Some(serde_json::Value::Bool(true)),
        record_undo: None,
    };
    assert!(create.undo());
    assert!(format!("{:?}", create).contains("Floor"));
    let set = StudioSetPropertyParams {
        path: "game.Workspace.Part".to_string(),
        property: "Name".to_string(),
        value: serde_json::Value::String("Door".to_string()),
        record_undo: Some(false),
    };
    assert!(!set.undo());
    let store = CloudDatastoreSetParams {
        universe_id: 7,
        datastore_name: "Players".to_string(),
        key: "p1".to_string(),
        value: serde_json::Value::Null,
        scope: None,
    };
    assert!(format!("{:?}", store).contains("Players"));
    let publish = CloudMessagingPublishParams {
        universe_id: 9,
        topic: "news".to_string(),
        message: serde_json::Value::String("hi".to_string()),
    };
    assert!(format!("{:?}", publish).contains("news"));
    let search = AiSearchCodebaseParams {
        query: "damage".to_string(),
        limit: Some(10),
        min_similarity_bits: Some(0.5f64.to_bits()),
    };
    assert_eq!(f64::from_bits(search.min_similarity_bits.unwrap()), 0.5);
}

#[test]
fn test_studio_create_instance_params_debug() {
    let params = StudioCreateInstanceParams {
        class_name: "Part".to_string(),
        parent: "game.Workspace".to_string(),
        name: "TestPart".to_string(),
        properties: None,
        record_undo: None,
    };
    let debug = format!("{:?}", params);
    assert!(debug.contains("StudioCreateInstanceParams"));
    assert!(debug.contains("Part"));
}
