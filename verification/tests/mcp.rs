use std::path::PathBuf;

use batty_team::mcp::{
    port_base_for, sanitize_namespace_part, stable_hash, McpIsolation, MCP_PORT_BLOCK_COUNT,
    MCP_PORT_BLOCK_SIZE, MCP_PORT_MIN,
};
use batty_team::shell::shell_quote;

#[test]
fn mcp_isolation_is_per_member() {
    let root = "/tmp/My Project";
    let eng_1 = McpIsolation::for_member(root, "eng-1-1");
    let eng_2 = McpIsolation::for_member(root, "eng-1-2");

    assert_eq!(eng_1.namespace, "my-project-eng-1-1");
    assert_eq!(
        PathBuf::from(&eng_1.resource_dir),
        PathBuf::from("/tmp/My Project/.batty/mcp/namespaces/eng-1-1")
    );
    assert_ne!(eng_1.namespace, eng_2.namespace);
    assert_ne!(eng_1.resource_dir, eng_2.resource_dir);
    assert_ne!(eng_1.port_base, eng_2.port_base);
    assert_eq!(eng_1.shared_lock, eng_2.shared_lock);
}

#[test]
fn shell_exports_include_namespace_and_serial_lock_contract() {
    let isolation = McpIsolation::for_member("/tmp/repo", "eng-1");
    let exports = isolation.shell_exports();

    assert!(exports.contains("export BATTY_MCP_NAMESPACE='repo-eng-1'"));
    assert!(exports.contains("export BATTY_MCP_RESOURCE_DIR=\"$mcp_resource_dir\""));
    assert!(exports.contains("export BATTY_MCP_SHARED_LOCK="));
    assert!(exports.contains("export MCP_PORT_BASE=\"${MCP_PORT_BASE:-$BATTY_MCP_PORT_BASE}\""));
}

#[test]
fn shell_exports_are_written_in_full() {
    let isolation = McpIsolation::for_member("/tmp/it's", "Eng 1");
    let port = isolation.port_base;
    assert_eq!(
        isolation.shell_exports(),
        format!(
            "mcp_resource_dir='/tmp/it'\\''s/.batty/mcp/namespaces/Eng 1'\n\
             mcp_shared_lock_dir='/tmp/it'\\''s/.batty/mcp/shared-locks'\n\
             mkdir -p \"$mcp_resource_dir\" \"$mcp_shared_lock_dir\"\n\
             export BATTY_MCP_NAMESPACE='it-s-eng-1'\n\
             export BATTY_MCP_RESOURCE_DIR=\"$mcp_resource_dir\"\n\
             export BATTY_MCP_SHARED_LOCK_DIR=\"$mcp_shared_lock_dir\"\n\
             export BATTY_MCP_SHARED_LOCK='/tmp/it'\\''s/.batty/mcp/shared-locks/mcp-shared.lock'\n\
             export BATTY_MCP_PORT_BASE='{port}'\n\
             export BATTY_MCP_PORT_RANGE='20'\n\
             export MCP_NAMESPACE=\"${{MCP_NAMESPACE:-$BATTY_MCP_NAMESPACE}}\"\n\
             export MCP_RESOURCE_DIR=\"${{MCP_RESOURCE_DIR:-$BATTY_MCP_RESOURCE_DIR}}\"\n\
             export MCP_SHARED_LOCK=\"${{MCP_SHARED_LOCK:-$BATTY_MCP_SHARED_LOCK}}\"\n\
             export MCP_PORT_BASE=\"${{MCP_PORT_BASE:-$BATTY_MCP_PORT_BASE}}\"\n"
        )
    );
}

#[test]
fn namespace_parts_are_safe_names() {
    assert_eq!(sanitize_namespace_part("My  Project!"), "my-project");
    assert_eq!(sanitize_namespace_part("--a--"), "a");
    assert_eq!(sanitize_namespace_part("日本"), "default");
    assert_eq!(sanitize_namespace_part(""), "default");
    assert_eq!(McpIsolation::for_member("/", "x").namespace, "default-x");
}

#[test]
fn the_hash_is_fnv_1a() {
    assert_eq!(stable_hash(""), 0xcbf29ce484222325);
    assert_eq!(stable_hash("a"), 0xaf63dc4c8601ec8c);
    assert_eq!(stable_hash("foobar"), 0x85944171f73967e8);
}

#[test]
fn port_blocks_start_at_multiples_of_their_size() {
    for name in ["a", "b", "repo-eng-1", "my-project-eng-1-1"] {
        let base = port_base_for(name);
        assert!(base >= MCP_PORT_MIN);
        assert_eq!((base - MCP_PORT_MIN) % MCP_PORT_BLOCK_SIZE, 0);
        assert!((base - MCP_PORT_MIN) / MCP_PORT_BLOCK_SIZE < MCP_PORT_BLOCK_COUNT);
    }
    let expected = 46000 + (0xaf63dc4c8601ec8cu64 % 500) as u16 * 20;
    assert_eq!(port_base_for("a"), expected);
}

#[test]
fn the_environment_names_every_resource() {
    let isolation = McpIsolation::for_member("/tmp/repo", "eng-1");
    let env = isolation.env();
    let value = |key: &str| {
        env.iter()
            .find(|entry| entry.0 == key)
            .map(|entry| entry.1.clone())
            .unwrap()
    };
    assert_eq!(env.len(), 10);
    assert_eq!(value("BATTY_MCP_NAMESPACE"), "repo-eng-1");
    assert_eq!(value("MCP_NAMESPACE"), "repo-eng-1");
    assert_eq!(value("BATTY_MCP_RESOURCE_DIR"), "/tmp/repo/.batty/mcp/namespaces/eng-1");
    assert_eq!(value("BATTY_MCP_SHARED_LOCK_DIR"), "/tmp/repo/.batty/mcp/shared-locks");
    assert_eq!(value("MCP_SHARED_LOCK"), "/tmp/repo/.batty/mcp/shared-locks/mcp-shared.lock");
    assert_eq!(value("MCP_PORT_BASE"), isolation.port_base.to_string());
    assert_eq!(value("BATTY_MCP_PORT_RANGE"), "20");
    assert_eq!(
        isolation.dirs(),
        vec![
            "/tmp/repo/.batty/mcp/namespaces/eng-1".to_string(),
            "/tmp/repo/.batty/mcp/shared-locks".to_string(),
        ]
    );
}

#[test]
fn quoted_text_is_one_word() {
    assert_eq!(shell_quote("plain"), "'plain'");
    assert_eq!(shell_quote("it's"), "'it'\\''s'");
    assert_eq!(shell_quote(""), "''");
}
