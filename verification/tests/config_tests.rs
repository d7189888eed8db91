use std::collections::HashMap;

use mdterm::config::{default_command, default_host, default_port, Config, ContextConfig, ServerConfig};

fn context(name: &str, path: &str) -> ContextConfig {
    ContextConfig {
        name: name.to_string(),
        path: path.to_string(),
        description: format!("{} docs", name),
        command: default_command(),
        env: HashMap::new(),
    }
}

#[test]
fn defaults_match_documentation() {
    assert_eq!(default_host(), "127.0.0.1");
    assert_eq!(default_port(), 8080);
    assert_eq!(default_command(), "/bin/bash");
    let server = ServerConfig::default();
    assert_eq!(server.host, "127.0.0.1");
    assert_eq!(server.port, 8080);
    let config = Config::default();
    assert_eq!(config.server.port, 8080);
    assert!(config.contexts.is_empty());
}

#[test]
fn get_context_finds_first_with_name() {
    let config = Config {
        server: ServerConfig::default(),
        contexts: vec![context("docs", "/a"), context("notes", "/b"), context("docs", "/c")],
    };
    let found = config.get_context("docs").unwrap();
    assert_eq!(found.path, "/a");
    assert_eq!(config.get_context("notes").unwrap().path, "/b");
}

#[test]
fn get_context_unknown_name_is_none() {
    let config = Config {
        server: ServerConfig::default(),
        contexts: vec![context("docs", "/a")],
    };
    assert!(config.get_context("doc").is_none());
    assert!(config.get_context("").is_none());
    assert!(Config::default().get_context("docs").is_none());
}

#[test]
fn context_summaries_keep_order_and_fields() {
    let config = Config {
        server: ServerConfig::default(),
        contexts: vec![context("docs", "/a"), context("notes", "/b")],
    };
    let list = config.context_summaries();
    assert_eq!(list.len(), 2);
    assert_eq!(list[0].name, "docs");
    assert_eq!(list[0].path, "/a");
    assert_eq!(list[0].description, "docs docs");
    assert_eq!(list[1].name, "notes");
}
