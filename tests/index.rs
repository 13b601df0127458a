use crates_registry::config::{canonical_config, config_action, initial_commit, ConfigAction, IndexConfig};
use crates_registry::entry::{entry_file_lines, entry_file_text};

fn write_of(action: ConfigAction) -> (IndexConfig, String) {
    match action {
        ConfigAction::Write { config, message } => (config, message),
        ConfigAction::Keep => panic!("expected a write"),
    }
}

#[test]
fn canonical_config_for_address() {
    let c = canonical_config("192.168.0.1:9999");
    assert_eq!(c.dl, "http://192.168.0.1:9999/api/v1/crates/{crate}/{version}/download");
    assert_eq!(c.api, Some("http://192.168.0.1:9999".to_string()));
}

#[test]
fn missing_config_is_created() {
    let (config, message) = write_of(config_action(None, "127.0.0.1:0"));
    assert_eq!(config.dl, "http://127.0.0.1:0/api/v1/crates/{crate}/{version}/download");
    assert_eq!(config.api, Some("http://127.0.0.1:0".to_string()));
    assert_eq!(message, "Add initial config.json");
}

#[test]
fn stale_config_is_rewritten_once() {
    let current = IndexConfig { dl: "foobar".to_string(), api: None };
    let (config, message) = write_of(config_action(Some(&current), "254.0.0.0:1"));
    assert_eq!(config.dl, "http://254.0.0.0:1/api/v1/crates/{crate}/{version}/download");
    assert_eq!(config.api, Some("http://254.0.0.0:1".to_string()));
    assert_eq!(message, "Update config.json");
    assert!(matches!(config_action(Some(&config), "254.0.0.0:1"), ConfigAction::Keep));
}

#[test]
fn rebind_rewrites_config() {
    let first = canonical_config("192.168.0.1:9999");
    assert!(matches!(config_action(Some(&first), "192.168.0.1:9999"), ConfigAction::Keep));
    let (config, message) = write_of(config_action(Some(&first), "10.0.0.1:80"));
    assert_eq!(config.dl, "http://10.0.0.1:80/api/v1/crates/{crate}/{version}/download");
    assert_eq!(message, "Update config.json");
    let api_only = IndexConfig {
        dl: "http://10.0.0.1:80/api/v1/crates/{crate}/{version}/download".to_string(),
        api: None,
    };
    assert!(matches!(config_action(Some(&api_only), "10.0.0.1:80"), ConfigAction::Write { .. }));
}

#[test]
fn entry_file_round_trip() {
    let lines = vec![
        r#"{"name":"foo","vers":"0.1.0"}"#.to_string(),
        r#"{"name":"foo","vers":"0.2.0"}"#.to_string(),
    ];
    let text = entry_file_text(&lines);
    assert_eq!(text, "{\"name\":\"foo\",\"vers\":\"0.1.0\"}\n{\"name\":\"foo\",\"vers\":\"0.2.0\"}");
    assert_eq!(entry_file_lines(&text), lines);
    assert_eq!(entry_file_lines("a\r\nb\n"), vec!["a", "b"]);
    assert_eq!(entry_file_lines("a\n\nb\r"), vec!["a", "", "b\r"]);
    assert!(entry_file_lines("").is_empty());
    assert_eq!(entry_file_text(&[]), "");
}

#[test]
fn initial_commit_only_for_empty_index() {
    assert_eq!(initial_commit(true), Some("Create new repository for cargo registry".to_string()));
    assert_eq!(initial_commit(false), None);
}
