use jimjam::config::{default_host, default_hot_reload, default_patterns, default_port};

#[test]
fn test_default_values() {
    assert_eq!(default_host(), "127.0.0.1");
    assert_eq!(default_port(), 8080);
    assert_eq!(default_patterns(), vec!["**/*.yaml".to_string(), "**/*.yml".to_string()]);
    assert!(default_hot_reload());
}
