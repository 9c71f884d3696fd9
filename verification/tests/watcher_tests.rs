use jimjam::watcher::{has_mock_file_changes, mock_file_changed, FileChange};

fn change(ext: Option<&str>, any: bool) -> FileChange {
    FileChange { extension: ext.map(|s| s.to_string()), is_any_kind: any }
}

#[test]
fn test_yaml_changes_trigger_reload() {
    assert!(mock_file_changed(&change(Some("yaml"), true)));
    assert!(mock_file_changed(&change(Some("yml"), true)));
    assert!(!mock_file_changed(&change(Some("json"), true)));
    assert!(!mock_file_changed(&change(Some("YAML"), true)));
    assert!(!mock_file_changed(&change(None, true)));
    assert!(!mock_file_changed(&change(Some("yaml"), false)));
}

#[test]
fn test_batch_reload_decision() {
    assert!(!has_mock_file_changes(&vec![]));
    assert!(!has_mock_file_changes(&vec![change(Some("txt"), true), change(Some("yaml"), false)]));
    assert!(has_mock_file_changes(&vec![change(Some("txt"), true), change(Some("yml"), true)]));
}
