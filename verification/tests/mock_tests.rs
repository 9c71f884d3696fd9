use jimjam::mock::{default_status, ResponseCondition};

#[test]
fn test_response_condition_is_empty() {
    let empty = ResponseCondition::default();
    assert!(empty.is_empty());

    let mut with_path_param = ResponseCondition::default();
    with_path_param.path_params.insert("id".to_string(), "1".to_string());
    assert!(!with_path_param.is_empty());
}

#[test]
fn test_is_empty_each_kind_of_condition() {
    let mut c = ResponseCondition::default();
    c.query_params.insert("a".to_string(), "b".to_string());
    assert!(!c.is_empty());
    let mut c = ResponseCondition::default();
    c.query_contains = Some(String::new());
    assert!(!c.is_empty());
    let mut c = ResponseCondition::default();
    c.headers.insert("A".to_string(), "b".to_string());
    assert!(!c.is_empty());
    let mut c = ResponseCondition::default();
    c.header_contains.insert("A".to_string(), "b".to_string());
    assert!(!c.is_empty());
    let mut c = ResponseCondition::default();
    c.body_contains = Some("x".to_string());
    assert!(!c.is_empty());
    let mut c = ResponseCondition::default();
    c.body_json.insert("k".to_string(), "1".to_string());
    assert!(!c.is_empty());
    let mut c = ResponseCondition::default();
    c.body_regex = Some(".".to_string());
    assert!(!c.is_empty());
}

#[test]
fn test_default_status_value() {
    assert_eq!(default_status(), 200);
}

