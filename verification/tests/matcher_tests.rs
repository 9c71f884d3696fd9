use jimjam::matcher::{find_matching_response, json_members_match, match_path, parse_query_string, RequestInfo};
use jimjam::mock::{MockEndpoint, MockResponse, ResponseCondition};
use jimjam::strmap::StrMap;

fn create_request(query: Option<&str>, headers: Vec<(&str, &str)>, body: &str) -> RequestInfo {
    let mut header_map = StrMap::new();
    for (k, v) in headers {
        header_map.insert(k.to_lowercase(), v.to_string());
    }
    RequestInfo {
        query_string: query.map(|s| s.to_string()),
        headers: header_map,
        body: body.to_string(),
    }
}

fn create_endpoint(path: &str, method: &str, responses: Vec<MockResponse>) -> MockEndpoint {
    MockEndpoint {
        path: path.to_string(),
        method: method.to_string(),
        responses,
    }
}

fn create_response(status: u16, condition: Option<ResponseCondition>) -> MockResponse {
    MockResponse {
        when: condition,
        status,
        headers: StrMap::new(),
        body: None,
        body_file: None,
        delay_ms: None,
    }
}

fn json_text(v: serde_json::Value) -> String {
    v.to_string()
}

// ========== Path Matching Tests ==========

#[test]
fn test_match_path_simple() {
    let result = match_path("/api/users", "/api/users");
    assert!(result.is_some());
    assert!(result.unwrap().params.is_empty());
}

#[test]
fn test_match_path_with_param() {
    let result = match_path("/api/users/{id}", "/api/users/123");
    assert!(result.is_some());
    let params = result.unwrap().params;
    assert_eq!(params.get("id"), Some(&"123".to_string()));
}

#[test]
fn test_match_path_multiple_params() {
    let result = match_path("/api/users/{user_id}/posts/{post_id}", "/api/users/42/posts/99");
    assert!(result.is_some());
    let params = result.unwrap().params;
    assert_eq!(params.get("user_id"), Some(&"42".to_string()));
    assert_eq!(params.get("post_id"), Some(&"99".to_string()));
}

#[test]
fn test_match_path_no_match() {
    let result = match_path("/api/users", "/api/products");
    assert!(result.is_none());
}

#[test]
fn test_match_path_different_length() {
    let result = match_path("/api/users/{id}", "/api/users");
    assert!(result.is_none());
}

#[test]
fn test_match_path_trailing_slash() {
    let result = match_path("/api/users/", "/api/users");
    assert!(result.is_some());
}

#[test]
fn test_match_path_root() {
    let result = match_path("/", "/");
    assert!(result.is_some());
}

// ========== Path Params Condition Tests ==========

#[test]
fn test_condition_path_params_match() {
    let mut condition = ResponseCondition::default();
    condition.path_params.insert("id".to_string(), "123".to_string());

    let response = create_response(200, Some(condition));
    let endpoint = create_endpoint("/users/{id}", "GET", vec![response]);
    let request = create_request(None, vec![], "");

    let mut path_params = StrMap::new();
    path_params.insert("id".to_string(), "123".to_string());

    let matched = find_matching_response(&endpoint, &request, &path_params);
    assert!(matched.is_some());
    assert_eq!(matched.unwrap().status, 200);
}

#[test]
fn test_condition_path_params_no_match() {
    let mut condition = ResponseCondition::default();
    condition.path_params.insert("id".to_string(), "123".to_string());

    let response = create_response(200, Some(condition));
    let endpoint = create_endpoint("/users/{id}", "GET", vec![response]);
    let request = create_request(None, vec![], "");

    let mut path_params = StrMap::new();
    path_params.insert("id".to_string(), "456".to_string());

    let matched = find_matching_response(&endpoint, &request, &path_params);
    assert!(matched.is_none());
}

// ========== Query Params Condition Tests ==========

#[test]
fn test_condition_query_params_match() {
    let mut condition = ResponseCondition::default();
    condition.query_params.insert("sort".to_string(), "asc".to_string());

    let response = create_response(200, Some(condition));
    let endpoint = create_endpoint("/api/items", "GET", vec![response]);
    let request = create_request(Some("sort=asc&limit=10"), vec![], "");

    let matched = find_matching_response(&endpoint, &request, &StrMap::new());
    assert!(matched.is_some());
}

#[test]
fn test_condition_query_params_no_match() {
    let mut condition = ResponseCondition::default();
    condition.query_params.insert("sort".to_string(), "asc".to_string());

    let response = create_response(200, Some(condition));
    let endpoint = create_endpoint("/api/items", "GET", vec![response]);
    let request = create_request(Some("sort=desc"), vec![], "");

    let matched = find_matching_response(&endpoint, &request, &StrMap::new());
    assert!(matched.is_none());
}

#[test]
fn test_condition_query_contains() {
    let mut condition = ResponseCondition::default();
    condition.query_contains = Some("category=".to_string());

    let response = create_response(200, Some(condition));
    let endpoint = create_endpoint("/api/search", "GET", vec![response]);
    let request = create_request(Some("q=test&category=books"), vec![], "");

    let matched = find_matching_response(&endpoint, &request, &StrMap::new());
    assert!(matched.is_some());
}

// ========== Headers Condition Tests ==========

#[test]
fn test_condition_headers_exact_match() {
    let mut condition = ResponseCondition::default();
    condition.headers.insert("Authorization".to_string(), "Bearer token123".to_string());

    let response = create_response(200, Some(condition));
    let endpoint = create_endpoint("/api/protected", "GET", vec![response]);
    let request = create_request(None, vec![("authorization", "Bearer token123")], "");

    let matched = find_matching_response(&endpoint, &request, &StrMap::new());
    assert!(matched.is_some());
}

#[test]
fn test_condition_header_contains() {
    let mut condition = ResponseCondition::default();
    condition.header_contains.insert("Authorization".to_string(), "Bearer".to_string());

    let response = create_response(200, Some(condition));
    let endpoint = create_endpoint("/api/protected", "GET", vec![response]);
    let request = create_request(None, vec![("authorization", "Bearer any-token-here")], "");

    let matched = find_matching_response(&endpoint, &request, &StrMap::new());
    assert!(matched.is_some());
}

#[test]
fn test_condition_header_missing() {
    let mut condition = ResponseCondition::default();
    condition.headers.insert("Authorization".to_string(), "Bearer token".to_string());

    let response = create_response(401, Some(condition));
    let endpoint = create_endpoint("/api/protected", "GET", vec![response]);
    let request = create_request(None, vec![], "");

    let matched = find_matching_response(&endpoint, &request, &StrMap::new());
    assert!(matched.is_none());
}

// ========== Body Contains Condition Tests ==========

#[test]
fn test_condition_body_contains() {
    let mut condition = ResponseCondition::default();
    condition.body_contains = Some("\"role\": \"admin\"".to_string());

    let response = create_response(403, Some(condition));
    let endpoint = create_endpoint("/api/users", "POST", vec![response]);
    let request = create_request(None, vec![], r#"{"name": "test", "role": "admin"}"#);

    let matched = find_matching_response(&endpoint, &request, &StrMap::new());
    assert!(matched.is_some());
    assert_eq!(matched.unwrap().status, 403);
}

// ========== Body JSON Condition Tests ==========

#[test]
fn test_condition_body_json_string_value() {
    let mut condition = ResponseCondition::default();
    condition.body_json.insert("name".to_string(), json_text(serde_json::Value::from("test")));

    let response = create_response(400, Some(condition));
    let endpoint = create_endpoint("/api/users", "POST", vec![response]);
    let request = create_request(None, vec![], r#"{"name": "test", "email": "test@example.com"}"#);

    let matched = find_matching_response(&endpoint, &request, &StrMap::new());
    assert!(matched.is_some());
    assert_eq!(matched.unwrap().status, 400);
}

#[test]
fn test_condition_body_json_number_value() {
    let mut condition = ResponseCondition::default();
    condition.body_json.insert("count".to_string(), json_text(serde_json::Value::from(42)));

    let response = create_response(200, Some(condition));
    let endpoint = create_endpoint("/api/data", "POST", vec![response]);
    let request = create_request(None, vec![], r#"{"count": 42}"#);

    let matched = find_matching_response(&endpoint, &request, &StrMap::new());
    assert!(matched.is_some());
}

#[test]
fn test_condition_body_json_invalid_json() {
    let mut condition = ResponseCondition::default();
    condition.body_json.insert("name".to_string(), json_text(serde_json::Value::from("test")));

    let response = create_response(200, Some(condition));
    let endpoint = create_endpoint("/api/users", "POST", vec![response]);
    let request = create_request(None, vec![], "not valid json");

    let matched = find_matching_response(&endpoint, &request, &StrMap::new());
    assert!(matched.is_none());
}

// ========== Body Regex Condition Tests ==========

#[test]
fn test_condition_body_regex_match() {
    let mut condition = ResponseCondition::default();
    condition.body_regex = Some(r#""email":\s*"[^"]+@test\.com""#.to_string());

    let response = create_response(400, Some(condition));
    let endpoint = create_endpoint("/api/users", "POST", vec![response]);
    let request = create_request(None, vec![], r#"{"email": "user@test.com"}"#);

    let matched = find_matching_response(&endpoint, &request, &StrMap::new());
    assert!(matched.is_some());
}

#[test]
fn test_condition_body_regex_no_match() {
    let mut condition = ResponseCondition::default();
    condition.body_regex = Some(r#"@test\.com"#.to_string());

    let response = create_response(400, Some(condition));
    let endpoint = create_endpoint("/api/users", "POST", vec![response]);
    let request = create_request(None, vec![], r#"{"email": "user@example.com"}"#);

    let matched = find_matching_response(&endpoint, &request, &StrMap::new());
    assert!(matched.is_none());
}

#[test]
fn test_condition_body_regex_invalid_pattern() {
    let mut condition = ResponseCondition::default();
    condition.body_regex = Some("[invalid".to_string());

    let response = create_response(200, Some(condition));
    let endpoint = create_endpoint("/api/test", "POST", vec![response]);
    let request = create_request(None, vec![], "anything");

    let matched = find_matching_response(&endpoint, &request, &StrMap::new());
    assert!(matched.is_none());
}

// ========== Multiple Conditions Tests ==========

#[test]
fn test_multiple_conditions_all_match() {
    let mut condition = ResponseCondition::default();
    condition.path_params.insert("id".to_string(), "123".to_string());
    condition.query_params.insert("include".to_string(), "details".to_string());
    condition.headers.insert("Accept".to_string(), "application/json".to_string());

    let response = create_response(200, Some(condition));
    let endpoint = create_endpoint("/users/{id}", "GET", vec![response]);
    let request = create_request(Some("include=details"), vec![("accept", "application/json")], "");

    let mut path_params = StrMap::new();
    path_params.insert("id".to_string(), "123".to_string());

    let matched = find_matching_response(&endpoint, &request, &path_params);
    assert!(matched.is_some());
}

#[test]
fn test_multiple_conditions_one_fails() {
    let mut condition = ResponseCondition::default();
    condition.path_params.insert("id".to_string(), "123".to_string());
    condition.query_params.insert("include".to_string(), "details".to_string());

    let response = create_response(200, Some(condition));
    let endpoint = create_endpoint("/users/{id}", "GET", vec![response]);
    let request = create_request(Some("include=summary"), vec![], "");

    let mut path_params = StrMap::new();
    path_params.insert("id".to_string(), "123".to_string());

    let matched = find_matching_response(&endpoint, &request, &path_params);
    assert!(matched.is_none());
}

// ========== Fallback Response Tests ==========

#[test]
fn test_fallback_response_no_condition() {
    let fallback = create_response(404, None);
    let endpoint = create_endpoint("/api/test", "GET", vec![fallback]);
    let request = create_request(None, vec![], "");

    let matched = find_matching_response(&endpoint, &request, &StrMap::new());
    assert!(matched.is_some());
    assert_eq!(matched.unwrap().status, 404);
}

#[test]
fn test_fallback_response_empty_condition() {
    let fallback = create_response(404, Some(ResponseCondition::default()));
    let endpoint = create_endpoint("/api/test", "GET", vec![fallback]);
    let request = create_request(None, vec![], "");

    let matched = find_matching_response(&endpoint, &request, &StrMap::new());
    assert!(matched.is_some());
    assert_eq!(matched.unwrap().status, 404);
}

#[test]
fn test_first_matching_response_wins() {
    let mut cond1 = ResponseCondition::default();
    cond1.path_params.insert("id".to_string(), "1".to_string());

    let responses = vec![create_response(200, Some(cond1)), create_response(404, None)];

    let endpoint = create_endpoint("/users/{id}", "GET", responses);
    let request = create_request(None, vec![], "");

    let mut path_params = StrMap::new();
    path_params.insert("id".to_string(), "1".to_string());

    let matched = find_matching_response(&endpoint, &request, &path_params);
    assert!(matched.is_some());
    assert_eq!(matched.unwrap().status, 200);
}

#[test]
fn test_fallback_when_no_specific_match() {
    let mut cond1 = ResponseCondition::default();
    cond1.path_params.insert("id".to_string(), "1".to_string());

    let responses = vec![create_response(200, Some(cond1)), create_response(404, None)];

    let endpoint = create_endpoint("/users/{id}", "GET", responses);
    let request = create_request(None, vec![], "");

    let mut path_params = StrMap::new();
    path_params.insert("id".to_string(), "999".to_string());

    let matched = find_matching_response(&endpoint, &request, &path_params);
    assert!(matched.is_some());
    assert_eq!(matched.unwrap().status, 404);
}

// ========== Further cases ==========

#[test]
fn test_match_path_empty_pattern_matches_root() {
    assert!(match_path("", "/").is_some());
    assert!(match_path("//", "").unwrap().params.is_empty());
}

#[test]
fn test_match_path_surrounding_slashes_ignored() {
    let m = match_path("api/users/{id}", "//api/users/7//").unwrap();
    assert_eq!(m.params.get("id"), Some(&"7".to_string()));
}

#[test]
fn test_match_path_repeated_param_last_wins() {
    let m = match_path("/{x}/{x}", "/a/b").unwrap();
    assert_eq!(m.params.get("x"), Some(&"b".to_string()));
    assert_eq!(m.params.len(), 1);
}

#[test]
fn test_match_path_lone_brace_is_literal() {
    assert!(match_path("/{", "/x").is_none());
    assert!(match_path("/{", "/{").unwrap().params.is_empty());
    let m = match_path("/{}", "/x").unwrap();
    assert_eq!(m.params.get(""), Some(&"x".to_string()));
}

#[test]
fn test_match_path_empty_inner_segment() {
    assert!(match_path("/a//b", "/a//b").is_some());
    assert!(match_path("/a//b", "/a/b").is_none());
    let m = match_path("/a/{p}/b", "/a//b").unwrap();
    assert_eq!(m.params.get("p"), Some(&"".to_string()));
}

#[test]
fn test_match_path_unicode_segments() {
    let m = match_path("/café/{name}", "/café/zoë").unwrap();
    assert_eq!(m.params.get("name"), Some(&"zoë".to_string()));
}

#[test]
fn test_parse_query_string_pairs() {
    let q = parse_query_string("a=1&b=2&a=3&flag&c=x=y&=e");
    assert_eq!(q.get("a"), Some(&"3".to_string()));
    assert_eq!(q.get("b"), Some(&"2".to_string()));
    assert_eq!(q.get("flag"), None);
    assert_eq!(q.get("c"), Some(&"x=y".to_string()));
    assert_eq!(q.get(""), Some(&"e".to_string()));
    assert_eq!(q.len(), 4);
}

#[test]
fn test_parse_query_string_empty() {
    assert!(parse_query_string("").is_empty());
}

#[test]
fn test_condition_query_contains_without_query() {
    let mut condition = ResponseCondition::default();
    condition.query_contains = Some("".to_string());
    let endpoint = create_endpoint("/x", "GET", vec![create_response(200, Some(condition))]);
    assert!(find_matching_response(&endpoint, &create_request(None, vec![], ""), &StrMap::new()).is_none());
    assert!(find_matching_response(&endpoint, &create_request(Some(""), vec![], ""), &StrMap::new()).is_some());
}

#[test]
fn test_condition_query_params_without_query() {
    let mut condition = ResponseCondition::default();
    condition.query_params.insert("a".to_string(), "1".to_string());
    let endpoint = create_endpoint("/x", "GET", vec![create_response(200, Some(condition))]);
    assert!(find_matching_response(&endpoint, &create_request(None, vec![], ""), &StrMap::new()).is_none());
}

#[test]
fn test_condition_header_contains_wrong_value() {
    let mut condition = ResponseCondition::default();
    condition.header_contains.insert("User-Agent".to_string(), "Mozilla".to_string());
    let endpoint = create_endpoint("/x", "GET", vec![create_response(200, Some(condition))]);
    let request = create_request(None, vec![("user-agent", "curl/8")], "");
    assert!(find_matching_response(&endpoint, &request, &StrMap::new()).is_none());
}

#[test]
fn test_condition_body_json_not_object() {
    let mut condition = ResponseCondition::default();
    condition.body_json.insert("a".to_string(), json_text(serde_json::Value::from(1)));
    let endpoint = create_endpoint("/x", "POST", vec![create_response(200, Some(condition))]);
    let request = create_request(None, vec![], "[1, 2]");
    assert!(find_matching_response(&endpoint, &request, &StrMap::new()).is_none());
}

#[test]
fn test_condition_body_json_type_must_match() {
    let mut condition = ResponseCondition::default();
    condition.body_json.insert("count".to_string(), json_text(serde_json::Value::from("42")));
    let endpoint = create_endpoint("/x", "POST", vec![create_response(200, Some(condition))]);
    let request = create_request(None, vec![], r#"{"count": 42}"#);
    assert!(find_matching_response(&endpoint, &request, &StrMap::new()).is_none());
}

#[test]
fn test_condition_body_json_nested_value() {
    let mut condition = ResponseCondition::default();
    condition.body_json.insert("user".to_string(), r#"{"name":"a","tags":[1,2]}"#.to_string());
    let endpoint = create_endpoint("/x", "POST", vec![create_response(200, Some(condition))]);
    let request = create_request(None, vec![], r#"{"user": {"tags": [1, 2], "name": "a"}}"#);
    assert!(find_matching_response(&endpoint, &request, &StrMap::new()).is_some());
}

#[test]
fn test_no_responses_no_match() {
    let endpoint = create_endpoint("/x", "GET", vec![]);
    assert!(find_matching_response(&endpoint, &create_request(None, vec![], ""), &StrMap::new()).is_none());
}

#[test]
fn test_json_members_match_on_given_members() {
    let mut expected = StrMap::new();
    expected.insert("a".to_string(), "1".to_string());
    expected.insert("b".to_string(), "\"x\"".to_string());
    let members = vec![("b".to_string(), "\"x\"".to_string()), ("a".to_string(), "1.0".to_string())];
    assert!(!json_members_match(&expected, Some(members)));
    let members = vec![("b".to_string(), "\"x\"".to_string()), ("a".to_string(), "1".to_string()), ("c".to_string(), "null".to_string())];
    assert!(json_members_match(&expected, Some(members)));
    assert!(!json_members_match(&expected, None));
    assert!(json_members_match(&StrMap::new(), None));
    let members = vec![("a".to_string(), "1".to_string())];
    assert!(!json_members_match(&expected, Some(members)));
}
