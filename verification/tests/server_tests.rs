use jimjam::matcher::RequestInfo;
use jimjam::mock::{MockEndpoint, MockFile, MockResponse, ResponseCondition};
use jimjam::server::{
    body_source, collect_endpoints, decimal_string, error_body,
    needs_default_content_type, not_found_message, reload_ok_body, reply_to, select_response,
    BodySource, Reply,
};
use jimjam::strmap::StrMap;

fn response(status: u16, when: Option<ResponseCondition>) -> MockResponse {
    MockResponse { when, status, headers: StrMap::new(), body: None, body_file: None, delay_ms: None }
}

fn endpoint(path: &str, method: &str, responses: Vec<MockResponse>) -> MockEndpoint {
    MockEndpoint { path: path.to_string(), method: method.to_string(), responses }
}

fn request() -> RequestInfo {
    RequestInfo { query_string: None, headers: StrMap::new(), body: String::new() }
}

fn id_is(v: &str) -> ResponseCondition {
    let mut c = ResponseCondition::default();
    c.path_params.insert("id".to_string(), v.to_string());
    c
}

#[test]
fn test_select_response_by_method_and_path() {
    let eps = vec![
        endpoint("/api/users", "GET", vec![response(200, None)]),
        endpoint("/api/users", "post", vec![response(201, None)]),
    ];
    assert_eq!(select_response(&eps, "GET", "/api/users", &request()), Some((0, 0)));
    assert_eq!(select_response(&eps, "POST", "/api/users", &request()), Some((1, 0)));
    assert_eq!(select_response(&eps, "DELETE", "/api/users", &request()), None);
    assert_eq!(select_response(&eps, "GET", "/api/other", &request()), None);
}

#[test]
fn test_select_response_falls_through_endpoints() {
    let eps = vec![
        endpoint("/users/{id}", "GET", vec![response(200, Some(id_is("1")))]),
        endpoint("/users/{id}", "GET", vec![response(200, Some(id_is("2"))), response(404, None)]),
    ];
    assert_eq!(select_response(&eps, "GET", "/users/1", &request()), Some((0, 0)));
    assert_eq!(select_response(&eps, "GET", "/users/2", &request()), Some((1, 0)));
    assert_eq!(select_response(&eps, "GET", "/users/3", &request()), Some((1, 1)));
}

#[test]
fn test_body_source_kinds() {
    let mut r = response(200, None);
    r.body = Some("@./data/x.json".to_string());
    r.body_file = Some("./other.json".to_string());
    assert!(matches!(body_source(&r), BodySource::File(p) if p == "./data/x.json"));
    r.body = Some("{\"a\":1}".to_string());
    assert!(matches!(body_source(&r), BodySource::Inline(t) if t == "{\"a\":1}"));
    r.body = Some(String::new());
    assert!(matches!(body_source(&r), BodySource::Inline(t) if t.is_empty()));
    r.body = None;
    assert!(matches!(body_source(&r), BodySource::File(p) if p == "./other.json"));
    r.body_file = None;
    assert!(matches!(body_source(&r), BodySource::Empty));
    r.body = Some("@".to_string());
    assert!(matches!(body_source(&r), BodySource::File(p) if p.is_empty()));
}

#[test]
fn test_default_content_type_rule() {
    let mut h = StrMap::new();
    assert!(needs_default_content_type(&h, "{}"));
    assert!(!needs_default_content_type(&h, ""));
    h.insert("X-Custom".to_string(), "v".to_string());
    assert!(needs_default_content_type(&h, "{}"));
    h.insert("Content-TYPE".to_string(), "text/plain".to_string());
    assert!(!needs_default_content_type(&h, "{}"));
}

#[test]
fn test_messages_and_bodies() {
    assert_eq!(not_found_message("GET", "/x"), "No mock defined for GET /x");
    assert_eq!(error_body("No mock defined for GET /x"), r#"{"error":"No mock defined for GET /x"}"#);
    assert_eq!(error_body("say \"hi\"\n"), r#"{"error":"say \"hi\"\n"}"#);
    assert_eq!(
        error_body("a\"b"),
        serde_json::Value::Object({
            let mut m = serde_json::Map::new();
            m.insert("error".to_string(), serde_json::Value::from("a\"b"));
            m
        })
        .to_string()
    );
    assert_eq!(reload_ok_body(3), r#"{"endpoints_loaded":3,"status":"ok"}"#);
    assert_eq!(reload_ok_body(0), r#"{"endpoints_loaded":0,"status":"ok"}"#);
}

#[test]
fn test_decimal_string() {
    assert_eq!(decimal_string(0), "0");
    assert_eq!(decimal_string(7), "7");
    assert_eq!(decimal_string(10), "10");
    assert_eq!(decimal_string(1234567890), "1234567890");
    assert_eq!(decimal_string(usize::MAX), usize::MAX.to_string());
}

#[test]
fn test_collect_endpoints_in_order() {
    let f1 = MockFile { mocks: vec![endpoint("/a", "GET", vec![]), endpoint("/b", "GET", vec![])] };
    let f2 = MockFile { mocks: vec![] };
    let f3 = MockFile { mocks: vec![endpoint("/c", "POST", vec![])] };
    let all = collect_endpoints(vec![f1, f2, f3]);
    let paths: Vec<&str> = all.iter().map(|e| e.path.as_str()).collect();
    assert_eq!(paths, vec!["/a", "/b", "/c"]);
}

#[test]
fn test_reply_to_not_found_and_mock() {
    let eps = vec![endpoint("/api/health", "GET", vec![response(200, None)])];
    match reply_to(&eps, "GET", "/api/health", &request()) {
        Reply::Mock { endpoint, response } => assert_eq!((endpoint, response), (0, 0)),
        Reply::Error { .. } => panic!("expected a mock"),
    }
    match reply_to(&eps, "GET", "/nope", &request()) {
        Reply::Error { status, body } => {
            assert_eq!(status, 404);
            assert_eq!(body, r#"{"error":"No mock defined for GET /nope"}"#);
        }
        Reply::Mock { .. } => panic!("expected an error"),
    }
}
