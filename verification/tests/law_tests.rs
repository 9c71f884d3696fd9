use jimjam::matcher::{find_matching_response, match_path, parse_query_string, RequestInfo};
use jimjam::mock::{MockEndpoint, MockResponse, ResponseCondition};
use jimjam::server::select_response;
use jimjam::strmap::StrMap;

fn request(headers: Vec<(&str, &str)>) -> RequestInfo {
    let mut h = StrMap::new();
    for (k, v) in headers {
        h.insert(k.to_string(), v.to_string());
    }
    RequestInfo { query_string: Some("a=1".to_string()), headers: h, body: "{}".to_string() }
}

fn response(status: u16, when: Option<ResponseCondition>) -> MockResponse {
    MockResponse { when, status, headers: StrMap::new(), body: None, body_file: None, delay_ms: None }
}

#[test]
fn test_law_fallback_matches_every_request() {
    let ep = MockEndpoint {
        path: "/x".to_string(),
        method: "GET".to_string(),
        responses: vec![response(500, Some(ResponseCondition::default()))],
    };
    for body_req in [request(vec![]), request(vec![("x", "y")])] {
        assert_eq!(find_matching_response(&ep, &body_req, &StrMap::new()).unwrap().status, 500);
    }
}

#[test]
fn test_law_first_match_at_or_before_fallback() {
    let mut c = ResponseCondition::default();
    c.body_contains = Some("{".to_string());
    let ep = MockEndpoint {
        path: "/x".to_string(),
        method: "GET".to_string(),
        responses: vec![response(201, Some(c)), response(404, None), response(202, None)],
    };
    assert_eq!(find_matching_response(&ep, &request(vec![]), &StrMap::new()).unwrap().status, 201);
}

#[test]
fn test_law_header_names_case_insensitive() {
    let mut c1 = ResponseCondition::default();
    c1.headers.insert("Authorization".to_string(), "t".to_string());
    let mut c2 = ResponseCondition::default();
    c2.headers.insert("AUTHORIZATION".to_string(), "t".to_string());
    for req in [request(vec![("authorization", "t")]), request(vec![("authorization", "u")]), request(vec![])] {
        let e1 = MockEndpoint { path: "/".to_string(), method: "GET".to_string(), responses: vec![response(200, Some(ResponseCondition {
            headers: { let mut m = StrMap::new(); m.insert("Authorization".to_string(), "t".to_string()); m },
            ..ResponseCondition::default()
        }))] };
        let e2 = MockEndpoint { path: "/".to_string(), method: "GET".to_string(), responses: vec![response(200, Some(ResponseCondition {
            headers: { let mut m = StrMap::new(); m.insert("AUTHORIZATION".to_string(), "t".to_string()); m },
            ..ResponseCondition::default()
        }))] };
        assert_eq!(
            find_matching_response(&e1, &req, &StrMap::new()).is_some(),
            find_matching_response(&e2, &req, &StrMap::new()).is_some()
        );
    }
    assert!(!c1.is_empty() && !c2.is_empty());
}

#[test]
fn test_law_literal_path_matches_itself() {
    for p in ["/api/users", "/", "a/b/c", "/x//y/"] {
        let m = match_path(p, p).unwrap();
        assert!(m.params.is_empty());
    }
}

#[test]
fn test_law_captured_values_are_path_segments() {
    let m = match_path("/a/{x}/b/{y}", "/a/1/b/2").unwrap();
    assert_eq!(m.params.len(), 2);
    assert_eq!(m.params.get("x"), Some(&"1".to_string()));
    assert_eq!(m.params.get("y"), Some(&"2".to_string()));
}

#[test]
fn test_law_surrounding_slashes_ignored() {
    let a = match_path("/users/{id}", "users/5").unwrap();
    let b = match_path("/users/{id}", "/users/5/").unwrap();
    assert_eq!(a.params.get("id"), b.params.get("id"));
    assert!(match_path("//users/{id}//", "/users/5").is_some());
}

#[test]
fn test_law_query_appended_pair_wins() {
    let q = parse_query_string("a=1&b=2&a=9");
    assert_eq!(q.get("a"), Some(&"9".to_string()));
    assert_eq!(q.get("b"), Some(&"2".to_string()));
}

#[test]
fn test_law_method_case_insensitive() {
    for m in ["get", "Get", "GET"] {
        let eps = vec![MockEndpoint { path: "/x".to_string(), method: m.to_string(), responses: vec![response(200, None)] }];
        assert_eq!(select_response(&eps, "GET", "/x", &request(vec![])), Some((0, 0)));
    }
}

#[test]
fn test_law_selection_unique() {
    let eps = vec![
        MockEndpoint { path: "/x/{id}".to_string(), method: "GET".to_string(), responses: vec![response(200, None)] },
        MockEndpoint { path: "/x/1".to_string(), method: "GET".to_string(), responses: vec![response(201, None)] },
    ];
    let a = select_response(&eps, "GET", "/x/1", &request(vec![]));
    let b = select_response(&eps, "GET", "/x/1", &request(vec![]));
    assert_eq!(a, b);
    assert_eq!(a, Some((0, 0)));
}
