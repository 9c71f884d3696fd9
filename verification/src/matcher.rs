//! Matching requests against mock definitions: path patterns with `{param}`
//! segments, and the conditions of each response.
use vstd::prelude::*;

use crate::mock::{MockEndpoint, MockResponse, ResponseCondition};
use crate::strmap::{pair_views, pairs_to_map, StrMap};
use crate::text::{
    chars_of, contains_str, find_char, is_substring, ranges_equal, split_bounds, split_char,
    split_once_char, substring, trim_bounds, trim_char,
};
use crate::trusted::{
    json_equal, json_object_fields, json_object_members, json_values_equal, regex_compiles,
    regex_is_match, regex_matches, str_to_lowercase, to_lowercase,
};

verus! {

/// Represents an incoming HTTP request for matching.
pub struct RequestInfo {
    pub query_string: Option<String>,
    /// Header names are expected in lowercase.
    pub headers: StrMap,
    pub body: String,
}

/// Result of path matching, includes extracted path parameters.
pub struct PathMatch {
    pub params: StrMap,
}

// ---------------------------------------------------------------------------
// Path patterns
// ---------------------------------------------------------------------------

/// A segment written `{name}`: it captures the request's segment under `name`.
pub open spec fn is_param_segment(seg: Seq<char>) -> bool {
    seg.len() > 0 && seg[0] == '{' && seg.last() == '}'
}

/// The name between the braces of a `{name}` segment.
pub open spec fn param_name(seg: Seq<char>) -> Seq<char> {
    seg.subrange(1, seg.len() - 1)
}

/// The segments of a path: the pieces between `/`, once every leading and
/// trailing `/` is removed.
pub open spec fn path_segments(p: Seq<char>) -> Seq<Seq<char>> {
    split_char(trim_char(p, '/'), '/')
}

/// Both have as many segments, and each literal segment of the pattern equals
/// the request's segment at the same place.
pub open spec fn segments_match(pat: Seq<Seq<char>>, path: Seq<Seq<char>>) -> bool {
    &&& pat.len() == path.len()
    &&& forall|i: int| 0 <= i < pat.len() && !is_param_segment(#[trigger] pat[i]) ==> pat[i] == path[i]
}

/// The parameters captured by the first `n` segments: each `{name}` segment
/// binds `name` to the request's segment, a later one replacing an earlier one.
pub open spec fn captured_params(pat: Seq<Seq<char>>, path: Seq<Seq<char>>, n: int) -> Map<
    Seq<char>,
    Seq<char>,
>
    decreases n,
{
    if n <= 0 {
        Map::empty()
    } else {
        let m = captured_params(pat, path, n - 1);
        if is_param_segment(pat[n - 1]) {
            m.insert(param_name(pat[n - 1]), path[n - 1])
        } else {
            m
        }
    }
}

/// The parameters a pattern captures from a request path, or `None` when the
/// pattern does not match it.
pub open spec fn path_match_params(pattern: Seq<char>, path: Seq<char>) -> Option<
    Map<Seq<char>, Seq<char>>,
> {
    let ps = path_segments(pattern);
    let qs = path_segments(path);
    if segments_match(ps, qs) {
        Some(captured_params(ps, qs, ps.len() as int))
    } else {
        None
    }
}

/// Check if a path pattern matches a request path.
/// Supports path parameters like /users/{id}/posts/{post_id}
pub fn match_path(pattern: &str, request_path: &str) -> (r: Option<PathMatch>)
    ensures
        match r {
            Some(m) => path_match_params(pattern@, request_path@) == Some(m.params@),
            None => path_match_params(pattern@, request_path@) is None,
        },
{
    let pc = chars_of(pattern);
    let qc = chars_of(request_path);
    let (pa, pb) = trim_bounds(&pc, '/');
    let (qa, qb) = trim_bounds(&qc, '/');
    let pr = split_bounds(&pc, pa, pb, '/');
    let qr = split_bounds(&qc, qa, qb, '/');
    let ghost ps = path_segments(pattern@);
    let ghost qs = path_segments(request_path@);
    assert(ps == split_char(pc@.subrange(pa as int, pb as int), '/'));
    assert(qs == split_char(qc@.subrange(qa as int, qb as int), '/'));
    if pr.len() != qr.len() {
        return None;
    }
    let n = pr.len();
    let mut params = StrMap::new();
    for i in 0..n
        invariant
            n == pr@.len(),
            n == qr@.len(),
            n == ps.len(),
            n == qs.len(),
            pc@ == pattern@,
            qc@ == request_path@,
            ps == path_segments(pattern@),
            qs == path_segments(request_path@),
            forall|j: int|
                0 <= j < n ==> (#[trigger] pr@[j]).0 <= pr@[j].1 <= pc@.len() && pc@.subrange(
                    pr@[j].0 as int,
                    pr@[j].1 as int,
                ) == ps[j],
            forall|j: int|
                0 <= j < n ==> (#[trigger] qr@[j]).0 <= qr@[j].1 <= qc@.len() && qc@.subrange(
                    qr@[j].0 as int,
                    qr@[j].1 as int,
                ) == qs[j],
            forall|j: int| 0 <= j < i && !is_param_segment(#[trigger] ps[j]) ==> ps[j] == qs[j],
            params@ == captured_params(ps, qs, i as int),
    {
        let (s0, s1) = pr[i];
        let (t0, t1) = qr[i];
        assert(pc@.subrange(s0 as int, s1 as int) == ps[i as int]);
        assert(qc@.subrange(t0 as int, t1 as int) == qs[i as int]);
        if s1 > s0 && pc[s0] == '{' && pc[s1 - 1] == '}' {
            let ghost seg = ps[i as int];
            assert(seg[0] == pc@[s0 as int]);
            assert(seg.last() == pc@[s1 - 1]);
            assert(is_param_segment(seg));
            let name = substring(pattern, s0 + 1, s1 - 1);
            let value = substring(request_path, t0, t1);
            assert(name@ =~= param_name(seg));
            params.insert(name, value);
        } else {
            let ghost seg = ps[i as int];
            assert(!is_param_segment(seg)) by {
                if seg.len() > 0 {
                    assert(seg[0] == pc@[s0 as int]);
                    assert(seg.last() == pc@[s1 - 1]);
                }
            }
            if !ranges_equal(&pc, s0, s1, &qc, t0, t1) {
                assert(!segments_match(ps, qs)) by {
                    assert(!is_param_segment(ps[i as int]) && ps[i as int] != qs[i as int]);
                }
                return None;
            }
        }
    }
    Some(PathMatch { params })
}

// ---------------------------------------------------------------------------
// Query strings
// ---------------------------------------------------------------------------

/// The map built from `key=value` pieces: each piece is split at its first
/// `=`, pieces without one are skipped, and a later key replaces an earlier one.
pub open spec fn query_pieces_map(pieces: Seq<Seq<char>>) -> Map<Seq<char>, Seq<char>>
    decreases pieces.len(),
{
    if pieces.len() == 0 {
        Map::empty()
    } else {
        let m = query_pieces_map(pieces.drop_last());
        match split_once_char(pieces.last(), '=') {
            Some((k, v)) => m.insert(k, v),
            None => m,
        }
    }
}

/// The parameters of a query string: its `&`-separated pieces read as
/// `key=value` pairs, with no decoding.
pub open spec fn query_map(q: Seq<char>) -> Map<Seq<char>, Seq<char>> {
    query_pieces_map(split_char(q, '&'))
}

/// Parse a query string into its `key=value` parameters.
pub fn parse_query_string(query: &str) -> (r: StrMap)
    ensures
        r@ == query_map(query@),
{
    let qc = chars_of(query);
    let n = qc.len();
    let ranges = split_bounds(&qc, 0, n, '&');
    let ghost pieces = split_char(qc@.subrange(0, n as int), '&');
    assert(qc@.subrange(0, n as int) =~= query@);
    let mut map = StrMap::new();
    let count = ranges.len();
    assert(pieces.take(0) =~= Seq::<Seq<char>>::empty());
    for i in 0..count
        invariant
            count == ranges@.len(),
            count == pieces.len(),
            n == qc@.len(),
            qc@ == query@,
            pieces == split_char(query@, '&'),
            forall|j: int|
                0 <= j < count ==> (#[trigger] ranges@[j]).0 <= ranges@[j].1 <= n && qc@.subrange(
                    ranges@[j].0 as int,
                    ranges@[j].1 as int,
                ) == pieces[j],
            map@ == query_pieces_map(pieces.take(i as int)),
    {
        let (a, b) = ranges[i];
        let ghost piece = pieces[i as int];
        assert(qc@.subrange(a as int, b as int) == piece);
        assert(pieces.take(i + 1).drop_last() =~= pieces.take(i as int));
        assert(pieces.take(i + 1).last() == piece);
        let e = find_char(&qc, a, b, '=');
        if e < b - a {
            let key = substring(query, a, a + e);
            let value = substring(query, a + e + 1, b);
            assert(key@ =~= piece.take(e as int));
            assert(value@ =~= piece.skip(e + 1));
            map.insert(key, value);
        }
    }
    assert(pieces.take(count as int) =~= pieces);
    map
}

// ---------------------------------------------------------------------------
// Conditions
// ---------------------------------------------------------------------------

/// The query string of a request; an absent one reads as empty.
pub open spec fn query_text(request: RequestInfo) -> Seq<char> {
    match request.query_string {
        Some(q) => q@,
        None => Seq::empty(),
    }
}

/// Every expected path parameter is captured, with the expected value.
pub open spec fn path_params_hold(cond: ResponseCondition, path_params: Map<Seq<char>, Seq<char>>) -> bool {
    forall|k: Seq<char>|
        #[trigger] cond.path_params@.contains_key(k) ==> path_params.contains_key(k) && path_params[k]
            == cond.path_params@[k]
}

/// Every expected query parameter is in the query string, with the expected value.
pub open spec fn query_params_hold(cond: ResponseCondition, request: RequestInfo) -> bool {
    forall|k: Seq<char>|
        #[trigger] cond.query_params@.contains_key(k) ==> query_map(query_text(request)).contains_key(k)
            && query_map(query_text(request))[k] == cond.query_params@[k]
}

/// The expected substring, if any, occurs in the query string; a request
/// without a query string has none.
pub open spec fn query_contains_holds(cond: ResponseCondition, request: RequestInfo) -> bool {
    match cond.query_contains {
        Some(sub) => match request.query_string {
            Some(q) => is_substring(sub@, q@),
            None => false,
        },
        None => true,
    }
}

/// Every expected header is present under its lowercased name, with the expected value.
pub open spec fn headers_hold(cond: ResponseCondition, request: RequestInfo) -> bool {
    forall|k: Seq<char>|
        #[trigger] cond.headers@.contains_key(k) ==> request.headers@.contains_key(str_to_lowercase(k))
            && request.headers@[str_to_lowercase(k)] == cond.headers@[k]
}

/// Every header named is present under its lowercased name, and holds the expected substring.
pub open spec fn header_contains_holds(cond: ResponseCondition, request: RequestInfo) -> bool {
    forall|k: Seq<char>|
        #[trigger] cond.header_contains@.contains_key(k) ==> request.headers@.contains_key(
            str_to_lowercase(k),
        ) && is_substring(cond.header_contains@[k], request.headers@[str_to_lowercase(k)])
}

/// The expected substring, if any, occurs in the body.
pub open spec fn body_contains_holds(cond: ResponseCondition, request: RequestInfo) -> bool {
    match cond.body_contains {
        Some(sub) => is_substring(sub@, request.body@),
        None => true,
    }
}

/// With expected JSON members, the body is a JSON object that has each
/// expected key, with a value equal to the expected one.
pub open spec fn body_json_holds(cond: ResponseCondition, request: RequestInfo) -> bool {
    members_hold(cond.body_json@, json_object_members(request.body@))
}

/// The pattern, if any, compiles and matches the body.
pub open spec fn body_regex_holds(cond: ResponseCondition, request: RequestInfo) -> bool {
    match cond.body_regex {
        Some(p) => regex_compiles(p@) && regex_matches(p@, request.body@),
        None => true,
    }
}

/// Every condition that `cond` specifies holds of the request.
pub open spec fn conditions_hold(
    cond: ResponseCondition,
    request: RequestInfo,
    path_params: Map<Seq<char>, Seq<char>>,
) -> bool {
    &&& path_params_hold(cond, path_params)
    &&& query_params_hold(cond, request)
    &&& query_contains_holds(cond, request)
    &&& headers_hold(cond, request)
    &&& header_contains_holds(cond, request)
    &&& body_contains_holds(cond, request)
    &&& body_json_holds(cond, request)
    &&& body_regex_holds(cond, request)
}

/// A response applies to a request: it has no condition, or all of its
/// conditions hold.
pub open spec fn response_matches(
    response: MockResponse,
    request: RequestInfo,
    path_params: Map<Seq<char>, Seq<char>>,
) -> bool {
    match response.when {
        Some(cond) => conditions_hold(cond, request, path_params),
        None => true,
    }
}

/// Position `i` holds the first response of the list that applies to the request.
pub open spec fn is_first_match(
    responses: Seq<MockResponse>,
    request: RequestInfo,
    path_params: Map<Seq<char>, Seq<char>>,
    i: int,
) -> bool {
    &&& 0 <= i < responses.len()
    &&& response_matches(responses[i], request, path_params)
    &&& forall|j: int| 0 <= j < i ==> !response_matches(#[trigger] responses[j], request, path_params)
}

/// No response of the list applies to the request.
pub open spec fn none_matches(
    responses: Seq<MockResponse>,
    request: RequestInfo,
    path_params: Map<Seq<char>, Seq<char>>,
) -> bool {
    forall|j: int| 0 <= j < responses.len() ==> !response_matches(#[trigger] responses[j], request, path_params)
}

/// A condition that specifies nothing holds of every request.
pub proof fn lemma_no_conditions_hold(
    cond: ResponseCondition,
    request: RequestInfo,
    path_params: Map<Seq<char>, Seq<char>>,
)
    requires
        cond.has_no_conditions(),
    ensures
        conditions_hold(cond, request, path_params),
{
}

/// Find the first matching response for a request from an endpoint.
pub fn find_matching_response<'a>(
    endpoint: &'a MockEndpoint,
    request: &RequestInfo,
    path_params: &StrMap,
) -> (r: Option<&'a MockResponse>)
    ensures
        match r {
            Some(resp) => exists|i: int|
                is_first_match(endpoint.responses@, *request, path_params@, i) && *resp
                    == #[trigger] endpoint.responses@[i],
            None => none_matches(endpoint.responses@, *request, path_params@),
        },
{
    match first_matching_index(&endpoint.responses, request, path_params) {
        Some(i) => Some(&endpoint.responses[i]),
        None => None,
    }
}

/// The position of the first response that applies to the request.
pub fn first_matching_index(
    responses: &Vec<MockResponse>,
    request: &RequestInfo,
    path_params: &StrMap,
) -> (r: Option<usize>)
    ensures
        match r {
            Some(i) => is_first_match(responses@, *request, path_params@, i as int),
            None => none_matches(responses@, *request, path_params@),
        },
{
    let n = responses.len();
    for i in 0..n
        invariant
            n == responses@.len(),
            forall|j: int| 0 <= j < i ==> !response_matches(#[trigger] responses@[j], *request, path_params@),
    {
        if matches_conditions(&responses[i], request, path_params) {
            return Some(i);
        }
    }
    None
}

/// Check if all conditions in a response match the request.
fn matches_conditions(response: &MockResponse, request: &RequestInfo, path_params: &StrMap) -> (r: bool)
    ensures
        r == response_matches(*response, *request, path_params@),
{
    let condition = match &response.when {
        Some(cond) => cond,
        None => return true,
    };
    if condition.is_empty() {
        proof {
            lemma_no_conditions_hold(*condition, *request, path_params@);
        }
        return true;
    }
    check_path_params(condition, path_params) && check_query_params(condition, request)
        && check_query_contains(condition, request) && check_headers(condition, request)
        && check_header_contains(condition, request) && check_body_contains(condition, request)
        && check_body_json(condition, request) && check_body_regex(condition, request)
}

#[verifier::loop_isolation(false)]
fn check_path_params(condition: &ResponseCondition, path_params: &StrMap) -> (r: bool)
    ensures
        r == path_params_hold(*condition, path_params@),
{
    let expected = &condition.path_params;
    proof {
        use_type_invariant(expected);
        expected.lemma_pairs();
    }
    let n = expected.pair_count();
    for i in 0..n
        invariant
            n == expected.pairs().len(),
            forall|j: int|
                0 <= j < i ==> path_params@.contains_key(#[trigger] expected.pairs()[j].0)
                    && path_params@[expected.pairs()[j].0] == expected.pairs()[j].1,
    {
        let (key, value) = expected.pair_at(i);
        match path_params.get(key.as_str()) {
            Some(actual) => {
                if *actual != *value {
                    assert(expected@.contains_key(expected.pairs()[i as int].0));
                    return false;
                }
            },
            None => {
                assert(expected@.contains_key(expected.pairs()[i as int].0));
                return false;
            },
        }
    }
    true
}

#[verifier::loop_isolation(false)]
fn check_query_params(condition: &ResponseCondition, request: &RequestInfo) -> (r: bool)
    ensures
        r == query_params_hold(*condition, *request),
{
    if condition.query_params.is_empty() {
        return true;
    }
    let query: &str = match &request.query_string {
        Some(q) => q.as_str(),
        None => "",
    };
    proof {
        reveal_strlit("");
    }
    let params = parse_query_string(query);
    assert(query@ == query_text(*request));
    let expected = &condition.query_params;
    proof {
        use_type_invariant(expected);
        expected.lemma_pairs();
    }
    let n = expected.pair_count();
    for i in 0..n
        invariant
            n == expected.pairs().len(),
            params@ == query_map(query_text(*request)),
            forall|j: int|
                0 <= j < i ==> params@.contains_key(#[trigger] expected.pairs()[j].0)
                    && params@[expected.pairs()[j].0] == expected.pairs()[j].1,
    {
        let (key, value) = expected.pair_at(i);
        match params.get(key.as_str()) {
            Some(actual) => {
                if *actual != *value {
                    assert(expected@.contains_key(expected.pairs()[i as int].0));
                    return false;
                }
            },
            None => {
                assert(expected@.contains_key(expected.pairs()[i as int].0));
                return false;
            },
        }
    }
    true
}

fn check_query_contains(condition: &ResponseCondition, request: &RequestInfo) -> (r: bool)
    ensures
        r == query_contains_holds(*condition, *request),
{
    match (&condition.query_contains, &request.query_string) {
        (Some(substring), Some(query)) => contains_str(query.as_str(), substring.as_str()),
        (Some(_), None) => false,
        (None, _) => true,
    }
}

#[verifier::loop_isolation(false)]
fn check_headers(condition: &ResponseCondition, request: &RequestInfo) -> (r: bool)
    ensures
        r == headers_hold(*condition, *request),
{
    let expected = &condition.headers;
    proof {
        use_type_invariant(expected);
        expected.lemma_pairs();
    }
    let n = expected.pair_count();
    for i in 0..n
        invariant
            n == expected.pairs().len(),
            forall|j: int|
                0 <= j < i ==> request.headers@.contains_key(
                    str_to_lowercase(#[trigger] expected.pairs()[j].0),
                ) && request.headers@[str_to_lowercase(expected.pairs()[j].0)] == expected.pairs()[j].1,
    {
        let (key, value) = expected.pair_at(i);
        let key_lower = to_lowercase(key.as_str());
        match request.headers.get(key_lower.as_str()) {
            Some(actual) => {
                if *actual != *value {
                    assert(expected@.contains_key(expected.pairs()[i as int].0));
                    return false;
                }
            },
            None => {
                assert(expected@.contains_key(expected.pairs()[i as int].0));
                return false;
            },
        }
    }
    true
}

#[verifier::loop_isolation(false)]
fn check_header_contains(condition: &ResponseCondition, request: &RequestInfo) -> (r: bool)
    ensures
        r == header_contains_holds(*condition, *request),
{
    let expected = &condition.header_contains;
    proof {
        use_type_invariant(expected);
        expected.lemma_pairs();
    }
    let n = expected.pair_count();
    for i in 0..n
        invariant
            n == expected.pairs().len(),
            forall|j: int|
                0 <= j < i ==> request.headers@.contains_key(
                    str_to_lowercase(#[trigger] expected.pairs()[j].0),
                ) && is_substring(
                    expected.pairs()[j].1,
                    request.headers@[str_to_lowercase(expected.pairs()[j].0)],
                ),
    {
        let (key, substring) = expected.pair_at(i);
        let key_lower = to_lowercase(key.as_str());
        match request.headers.get(key_lower.as_str()) {
            Some(actual) => {
                if !contains_str(actual.as_str(), substring.as_str()) {
                    assert(expected@.contains_key(expected.pairs()[i as int].0));
                    return false;
                }
            },
            None => {
                assert(expected@.contains_key(expected.pairs()[i as int].0));
                return false;
            },
        }
    }
    true
}

fn check_body_contains(condition: &ResponseCondition, request: &RequestInfo) -> (r: bool)
    ensures
        r == body_contains_holds(*condition, *request),
{
    match &condition.body_contains {
        Some(substring) => contains_str(request.body.as_str(), substring.as_str()),
        None => true,
    }
}

/// With expected JSON members, the members read from the body (`None` when it
/// is not a JSON object) have each expected key, with a value equal to the
/// expected one.
pub open spec fn members_hold(expected: Map<Seq<char>, Seq<char>>, members: Option<Seq<(Seq<char>, Seq<char>)>>) -> bool {
    expected == Map::<Seq<char>, Seq<char>>::empty() || match members {
        Some(members) => forall|k: Seq<char>|
            #[trigger] expected.contains_key(k) ==> pairs_to_map(members).contains_key(k)
                && json_values_equal(pairs_to_map(members)[k], expected[k]),
        None => false,
    }
}

/// Decides the `body_json` condition from the members read from the body.
#[verifier::loop_isolation(false)]
pub fn json_members_match(expected: &StrMap, members: Option<Vec<(String, String)>>) -> (r: bool)
    ensures
        r == members_hold(
            expected@,
            match members {
                Some(v) => Some(pair_views(v@)),
                None => None,
            },
        ),
{
    if expected.is_empty() {
        return true;
    }
    let members = match members {
        Some(v) => v,
        None => return false,
    };
    let ghost members_view = pair_views(members@);
    let body_obj = StrMap::from_pairs(members);
    proof {
        use_type_invariant(expected);
        expected.lemma_pairs();
    }
    let n = expected.pair_count();
    for i in 0..n
        invariant
            n == expected.pairs().len(),
            body_obj@ == pairs_to_map(members_view),
            forall|j: int|
                0 <= j < i ==> body_obj@.contains_key(#[trigger] expected.pairs()[j].0)
                    && json_values_equal(body_obj@[expected.pairs()[j].0], expected.pairs()[j].1),
    {
        let (key, expected_value) = expected.pair_at(i);
        match body_obj.get(key.as_str()) {
            Some(actual) => {
                if !json_equal(actual.as_str(), expected_value.as_str()) {
                    assert(expected@.contains_key(expected.pairs()[i as int].0));
                    return false;
                }
            },
            None => {
                assert(expected@.contains_key(expected.pairs()[i as int].0));
                return false;
            },
        }
    }
    true
}

fn check_body_json(condition: &ResponseCondition, request: &RequestInfo) -> (r: bool)
    ensures
        r == body_json_holds(*condition, *request),
{
    if condition.body_json.is_empty() {
        return true;
    }
    json_members_match(&condition.body_json, json_object_fields(request.body.as_str()))
}

fn check_body_regex(condition: &ResponseCondition, request: &RequestInfo) -> (r: bool)
    ensures
        r == body_regex_holds(*condition, *request),
{
    match &condition.body_regex {
        Some(pattern) => match regex_is_match(pattern.as_str(), request.body.as_str()) {
            Some(is_match) => is_match,
            None => false,
        },
        None => true,
    }
}

} // verus!
