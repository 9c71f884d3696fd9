//! What the server decides: which mock answers a request, where the body of
//! a response comes from, which headers it gets, and the JSON texts it sends
//! on its own account.
use vstd::prelude::*;

use crate::matcher::{
    first_matching_index, is_first_match, match_path, none_matches, path_match_params,
    RequestInfo,
};
use crate::mock::{MockEndpoint, MockFile, MockResponse};
use crate::strmap::StrMap;
use crate::text::chars_of;
use crate::trusted::{
    json_string, json_string_literal, str_to_lowercase, str_to_uppercase, to_lowercase,
    to_uppercase,
};

verus! {

// ---------------------------------------------------------------------------
// Choosing the mock for a request
// ---------------------------------------------------------------------------

/// The parameters an endpoint captures from a request with this method and
/// path: `None` when its method, uppercased, is not the request's, or its
/// path pattern does not match.
pub open spec fn endpoint_route(endpoint: MockEndpoint, method: Seq<char>, path: Seq<char>) -> Option<
    Map<Seq<char>, Seq<char>>,
> {
    if str_to_uppercase(endpoint.method@) == method {
        path_match_params(endpoint.path@, path)
    } else {
        None
    }
}

/// The endpoint routes the request, and one of its responses applies to it.
pub open spec fn endpoint_serves(
    endpoint: MockEndpoint,
    method: Seq<char>,
    path: Seq<char>,
    request: RequestInfo,
) -> bool {
    match endpoint_route(endpoint, method, path) {
        Some(params) => !none_matches(endpoint.responses@, request, params),
        None => false,
    }
}

/// `choice` is the mock that answers the request: the first endpoint, in
/// order, that serves it, with that endpoint's first applicable response;
/// `None` when no endpoint serves it.
pub open spec fn is_selection(
    endpoints: Seq<MockEndpoint>,
    method: Seq<char>,
    path: Seq<char>,
    request: RequestInfo,
    choice: Option<(usize, usize)>,
) -> bool {
    match choice {
        Some((e, k)) => {
            &&& e < endpoints.len()
            &&& endpoint_route(endpoints[e as int], method, path) matches Some(params)
                && is_first_match(endpoints[e as int].responses@, request, params, k as int)
            &&& forall|f: int| 0 <= f < e ==> !endpoint_serves(#[trigger] endpoints[f], method, path, request)
        },
        None => forall|f: int|
            0 <= f < endpoints.len() ==> !endpoint_serves(#[trigger] endpoints[f], method, path, request),
    }
}

/// Chooses the mock that answers a request: the first endpoint, in order,
/// that routes the request and has a response that applies to it, and that
/// endpoint's first such response. An endpoint that routes the request but
/// has no applicable response is passed over.
pub fn select_response(
    endpoints: &Vec<MockEndpoint>,
    method: &str,
    path: &str,
    request: &RequestInfo,
) -> (r: Option<(usize, usize)>)
    ensures
        is_selection(endpoints@, method@, path@, *request, r),
{
    let wanted = method.to_owned();
    let n = endpoints.len();
    for e in 0..n
        invariant
            n == endpoints@.len(),
            wanted@ == method@,
            forall|f: int| 0 <= f < e ==> !endpoint_serves(#[trigger] endpoints@[f], method@, path@, *request),
    {
        let endpoint = &endpoints[e];
        let upper = to_uppercase(endpoint.method.as_str());
        if upper == wanted {
            match match_path(endpoint.path.as_str(), path) {
                Some(path_match) => {
                    match first_matching_index(&endpoint.responses, request, &path_match.params) {
                        Some(k) => {
                            return Some((e, k));
                        },
                        None => {},
                    }
                },
                None => {},
            }
        }
        assert(!endpoint_serves(endpoints@[e as int], method@, path@, *request));
    }
    None
}

/// How the server answers a request.
pub enum Reply {
    /// With response `response` of endpoint `endpoint`.
    Mock { endpoint: usize, response: usize },
    /// With an error: this status and this JSON body.
    Error { status: u16, body: String },
}

/// How the server answers a request: with the mock that `select_response`
/// chooses, or, when no endpoint serves the request, with status 404 and an
/// error body naming the method and path.
pub fn reply_to(endpoints: &Vec<MockEndpoint>, method: &str, path: &str, request: &RequestInfo) -> (r: Reply)
    ensures
        match r {
            Reply::Mock { endpoint, response } => is_selection(
                endpoints@,
                method@,
                path@,
                *request,
                Some((endpoint, response)),
            ),
            Reply::Error { status, body } => {
                &&& is_selection(endpoints@, method@, path@, *request, None)
                &&& status == 404
                &&& body@ == "{\"error\":"@ + json_string_literal(
                    "No mock defined for "@ + method@ + " "@ + path@,
                ) + "}"@
            },
        },
{
    match select_response(endpoints, method, path, request) {
        Some((endpoint, response)) => Reply::Mock { endpoint, response },
        None => {
            let message = not_found_message(method, path);
            Reply::Error { status: 404, body: error_body(message.as_str()) }
        },
    }
}

// ---------------------------------------------------------------------------
// Building the response
// ---------------------------------------------------------------------------

/// Where the body of a response comes from.
pub enum BodySource {
    /// The text itself.
    Inline(String),
    /// The contents of the file at this path.
    File(String),
    /// No body.
    Empty,
}

/// Where the body of a mock response comes from: an inline body that starts
/// with `@` names a file by the rest of its text, any other inline body is
/// the text itself; without an inline body, `body_file` names the file.
pub fn body_source(response: &MockResponse) -> (r: BodySource)
    ensures
        match response.body {
            Some(b) => if b@.len() > 0 && b@[0] == '@' {
                r matches BodySource::File(f) && f@ == b@.skip(1)
            } else {
                r matches BodySource::Inline(t) && t@ == b@
            },
            None => match response.body_file {
                Some(file) => r matches BodySource::File(f) && f@ == file@,
                None => r is Empty,
            },
        },
{
    match &response.body {
        Some(body) => {
            let chars = chars_of(body.as_str());
            if chars.len() > 0 && chars[0] == '@' {
                let path = body.as_str().substring_char(1, chars.len()).to_owned();
                BodySource::File(path)
            } else {
                BodySource::Inline(body.clone())
            }
        },
        None => match &response.body_file {
            Some(file) => BodySource::File(file.clone()),
            None => BodySource::Empty,
        },
    }
}

/// Some header name of the response is `content-type` once lowercased.
pub open spec fn has_content_type(headers: Map<Seq<char>, Seq<char>>) -> bool {
    exists|k: Seq<char>| #[trigger] headers.contains_key(k) && str_to_lowercase(k) == "content-type"@
}

/// Whether the response needs the default `Content-Type: application/json`:
/// it has a body, and none of its headers is a content type.
pub fn needs_default_content_type(headers: &StrMap, body: &str) -> (r: bool)
    ensures
        r == (!has_content_type(headers@) && body@.len() > 0),
{
    let content_type = "content-type".to_owned();
    proof {
        use_type_invariant(headers);
        headers.lemma_pairs();
    }
    let n = headers.pair_count();
    let mut found = false;
    for i in 0..n
        invariant
            n == headers.pairs().len(),
            content_type@ == "content-type"@,
            headers.wf(),
            found ==> has_content_type(headers@),
            !found ==> forall|j: int|
                0 <= j < i ==> str_to_lowercase(#[trigger] headers.pairs()[j].0) != "content-type"@,
    {
        let (name, _value) = headers.pair_at(i);
        let lower = to_lowercase(name.as_str());
        if lower == content_type {
            proof {
                headers.lemma_pairs();
                assert(headers@.contains_key(headers.pairs()[i as int].0));
            }
            found = true;
        }
    }
    proof {
        headers.lemma_pairs();
        if !found && has_content_type(headers@) {
            let k = choose|k: Seq<char>| #[trigger] headers@.contains_key(k) && str_to_lowercase(k) == "content-type"@;
            let j = choose|j: int| 0 <= j < headers.pairs().len() && #[trigger] headers.pairs()[j].0 == k;
            assert(str_to_lowercase(headers.pairs()[j].0) != "content-type"@);
        }
    }
    !found && !body.is_empty()
}

// ---------------------------------------------------------------------------
// Texts the server writes itself
// ---------------------------------------------------------------------------

/// The message for a request that no mock answers.
pub fn not_found_message(method: &str, path: &str) -> (r: String)
    ensures
        r@ == "No mock defined for "@ + method@ + " "@ + path@,
{
    let mut r = "No mock defined for ".to_owned();
    r.append(method);
    r.append(" ");
    r.append(path);
    r
}

/// The JSON body of an error response: an object whose `error` member is the message.
pub fn error_body(message: &str) -> (r: String)
    ensures
        r@ == "{\"error\":"@ + json_string_literal(message@) + "}"@,
{
    let quoted = json_string(message);
    let mut r = "{\"error\":".to_owned();
    r.append(quoted.as_str());
    r.append("}");
    r
}

/// The character of a decimal digit.
pub open spec fn digit_char(d: int) -> char {
    seq!['0', '1', '2', '3', '4', '5', '6', '7', '8', '9'][d]
}

/// The decimal digits of `n`, most significant first, without leading zeros.
pub open spec fn decimal_digits(n: nat) -> Seq<char>
    decreases n,
{
    if n < 10 {
        seq![digit_char(n as int)]
    } else {
        decimal_digits(n / 10) + seq![digit_char((n % 10) as int)]
    }
}

fn digit_str(d: usize) -> (r: &'static str)
    requires
        d < 10,
    ensures
        r@ == seq![digit_char(d as int)],
{
    match d {
        0 => {
            proof {
                reveal_strlit("0");
            }
            "0"
        },
        1 => {
            proof {
                reveal_strlit("1");
            }
            "1"
        },
        2 => {
            proof {
                reveal_strlit("2");
            }
            "2"
        },
        3 => {
            proof {
                reveal_strlit("3");
            }
            "3"
        },
        4 => {
            proof {
                reveal_strlit("4");
            }
            "4"
        },
        5 => {
            proof {
                reveal_strlit("5");
            }
            "5"
        },
        6 => {
            proof {
                reveal_strlit("6");
            }
            "6"
        },
        7 => {
            proof {
                reveal_strlit("7");
            }
            "7"
        },
        8 => {
            proof {
                reveal_strlit("8");
            }
            "8"
        },
        _ => {
            proof {
                reveal_strlit("9");
            }
            "9"
        },
    }
}

/// `n` written in decimal.
pub fn decimal_string(n: usize) -> (r: String)
    ensures
        r@ == decimal_digits(n as nat),
    decreases n,
{
    if n < 10 {
        digit_str(n).to_owned()
    } else {
        let mut r = decimal_string(n / 10);
        r.append(digit_str(n % 10));
        r
    }
}

/// The JSON body that answers a successful reload: the number of endpoints
/// loaded and the status `ok`, members in the order of their keys.
pub fn reload_ok_body(count: usize) -> (r: String)
    ensures
        r@ == "{\"endpoints_loaded\":"@ + decimal_digits(count as nat) + ",\"status\":\"ok\"}"@,
{
    let digits = decimal_string(count);
    let mut r = "{\"endpoints_loaded\":".to_owned();
    r.append(digits.as_str());
    r.append(",\"status\":\"ok\"}");
    r
}

// ---------------------------------------------------------------------------
// Loading
// ---------------------------------------------------------------------------

/// The endpoints of all mock files, file after file, each file's in its own order.
pub fn collect_endpoints(files: Vec<MockFile>) -> (r: Vec<MockEndpoint>)
    ensures
        r@ == files@.map_values(|f: MockFile| f.mocks@).flatten(),
{
    let ghost all = files@.map_values(|f: MockFile| f.mocks@);
    let mut r: Vec<MockEndpoint> = Vec::new();
    assert(all.take(0) =~= Seq::<Seq<MockEndpoint>>::empty());
    for file in it: files
        invariant
            it.seq() == files@,
            all == files@.map_values(|f: MockFile| f.mocks@),
            r@ == all.take(it.index() as int).flatten(),
    {
        let ghost i = it.index();
        let mut mocks = file.mocks;
        assert(all.take(i + 1) =~= all.take(i as int).push(mocks@));
        proof {
            all.take(i as int).lemma_flatten_push(mocks@);
        }
        r.append(&mut mocks);
    }
    assert(all.take(all.len() as int) =~= all);
    r
}

} // verus!
