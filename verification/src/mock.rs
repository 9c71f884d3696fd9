//! The mock definitions: endpoints, their ordered responses, and the
//! conditions under which a response is chosen.
use vstd::prelude::*;

use crate::strmap::StrMap;

verus! {

/// Root container for a mock definition file.
pub struct MockFile {
    pub mocks: Vec<MockEndpoint>,
}

/// A single endpoint definition with its possible responses.
pub struct MockEndpoint {
    /// URL path pattern, can include path parameters like {id}
    pub path: String,
    /// HTTP method (GET, POST, PUT, DELETE, etc.)
    pub method: String,
    /// List of possible responses, evaluated in order
    pub responses: Vec<MockResponse>,
}

/// A mock response configuration.
pub struct MockResponse {
    /// Optional conditions that must match for this response
    pub when: Option<ResponseCondition>,
    /// HTTP status code
    pub status: u16,
    /// Response headers
    pub headers: StrMap,
    /// Response body as inline string
    pub body: Option<String>,
    /// Path to file containing response body
    pub body_file: Option<String>,
    /// Artificial delay in milliseconds
    pub delay_ms: Option<u64>,
}

/// Conditions for matching a request to a response.
pub struct ResponseCondition {
    /// Exact match on URL path parameters (e.g., {id})
    pub path_params: StrMap,
    /// Exact match on query string parameters
    pub query_params: StrMap,
    /// Query string contains this substring
    pub query_contains: Option<String>,
    /// Exact match on request headers
    pub headers: StrMap,
    /// Header value contains substring (header_name -> substring)
    pub header_contains: StrMap,
    /// Request body contains this substring
    pub body_contains: Option<String>,
    /// Request body JSON has these top-level keys, each with the value that
    /// the JSON text bound to it denotes
    pub body_json: StrMap,
    /// Request body matches this regex pattern
    pub body_regex: Option<String>,
}

/// The status a response has when its definition names none.
pub open spec fn spec_default_status() -> u16 {
    200
}

/// The status a response has when its definition names none: 200.
pub fn default_status() -> (r: u16)
    ensures
        r == spec_default_status(),
{
    200
}

impl ResponseCondition {
    /// No condition of any kind is defined.
    pub open spec fn has_no_conditions(self) -> bool {
        &&& self.path_params@ == Map::<Seq<char>, Seq<char>>::empty()
        &&& self.query_params@ == Map::<Seq<char>, Seq<char>>::empty()
        &&& self.query_contains is None
        &&& self.headers@ == Map::<Seq<char>, Seq<char>>::empty()
        &&& self.header_contains@ == Map::<Seq<char>, Seq<char>>::empty()
        &&& self.body_contains is None
        &&& self.body_json@ == Map::<Seq<char>, Seq<char>>::empty()
        &&& self.body_regex is None
    }

    /// Check if this condition has any actual conditions defined.
    pub fn is_empty(&self) -> (r: bool)
        ensures
            r == self.has_no_conditions(),
    {
        self.path_params.is_empty() && self.query_params.is_empty() && self.query_contains.is_none()
            && self.headers.is_empty() && self.header_contains.is_empty()
            && self.body_contains.is_none() && self.body_json.is_empty()
            && self.body_regex.is_none()
    }
}

impl Default for ResponseCondition {
    fn default() -> (r: ResponseCondition)
        ensures
            r.has_no_conditions(),
    {
        ResponseCondition {
            path_params: StrMap::new(),
            query_params: StrMap::new(),
            query_contains: None,
            headers: StrMap::new(),
            header_contains: StrMap::new(),
            body_contains: None,
            body_json: StrMap::new(),
            body_regex: None,
        }
    }
}

} // verus!
