//! Properties of the matcher that span its definitions.
use vstd::prelude::*;

use crate::matcher::{
    captured_params, header_contains_holds, headers_hold, is_first_match, is_param_segment,
    lemma_no_conditions_hold, param_name, path_match_params, path_segments, query_map,
    query_params_hold, query_pieces_map, query_text, response_matches, segments_match,
    RequestInfo,
};
use crate::mock::{MockEndpoint, MockResponse, ResponseCondition};
use crate::server::{endpoint_route, endpoint_serves, has_content_type, is_selection};
use crate::text::{
    lemma_first_index, lemma_split_nonempty, lemma_trim_end, lemma_trim_start,
    is_substring, occurs_at, split_char, split_once_char, trim_char,
};
use crate::trusted::{str_to_lowercase, str_to_uppercase};

verus! {

/// A response without conditions, or whose condition specifies nothing,
/// applies to every request: it is a fallback.
pub proof fn law_fallback_matches_every_request(
    response: MockResponse,
    request: RequestInfo,
    path_params: Map<Seq<char>, Seq<char>>,
)
    requires
        response.when matches Some(c) ==> c.has_no_conditions(),
    ensures
        response_matches(response, request, path_params),
{
    if let Some(c) = response.when {
        lemma_no_conditions_hold(c, request, path_params);
    }
}

/// If the response at position `j` applies, some response at or before `j`
/// is the first one that applies.
pub proof fn law_first_match_at_or_before(
    responses: Seq<MockResponse>,
    request: RequestInfo,
    path_params: Map<Seq<char>, Seq<char>>,
    j: int,
) -> (i: int)
    requires
        0 <= j < responses.len(),
        response_matches(responses[j], request, path_params),
    ensures
        0 <= i <= j,
        is_first_match(responses, request, path_params, i),
    decreases j,
{
    if forall|k: int| 0 <= k < j ==> !response_matches(#[trigger] responses[k], request, path_params) {
        j
    } else {
        let k = choose|k: int| 0 <= k < j && response_matches(#[trigger] responses[k], request, path_params);
        law_first_match_at_or_before(responses, request, path_params, k)
    }
}

/// A fallback response at position `j` means the responses never fail to
/// answer: the first applicable one stands at `j` or before it.
pub proof fn law_fallback_bounds_first_match(
    responses: Seq<MockResponse>,
    request: RequestInfo,
    path_params: Map<Seq<char>, Seq<char>>,
    j: int,
) -> (i: int)
    requires
        0 <= j < responses.len(),
        responses[j].when matches Some(c) ==> c.has_no_conditions(),
    ensures
        0 <= i <= j,
        is_first_match(responses, request, path_params, i),
{
    law_fallback_matches_every_request(responses[j], request, path_params);
    law_first_match_at_or_before(responses, request, path_params, j)
}

/// The first applicable response is unique.
pub proof fn law_first_match_unique(
    responses: Seq<MockResponse>,
    request: RequestInfo,
    path_params: Map<Seq<char>, Seq<char>>,
    i: int,
    j: int,
)
    requires
        is_first_match(responses, request, path_params, i),
        is_first_match(responses, request, path_params, j),
    ensures
        i == j,
{
    if i < j {
        assert(!response_matches(responses[i], request, path_params));
    } else if j < i {
        assert(!response_matches(responses[j], request, path_params));
    }
}

/// The two header maps name the same headers up to lowercase: each name of
/// one has a name in the other with the same lowercase form and the same value.
pub open spec fn same_up_to_lowercase(a: Map<Seq<char>, Seq<char>>, b: Map<Seq<char>, Seq<char>>) -> bool {
    forall|k: Seq<char>|
        #[trigger] a.contains_key(k) ==> exists|k2: Seq<char>|
            #[trigger] b.contains_key(k2) && str_to_lowercase(k2) == str_to_lowercase(k) && b[k2] == a[k]
}

/// Header names in conditions are matched case-insensitively: two conditions
/// whose header names agree once lowercased decide alike on every request.
pub proof fn law_header_names_case_insensitive(c1: ResponseCondition, c2: ResponseCondition, request: RequestInfo)
    requires
        same_up_to_lowercase(c1.headers@, c2.headers@),
        same_up_to_lowercase(c2.headers@, c1.headers@),
        same_up_to_lowercase(c1.header_contains@, c2.header_contains@),
        same_up_to_lowercase(c2.header_contains@, c1.header_contains@),
    ensures
        headers_hold(c1, request) == headers_hold(c2, request),
        header_contains_holds(c1, request) == header_contains_holds(c2, request),
{
    if headers_hold(c1, request) {
        assert forall|k: Seq<char>| #[trigger] c2.headers@.contains_key(k) implies request.headers@.contains_key(
            str_to_lowercase(k),
        ) && request.headers@[str_to_lowercase(k)] == c2.headers@[k] by {
            let k2 = choose|k2: Seq<char>|
                #[trigger] c1.headers@.contains_key(k2) && str_to_lowercase(k2) == str_to_lowercase(k)
                    && c1.headers@[k2] == c2.headers@[k];
        }
    }
    if headers_hold(c2, request) {
        assert forall|k: Seq<char>| #[trigger] c1.headers@.contains_key(k) implies request.headers@.contains_key(
            str_to_lowercase(k),
        ) && request.headers@[str_to_lowercase(k)] == c1.headers@[k] by {
            let k2 = choose|k2: Seq<char>|
                #[trigger] c2.headers@.contains_key(k2) && str_to_lowercase(k2) == str_to_lowercase(k)
                    && c2.headers@[k2] == c1.headers@[k];
        }
    }
    if header_contains_holds(c1, request) {
        assert forall|k: Seq<char>| #[trigger] c2.header_contains@.contains_key(k) implies request.headers@.contains_key(
            str_to_lowercase(k),
        ) && crate::text::is_substring(c2.header_contains@[k], request.headers@[str_to_lowercase(k)]) by {
            let k2 = choose|k2: Seq<char>|
                #[trigger] c1.header_contains@.contains_key(k2) && str_to_lowercase(k2) == str_to_lowercase(k)
                    && c1.header_contains@[k2] == c2.header_contains@[k];
        }
    }
    if header_contains_holds(c2, request) {
        assert forall|k: Seq<char>| #[trigger] c1.header_contains@.contains_key(k) implies request.headers@.contains_key(
            str_to_lowercase(k),
        ) && crate::text::is_substring(c1.header_contains@[k], request.headers@[str_to_lowercase(k)]) by {
            let k2 = choose|k2: Seq<char>|
                #[trigger] c2.header_contains@.contains_key(k2) && str_to_lowercase(k2) == str_to_lowercase(k)
                    && c2.header_contains@[k2] == c1.header_contains@[k];
        }
    }
}

/// Without `{name}` segments among the first `n`, nothing is captured.
proof fn lemma_no_params_captured(pat: Seq<Seq<char>>, path: Seq<Seq<char>>, n: int)
    requires
        n <= pat.len(),
        forall|i: int| 0 <= i < n ==> !is_param_segment(#[trigger] pat[i]),
    ensures
        captured_params(pat, path, n) == Map::<Seq<char>, Seq<char>>::empty(),
    decreases n,
{
    if n > 0 {
        lemma_no_params_captured(pat, path, n - 1);
    }
}

/// A path without `{name}` segments, used as a pattern, matches itself and
/// captures nothing.
pub proof fn law_literal_path_matches_itself(p: Seq<char>)
    requires
        forall|i: int| 0 <= i < path_segments(p).len() ==> !is_param_segment(#[trigger] path_segments(p)[i]),
    ensures
        path_match_params(p, p) == Some(Map::<Seq<char>, Seq<char>>::empty()),
{
    let ps = path_segments(p);
    lemma_no_params_captured(ps, ps, ps.len() as int);
}

/// Each captured binding comes from a `{name}` segment among the first `n`:
/// its key is that segment's name, its value the request's segment there.
proof fn lemma_captured_from_segments(pat: Seq<Seq<char>>, path: Seq<Seq<char>>, n: int, k: Seq<char>)
    requires
        0 <= n <= pat.len(),
        captured_params(pat, path, n).contains_key(k),
    ensures
        exists|i: int|
            0 <= i < n && is_param_segment(#[trigger] pat[i]) && param_name(pat[i]) == k
                && captured_params(pat, path, n)[k] == path[i],
    decreases n,
{
    let m = captured_params(pat, path, n - 1);
    if is_param_segment(pat[n - 1]) && param_name(pat[n - 1]) == k {
        assert(is_param_segment(pat[n - 1]));
    } else {
        lemma_captured_from_segments(pat, path, n - 1, k);
        let i = choose|i: int|
            0 <= i < n - 1 && is_param_segment(#[trigger] pat[i]) && param_name(pat[i]) == k
                && m[k] == path[i];
        assert(is_param_segment(pat[i]));
    }
}

/// Every parameter a match captures is named by a `{name}` segment of the
/// pattern, and its value is the request path's segment at the same place.
pub proof fn law_captured_values_are_path_segments(pattern: Seq<char>, path: Seq<char>, k: Seq<char>)
    requires
        path_match_params(pattern, path) matches Some(params) && params.contains_key(k),
    ensures
        exists|i: int|
            0 <= i < path_segments(pattern).len() && is_param_segment(#[trigger] path_segments(pattern)[i])
                && param_name(path_segments(pattern)[i]) == k && path_match_params(pattern, path)->0[k]
                == path_segments(path)[i],
{
    let ps = path_segments(pattern);
    let qs = path_segments(path);
    lemma_captured_from_segments(ps, qs, ps.len() as int, k);
}

/// Every `{name}` segment of a matching pattern binds its name: the later
/// segment of a repeated name wins.
pub proof fn law_every_param_segment_captured(pattern: Seq<char>, path: Seq<char>, i: int)
    requires
        path_match_params(pattern, path) is Some,
        0 <= i < path_segments(pattern).len(),
        is_param_segment(path_segments(pattern)[i]),
    ensures
        path_match_params(pattern, path)->0.contains_key(param_name(path_segments(pattern)[i])),
{
    let ps = path_segments(pattern);
    let qs = path_segments(path);
    lemma_param_stays_captured(ps, qs, i + 1, ps.len() as int, param_name(ps[i]));
}

proof fn lemma_param_stays_captured(pat: Seq<Seq<char>>, path: Seq<Seq<char>>, m: int, n: int, k: Seq<char>)
    requires
        1 <= m <= n <= pat.len(),
        captured_params(pat, path, m).contains_key(k),
    ensures
        captured_params(pat, path, n).contains_key(k),
    decreases n - m,
{
    if m < n {
        lemma_param_stays_captured(pat, path, m, n - 1, k);
    }
}

/// The first position at or before `j` whose character is not `c`.
proof fn lemma_first_other(s: Seq<char>, c: char, j: int) -> (a: int)
    requires
        0 <= j < s.len(),
        s[j] != c,
    ensures
        0 <= a <= j,
        s[a] != c,
        forall|i: int| 0 <= i < a ==> s[i] == c,
    decreases j,
{
    if forall|i: int| 0 <= i < j ==> s[i] == c {
        j
    } else {
        let k = choose|k: int| 0 <= k < j && s[k] != c;
        lemma_first_other(s, c, k)
    }
}

/// The last position at or after `j` whose character is not `c`.
proof fn lemma_last_other(s: Seq<char>, c: char, j: int) -> (b: int)
    requires
        0 <= j < s.len(),
        s[j] != c,
    ensures
        j <= b < s.len(),
        s[b] != c,
        forall|i: int| b < i < s.len() ==> s[i] == c,
    decreases s.len() - j,
{
    if forall|i: int| j < i < s.len() ==> s[i] == c {
        j
    } else {
        let k = choose|k: int| j < k < s.len() && s[k] != c;
        lemma_last_other(s, c, k)
    }
}

/// Trimming `c` keeps what lies between the first and the last character
/// that is not `c`; a string of nothing but `c` trims to nothing.
proof fn lemma_trim_span(s: Seq<char>, c: char) -> (r: (int, int))
    ensures
        0 <= r.0 <= r.1 <= s.len(),
        trim_char(s, c) == s.subrange(r.0, r.1),
        forall|i: int| 0 <= i < r.0 ==> s[i] == c,
        forall|i: int| r.1 <= i < s.len() ==> s[i] == c,
        r.0 < r.1 ==> s[r.0] != c && s[r.1 - 1] != c,
{
    if forall|i: int| 0 <= i < s.len() ==> s[i] == c {
        lemma_trim_start(s, c, s.len() as int);
        let t = s.subrange(s.len() as int, s.len() as int);
        lemma_trim_end(t, c, 0);
        assert(t.subrange(0, 0) =~= s.subrange(s.len() as int, s.len() as int));
        (s.len() as int, s.len() as int)
    } else {
        let j = choose|j: int| 0 <= j < s.len() && s[j] != c;
        let a = lemma_first_other(s, c, j);
        let b = lemma_last_other(s, c, j);
        lemma_trim_start(s, c, a);
        let t = s.subrange(a, s.len() as int);
        assert forall|i: int| b + 1 - a <= i < t.len() implies t[i] == c by {
            assert(t[i] == s[a + i]);
        }
        assert(t[b - a] == s[b]);
        lemma_trim_end(t, c, b + 1 - a);
        assert(t.subrange(0, b + 1 - a) =~= s.subrange(a, b + 1));
        (a, b + 1)
    }
}

/// Extra `/` around a path change nothing: its segments are the same.
pub proof fn law_surrounding_slashes_ignored(p: Seq<char>)
    ensures
        path_segments(seq!['/'] + p + seq!['/']) == path_segments(p),
{
    let x = seq!['/'] + p + seq!['/'];
    let (a, b) = lemma_trim_span(p, '/');
    let (xa, xb) = lemma_trim_span(x, '/');
    assert forall|i: int| 0 <= i < p.len() implies x[i + 1] == p[i] by {}
    if a < b {
        // `x` has the same first and last characters other than `/`, one place later.
        assert(x[a + 1] != '/' && x[b] != '/');
        if xa < xb {
            assert(xa == a + 1) by {
                if xa < a + 1 {
                    if xa > 0 && xa < x.len() - 1 {
                        assert(x[xa] == p[xa - 1]);
                    }
                } else if xa > a + 1 {
                    assert(x[a + 1] == '/');
                }
            }
            assert(xb == b + 1) by {
                if xb > b + 1 {
                    if xb - 1 > 0 && xb - 1 < x.len() - 1 {
                        assert(x[xb - 1] == p[xb - 2]);
                    }
                } else if xb < b + 1 {
                    assert(x[b] == '/');
                }
            }
            assert(x.subrange(xa, xb) =~= p.subrange(a, b));
        } else {
            assert(x[a + 1] == '/');
        }
    } else {
        assert(p.subrange(a, b) =~= Seq::<char>::empty());
        if xa < xb {
            if xa > 0 && xa < x.len() - 1 {
                assert(x[xa] == p[xa - 1]);
            }
        }
        assert(x.subrange(xa, xb) =~= Seq::<char>::empty());
    }
}

/// A pattern decides alike on a request path and on the same path with an
/// extra `/` at each end.
pub proof fn law_match_ignores_surrounding_slashes(pattern: Seq<char>, path: Seq<char>)
    ensures
        path_match_params(pattern, seq!['/'] + path + seq!['/']) == path_match_params(pattern, path),
        path_match_params(seq!['/'] + pattern + seq!['/'], path) == path_match_params(pattern, path),
{
    law_surrounding_slashes_ignored(path);
    law_surrounding_slashes_ignored(pattern);
}

/// Splitting at `c` a text glued together at a `c` gives the pieces of the
/// two parts, one after the other.
pub proof fn lemma_split_concat(a: Seq<char>, b: Seq<char>, c: char)
    ensures
        split_char(a + seq![c] + b, c) == split_char(a, c) + split_char(b, c),
    decreases b.len(),
{
    let x = a + seq![c] + b;
    if b.len() == 0 {
        assert(x.drop_last() =~= a);
        assert(split_char(b, c) =~= seq![Seq::<char>::empty()]);
        assert(split_char(x, c) =~= split_char(a, c) + split_char(b, c));
    } else {
        let b1 = b.drop_last();
        lemma_split_concat(a, b1, c);
        assert(x.drop_last() =~= a + seq![c] + b1);
        lemma_split_nonempty(b1, c);
        let sa = split_char(a, c);
        let sb1 = split_char(b1, c);
        if b.last() == c {
            assert(split_char(x, c) =~= sa + split_char(b, c));
        } else {
            assert((sa + sb1).last() == sb1.last());
            assert(split_char(x, c) =~= sa + split_char(b, c));
        }
    }
}

/// A text without `c` is a single piece.
pub proof fn lemma_split_without(s: Seq<char>, c: char)
    requires
        !s.contains(c),
    ensures
        split_char(s, c) == seq![s],
    decreases s.len(),
{
    if s.len() > 0 {
        let t = s.drop_last();
        assert(!t.contains(c)) by {
            if t.contains(c) {
                let i = choose|i: int| 0 <= i < t.len() && t[i] == c;
                assert(s[i] == c);
            }
        }
        lemma_split_without(t, c);
        assert(s[s.len() - 1] != c);
        assert(t.push(s.last()) =~= s);
        assert(split_char(s, c) =~= seq![s]);
    } else {
        assert(s =~= Seq::<char>::empty());
    }
}

/// Appending `&key=value` to a query string sets that parameter, replacing any
/// earlier value of it (for a key without `=` and `&`, and a value without `&`).
pub proof fn law_query_appended_pair_wins(q: Seq<char>, k: Seq<char>, v: Seq<char>)
    requires
        !k.contains('&'),
        !k.contains('='),
        !v.contains('&'),
    ensures
        query_map(q + seq!['&'] + k + seq!['='] + v) == query_map(q).insert(k, v),
{
    let piece = k + seq!['='] + v;
    assert(!piece.contains('&')) by {
        if piece.contains('&') {
            let i = choose|i: int| 0 <= i < piece.len() && piece[i] == '&';
            if i < k.len() {
                assert(k[i] == '&');
            } else if i > k.len() {
                assert(v[i - k.len() - 1] == '&');
            }
        }
    }
    assert(q + seq!['&'] + k + seq!['='] + v =~= q + seq!['&'] + piece);
    lemma_split_concat(q, piece, '&');
    lemma_split_without(piece, '&');
    let pieces = split_char(q, '&') + seq![piece];
    assert(pieces.drop_last() =~= split_char(q, '&'));
    assert forall|j: int| 0 <= j < k.len() implies piece[j] != '=' by {
        assert(piece[j] == k[j]);
    }
    lemma_first_index(piece, '=', k.len() as int);
    assert(piece.take(k.len() as int) =~= k);
    assert(piece.skip(k.len() as int + 1) =~= v);
    assert(split_once_char(piece, '=') == Some((k, v)));
}

/// The method of an endpoint is matched case-insensitively: endpoints whose
/// methods agree once uppercased, with the same path pattern, route every
/// request alike.
pub proof fn law_method_case_insensitive(e1: MockEndpoint, e2: MockEndpoint, method: Seq<char>, path: Seq<char>)
    requires
        str_to_uppercase(e1.method@) == str_to_uppercase(e2.method@),
        e1.path@ == e2.path@,
    ensures
        endpoint_route(e1, method, path) == endpoint_route(e2, method, path),
{
}

/// An endpoint that routes the request and has a first applicable response serves it.
proof fn lemma_selected_endpoint_serves(
    endpoints: Seq<MockEndpoint>,
    method: Seq<char>,
    path: Seq<char>,
    request: RequestInfo,
    e: usize,
    k: usize,
)
    requires
        is_selection(endpoints, method, path, request, Some((e, k))),
    ensures
        endpoint_serves(endpoints[e as int], method, path, request),
{
    let params = endpoint_route(endpoints[e as int], method, path)->0;
    assert(response_matches(endpoints[e as int].responses@[k as int], request, params));
}

/// The answer to a request is determined: there is at most one selection.
pub proof fn law_selection_unique(
    endpoints: Seq<MockEndpoint>,
    method: Seq<char>,
    path: Seq<char>,
    request: RequestInfo,
    c1: Option<(usize, usize)>,
    c2: Option<(usize, usize)>,
)
    requires
        is_selection(endpoints, method, path, request, c1),
        is_selection(endpoints, method, path, request, c2),
    ensures
        c1 == c2,
{
    match (c1, c2) {
        (Some((e1, k1)), Some((e2, k2))) => {
            lemma_selected_endpoint_serves(endpoints, method, path, request, e1, k1);
            lemma_selected_endpoint_serves(endpoints, method, path, request, e2, k2);
            if e1 < e2 {
                assert(!endpoint_serves(endpoints[e1 as int], method, path, request));
            } else if e2 < e1 {
                assert(!endpoint_serves(endpoints[e2 as int], method, path, request));
            } else {
                let params = endpoint_route(endpoints[e1 as int], method, path)->0;
                law_first_match_unique(endpoints[e1 as int].responses@, request, params, k1 as int, k2 as int);
            }
        },
        (Some((e1, k1)), None) => {
            lemma_selected_endpoint_serves(endpoints, method, path, request, e1, k1);
            assert(!endpoint_serves(endpoints[e1 as int], method, path, request));
        },
        (None, Some((e2, k2))) => {
            lemma_selected_endpoint_serves(endpoints, method, path, request, e2, k2);
            assert(!endpoint_serves(endpoints[e2 as int], method, path, request));
        },
        (None, None) => {},
    }
}

/// Routing uses the request path exactly as given: an endpoint whose path has
/// no `{name}` segment routes a request for that very path, with its own
/// method uppercased, whatever the letters' case, capturing nothing.
pub proof fn law_literal_endpoint_routes_its_own_path(e: MockEndpoint)
    requires
        forall|i: int|
            0 <= i < path_segments(e.path@).len() ==> !is_param_segment(#[trigger] path_segments(e.path@)[i]),
    ensures
        endpoint_route(e, str_to_uppercase(e.method@), e.path@) == Some(Map::<Seq<char>, Seq<char>>::empty()),
{
    law_literal_path_matches_itself(e.path@);
}

/// A pattern matches only paths with as many segments as it has; a pattern
/// without `{name}` segments matches only paths with exactly its segments.
pub proof fn law_match_needs_same_segments(pattern: Seq<char>, path: Seq<char>)
    requires
        path_match_params(pattern, path) is Some,
    ensures
        path_segments(pattern).len() == path_segments(path).len(),
        (forall|i: int|
            0 <= i < path_segments(pattern).len() ==> !is_param_segment(
                #[trigger] path_segments(pattern)[i],
            )) ==> path_segments(pattern) == path_segments(path),
{
    let ps = path_segments(pattern);
    let qs = path_segments(path);
    assert(segments_match(ps, qs));
    if forall|i: int| 0 <= i < ps.len() ==> !is_param_segment(#[trigger] ps[i]) {
        assert(ps =~= qs);
    }
}

/// An occurrence anywhere counts as a substring, at the very start or the very
/// end of the text too.
pub proof fn law_substring_anywhere(a: Seq<char>, n: Seq<char>, b: Seq<char>)
    ensures
        is_substring(n, a + n + b),
        is_substring(n, a + n),
        is_substring(n, n + b),
        is_substring(n, n),
{
    let x = a + n + b;
    assert(x.subrange(a.len() as int, (a.len() + n.len()) as int) =~= n);
    assert(occurs_at(n, x, a.len() as int));
    let y = a + n;
    assert(y.subrange(a.len() as int, (a.len() + n.len()) as int) =~= n);
    assert(occurs_at(n, y, a.len() as int));
    let z = n + b;
    assert(z.subrange(0, n.len() as int) =~= n);
    assert(occurs_at(n, z, 0));
    assert(n.subrange(0, n.len() as int) =~= n);
    assert(occurs_at(n, n, 0));
}

/// The parameters of a query string that is a single `key=value` pair: that
/// key bound to that value (for a key without `=` and `&`, a value without `&`).
pub proof fn law_single_pair_query(k: Seq<char>, v: Seq<char>)
    requires
        !k.contains('&'),
        !k.contains('='),
        !v.contains('&'),
    ensures
        query_map(k + seq!['='] + v) == Map::<Seq<char>, Seq<char>>::empty().insert(k, v),
{
    let piece = k + seq!['='] + v;
    assert(!piece.contains('&')) by {
        if piece.contains('&') {
            let i = choose|i: int| 0 <= i < piece.len() && piece[i] == '&';
            if i < k.len() {
                assert(k[i] == '&');
            } else if i > k.len() {
                assert(v[i - k.len() - 1] == '&');
            }
        }
    }
    lemma_split_without(piece, '&');
    let pieces = seq![piece];
    assert(pieces.drop_last() =~= Seq::<Seq<char>>::empty());
    assert forall|j: int| 0 <= j < k.len() implies piece[j] != '=' by {
        assert(piece[j] == k[j]);
    }
    lemma_first_index(piece, '=', k.len() as int);
    assert(piece.take(k.len() as int) =~= k);
    assert(piece.skip(k.len() as int + 1) =~= v);
    assert(split_once_char(piece, '=') == Some((k, v)));
    assert(query_pieces_map(pieces) == query_pieces_map(pieces.drop_last()).insert(k, v));
}

/// Expected query parameters are matched exactly: every expected key must be
/// in the query with exactly the expected value. For a query that is a single
/// pair `key=w` and the single expectation `key=v`, the condition holds
/// exactly when `w` is `v`.
pub proof fn law_query_params_exact(c: ResponseCondition, r: RequestInfo, k: Seq<char>, v: Seq<char>, w: Seq<char>)
    requires
        !k.contains('&'),
        !k.contains('='),
        !w.contains('&'),
    ensures
        query_params_hold(c, r) ==> forall|key: Seq<char>|
            #[trigger] c.query_params@.contains_key(key) ==> query_map(query_text(r)).contains_key(key)
                && query_map(query_text(r))[key] == c.query_params@[key],
        (c.query_params@ == Map::<Seq<char>, Seq<char>>::empty().insert(k, v) && query_text(r) == k
            + seq!['='] + w) ==> (query_params_hold(c, r) <==> w == v),
{
    if c.query_params@ == Map::<Seq<char>, Seq<char>>::empty().insert(k, v) && query_text(r) == k + seq!['='] + w {
        law_single_pair_query(k, w);
        assert(c.query_params@.contains_key(k));
    }
}

/// A header counts as a content type only when its name, lowercased, is
/// exactly `content-type`: without such a name there is none, with one there is.
pub proof fn law_content_type_is_exact_name(headers: Map<Seq<char>, Seq<char>>, k: Seq<char>)
    ensures
        (forall|n: Seq<char>| #[trigger] headers.contains_key(n) ==> str_to_lowercase(n) != "content-type"@)
            ==> !has_content_type(headers),
        (headers.contains_key(k) && str_to_lowercase(k) == "content-type"@) ==> has_content_type(headers),
{
}

} // verus!
