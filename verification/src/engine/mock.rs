//! The mock server's answers: each configured request is answered with the
//! texts its body assertions expect.

use crate::engine::control_flow::{assertion_outcome, first_mismatch, pattern_found};
use crate::models::config::{
    AssertionDefinition, Configuration, DetailedRequest, HTTPRequestDefinition, HttpMethod, Protocol,
};
use crate::strmap::StrMap;
use crate::text::{contains, occurs_at, str_eq, starts_with, string_views};
use vstd::prelude::*;
use vstd::string::StringExecFns;

verus! {

/// A mock answer: status, body and headers.
#[derive(Debug)]
pub struct MockResponse {
    pub status: u16,
    pub body: String,
    pub headers: StrMap<String>,
}

impl Default for MockResponse {
    /// `200`, an empty body, and a plain-text content type.
    fn default() -> (r: Self)
        ensures
            r.status == 200,
            r.body@.len() == 0,
            r.headers@.dom() == set!["Content-Type"@],
            r.headers@["Content-Type"@]@ == "text/plain"@,
    {
        let mut headers: StrMap<String> = StrMap::new();
        let _ = headers.insert(String::from_str("Content-Type"), String::from_str("text/plain"));
        assert(headers@.dom() =~= set!["Content-Type"@]);
        MockResponse { status: 200, body: String::new(), headers }
    }
}

/// The texts that the body assertions (not negated, subject `body`) of the
/// first `k` assertions expect, in order.
pub open spec fn expected_bodies(a: Seq<crate::models::config::AssertionDefinition>, k: int) -> Seq<
    Seq<char>,
>
    decreases k,
{
    if k <= 0 {
        Seq::empty()
    } else {
        let prev = expected_bodies(a, k - 1);
        if !a[k - 1].not && a[k - 1].subject@ == "body"@ {
            prev + string_views(a[k - 1].contains@)
        } else {
            prev
        }
    }
}

/// The texts of `parts` joined with single spaces.
pub open spec fn joined_with_spaces(parts: Seq<Seq<char>>) -> Seq<char>
    decreases parts.len(),
{
    if parts.len() == 0 {
        Seq::empty()
    } else if parts.len() == 1 {
        parts[0]
    } else {
        joined_with_spaces(parts.drop_last()) + seq![' '] + parts.last()
    }
}

/// The mock answer to a request: `200`, plain text, and the texts its body
/// assertions expect, joined with spaces; each plain-text body assertion of
/// the request holds on it.
pub fn generate_mock_response(req: &DetailedRequest) -> (r: MockResponse)
    ensures
        r.status == 200,
        r.body@ == joined_with_spaces(expected_bodies(req.assert@, req.assert@.len() as int)),
        r.headers@.dom() == set!["Content-Type"@],
        r.headers@["Content-Type"@]@ == "text/plain"@,
        forall|k: int|
            0 <= k < req.assert@.len() && !(#[trigger] req.assert@[k]).not && req.assert@[k].subject@
                == "body"@ && !req.assert@[k].regexp ==> assertion_outcome(
                Ok(()),
                r.body@,
                r.status,
                req.assert@[k],
            ),
{
    let mut response = MockResponse::default();
    let mut parts: Vec<String> = Vec::new();
    let mut i: usize = 0;
    while i < req.assert.len()
        invariant
            i <= req.assert@.len(),
            string_views(parts@) == expected_bodies(req.assert@, i as int),
        decreases req.assert@.len() - i,
    {
        let a = &req.assert[i];
        if !a.not && str_eq(a.subject.as_str(), "body") {
            let ghost start = string_views(parts@);
            let mut j: usize = 0;
            assert(string_views(a.contains@.take(0)) =~= Seq::<Seq<char>>::empty());
            assert(start + string_views(a.contains@.take(0)) =~= start);
            while j < a.contains.len()
                invariant
                    j <= a.contains@.len(),
                    string_views(parts@) == start + string_views(a.contains@.take(j as int)),
                decreases a.contains@.len() - j,
            {
                let ghost before = parts@;
                parts.push(a.contains[j].clone());
                assert(string_views(a.contains@.take(j + 1)) =~= string_views(a.contains@.take(j as int)).push(a.contains@[j as int]@));
                assert(string_views(parts@) =~= string_views(before).push(a.contains@[j as int]@));
                assert(string_views(parts@) =~= start + string_views(a.contains@.take(j + 1)));
                j = j + 1;
            }
            assert(a.contains@.take(a.contains@.len() as int) =~= a.contains@);
        }
        i = i + 1;
    }
    let mut body = String::new();
    let mut k: usize = 0;
    while k < parts.len()
        invariant
            k <= parts@.len(),
            body@ == joined_with_spaces(string_views(parts@.take(k as int))),
        decreases parts@.len() - k,
    {
        let ghost before = body@;
        if k > 0 {
            body.append(" ");
        }
        body.append(parts[k].as_str());
        proof {
            let t = string_views(parts@.take(k + 1));
            assert(t.drop_last() =~= string_views(parts@.take(k as int)));
            assert(t.last() == parts@[k as int]@);
            reveal_strlit(" ");
            if k == 0 {
                assert(before.len() == 0);
            }
        }
        k = k + 1;
    }
    assert(parts@.take(parts@.len() as int) =~= parts@);
    assert(string_views(parts@) == expected_bodies(req.assert@, req.assert@.len() as int));
    response.body = body;
    assert forall|k: int|
        0 <= k < req.assert@.len() && !(#[trigger] req.assert@[k]).not && req.assert@[k].subject@
            == "body"@ && !req.assert@[k].regexp implies assertion_outcome(
            Ok(()),
            response.body@,
            response.status,
            req.assert@[k],
        ) by {
        lemma_mock_body_passes(req.assert@, k);
    }
    response
}

proof fn lemma_expected_bodies_prefix(a: Seq<AssertionDefinition>, k: int, m: int)
    requires
        0 <= k <= m,
    ensures
        expected_bodies(a, k).len() <= expected_bodies(a, m).len(),
        forall|j: int|
            0 <= j < expected_bodies(a, k).len() ==> #[trigger] expected_bodies(a, m)[j]
                == expected_bodies(a, k)[j],
    decreases m - k,
{
    if k < m {
        lemma_expected_bodies_prefix(a, k, m - 1);
    }
}

proof fn lemma_part_in_join(parts: Seq<Seq<char>>, m: int)
    requires
        0 <= m < parts.len(),
    ensures
        contains(joined_with_spaces(parts), parts[m]),
    decreases parts.len(),
{
    let j = joined_with_spaces(parts);
    if parts.len() == 1 {
        assert(j == parts[0]);
        assert(j.subrange(0, j.len() as int) =~= j);
        assert(occurs_at(j, parts[m], 0));
    } else {
        let front = joined_with_spaces(parts.drop_last());
        assert(j == front + seq![' '] + parts.last());
        if m == parts.len() - 1 {
            let at: int = front.len() as int + 1;
            assert(j.subrange(at, at + parts[m].len()) =~= parts[m]);
            assert(occurs_at(j, parts[m], at));
        } else {
            lemma_part_in_join(parts.drop_last(), m);
            assert(parts.drop_last()[m] == parts[m]);
            let i = choose|i: int| occurs_at(front, parts[m], i);
            assert(j.subrange(i, i + parts[m].len()) =~= front.subrange(i, i + parts[m].len()));
            assert(occurs_at(j, parts[m], i));
        }
    }
}

proof fn lemma_no_mismatch(pats: Seq<String>, body: Seq<char>, i: int)
    requires
        0 <= i,
        forall|j: int| 0 <= j < pats.len() ==> contains(body, #[trigger] pats[j]@),
    ensures
        first_mismatch(pats, |p: Seq<char>| pattern_found(false, body, p), false, i) is None,
    decreases pats.len() - i,
{
    if i < pats.len() {
        assert(contains(body, pats[i]@));
        lemma_no_mismatch(pats, body, i + 1);
    }
}

/// The mock answer passes the body assertions it was made from (as
/// [`generate_mock_response`] states of its result): each
/// assertion of the request that is not negated, has subject `body` and is
/// not a regular expression holds on the answer's body and status.
pub proof fn lemma_mock_body_passes(asserts: Seq<AssertionDefinition>, k: int)
    requires
        0 <= k < asserts.len(),
        !asserts[k].not,
        asserts[k].subject@ == "body"@,
        !asserts[k].regexp,
    ensures
        assertion_outcome(
            Ok(()),
            joined_with_spaces(expected_bodies(asserts, asserts.len() as int)),
            200,
            asserts[k],
        ),
{
    let a = asserts[k];
    let all = expected_bodies(asserts, asserts.len() as int);
    let body = joined_with_spaces(all);
    let before = expected_bodies(asserts, k);
    lemma_expected_bodies_prefix(asserts, k + 1, asserts.len() as int);
    assert(expected_bodies(asserts, k + 1) == before + string_views(a.contains@));
    assert forall|j: int| 0 <= j < a.contains@.len() implies contains(body, #[trigger] a.contains@[j]@) by {
        let m = before.len() + j;
        assert(0 <= m < all.len());
        assert(expected_bodies(asserts, k + 1)[m] == a.contains@[j]@);
        assert(all[m] == a.contains@[j]@);
        lemma_part_in_join(all, m);
    }
    reveal_strlit("http-code");
    reveal_strlit("body");
    assert("body"@.len() != "http-code"@.len());
    assert(a.subject@ != "http-code"@);
    lemma_no_mismatch(a.contains@, body, 0);
    assert((|p: Seq<char>| pattern_found(a.regexp, body, p)) == (|p: Seq<char>| pattern_found(false, body, p)));
}

/// A request path as the mock server matches it: with a leading `/`.
pub open spec fn rooted(path: Seq<char>) -> Seq<char> {
    if starts_with(path, seq!['/']) {
        path
    } else {
        seq!['/'] + path
    }
}

/// All configured requests, scenario by scenario in the configuration's
/// order, for the first `k` scenarios.
pub open spec fn all_requests(c: Configuration, k: int) -> Seq<HTTPRequestDefinition>
    decreases k,
{
    if k <= 0 {
        Seq::empty()
    } else {
        all_requests(c, k - 1) + c.scenarios@[c.scenarios.keys()[k - 1]].requests@
    }
}

/// The method of a detailed request (GET when absent).
pub open spec fn request_method(d: DetailedRequest) -> HttpMethod {
    match d.method {
        Some(m) => m,
        None => HttpMethod::Get,
    }
}

/// Configured request `r` answers an HTTP request with `method` (none for
/// a method outside the configuration's) on `path`.
pub open spec fn http_route_matches(r: HTTPRequestDefinition, method: Option<HttpMethod>, path: Seq<char>) -> bool {
    match r {
        HTTPRequestDefinition::Simple(u) => u@ == path && method == Some(HttpMethod::Get),
        HTTPRequestDefinition::Detailed(d) => d.url@ == path && method == Some(request_method(*d)),
    }
}

/// The position of the first request, from `i` on, that answers.
pub open spec fn first_http_route(
    reqs: Seq<HTTPRequestDefinition>,
    method: Option<HttpMethod>,
    path: Seq<char>,
    i: int,
) -> Option<int>
    decreases reqs.len() - i,
{
    if i < 0 || i >= reqs.len() {
        None
    } else if http_route_matches(reqs[i], method, path) {
        Some(i)
    } else {
        first_http_route(reqs, method, path, i + 1)
    }
}

/// `r` is a detailed request on `path` that gives no method.
pub open spec fn without_method_on(r: HTTPRequestDefinition, path: Seq<char>) -> bool {
    r matches HTTPRequestDefinition::Detailed(d) && d.method is None && d.url@ == path
}

proof fn lemma_first_route_found(
    reqs: Seq<HTTPRequestDefinition>,
    method: Option<HttpMethod>,
    path: Seq<char>,
    i: int,
    j: int,
)
    requires
        0 <= j <= i < reqs.len(),
        http_route_matches(reqs[i], method, path),
    ensures
        first_http_route(reqs, method, path, j) matches Some(x) && j <= x <= i,
    decreases i - j,
{
    if !http_route_matches(reqs[j], method, path) {
        lemma_first_route_found(reqs, method, path, i, j + 1);
    }
}

/// A configured detailed request without a method answers `GET` on its
/// URL: whenever one is among the requests, a `GET` on that path finds an
/// answer, at that request or before it.
pub proof fn lemma_request_without_method_answers_get(
    reqs: Seq<HTTPRequestDefinition>,
    path: Seq<char>,
    i: int,
)
    requires
        0 <= i < reqs.len(),
        without_method_on(reqs[i], path),
    ensures
        first_http_route(reqs, Some(HttpMethod::Get), path, 0) matches Some(x) && x <= i,
{
    lemma_first_route_found(reqs, Some(HttpMethod::Get), path, i, 0);
}

/// A bare configured URL answers `GET` on that URL, and only `GET`: a `GET`
/// on its path finds an answer at it or before it, and no other method is
/// answered by it.
pub proof fn lemma_bare_url_answers_get(
    reqs: Seq<HTTPRequestDefinition>,
    path: Seq<char>,
    i: int,
    method: Option<HttpMethod>,
)
    requires
        0 <= i < reqs.len(),
        reqs[i] matches HTTPRequestDefinition::Simple(u) && u@ == path,
    ensures
        first_http_route(reqs, Some(HttpMethod::Get), path, 0) matches Some(x) && x <= i,
        method != Some(HttpMethod::Get) ==> !http_route_matches(reqs[i], method, path),
{
    lemma_first_route_found(reqs, Some(HttpMethod::Get), path, i, 0);
}

/// The body the mock answer of request `r` has: `OK` for a bare URL, else
/// the texts its body assertions expect, joined with spaces.
pub open spec fn route_body(r: HTTPRequestDefinition) -> Seq<char> {
    match r {
        HTTPRequestDefinition::Simple(_) => "OK"@,
        HTTPRequestDefinition::Detailed(d) => joined_with_spaces(
            expected_bodies(d.assert@, d.assert@.len() as int),
        ),
    }
}

fn rooted_exec(path: &str) -> (r: String)
    ensures
        r@ == rooted(path@),
{
    let v = crate::text::chars_of(path);
    let slash = vec!['/'];
    assert(slash@ =~= seq!['/']);
    assert(v@.subrange(0, v@.len() as int) =~= v@);
    if crate::text::starts_with_in(&v, 0, v.len(), &slash) {
        String::from_str(path)
    } else {
        let mut r = String::from_str("/");
        r.append(path);
        proof {
            reveal_strlit("/");
        }
        r
    }
}

/// The mock answer to an HTTP request: the first configured request with
/// the same path (a leading `/` added when missing) and method answers
/// `200` with its body (see [`route_body`]); none answers when no
/// configured request matches.
pub fn mock_http_answer(config: &Configuration, method: Option<HttpMethod>, path: &str) -> (r: Option<(u16, String)>)
    ensures
        match first_http_route(all_requests(*config, config.scenarios.len_spec() as int), method, rooted(path@), 0) {
            Some(j) => r matches Some(a) && a.0 == 200 && a.1@ == route_body(all_requests(*config, config.scenarios.len_spec() as int)[j]),
            None => r is None,
        },
        method == Some(HttpMethod::Get) && (exists|i: int|
            0 <= i < all_requests(*config, config.scenarios.len_spec() as int).len() && without_method_on(
                #[trigger] all_requests(*config, config.scenarios.len_spec() as int)[i],
                rooted(path@),
            )) ==> r is Some,
{
    let rpath = rooted_exec(path);
    let ghost all = all_requests(*config, config.scenarios.len_spec() as int);
    let n = config.scenarios.len();
    let mut s: usize = 0;
    while s < n
        invariant
            n == config.scenarios.len_spec(),
            config.scenarios.keys().len() == n,
            s <= n,
            rpath@ == rooted(path@),
            all == all_requests(*config, n as int),
            first_http_route(all, method, rpath@, 0) == first_http_route(all, method, rpath@, all_requests(*config, s as int).len() as int),
            all_requests(*config, s as int).len() <= all.len(),
            all_requests(*config, s as int) == all.take(all_requests(*config, s as int).len() as int),
        decreases n - s,
    {
        let scenario = config.scenarios.value_at(s);
        let ghost base = all_requests(*config, s as int).len() as int;
        proof {
            lemma_all_requests_prefix(*config, s as int + 1, n as int);
        }
        proof {
            assert forall|t: int| 0 <= t < scenario.requests@.len() implies all[base + t] == scenario.requests@[t] by {
                assert(all_requests(*config, s + 1)[base + t] == scenario.requests@[t]);
                assert(all.take(all_requests(*config, s + 1).len() as int)[base + t] == all[base + t]);
            }
        }
        let mut j: usize = 0;
        while j < scenario.requests.len()
            invariant
                j <= scenario.requests@.len(),
                rpath@ == rooted(path@),
                all == all_requests(*config, config.scenarios.len_spec() as int),
                forall|t: int| 0 <= t < scenario.requests@.len() ==> all[base + t] == scenario.requests@[t],
                all_requests(*config, s + 1) == all_requests(*config, s as int) + scenario.requests@,
                all_requests(*config, s + 1) == all.take(all_requests(*config, s + 1).len() as int),
                all_requests(*config, s + 1).len() <= all.len(),
                base == all_requests(*config, s as int).len(),
                first_http_route(all, method, rpath@, 0) == first_http_route(all, method, rpath@, base + j),
            decreases scenario.requests@.len() - j,
        {
            let req = &scenario.requests[j];
            assert(all[base + j] == scenario.requests@[j as int]);
            let hit = match req {
                HTTPRequestDefinition::Simple(u) => str_eq(u.as_str(), rpath.as_str()) && method == Some(HttpMethod::Get),
                HTTPRequestDefinition::Detailed(d) => {
                    let m = match d.method {
                        Some(m) => m,
                        None => HttpMethod::Get,
                    };
                    str_eq(d.url.as_str(), rpath.as_str()) && method == Some(m)
                },
            };
            if hit {
                assert(base + j < all.len());
                assert(http_route_matches(all[base + j], method, rpath@));
                let body = match req {
                    HTTPRequestDefinition::Simple(_) => String::from_str("OK"),
                    HTTPRequestDefinition::Detailed(d) => generate_mock_response(d).body,
                };
                assert(first_http_route(all, method, rpath@, base + j) == Some(base + j));
                assert(route_body(all[base + j]) == body@);
                return Some((200, body));
            }
            j = j + 1;
        }
        s = s + 1;
    }
    proof {
        if exists|i: int| 0 <= i < all.len() && without_method_on(#[trigger] all[i], rooted(path@)) {
            let i = choose|i: int| 0 <= i < all.len() && without_method_on(#[trigger] all[i], rooted(path@));
            if method == Some(HttpMethod::Get) {
                lemma_request_without_method_answers_get(all, rpath@, i);
            }
        }
    }
    None
}

/// Every shorter list of scenarios gives a prefix of the requests.
proof fn lemma_all_requests_prefix(c: Configuration, j: int, k: int)
    requires
        0 <= j <= k,
    ensures
        all_requests(c, j).len() <= all_requests(c, k).len(),
        all_requests(c, j) == all_requests(c, k).take(all_requests(c, j).len() as int),
    decreases k - j,
{
    if j < k {
        lemma_all_requests_prefix(c, j, k - 1);
        assert(all_requests(c, k - 1) =~= all_requests(c, k).take(all_requests(c, k - 1).len() as int));
        assert(all_requests(c, j) =~= all_requests(c, k).take(all_requests(c, j).len() as int));
    } else {
        assert(all_requests(c, j) =~= all_requests(c, k).take(all_requests(c, j).len() as int));
    }
}

/// Configured request `r` answers a WebSocket upgrade on `path` (the path
/// itself, or under `/ws`).
pub open spec fn ws_route_matches(r: HTTPRequestDefinition, path: Seq<char>) -> bool {
    r matches HTTPRequestDefinition::Detailed(d) && (d.url@ == path || d.url@ == "/ws"@ + path) && (
    d.protocol == Some(Protocol::Websocket) || d.protocol == Some(Protocol::Ws))
}

/// The position of the first request, from `i` on, that answers an upgrade.
pub open spec fn first_ws_route(reqs: Seq<HTTPRequestDefinition>, path: Seq<char>, i: int) -> Option<int>
    decreases reqs.len() - i,
{
    if i < 0 || i >= reqs.len() {
        None
    } else if ws_route_matches(reqs[i], path) {
        Some(i)
    } else {
        first_ws_route(reqs, path, i + 1)
    }
}

/// The message the mock server sends on a WebSocket upgraded on `path` (a
/// leading `/` added when missing): the mock body of the first configured
/// WebSocket request for that path or for it under `/ws`; none when there
/// is none.
pub fn mock_ws_message(config: &Configuration, path: &str) -> (r: Option<String>)
    ensures
        match first_ws_route(all_requests(*config, config.scenarios.len_spec() as int), rooted(path@), 0) {
            Some(j) => r matches Some(m) && m@ == route_body(all_requests(*config, config.scenarios.len_spec() as int)[j]),
            None => r is None,
        },
{
    let rpath = rooted_exec(path);
    let mut ws_path = String::from_str("/ws");
    ws_path.append(rpath.as_str());
    let ghost all = all_requests(*config, config.scenarios.len_spec() as int);
    let n = config.scenarios.len();
    let mut s: usize = 0;
    while s < n
        invariant
            n == config.scenarios.len_spec(),
            config.scenarios.keys().len() == n,
            s <= n,
            rpath@ == rooted(path@),
            ws_path@ == "/ws"@ + rpath@,
            all == all_requests(*config, n as int),
            first_ws_route(all, rpath@, 0) == first_ws_route(all, rpath@, all_requests(*config, s as int).len() as int),
            all_requests(*config, s as int).len() <= all.len(),
            all_requests(*config, s as int) == all.take(all_requests(*config, s as int).len() as int),
        decreases n - s,
    {
        let scenario = config.scenarios.value_at(s);
        let ghost base = all_requests(*config, s as int).len() as int;
        proof {
            lemma_all_requests_prefix(*config, s as int + 1, n as int);
        }
        proof {
            assert forall|t: int| 0 <= t < scenario.requests@.len() implies all[base + t] == scenario.requests@[t] by {
                assert(all_requests(*config, s + 1)[base + t] == scenario.requests@[t]);
                assert(all.take(all_requests(*config, s + 1).len() as int)[base + t] == all[base + t]);
            }
        }
        let mut j: usize = 0;
        while j < scenario.requests.len()
            invariant
                j <= scenario.requests@.len(),
                rpath@ == rooted(path@),
                all == all_requests(*config, config.scenarios.len_spec() as int),
                forall|t: int| 0 <= t < scenario.requests@.len() ==> all[base + t] == scenario.requests@[t],
                ws_path@ == "/ws"@ + rpath@,
                all_requests(*config, s + 1) == all_requests(*config, s as int) + scenario.requests@,
                all_requests(*config, s + 1) == all.take(all_requests(*config, s + 1).len() as int),
                all_requests(*config, s + 1).len() <= all.len(),
                base == all_requests(*config, s as int).len(),
                first_ws_route(all, rpath@, 0) == first_ws_route(all, rpath@, base + j),
            decreases scenario.requests@.len() - j,
        {
            let req = &scenario.requests[j];
            assert(all[base + j] == scenario.requests@[j as int]);
            match req {
                HTTPRequestDefinition::Detailed(d) => {
                    let url_hit = str_eq(d.url.as_str(), rpath.as_str()) || str_eq(d.url.as_str(), ws_path.as_str());
                    let ws = d.protocol == Some(Protocol::Websocket) || d.protocol == Some(Protocol::Ws);
                    if url_hit && ws {
                        assert(base + j < all.len());
                        assert(ws_route_matches(all[base + j], rpath@));
                        return Some(generate_mock_response(d).body);
                    }
                },
                HTTPRequestDefinition::Simple(_) => {},
            }
            j = j + 1;
        }
        s = s + 1;
    }
    None
}

} // verus!
