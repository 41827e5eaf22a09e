use vstd::prelude::*;
use vstd::string::StringSliceAdditionalSpecFns;
use vstd::utf8::*;

use crate::errors::ApiError;
use crate::helpers::{error_body, error_headers, error_json, first_index, lemma_first_index};
use crate::reply::{Reply, ReplyView};
use crate::text::{all_ascii, ascii_chars, lemma_ascii_utf8, str_eq};

verus! {

broadcast use vstd::utf8::group_utf8_lib;

// ── Locating path and query in the request target ──────────────────────────

/// `b` holds `://` at index `k`.
pub open spec fn scheme_sep_at(b: Seq<u8>, k: int) -> bool {
    b[k] == 58 && b[k + 1] == 47 && b[k + 2] == 47
}

/// The index of the first `://` in `b`, if any.
pub open spec fn scheme_end(b: Seq<u8>) -> Option<int>
    decreases b.len(),
{
    if b.len() < 3 {
        None
    } else if b[0] == 58 && b[1] == 47 && b[2] == 47 {
        Some(0)
    } else {
        match scheme_end(b.drop_first()) {
            Some(i) => Some(i + 1),
            None => None,
        }
    }
}

/// Path and query of a request target, which may be a full URL
/// (`scheme://host/path?query`, where a URL without a path has the path `/`) or
/// the path and query alone.
pub open spec fn path_and_query(u: Seq<u8>) -> Seq<u8> {
    match scheme_end(u) {
        Some(i) => {
            let h = u.subrange(i + 3, u.len() as int);
            match first_index(h, 47) {
                Some(j) => h.subrange(j, h.len() as int),
                None => seq![47u8],
            }
        },
        None => u,
    }
}

/// The path: everything before the first `?`.
pub open spec fn path_part(pq: Seq<u8>) -> Seq<u8> {
    match first_index(pq, 63) {
        Some(i) => pq.subrange(0, i),
        None => pq,
    }
}

/// The query: everything after the first `?`, or nothing.
pub open spec fn query_part(pq: Seq<u8>) -> Seq<u8> {
    match first_index(pq, 63) {
        Some(i) => pq.subrange(i + 1, pq.len() as int),
        None => seq![],
    }
}

proof fn lemma_scheme_end_props(b: Seq<u8>)
    ensures
        scheme_end(b) matches Some(i) ==> 0 <= i && i + 3 <= b.len() && scheme_sep_at(b, i)
            && forall|k: int| 0 <= k < i ==> !#[trigger] scheme_sep_at(b, k),
        scheme_end(b) is None ==> forall|k: int|
            0 <= k && k + 3 <= b.len() ==> !#[trigger] scheme_sep_at(b, k),
    decreases b.len(),
{
    if b.len() >= 3 {
        lemma_scheme_end_props(b.drop_first());
        let t = b.drop_first();
        assert forall|k: int| 0 < k && k + 3 <= b.len() implies #[trigger] scheme_sep_at(b, k)
            == scheme_sep_at(t, k - 1) by {}
    }
}

/// The index of the first `c` (an ASCII byte) in `b`.
fn find_byte(b: &[u8], c: u8) -> (r: Option<usize>)
    ensures
        match r {
            Some(i) => first_index(b@, c) == Some(i as int),
            None => first_index(b@, c) is None,
        },
{
    let mut i: usize = 0;
    while i < b.len()
        invariant
            0 <= i <= b@.len(),
            forall|k: int| 0 <= k < i ==> b@[k] != c,
        decreases b@.len() - i,
    {
        if b[i] == c {
            proof {
                lemma_first_index(b@, c);
            }
            return Some(i);
        }
        i = i + 1;
    }
    proof {
        lemma_first_index(b@, c);
    }
    None
}

/// The index of the first `://` in `b`.
fn find_scheme_end(b: &[u8]) -> (r: Option<usize>)
    ensures
        match r {
            Some(i) => scheme_end(b@) == Some(i as int),
            None => scheme_end(b@) is None,
        },
{
    let mut i: usize = 0;
    proof {
        lemma_scheme_end_props(b@);
    }
    while i < b.len() && b.len() - i >= 3
        invariant
            0 <= i <= b@.len(),
            forall|k: int| 0 <= k < i && k + 3 <= b@.len() ==> !#[trigger] scheme_sep_at(b@, k),
        decreases b@.len() - i,
    {
        if b[i] == 58 && b[i + 1] == 47 && b[i + 2] == 47 {
            assert(scheme_sep_at(b@, i as int));
            proof {
                lemma_scheme_end_props(b@);
            }
            return Some(i);
        }
        i = i + 1;
    }
    proof {
        lemma_scheme_end_props(b@);
    }
    None
}

/// Splits a text at an ASCII byte, dropping that byte.
fn split_around<'a>(s: &'a str, i: usize) -> (r: (&'a str, &'a str))
    requires
        i < s.spec_bytes().len(),
        s.spec_bytes()[i as int] < 0x80,
    ensures
        r.0.spec_bytes() == s.spec_bytes().subrange(0, i as int),
        r.1.spec_bytes() == s.spec_bytes().subrange(i + 1, s.spec_bytes().len() as int),
{
    let ghost b = s.spec_bytes();
    proof {
        is_char_boundary_iff_not_is_continuation_byte(b, i as int);
    }
    let (left, rest) = s.split_at(i);
    let ghost rb = rest.spec_bytes();
    assert(rb[0] == b[i as int]);
    assert(is_char_boundary(rb, 1)) by {
        reveal_with_fuel(is_char_boundary, 2);
        assert(valid_utf8(rb));
    }
    let (_, right) = rest.split_at(1);
    assert(right.spec_bytes() =~= b.subrange(i + 1, b.len() as int));
    (left, right)
}

/// The path, a `?` when the target has one, and the query put back together give the
/// path-and-query part of the target again.
pub proof fn law_target_split_rejoins(pq: Seq<u8>)
    ensures
        first_index(pq, 63) is Some ==> path_part(pq) + seq![63u8] + query_part(pq) == pq,
        first_index(pq, 63) is None ==> path_part(pq) == pq && query_part(pq).len() == 0,
{
    lemma_first_index(pq, 63);
    if let Some(i) = first_index(pq, 63) {
        assert(path_part(pq) + seq![63u8] + query_part(pq) =~= pq);
    }
}

/// Separates path and query in a request target (a full URL or just path and query).
pub fn split_target<'a>(uri: &'a str) -> (r: (&'a str, &'a str))
    ensures
        r.0.spec_bytes() == path_part(path_and_query(uri.spec_bytes())),
        r.1.spec_bytes() == query_part(path_and_query(uri.spec_bytes())),
{
    let ghost u = uri.spec_bytes();
    let bytes = uri.as_bytes();
    let pq: &'a str = match find_scheme_end(bytes) {
        Some(i) => {
            proof {
                lemma_scheme_end_props(u);
            }
            assert(bytes@ == u);
            assert(scheme_end(u) == Some(i as int));
            assert(i + 3 <= bytes.len());
            let (_, after_host) = split_around(uri, i + 2);
            assert(after_host.spec_bytes() =~= u.subrange(i + 3, u.len() as int));
            match find_byte(after_host.as_bytes(), 47) {
                Some(j) => {
                    let ghost h = after_host.spec_bytes();
                    proof {
                        lemma_first_index(h, 47);
                        is_char_boundary_iff_not_is_continuation_byte(h, j as int);
                    }
                    let (_, p) = after_host.split_at(j);
                    p
                },
                None => {
                    proof {
                        reveal_strlit("/");
                        assert("/"@ =~= ascii_chars(seq![47u8]));
                        assert(all_ascii(seq![47u8]));
                        lemma_ascii_utf8(seq![47u8]);
                    }
                    "/"
                },
            }
        },
        None => uri,
    };
    let ghost pqb = pq.spec_bytes();
    assert(pqb == path_and_query(u));
    match find_byte(pq.as_bytes(), 63) {
        Some(i) => {
            proof {
                lemma_first_index(pqb, 63);
            }
            split_around(pq, i)
        },
        None => {
            proof {
                reveal_strlit("");
                assert("".spec_bytes() =~= Seq::<u8>::empty());
            }
            (pq, "")
        },
    }
}


// ── Routing ────────────────────────────────────────────────────────────────

/// The request methods that routing tells apart.
#[derive(Debug, Clone, Copy, PartialEq, Eq, Structural)]
pub enum RequestMethod {
    Get,
    Options,
    /// Any other method.
    Other,
}

/// What answers a request.
#[derive(Debug, Clone, Copy, PartialEq, Eq, Structural)]
pub enum Endpoint {
    /// CORS preflight (any OPTIONS request).
    Preflight,
    /// A method other than GET or OPTIONS (HTTP 405).
    MethodNotAllowed,
    /// `GET /geocode`.
    Geocode,
    /// `GET /reverse`.
    Reverse,
    /// `GET /route`.
    Route,
    /// `GET /health`.
    Health,
    /// A GET on a path that no endpoint serves (HTTP 404).
    UnknownPath,
}

/// OPTIONS is a preflight whatever the path; only GET is served otherwise; the path
/// picks the endpoint.
pub open spec fn endpoint_for(method: RequestMethod, path: Seq<char>) -> Endpoint {
    if method == RequestMethod::Options {
        Endpoint::Preflight
    } else if method != RequestMethod::Get {
        Endpoint::MethodNotAllowed
    } else if path == "/geocode"@ {
        Endpoint::Geocode
    } else if path == "/reverse"@ {
        Endpoint::Reverse
    } else if path == "/route"@ {
        Endpoint::Route
    } else if path == "/health"@ {
        Endpoint::Health
    } else {
        Endpoint::UnknownPath
    }
}

/// Picks the endpoint for a request.
pub fn endpoint(method: RequestMethod, path: &str) -> (r: Endpoint)
    ensures
        r == endpoint_for(method, path@),
{
    match method {
        RequestMethod::Options => Endpoint::Preflight,
        RequestMethod::Other => Endpoint::MethodNotAllowed,
        RequestMethod::Get => {
            if str_eq(path, "/geocode") {
                Endpoint::Geocode
            } else if str_eq(path, "/reverse") {
                Endpoint::Reverse
            } else if str_eq(path, "/route") {
                Endpoint::Route
            } else if str_eq(path, "/health") {
                Endpoint::Health
            } else {
                Endpoint::UnknownPath
            }
        },
    }
}

/// The message for a method other than GET.
pub open spec fn method_not_allowed_message() -> Seq<char> {
    "método não permitido — use GET"@
}

/// The 405 reply.
pub fn method_not_allowed() -> (r: Reply)
    ensures
        r@ == (ReplyView {
            status: 405,
            headers: error_headers(),
            body: error_body(method_not_allowed_message()),
        }),
{
    error_json(405, "método não permitido — use GET")
}

/// The reply for a handler's outcome: the reply it built, or its error as JSON.
pub fn respond(result: Result<Reply, ApiError>) -> (r: Reply)
    ensures
        match result {
            Ok(reply) => r == reply,
            Err(e) => r@ == (ReplyView {
                status: e.spec_status(),
                headers: error_headers(),
                body: error_body(e.spec_message()),
            }),
        },
{
    match result {
        Ok(reply) => reply,
        Err(e) => e.to_reply(),
    }
}

} // verus!
