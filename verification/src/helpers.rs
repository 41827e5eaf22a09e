use vstd::hash_map::StringHashMap;
use vstd::prelude::*;
use vstd::string::{StringExecFns, StringSliceAdditionalSpecFns};
use vstd::utf8::*;

use crate::json::{json_encode_str, json_string};
use crate::reply::{Reply, ReplyView};
use crate::text::{lossy_text, string_from_utf8_lossy};

verus! {

broadcast use vstd::utf8::group_utf8_lib;

// ── Query-string decoding ──────────────────────────────────────────────────

/// The value of an ASCII hexadecimal digit (either case).
pub open spec fn hex_digit_value(b: u8) -> Option<u8> {
    if 48 <= b <= 57 {
        Some((b - 48) as u8)
    } else if 97 <= b <= 102 {
        Some((b - 87) as u8)
    } else if 65 <= b <= 70 {
        Some((b - 55) as u8)
    } else {
        None
    }
}

/// The byte that two ASCII hexadecimal digits `b1 b2` denote, if both are digits.
pub open spec fn hex_pair_value(b1: u8, b2: u8) -> Option<u8> {
    match (hex_digit_value(b1), hex_digit_value(b2)) {
        (Some(h), Some(l)) => Some((h * 16 + l) as u8),
        _ => None,
    }
}

/// Percent-decoding of a byte sequence: `+` becomes a space, `%` followed by two
/// hexadecimal digits becomes the byte they denote, and every other byte (a `%`
/// that does not start such an escape included) stands for itself.
pub open spec fn percent_decode(b: Seq<u8>) -> Seq<u8>
    decreases b.len(),
{
    if b.len() == 0 {
        seq![]
    } else if b[0] == 43 {
        seq![32u8] + percent_decode(b.drop_first())
    } else if b[0] == 37 && b.len() > 2 && hex_pair_value(b[1], b[2]) is Some {
        seq![hex_pair_value(b[1], b[2]).unwrap()] + percent_decode(b.subrange(3, b.len() as int))
    } else {
        seq![b[0]] + percent_decode(b.drop_first())
    }
}

/// The URL-decoding of a text: its UTF-8 bytes percent-decoded, then read back as
/// text (ill-formed parts replaced).
pub open spec fn url_decoded(s: Seq<char>) -> Seq<char> {
    lossy_text(percent_decode(encode_utf8(s)))
}

fn hex_digit(b: u8) -> (r: Option<u8>)
    ensures
        r == hex_digit_value(b),
{
    if 48 <= b && b <= 57 {
        Some(b - 48)
    } else if 97 <= b && b <= 102 {
        Some(b - 87)
    } else if 65 <= b && b <= 70 {
        Some(b - 55)
    } else {
        None
    }
}

fn hex_pair(b1: u8, b2: u8) -> (r: Option<u8>)
    ensures
        r == hex_pair_value(b1, b2),
{
    match (hex_digit(b1), hex_digit(b2)) {
        (Some(h), Some(l)) => Some(h * 16 + l),
        _ => None,
    }
}

/// Percent-decodes the bytes `raw[lo..hi]`.
fn percent_decode_range(raw: &[u8], lo: usize, hi: usize) -> (r: Vec<u8>)
    requires
        lo <= hi <= raw@.len(),
    ensures
        r@ == percent_decode(raw@.subrange(lo as int, hi as int)),
{
    let mut out: Vec<u8> = Vec::new();
    let mut i = lo;
    while i < hi
        invariant
            lo <= i <= hi <= raw@.len(),
            out@ + percent_decode(raw@.subrange(i as int, hi as int)) == percent_decode(
                raw@.subrange(lo as int, hi as int),
            ),
        decreases hi - i,
    {
        let ghost rest = raw@.subrange(i as int, hi as int);
        let ghost old_out = out@;
        assert(rest.drop_first() =~= raw@.subrange(i + 1, hi as int));
        let c = raw[i];
        if c == 43 {
            out.push(32);
            i = i + 1;
            assert(old_out + percent_decode(rest) =~= out@ + percent_decode(
                raw@.subrange(i as int, hi as int),
            ));
        } else if c == 37 && hi - i > 2 {
            match hex_pair(raw[i + 1], raw[i + 2]) {
                Some(v) => {
                    assert(rest.subrange(3, rest.len() as int) =~= raw@.subrange(
                        i + 3,
                        hi as int,
                    ));
                    out.push(v);
                    i = i + 3;
                    assert(old_out + percent_decode(rest) =~= out@ + percent_decode(
                        raw@.subrange(i as int, hi as int),
                    ));
                },
                None => {
                    out.push(37);
                    i = i + 1;
                    assert(old_out + percent_decode(rest) =~= out@ + percent_decode(
                        raw@.subrange(i as int, hi as int),
                    ));
                },
            }
        } else {
            out.push(c);
            i = i + 1;
            assert(old_out + percent_decode(rest) =~= out@ + percent_decode(
                raw@.subrange(i as int, hi as int),
            ));
        }
    }
    assert(out@ =~= out@ + percent_decode(raw@.subrange(i as int, hi as int)));
    out
}

/// Decodes a percent-encoded URL component: `+` becomes a space and `%XX` the byte
/// `XX`; the resulting bytes are read as UTF-8, ill-formed sequences becoming U+FFFD.
pub fn url_decode(s: &str) -> (r: String)
    ensures
        r@ == url_decoded(s@),
{
    let raw = s.as_bytes();
    let bytes = percent_decode_range(raw, 0, raw.len());
    assert(raw@.subrange(0, raw@.len() as int) =~= raw@);
    string_from_utf8_lossy(bytes.as_slice())
}



// ── Query-string parsing ───────────────────────────────────────────────────

/// The decoded parameters of a query string, by name.
pub type QueryParams = StringHashMap<String>;

/// The pieces of `b` between occurrences of `sep`, in order; like `str::split`, there
/// is always at least one piece, and adjacent separators give empty pieces.
pub open spec fn split_bytes(b: Seq<u8>, sep: u8) -> Seq<Seq<u8>>
    decreases b.len(),
{
    if b.len() == 0 {
        seq![seq![]]
    } else {
        let init = split_bytes(b.drop_last(), sep);
        if b.last() == sep {
            init.push(seq![])
        } else {
            init.update(init.len() - 1, init.last().push(b.last()))
        }
    }
}

/// The index of the first occurrence of `x` in `b`, if any.
pub open spec fn first_index(b: Seq<u8>, x: u8) -> Option<int>
    decreases b.len(),
{
    if b.len() == 0 {
        None
    } else if b[0] == x {
        Some(0)
    } else {
        match first_index(b.drop_first(), x) {
            Some(j) => Some(j + 1),
            None => None,
        }
    }
}

/// The key of a `key=value` piece: everything before the first `=`, or the whole piece.
pub open spec fn pair_key(p: Seq<u8>) -> Seq<u8> {
    match first_index(p, 61) {
        Some(j) => p.subrange(0, j),
        None => p,
    }
}

/// The value of a `key=value` piece: everything after the first `=`, or nothing.
pub open spec fn pair_value(p: Seq<u8>) -> Seq<u8> {
    match first_index(p, 61) {
        Some(j) => p.subrange(j + 1, p.len() as int),
        None => seq![],
    }
}

/// The map that inserting the decoded pairs of `pieces` in order builds: a key that
/// occurs more than once keeps its last value.
pub open spec fn query_map(pieces: Seq<Seq<u8>>) -> Map<Seq<char>, Seq<char>>
    decreases pieces.len(),
{
    if pieces.len() == 0 {
        Map::empty()
    } else {
        let p = pieces.last();
        query_map(pieces.drop_last()).insert(
            lossy_text(percent_decode(pair_key(p))),
            lossy_text(percent_decode(pair_value(p))),
        )
    }
}

/// The parameters of a query string `k1=v1&k2=v2...`, URL-decoded; the empty query
/// has none.
pub open spec fn parsed_query(q: Seq<char>) -> Map<Seq<char>, Seq<char>> {
    if q.len() == 0 {
        Map::empty()
    } else {
        query_map(split_bytes(encode_utf8(q), 38))
    }
}

/// A map of strings holds, key for key, the texts of a map of texts.
pub open spec fn holds_texts(m: Map<Seq<char>, String>, t: Map<Seq<char>, Seq<char>>) -> bool {
    &&& m.dom() == t.dom()
    &&& forall|k: Seq<char>| #[trigger] m.contains_key(k) ==> m[k]@ == t[k]
}

proof fn lemma_split_bytes_nonempty(b: Seq<u8>, sep: u8)
    ensures
        split_bytes(b, sep).len() >= 1,
    decreases b.len(),
{
    if b.len() > 0 {
        lemma_split_bytes_nonempty(b.drop_last(), sep);
    }
}

/// `first_index` is the least index holding `x`, and there is none when it is `None`.
pub proof fn lemma_first_index(b: Seq<u8>, x: u8)
    ensures
        first_index(b, x) matches Some(i) ==> 0 <= i < b.len() && b[i] == x && forall|k: int|
            0 <= k < i ==> b[k] != x,
        first_index(b, x) is None ==> forall|k: int| 0 <= k < b.len() ==> b[k] != x,
    decreases b.len(),
{
    if b.len() > 0 {
        lemma_first_index(b.drop_first(), x);
        if b[0] != x {
            assert forall|k: int| 0 < k < b.len() implies b[k] == b.drop_first()[k - 1] by {}
        }
    }
}

/// Position of the first `=` in `raw[lo..hi]`, relative to `lo`.
fn find_eq(raw: &[u8], lo: usize, hi: usize) -> (r: Option<usize>)
    requires
        lo <= hi <= raw@.len(),
    ensures
        match r {
            Some(j) => first_index(raw@.subrange(lo as int, hi as int), 61) == Some(j as int)
                && j < hi - lo,
            None => first_index(raw@.subrange(lo as int, hi as int), 61) is None,
        },
{
    let ghost b = raw@.subrange(lo as int, hi as int);
    let mut j = lo;
    while j < hi
        invariant
            lo <= j <= hi <= raw@.len(),
            b == raw@.subrange(lo as int, hi as int),
            forall|k: int| 0 <= k < j - lo ==> b[k] != 61,
        decreases hi - j,
    {
        if raw[j] == 61 {
            proof {
                lemma_first_index(b, 61);
                assert(b[j - lo] == 61);
                if let Some(i) = first_index(b, 61) {
                    if i < j - lo {
                        assert(b[i] != 61);
                    }
                }
            }
            return Some(j - lo);
        }
        j = j + 1;
    }
    proof {
        lemma_first_index(b, 61);
    }
    None
}

/// Inserts the decoded pair of the piece `raw[lo..hi]`.
fn insert_pair(m: &mut StringHashMap<String>, raw: &[u8], lo: usize, hi: usize)
    requires
        lo <= hi <= raw@.len(),
    ensures
        ({
            let p = raw@.subrange(lo as int, hi as int);
            let k = lossy_text(percent_decode(pair_key(p)));
            &&& final(m)@ == old(m)@.insert(k, final(m)@[k])
            &&& final(m)@[k]@ == lossy_text(percent_decode(pair_value(p)))
        }),
{
    let ghost p = raw@.subrange(lo as int, hi as int);
    let (kb, vb) = match find_eq(raw, lo, hi) {
        Some(j) => {
            assert(raw@.subrange(lo as int, lo + j) =~= p.subrange(0, j as int));
            assert(raw@.subrange(lo + j + 1, hi as int) =~= p.subrange(j + 1, p.len() as int));
            (percent_decode_range(raw, lo, lo + j), percent_decode_range(raw, lo + j + 1, hi))
        },
        None => {
            assert(raw@.subrange(hi as int, hi as int) =~= Seq::<u8>::empty());
            (percent_decode_range(raw, lo, hi), percent_decode_range(raw, hi, hi))
        },
    };
    let k = string_from_utf8_lossy(kb.as_slice());
    let v = string_from_utf8_lossy(vb.as_slice());
    m.insert(k, v);
}


/// Parses `key=value&key2=value2` into a map, URL-decoding keys and values. A piece
/// without `=` is a key with an empty value; when a key repeats, its last value wins.
pub fn parse_qs(query: &str) -> (r: QueryParams)
    ensures
        holds_texts(r@, parsed_query(query@)),
{
    if query.is_empty() {
        return StringHashMap::new();
    }
    let raw = query.as_bytes();
    let mut m: StringHashMap<String> = StringHashMap::new();
    let mut start: usize = 0;
    let mut i: usize = 0;
    proof {
        assert(raw@.take(0) =~= Seq::<u8>::empty());
    }
    while i < raw.len()
        invariant
            raw@ == encode_utf8(query@),
            0 <= start <= i <= raw@.len(),
            split_bytes(raw@.take(i as int), 38).len() >= 1,
            split_bytes(raw@.take(i as int), 38).last() == raw@.subrange(start as int, i as int),
            holds_texts(m@, query_map(split_bytes(raw@.take(i as int), 38).drop_last())),
        decreases raw@.len() - i,
    {
        let ghost pieces = split_bytes(raw@.take(i as int), 38);
        let ghost old_m = m@;
        assert(raw@.take(i + 1).drop_last() =~= raw@.take(i as int));
        assert(raw@.take(i + 1).last() == raw@[i as int]);
        if raw[i] == 38 {
            insert_pair(&mut m, raw, start, i);
            let ghost next = split_bytes(raw@.take(i + 1), 38);
            assert(next == pieces.push(seq![]));
            assert(next.drop_last() =~= pieces);
            assert(pieces =~= pieces.drop_last().push(pieces.last()));
            proof {
                let p = raw@.subrange(start as int, i as int);
                let t = query_map(pieces.drop_last());
                let k = lossy_text(percent_decode(pair_key(p)));
                assert(query_map(pieces) == t.insert(k, lossy_text(percent_decode(pair_value(p)))));
                assert(m@.dom() =~= query_map(pieces).dom());
            }
            start = i + 1;
            assert(raw@.subrange(start as int, (i + 1) as int) =~= Seq::<u8>::empty());
        } else {
            proof {
                lemma_split_bytes_nonempty(raw@.take(i as int), 38);
                let next = split_bytes(raw@.take(i + 1), 38);
                assert(next == pieces.update(pieces.len() - 1, pieces.last().push(raw@[i as int])));
                assert(next.drop_last() =~= pieces.drop_last());
                assert(next.last() =~= raw@.subrange(start as int, i + 1));
            }
        }
        i = i + 1;
    }
    let ghost pieces = split_bytes(raw@.take(i as int), 38);
    insert_pair(&mut m, raw, start, raw.len());
    proof {
        assert(raw@.take(i as int) =~= raw@);
        assert(pieces =~= pieces.drop_last().push(pieces.last()));
        let p = raw@.subrange(start as int, i as int);
        let k = lossy_text(percent_decode(pair_key(p)));
        assert(query_map(pieces) == query_map(pieces.drop_last()).insert(
            k,
            lossy_text(percent_decode(pair_value(p))),
        ));
        assert(m@.dom() =~= query_map(pieces).dom());
    }
    m
}

/// The error text for a missing parameter.
pub open spec fn missing_param_message(key: Seq<char>) -> Seq<char> {
    "parâmetro '"@ + key + "' ausente"@
}

/// The value of a required parameter, or the message that says it is missing.
pub fn require_str<'a>(qs: &'a QueryParams, key: &str) -> (r: Result<&'a str, String>)
    ensures
        match r {
            Ok(v) => qs@.contains_key(key@) && v@ == qs@[key@]@,
            Err(m) => !qs@.contains_key(key@) && m@ == missing_param_message(key@),
        },
{
    match qs.get(key) {
        Some(v) => Ok(v.as_str()),
        None => {
            let mut m = String::from_str("parâmetro '");
            m.append(key);
            m.append("' ausente");
            Err(m)
        },
    }
}


// ── Reply builders ─────────────────────────────────────────────────────────

/// The headers of a successful JSON reply: JSON content type, CORS, five-minute cache.
pub open spec fn json_ok_headers() -> Seq<(Seq<char>, Seq<char>)> {
    seq![
        ("content-type"@, "application/json; charset=utf-8"@),
        ("access-control-allow-origin"@, "*"@),
        ("access-control-allow-methods"@, "GET, OPTIONS"@),
        ("access-control-allow-headers"@, "Content-Type"@),
        ("cache-control"@, "public, max-age=300"@),
    ]
}

/// The headers of an error reply: JSON content type and CORS origin.
pub open spec fn error_headers() -> Seq<(Seq<char>, Seq<char>)> {
    seq![("content-type"@, "application/json; charset=utf-8"@), ("access-control-allow-origin"@, "*"@)]
}

/// The headers of a CORS preflight reply.
pub open spec fn preflight_headers() -> Seq<(Seq<char>, Seq<char>)> {
    seq![
        ("access-control-allow-origin"@, "*"@),
        ("access-control-allow-methods"@, "GET, OPTIONS"@),
        ("access-control-allow-headers"@, "Content-Type"@),
        ("access-control-max-age"@, "86400"@),
    ]
}

/// The body of an error reply: `{"error":true,"message":<message as a JSON string>}`.
pub open spec fn error_body(message: Seq<char>) -> Seq<char> {
    "{\"error\":true,\"message\":"@ + json_string(message) + "}"@
}

/// The body of the health check.
pub open spec fn health_body() -> Seq<char> {
    "{\"status\":\"ok\",\"region\":\"Alagoas, BR\",\"version\":\"0.1.0\",\"endpoints\":[\"/geocode\",\"/reverse\",\"/route\",\"/health\"]}"@
}

/// The message for a path that no endpoint serves.
pub open spec fn unknown_route_message(path: Seq<char>) -> Seq<char> {
    "rota '"@ + path + "' não encontrada. Endpoints: /geocode /reverse /route /health"@
}

fn header(name: &str, value: &str) -> (r: (String, String))
    ensures
        r.0@ == name@,
        r.1@ == value@,
{
    (name.to_owned(), value.to_owned())
}

/// A 200 JSON reply with CORS headers and a five-minute cache.
pub fn json_ok(body: String) -> (r: Reply)
    ensures
        r@ == (ReplyView { status: 200, headers: json_ok_headers(), body: body@ }),
{
    let mut headers: Vec<(String, String)> = Vec::new();
    headers.push(header("content-type", "application/json; charset=utf-8"));
    headers.push(header("access-control-allow-origin", "*"));
    headers.push(header("access-control-allow-methods", "GET, OPTIONS"));
    headers.push(header("access-control-allow-headers", "Content-Type"));
    headers.push(header("cache-control", "public, max-age=300"));
    let r = Reply { status: 200, headers, body };
    assert(r@.headers =~= json_ok_headers());
    r
}

/// A JSON error reply with the given status.
pub fn error_json(status: u16, message: &str) -> (r: Reply)
    ensures
        r@ == (ReplyView { status, headers: error_headers(), body: error_body(message@) }),
{
    let quoted = match json_encode_str(message) {
        Ok(q) => q,
        Err(_) => {
            let mut q = String::from_str("\"");
            q.append(message);
            q.append("\"");
            q
        },
    };
    let mut body = String::from_str("{\"error\":true,\"message\":");
    body.append(quoted.as_str());
    body.append("}");
    let mut headers: Vec<(String, String)> = Vec::new();
    headers.push(header("content-type", "application/json; charset=utf-8"));
    headers.push(header("access-control-allow-origin", "*"));
    let r = Reply { status, headers, body };
    assert(r@.headers =~= error_headers());
    r
}

/// The reply to a CORS preflight (OPTIONS) request.
pub fn cors_preflight() -> (r: Reply)
    ensures
        r@ == (ReplyView { status: 204, headers: preflight_headers(), body: ""@ }),
{
    let mut headers: Vec<(String, String)> = Vec::new();
    headers.push(header("access-control-allow-origin", "*"));
    headers.push(header("access-control-allow-methods", "GET, OPTIONS"));
    headers.push(header("access-control-allow-headers", "Content-Type"));
    headers.push(header("access-control-max-age", "86400"));
    let r = Reply { status: 204, headers, body: "".to_owned() };
    assert(r@.headers =~= preflight_headers());
    r
}

/// Health check.
pub fn health() -> (r: Reply)
    ensures
        r@ == (ReplyView { status: 200, headers: json_ok_headers(), body: health_body() }),
{
    json_ok(
        "{\"status\":\"ok\",\"region\":\"Alagoas, BR\",\"version\":\"0.1.0\",\"endpoints\":[\"/geocode\",\"/reverse\",\"/route\",\"/health\"]}".to_owned(),
    )
}

/// 404 naming the path that was asked for.
pub fn not_found(path: &str) -> (r: Reply)
    ensures
        r@ == (ReplyView {
            status: 404,
            headers: error_headers(),
            body: error_body(unknown_route_message(path@)),
        }),
{
    let mut m = String::from_str("rota '");
    m.append(path);
    m.append("' não encontrada. Endpoints: /geocode /reverse /route /health");
    error_json(404, m.as_str())
}


/// The error text for a parameter whose value is not a number.
pub open spec fn invalid_param_message(key: Seq<char>, raw: Seq<char>) -> Seq<char> {
    "parâmetro '"@ + key + "' inválido: '"@ + raw + "'"@
}

/// The error text for a parameter whose value is not a number.
pub fn invalid_param(key: &str, raw: &str) -> (r: String)
    ensures
        r@ == invalid_param_message(key@, raw@),
{
    let mut m = String::from_str("parâmetro '");
    m.append(key);
    m.append("' inválido: '");
    m.append(raw);
    m.append("'");
    m
}

} // verus!
