use vstd::prelude::*;
use vstd::string::{StringExecFns, StringSliceAdditionalSpecFns};
use vstd::utf8::*;

use crate::errors::ApiError;
use crate::helpers::{
    QueryParams,
    hex_digit_value, hex_pair_value, percent_decode, require_str,
    url_decoded,
};
use crate::text::{
    all_ascii, ascii_chars, ascii_string, decimal, decimal_string, lemma_ascii_utf8, lossy_text,
};

verus! {

broadcast use vstd::utf8::group_utf8_lib;

// ── Percent-encoding ───────────────────────────────────────────────────────

/// The bytes kept as they are: ASCII letters and digits, and `-` `_` `.` `~` `,`.
pub open spec fn is_unreserved(b: u8) -> bool {
    (65 <= b <= 90) || (97 <= b <= 122) || (48 <= b <= 57) || b == 45 || b == 95 || b == 46
        || b == 126 || b == 44
}

/// An upper-case hexadecimal digit.
pub open spec fn hex_upper(n: u8) -> u8 {
    if n < 10 {
        (48 + n) as u8
    } else {
        (55 + n) as u8
    }
}

/// How one byte is written: kept, a space as `+`, anything else as `%XX`.
pub open spec fn encode_byte(b: u8) -> Seq<u8> {
    if is_unreserved(b) {
        seq![b]
    } else if b == 32 {
        seq![43u8]
    } else {
        seq![37u8, hex_upper(b / 16), hex_upper(b % 16)]
    }
}

/// Every byte of `b` written as `encode_byte` says.
pub open spec fn percent_encode(b: Seq<u8>) -> Seq<u8>
    decreases b.len(),
{
    if b.len() == 0 {
        seq![]
    } else {
        encode_byte(b[0]) + percent_encode(b.drop_first())
    }
}

/// The percent-encoding of a text's UTF-8 bytes, read as (ASCII) text.
pub open spec fn url_encoded(s: Seq<char>) -> Seq<char> {
    ascii_chars(percent_encode(encode_utf8(s)))
}

pub proof fn lemma_percent_encode_ascii(b: Seq<u8>)
    ensures
        all_ascii(percent_encode(b)),
    decreases b.len(),
{
    if b.len() > 0 {
        lemma_percent_encode_ascii(b.drop_first());
        let e = encode_byte(b[0]);
        let r = percent_encode(b.drop_first());
        assert forall|i: int| 0 <= i < e.len() implies #[trigger] e[i] < 0x80 by {
            assert(b[0] / 16 < 16);
        }
        assert forall|i: int| 0 <= i < (e + r).len() implies #[trigger] (e + r)[i] < 0x80 by {
            if i < e.len() {
                assert((e + r)[i] == e[i]);
            } else {
                assert((e + r)[i] == r[i - e.len()]);
            }
        }
    }
}

fn hex_upper_exec(n: u8) -> (r: u8)
    requires
        n < 16,
    ensures
        r == hex_upper(n),
{
    if n < 10 {
        48 + n
    } else {
        55 + n
    }
}

/// Minimal percent-encoding for building query strings: ASCII letters, digits and
/// `-` `_` `.` `~` `,` are kept, a space becomes `+`, and every other character is
/// written as `%XX` for each byte of its UTF-8 encoding (upper-case hex).
pub fn urlencode(s: &str) -> (r: String)
    ensures
        r@ == url_encoded(s@),
{
    let raw = s.as_bytes();
    let mut out: Vec<u8> = Vec::new();
    let mut i: usize = 0;
    assert(raw@.subrange(0, raw@.len() as int) =~= raw@);
    assert(out@ + percent_encode(raw@) =~= percent_encode(raw@));
    while i < raw.len()
        invariant
            raw@ == s.spec_bytes(),
            0 <= i <= raw@.len(),
            out@ + percent_encode(raw@.subrange(i as int, raw@.len() as int)) == percent_encode(
                raw@,
            ),
        decreases raw@.len() - i,
    {
        let ghost rest = raw@.subrange(i as int, raw@.len() as int);
        let ghost old_out = out@;
        assert(rest.drop_first() =~= raw@.subrange(i + 1, raw@.len() as int));
        let b = raw[i];
        if (65 <= b && b <= 90) || (97 <= b && b <= 122) || (48 <= b && b <= 57) || b == 45 || b
            == 95 || b == 46 || b == 126 || b == 44 {
            out.push(b);
        } else if b == 32 {
            out.push(43);
        } else {
            out.push(37);
            out.push(hex_upper_exec(b / 16));
            out.push(hex_upper_exec(b % 16));
        }
        assert(out@ =~= old_out + encode_byte(b));
        i = i + 1;
        assert(old_out + percent_encode(rest) =~= out@ + percent_encode(
            raw@.subrange(i as int, raw@.len() as int),
        ));
    }
    assert(raw@.subrange(i as int, raw@.len() as int) =~= Seq::<u8>::empty());
    assert(out@ =~= percent_encode(raw@));
    proof {
        lemma_percent_encode_ascii(raw@);
    }
    ascii_string(out)
}


proof fn lemma_decode_encoded_byte(b: u8, rest: Seq<u8>)
    ensures
        percent_decode(encode_byte(b) + rest) == seq![b] + percent_decode(rest),
{
    let e = encode_byte(b) + rest;
    if is_unreserved(b) {
        assert(e.drop_first() =~= rest);
    } else if b == 32 {
        assert(e.drop_first() =~= rest);
    } else {
        let h = b / 16;
        let l = b % 16;
        assert(hex_digit_value(hex_upper(h)) == Some(h));
        assert(hex_digit_value(hex_upper(l)) == Some(l));
        assert(h * 16 + l == b) by (nonlinear_arith)
            requires
                h == b / 16,
                l == b % 16,
        ;
        assert(hex_pair_value(e[1], e[2]) == Some(b));
        assert(e.subrange(3, e.len() as int) =~= rest);
    }
}

pub proof fn lemma_percent_decode_encode(b: Seq<u8>)
    ensures
        percent_decode(percent_encode(b)) == b,
    decreases b.len(),
{
    if b.len() > 0 {
        lemma_percent_decode_encode(b.drop_first());
        lemma_decode_encoded_byte(b[0], percent_encode(b.drop_first()));
        assert(seq![b[0]] + b.drop_first() =~= b);
    }
}

/// URL-decoding the percent-encoding of any text gives the text back.
pub proof fn law_url_decode_inverts_urlencode(s: Seq<char>)
    ensures
        url_decoded(url_encoded(s)) == s,
{
    let b = encode_utf8(s);
    let e = percent_encode(b);
    lemma_percent_encode_ascii(b);
    lemma_ascii_utf8(e);
    lemma_percent_decode_encode(b);
}


// ── Parameters ─────────────────────────────────────────────────────────────

/// The characters with the Unicode `White_Space` property (what `char::is_whitespace`
/// and `str::trim` go by).
pub open spec fn is_white_space(c: char) -> bool {
    ('\u{9}' <= c <= '\u{d}') || c == ' ' || c == '\u{85}' || c == '\u{a0}' || c == '\u{1680}' || (
    '\u{2000}' <= c <= '\u{200a}') || c == '\u{2028}' || c == '\u{2029}' || c == '\u{202f}' || c
        == '\u{205f}' || c == '\u{3000}'
}

/// Nothing is left of the text once surrounding white space is trimmed.
pub open spec fn is_blank(s: Seq<char>) -> bool {
    forall|i: int| 0 <= i < s.len() ==> is_white_space(#[trigger] s[i])
}

fn white_space(c: char) -> (r: bool)
    ensures
        r == is_white_space(c),
{
    ('\u{9}' <= c && c <= '\u{d}') || c == ' ' || c == '\u{85}' || c == '\u{a0}' || c == '\u{1680}'
        || ('\u{2000}' <= c && c <= '\u{200a}') || c == '\u{2028}' || c == '\u{2029}' || c
        == '\u{202f}' || c == '\u{205f}' || c == '\u{3000}'
}

/// Whether the text is empty once trimmed.
pub fn blank(s: &str) -> (r: bool)
    ensures
        r == is_blank(s@),
{
    for c in it: s.chars()
        invariant
            it.seq() == s@,
            forall|j: int| 0 <= j < it.index() ==> is_white_space(#[trigger] s@[j]),
    {
        if !white_space(c) {
            return false;
        }
    }
    true
}


/// The value of a sequence of ASCII decimal digits.
pub open spec fn decimal_value(d: Seq<u8>) -> nat
    decreases d.len(),
{
    if d.len() == 0 {
        0
    } else {
        decimal_value(d.drop_last()) * 10 + (d.last() - 48) as nat
    }
}

/// Every byte is an ASCII decimal digit.
pub open spec fn all_digits(d: Seq<u8>) -> bool {
    forall|i: int| 0 <= i < d.len() ==> 48 <= #[trigger] d[i] <= 57
}

/// What `str::parse::<u8>` gives for a text with these UTF-8 bytes: an optional `+`
/// (not on its own) followed by at least one decimal digit, of value at most 255.
pub open spec fn parsed_u8(b: Seq<u8>) -> Option<u8> {
    let d = if b.len() > 1 && b[0] == 43 {
        b.drop_first()
    } else {
        b
    };
    if d.len() >= 1 && all_digits(d) && decimal_value(d) <= 255 {
        Some(decimal_value(d) as u8)
    } else {
        None
    }
}

/// The number of results asked for: the `limit` parameter when it parses as a `u8`,
/// else 5, clamped to 1..=10.
pub open spec fn result_limit(raw: Option<Seq<char>>) -> u8 {
    let n: u8 = match raw {
        Some(s) => match parsed_u8(encode_utf8(s)) {
            Some(v) => v,
            None => 5,
        },
        None => 5,
    };
    if n < 1 {
        1
    } else if n > 10 {
        10
    } else {
        n
    }
}

/// Parses a `u8` the way `str::parse::<u8>` does.
pub fn parse_u8(s: &str) -> (r: Option<u8>)
    ensures
        r == parsed_u8(s.spec_bytes()),
{
    let b = s.as_bytes();
    let start: usize = if b.len() > 1 && b[0] == 43 {
        1
    } else {
        0
    };
    let ghost d = b@.subrange(start as int, b@.len() as int);
    proof {
        if b@.len() > 1 && b@[0] == 43 {
            assert(d =~= b@.drop_first());
        } else {
            assert(d =~= b@);
        }
    }
    if start == b.len() {
        return None;
    }
    let mut acc: u32 = 0;
    let mut i = start;
    while i < b.len()
        invariant
            b@ == s.spec_bytes(),
            start == 1 <==> (b@.len() > 1 && b@[0] == 43),
            start == 0 || start == 1,
            start <= i <= b@.len(),
            d == b@.subrange(start as int, b@.len() as int),
            all_digits(b@.subrange(start as int, i as int)),
            acc == if decimal_value(b@.subrange(start as int, i as int)) < 256 {
                decimal_value(b@.subrange(start as int, i as int))
            } else {
                256
            },
        decreases b@.len() - i,
    {
        let c = b[i];
        let ghost p = b@.subrange(start as int, i as int);
        let ghost q = b@.subrange(start as int, i + 1);
        assert(q.drop_last() =~= p);
        if c < 48 || c > 57 {
            assert(!all_digits(d)) by {
                assert(d[i - start] == c);
            }
            return None;
        }
        assert(decimal_value(q) == decimal_value(p) * 10 + (c - 48) as nat);
        acc = if acc >= 256 {
            256
        } else {
            let v = acc * 10 + (c - 48) as u32;
            if v < 256 {
                v
            } else {
                256
            }
        };
        i = i + 1;
        assert(all_digits(b@.subrange(start as int, i as int))) by {
            assert forall|k: int| 0 <= k < q.len() implies 48 <= #[trigger] q[k] <= 57 by {
                if k < p.len() {
                    assert(q[k] == p[k]);
                }
            }
        }
    }
    assert(b@.subrange(start as int, i as int) =~= d);
    if acc < 256 {
        Some(acc as u8)
    } else {
        None
    }
}

/// The `limit` parameter, defaulted and clamped.
pub fn limit_param(qs: &QueryParams) -> (r: u8)
    ensures
        r == result_limit(if qs@.contains_key("limit"@) { Some(qs@["limit"@]@) } else { None }),
        1 <= r <= 10,
{
    let n: u8 = match qs.get("limit") {
        Some(v) => match parse_u8(v.as_str()) {
            Some(n) => n,
            None => 5,
        },
        None => 5,
    };
    if n < 1 {
        1
    } else if n > 10 {
        10
    } else {
        n
    }
}


/// The parameters of a geocoding search.
pub struct SearchParams {
    /// The free-text query, as given.
    pub q: String,
    /// How many results to ask for (1..=10).
    pub limit: u8,
}

/// The `q` parameter is present and not blank.
pub open spec fn has_search_text(qs: Map<Seq<char>, String>) -> bool {
    qs.contains_key("q"@) && !is_blank(qs["q"@]@)
}

/// The message when `q` is missing or blank.
pub open spec fn missing_query_message() -> Seq<char> {
    "parâmetro 'q' ausente ou vazio"@
}

/// Reads `q` (required, not blank) and `limit` (defaulted and clamped) from the query.
pub fn search_params(qs: &QueryParams) -> (r: Result<SearchParams, ApiError>)
    ensures
        match r {
            Ok(p) => {
                &&& has_search_text(qs@)
                &&& p.q@ == qs@["q"@]@
                &&& p.limit == result_limit(
                    if qs@.contains_key("limit"@) { Some(qs@["limit"@]@) } else { None },
                )
            },
            Err(e) => !has_search_text(qs@) && e is BadRequest && e->BadRequest_0@
                == missing_query_message(),
        },
{
    let q = match require_str(qs, "q") {
        Ok(v) => {
            if blank(v) {
                return Err(ApiError::bad_request("parâmetro 'q' ausente ou vazio"));
            }
            v.to_owned()
        },
        Err(_) => return Err(ApiError::bad_request("parâmetro 'q' ausente ou vazio")),
    };
    Ok(SearchParams { q, limit: limit_param(qs) })
}

/// The Nominatim search URL for a query, a result limit and a view box.
pub open spec fn search_url_text(q: Seq<char>, limit: u8, viewbox: Seq<char>) -> Seq<char> {
    "https://nominatim.openstreetmap.org/search?q="@ + url_encoded(q) + "&format=jsonv2&addressdetails=1&limit="@
        + decimal(limit as nat) + "&countrycodes=br&viewbox="@ + url_encoded(viewbox)
        + "&bounded=0&accept-language=pt-BR,pt,en"@
}

/// Builds the Nominatim search URL: the query and the view box percent-encoded,
/// results restricted to Brazil and preferring the view box, answers in Portuguese.
pub fn search_url(q: &str, limit: u8, viewbox: &str) -> (r: String)
    ensures
        r@ == search_url_text(q@, limit, viewbox@),
{
    let mut url = String::from_str("https://nominatim.openstreetmap.org/search?q=");
    url.append(urlencode(q).as_str());
    url.append("&format=jsonv2&addressdetails=1&limit=");
    url.append(decimal_string(limit as u64).as_str());
    url.append("&countrycodes=br&viewbox=");
    url.append(urlencode(viewbox).as_str());
    url.append("&bounded=0&accept-language=pt-BR,pt,en");
    url
}

} // verus!
