//! Properties that span several functions of the library.
use vstd::prelude::*;
use vstd::utf8::*;

use crate::geocode::{
    encode_byte, is_unreserved, lemma_percent_decode_encode, lemma_percent_encode_ascii,
    percent_encode, url_encoded,
};
use crate::helpers::{
    error_headers, first_index, lemma_first_index, json_ok_headers,
    pair_key, pair_value, parsed_query, percent_decode, preflight_headers, query_map,
    split_bytes, url_decoded,
};
use crate::dispatch::{endpoint_for, Endpoint, RequestMethod};
use crate::geocode::{all_digits, decimal_value, parsed_u8, result_limit};
use crate::reply::ReplyView;
use crate::route::{route_url_text, trim_end_slashes};
use crate::text::{
    all_ascii, ascii_chars, decimal, decimal_digits, lemma_ascii_utf8, lemma_decimal_digits_ascii,
    lossy_text,
};

verus! {

broadcast use vstd::utf8::group_utf8_lib;

proof fn lemma_scalar_bytes(c: char)
    ensures
        (c as u32) < 0x80 ==> encode_scalar(c as u32) == seq![(c as u32) as u8],
        (c as u32) >= 0x80 ==> forall|i: int|
            0 <= i < encode_scalar(c as u32).len() ==> #[trigger] encode_scalar(c as u32)[i]
                >= 0x80,
{
    let v = c as u32;
    char_is_scalar(c);
    if v < 0x80 {
        assert((v & 0x7F) as u8 == v as u8) by (bit_vector)
            requires
                v < 0x80,
        ;
    } else {
        assert(forall|y: u8| #[trigger] (0xC0u8 | y) >= 0x80) by (bit_vector);
        assert(forall|y: u8| #[trigger] (0xE0u8 | y) >= 0x80) by (bit_vector);
        assert(forall|y: u8| #[trigger] (0xF0u8 | y) >= 0x80) by (bit_vector);
        assert(forall|y: u8| #[trigger] (0x80u8 | y) >= 0x80) by (bit_vector);
    }
}

/// No byte of `x` is `%` or `+`.
spec fn no_escape_bytes(x: Seq<u8>) -> bool {
    forall|i: int| 0 <= i < x.len() ==> #[trigger] x[i] != 37 && x[i] != 43
}

proof fn lemma_percent_decode_passes(x: Seq<u8>, r: Seq<u8>)
    requires
        no_escape_bytes(x),
    ensures
        percent_decode(x + r) == x + percent_decode(r),
    decreases x.len(),
{
    if x.len() > 0 {
        let t = x.drop_first();
        assert((x + r).drop_first() =~= t + r);
        assert(no_escape_bytes(t)) by {
            assert forall|i: int| 0 <= i < t.len() implies #[trigger] t[i] != 37 && t[i] != 43 by {
                assert(t[i] == x[i + 1]);
            }
        }
        lemma_percent_decode_passes(t, r);
        assert(x =~= seq![x[0]] + t);
    } else {
        assert(x + r =~= r);
    }
}

proof fn lemma_plain_bytes(s: Seq<char>)
    requires
        forall|i: int| 0 <= i < s.len() ==> #[trigger] s[i] != '%' && s[i] != '+',
    ensures
        percent_decode(encode_utf8(s)) == encode_utf8(s),
    decreases s.len(),
{
    if s.len() > 0 {
        let t = s.drop_first();
        lemma_plain_bytes(t);
        lemma_scalar_bytes(s[0]);
        let e = encode_scalar(s[0] as u32);
        let v = s[0] as u32;
        assert(s[0] != '%' && s[0] != '+');
        assert(('%' as u32) == 37);
        assert(('+' as u32) == 43);
        if v == 37 || v == 43 {
            char_u32_cast(s[0], v);
            char_u32_cast('%', 37);
            char_u32_cast('+', 43);
        }
        assert(v != 37 && v != 43);
        assert(no_escape_bytes(e)) by {
            if v < 0x80 {
                assert(e[0] == v as u8);
            } else {
                assert forall|i: int| 0 <= i < e.len() implies #[trigger] e[i] != 37 && e[i] != 43 by {
                    assert(e[i] >= 0x80);
                }
            }
        }
        lemma_percent_decode_passes(e, encode_utf8(t));
        assert(encode_utf8(s) == e + encode_utf8(t));
    }
}

/// A text with neither `%` nor `+` URL-decodes to itself.
pub proof fn law_plain_text_decodes_to_itself(s: Seq<char>)
    requires
        forall|i: int| 0 <= i < s.len() ==> #[trigger] s[i] != '%' && s[i] != '+',
    ensures
        url_decoded(s) == s,
{
    lemma_plain_bytes(s);
}

proof fn lemma_split_without_sep(b: Seq<u8>, sep: u8)
    requires
        forall|i: int| 0 <= i < b.len() ==> #[trigger] b[i] != sep,
    ensures
        split_bytes(b, sep) == seq![b],
    decreases b.len(),
{
    if b.len() > 0 {
        assert(b[b.len() - 1] != sep);
        lemma_split_without_sep(b.drop_last(), sep);
        assert(b.drop_last().push(b.last()) =~= b);
        assert(seq![b.drop_last()].update(0, b.drop_last().push(b.last())) =~= seq![b]);
    } else {
        assert(b =~= Seq::<u8>::empty());
    }
}

proof fn lemma_encoded_has_no(b: Seq<u8>, x: u8)
    requires
        !is_unreserved(x),
        x != 43,
        x != 37,
        !(48 <= x <= 57),
        !(65 <= x <= 70),
    ensures
        forall|i: int| 0 <= i < percent_encode(b).len() ==> #[trigger] percent_encode(b)[i] != x,
    decreases b.len(),
{
    if b.len() > 0 {
        lemma_encoded_has_no(b.drop_first(), x);
        let e = encode_byte(b[0]);
        let r = percent_encode(b.drop_first());
        assert forall|i: int| 0 <= i < (e + r).len() implies #[trigger] (e + r)[i] != x by {
            if i < e.len() {
                assert((e + r)[i] == e[i]);
                assert(b[0] / 16 < 16 && b[0] % 16 < 16);
            } else {
                assert((e + r)[i] == r[i - e.len()]);
            }
        }
    }
}

/// The bytes of `urlencode(key)=urlencode(value)`.
spec fn pair_bytes(key: Seq<char>, value: Seq<char>) -> Seq<u8> {
    percent_encode(encode_utf8(key)) + seq![61u8] + percent_encode(encode_utf8(value))
}

/// The query parameter `urlencode(key)=urlencode(value)`.
pub open spec fn encoded_pair(key: Seq<char>, value: Seq<char>) -> Seq<char> {
    url_encoded(key) + "="@ + url_encoded(value)
}

proof fn lemma_pair_bytes(key: Seq<char>, value: Seq<char>)
    ensures
        all_ascii(pair_bytes(key, value)),
        ascii_chars(pair_bytes(key, value)) == encoded_pair(key, value),
        forall|i: int|
            0 <= i < pair_bytes(key, value).len() ==> #[trigger] pair_bytes(key, value)[i] != 38,
        lossy_text(percent_decode(pair_key(pair_bytes(key, value)))) == key,
        lossy_text(percent_decode(pair_value(pair_bytes(key, value)))) == value,
{
    let ek = percent_encode(encode_utf8(key));
    let ev = percent_encode(encode_utf8(value));
    let b = pair_bytes(key, value);
    lemma_percent_encode_ascii(encode_utf8(key));
    lemma_percent_encode_ascii(encode_utf8(value));
    assert(all_ascii(b)) by {
        assert forall|i: int| 0 <= i < b.len() implies #[trigger] b[i] < 0x80 by {
            if i < ek.len() {
                assert(b[i] == ek[i]);
            } else if i > ek.len() {
                assert(b[i] == ev[i - ek.len() - 1]);
            }
        }
    }
    reveal_strlit("=");
    assert(encoded_pair(key, value) =~= ascii_chars(b));
    lemma_encoded_has_no(encode_utf8(key), 38);
    lemma_encoded_has_no(encode_utf8(value), 38);
    lemma_encoded_has_no(encode_utf8(key), 61);
    assert forall|i: int| 0 <= i < b.len() implies #[trigger] b[i] != 38 by {
        if i < ek.len() {
            assert(b[i] == ek[i]);
        } else if i > ek.len() {
            assert(b[i] == ev[i - ek.len() - 1]);
        }
    }
    assert forall|k: int| 0 <= k < ek.len() implies b[k] != 61 by {
        assert(b[k] == ek[k]);
    }
    lemma_first_index(b, 61);
    assert(b[ek.len() as int] == 61);
    assert(pair_key(b) =~= ek);
    assert(pair_value(b) =~= ev);
    lemma_percent_decode_encode(encode_utf8(key));
    lemma_percent_decode_encode(encode_utf8(value));
}

proof fn lemma_single_piece(b: Seq<u8>)
    ensures
        query_map(seq![b]) == Map::<Seq<char>, Seq<char>>::empty().insert(
            lossy_text(percent_decode(pair_key(b))),
            lossy_text(percent_decode(pair_value(b))),
        ),
{
    let pieces = seq![b];
    assert(pieces.drop_last() =~= Seq::<Seq<u8>>::empty());
    assert(pieces.last() == b);
    assert(query_map(pieces.drop_last()) == Map::<Seq<char>, Seq<char>>::empty());
    assert(query_map(pieces) == query_map(pieces.drop_last()).insert(
        lossy_text(percent_decode(pair_key(b))),
        lossy_text(percent_decode(pair_value(b))),
    ));
}

/// A query string written as `urlencode(key)=urlencode(value)` parses back to the
/// single parameter `key` with the value `value`.
pub proof fn law_encoded_pair_parses_back(key: Seq<char>, value: Seq<char>)
    ensures
        parsed_query(encoded_pair(key, value)) == Map::<Seq<char>, Seq<char>>::empty().insert(
            key,
            value,
        ),
{
    let b = pair_bytes(key, value);
    lemma_pair_bytes(key, value);
    lemma_ascii_utf8(b);
    lemma_split_without_sep(b, 38);
    lemma_single_piece(b);
    assert(encoded_pair(key, value).len() == b.len());
    assert(b[percent_encode(encode_utf8(key)).len() as int] == 61);
    assert(parsed_query(encoded_pair(key, value)) == query_map(split_bytes(b, 38)));
}

/// The query string `urlencode(k1)=urlencode(v1)&...&urlencode(kn)=urlencode(vn)` of
/// the given parameters, in order.
pub open spec fn encoded_query(params: Seq<(Seq<char>, Seq<char>)>) -> Seq<char>
    decreases params.len(),
{
    if params.len() <= 1 {
        encoded_pair(params[0].0, params[0].1)
    } else {
        encoded_query(params.drop_last()) + "&"@ + encoded_pair(
            params.last().0,
            params.last().1,
        )
    }
}

spec fn query_bytes(params: Seq<(Seq<char>, Seq<char>)>) -> Seq<u8>
    decreases params.len(),
{
    if params.len() <= 1 {
        pair_bytes(params[0].0, params[0].1)
    } else {
        query_bytes(params.drop_last()) + seq![38u8] + pair_bytes(
            params.last().0,
            params.last().1,
        )
    }
}

proof fn lemma_split_append(a: Seq<u8>, b: Seq<u8>, sep: u8)
    requires
        forall|i: int| 0 <= i < b.len() ==> #[trigger] b[i] != sep,
    ensures
        split_bytes(a + seq![sep] + b, sep) == split_bytes(a, sep).push(b),
    decreases b.len(),
{
    let x = a + seq![sep] + b;
    if b.len() == 0 {
        assert(x.drop_last() =~= a);
        assert(x.last() == sep);
        assert(split_bytes(x, sep) == split_bytes(x.drop_last(), sep).push(seq![]));
        assert(b =~= Seq::<u8>::empty());
    } else {
        let c = b.drop_last();
        assert(b[b.len() - 1] != sep);
        lemma_split_append(a, c, sep);
        assert(x.drop_last() =~= a + seq![sep] + c);
        assert(x.last() == b.last());
        assert(c.push(b.last()) =~= b);
        let init = split_bytes(x.drop_last(), sep);
        assert(init == split_bytes(a, sep).push(c));
        assert(init.last() == c);
        assert(split_bytes(x, sep) == init.update(init.len() - 1, init.last().push(x.last())));
        assert(split_bytes(a, sep).push(c).update(
            split_bytes(a, sep).len() as int,
            c.push(b.last()),
        ) =~= split_bytes(a, sep).push(b));
    }
}

proof fn lemma_query_bytes(params: Seq<(Seq<char>, Seq<char>)>)
    requires
        params.len() >= 1,
    ensures
        all_ascii(query_bytes(params)),
        ascii_chars(query_bytes(params)) == encoded_query(params),
        params.len() == 1 ==> query_map(split_bytes(query_bytes(params), 38)) == Map::<
            Seq<char>,
            Seq<char>,
        >::empty().insert(params[0].0, params[0].1),
        params.len() > 1 ==> query_map(split_bytes(query_bytes(params), 38)) == query_map(
            split_bytes(query_bytes(params.drop_last()), 38),
        ).insert(params.last().0, params.last().1),
    decreases params.len(),
{
    let b = query_bytes(params);
    if params.len() == 1 {
        lemma_pair_bytes(params[0].0, params[0].1);
        assert(b == pair_bytes(params[0].0, params[0].1));
        lemma_split_without_sep(b, 38);
        lemma_single_piece(b);
    } else {
        let a = query_bytes(params.drop_last());
        let p = pair_bytes(params.last().0, params.last().1);
        lemma_query_bytes(params.drop_last());
        lemma_pair_bytes(params.last().0, params.last().1);
        assert(all_ascii(b)) by {
            assert forall|i: int| 0 <= i < b.len() implies #[trigger] b[i] < 0x80 by {
                if i < a.len() {
                    assert(b[i] == a[i]);
                } else if i > a.len() {
                    assert(b[i] == p[i - a.len() - 1]);
                }
            }
        }
        reveal_strlit("&");
        assert(ascii_chars(b) =~= ascii_chars(a) + "&"@ + ascii_chars(p));
        lemma_split_append(a, p, 38);
        let s = split_bytes(a, 38);
        assert(s.push(p).drop_last() =~= s);
    }
}

proof fn lemma_parsed_encoded_query(params: Seq<(Seq<char>, Seq<char>)>)
    requires
        params.len() >= 1,
    ensures
        parsed_query(encoded_query(params)) == query_map(split_bytes(query_bytes(params), 38)),
        params.len() > 1 ==> parsed_query(encoded_query(params)) == parsed_query(
            encoded_query(params.drop_last()),
        ).insert(params.last().0, params.last().1),
        params.len() == 1 ==> parsed_query(encoded_query(params)) == Map::<
            Seq<char>,
            Seq<char>,
        >::empty().insert(params[0].0, params[0].1),
    decreases params.len(),
{
    let b = query_bytes(params);
    lemma_query_bytes(params);
    lemma_ascii_utf8(b);
    assert(encoded_query(params).len() == b.len());
    if params.len() == 1 {
        assert(b[percent_encode(encode_utf8(params[0].0)).len() as int] == 61);
    } else {
        assert(b[query_bytes(params.drop_last()).len() as int] == 38);
        lemma_parsed_encoded_query(params.drop_last());
    }
}

/// A query string made of `urlencode(key)=urlencode(value)` parameters joined by `&`
/// parses back to every one of those keys and to no other; each key maps to the value
/// of its last occurrence.
pub proof fn law_encoded_query_parses_back(params: Seq<(Seq<char>, Seq<char>)>)
    requires
        params.len() >= 1,
    ensures
        forall|i: int|
            0 <= i < params.len() ==> #[trigger] parsed_query(encoded_query(params)).dom().contains(
                params[i].0,
            ),
        forall|key: Seq<char>|
            #[trigger] parsed_query(encoded_query(params)).dom().contains(key) ==> exists|i: int|
                0 <= i < params.len() && #[trigger] params[i].0 == key,
        forall|i: int|
            0 <= i < params.len() && (forall|j: int| i < j < params.len() ==> params[j].0 != params[i].0)
                ==> #[trigger] parsed_query(encoded_query(params))[params[i].0] == params[i].1,
    decreases params.len(),
{
    lemma_parsed_encoded_query(params);
    let m = parsed_query(encoded_query(params));
    if params.len() == 1 {
        assert forall|key: Seq<char>| #[trigger] m.dom().contains(key) implies exists|i: int|
            0 <= i < params.len() && #[trigger] params[i].0 == key by {
            assert(params[0].0 == key);
        }
    } else {
        let init = params.drop_last();
        let n = params.len() - 1;
        law_encoded_query_parses_back(init);
        let mi = parsed_query(encoded_query(init));
        assert(m == mi.insert(params[n].0, params[n].1));
        assert forall|i: int| 0 <= i < params.len() implies #[trigger] m.dom().contains(
            params[i].0,
        ) by {
            if i < n {
                assert(init[i] == params[i]);
                assert(mi.dom().contains(init[i].0));
            }
        }
        assert forall|key: Seq<char>| #[trigger] m.dom().contains(key) implies exists|i: int|
            0 <= i < params.len() && #[trigger] params[i].0 == key by {
            if key == params[n].0 {
                assert(params[n].0 == key);
            } else {
                assert(mi.dom().contains(key));
                let i = choose|i: int| 0 <= i < init.len() && #[trigger] init[i].0 == key;
                assert(params[i] == init[i]);
                assert(params[i].0 == key);
            }
        }
        assert forall|i: int|
            0 <= i < params.len() && (forall|j: int|
                i < j < params.len() ==> params[j].0 != params[i].0) implies #[trigger] m[params[i].0]
            == params[i].1 by {
            if i < n {
                assert(params[n].0 != params[i].0);
                assert(init[i] == params[i]);
                assert forall|j: int| i < j < init.len() implies init[j].0 != init[i].0 by {
                    assert(init[j] == params[j]);
                }
                assert(mi[init[i].0] == init[i].1);
            }
        }
    }
}

/// Every JSON reply, successful or not, declares its JSON content type and allows any
/// origin; the preflight reply allows any origin too.
pub proof fn law_replies_carry_json_type_and_cors(status: u16, body: Seq<char>)
    ensures
        (ReplyView { status: 200, headers: json_ok_headers(), body }).has_header(
            "content-type"@,
            "application/json; charset=utf-8"@,
        ),
        (ReplyView { status: 200, headers: json_ok_headers(), body }).has_header(
            "access-control-allow-origin"@,
            "*"@,
        ),
        (ReplyView { status, headers: error_headers(), body }).has_header(
            "content-type"@,
            "application/json; charset=utf-8"@,
        ),
        (ReplyView { status, headers: error_headers(), body }).has_header(
            "access-control-allow-origin"@,
            "*"@,
        ),
        (ReplyView { status: 204, headers: preflight_headers(), body: ""@ }).has_header(
            "access-control-allow-origin"@,
            "*"@,
        ),
{
    let ok = ReplyView { status: 200, headers: json_ok_headers(), body };
    let err = ReplyView { status, headers: error_headers(), body };
    let pre = ReplyView { status: 204, headers: preflight_headers(), body: ""@ };
    assert(ok.headers[0] == ("content-type"@, "application/json; charset=utf-8"@));
    assert(ok.headers[1] == ("access-control-allow-origin"@, "*"@));
    assert(err.headers[0] == ("content-type"@, "application/json; charset=utf-8"@));
    assert(err.headers[1] == ("access-control-allow-origin"@, "*"@));
    assert(pre.headers[0] == ("access-control-allow-origin"@, "*"@));
}


// ── Routing ────────────────────────────────────────────────────────────────

/// Any OPTIONS request is a CORS preflight, whatever its path; any method other than
/// GET and OPTIONS is refused; GET on the four endpoints picks them, and GET on any
/// other path is unknown.
pub proof fn law_routing(path: Seq<char>)
    ensures
        endpoint_for(RequestMethod::Options, path) == Endpoint::Preflight,
        endpoint_for(RequestMethod::Other, path) == Endpoint::MethodNotAllowed,
        endpoint_for(RequestMethod::Get, "/geocode"@) == Endpoint::Geocode,
        endpoint_for(RequestMethod::Get, "/reverse"@) == Endpoint::Reverse,
        endpoint_for(RequestMethod::Get, "/route"@) == Endpoint::Route,
        endpoint_for(RequestMethod::Get, "/health"@) == Endpoint::Health,
        path != "/geocode"@ && path != "/reverse"@ && path != "/route"@ && path != "/health"@
            ==> endpoint_for(RequestMethod::Get, path) == Endpoint::UnknownPath,
{
    reveal_strlit("/geocode");
    reveal_strlit("/reverse");
    reveal_strlit("/route");
    reveal_strlit("/health");
    assert("/reverse"@[1] != "/geocode"@[1]);
    assert("/route"@.len() != "/geocode"@.len());
    assert("/route"@.len() != "/reverse"@.len());
    assert("/health"@[1] != "/geocode"@[1]);
    assert("/health"@[1] != "/reverse"@[1]);
    assert("/health"@.len() != "/route"@.len());
}

// ── Hexadecimal escapes ────────────────────────────────────────────────────

/// The ASCII hexadecimal digit for `n < 16`, upper- or lower-case.
pub open spec fn hex_digit_char(n: int, upper: bool) -> u8 {
    if n < 10 {
        (48 + n) as u8
    } else if upper {
        (55 + n) as u8
    } else {
        (87 + n) as u8
    }
}

/// `%` followed by the two hexadecimal digits of a byte, in either case for each
/// digit, decodes to that byte, and decoding goes on right after the escape.
pub proof fn law_hex_escape_decodes(b: u8, upper_high: bool, upper_low: bool, rest: Seq<u8>)
    ensures
        percent_decode(
            seq![37u8, hex_digit_char(b as int / 16, upper_high), hex_digit_char(b as int % 16, upper_low)]
                + rest,
        ) == seq![b] + percent_decode(rest),
{
    let e = seq![37u8, hex_digit_char(b as int / 16, upper_high), hex_digit_char(b as int % 16, upper_low)]
        + rest;
    let h = b / 16;
    let l = b % 16;
    assert(h * 16 + l == b) by (nonlinear_arith)
        requires
            h == b / 16,
            l == b % 16,
    ;
    assert(e[0] == 37u8 && e[1] == hex_digit_char(h as int, upper_high) && e[2] == hex_digit_char(
        l as int,
        upper_low,
    ));
    assert(e.subrange(3, e.len() as int) =~= rest);
}

// ── The result limit ───────────────────────────────────────────────────────

proof fn lemma_decimal_digits_value(n: nat)
    ensures
        all_digits(decimal_digits(n)),
        decimal_value(decimal_digits(n)) == n,
        decimal_digits(n)[0] != 43,
    decreases n,
{
    lemma_decimal_digits_ascii(n);
    let d = decimal_digits(n);
    if n >= 10 {
        lemma_decimal_digits_value(n / 10);
        let p = decimal_digits(n / 10);
        assert(d.drop_last() =~= p);
        assert(d[0] == p[0]);
        let q = n / 10;
        let r = n % 10;
        assert(q * 10 + r == n) by (nonlinear_arith)
            requires
                q == n / 10,
                r == n % 10,
        ;
        assert(d.last() == (48 + r) as u8);
        assert(decimal_value(d) == decimal_value(p) * 10 + (d.last() - 48) as nat);
        assert forall|i: int| 0 <= i < d.len() implies 48 <= #[trigger] d[i] <= 57 by {
            if i < p.len() {
                assert(d[i] == p[i]);
            }
        }
    } else {
        assert(d.drop_last() =~= Seq::<u8>::empty());
        assert(decimal_value(d) == decimal_value(d.drop_last()) * 10 + (d.last() - 48) as nat);
    }
}

/// A limit written in decimal is kept when it is between 1 and 10, raised to 1 when
/// it is 0 and lowered to 10 when it is above 10; without a limit, 5 results.
pub proof fn law_limit_clamps(n: u8)
    ensures
        1 <= n <= 10 ==> result_limit(Some(decimal(n as nat))) == n,
        n == 0 ==> result_limit(Some(decimal(n as nat))) == 1,
        n > 10 ==> result_limit(Some(decimal(n as nat))) == 10,
        result_limit(None) == 5,
{
    let d = decimal_digits(n as nat);
    lemma_decimal_digits_value(n as nat);
    lemma_ascii_utf8(d);
    assert(encode_utf8(decimal(n as nat)) == d);
    assert(parsed_u8(d) == Some(n));
}

// ── Trailing slashes ───────────────────────────────────────────────────────

/// Trimming takes off exactly the trailing `/` characters: what is left is a prefix
/// of the text that does not end in `/`, and everything after it is `/`; the route
/// URL is that prefix, one `/`, the coordinates and the fixed options.
pub proof fn law_route_url_trims_trailing_slashes(base: Seq<char>, coords: Seq<char>)
    ensures
        ({
            let t = trim_end_slashes(base);
            &&& t.len() <= base.len()
            &&& t == base.subrange(0, t.len() as int)
            &&& t.len() == 0 || t.last() != '/'
            &&& forall|i: int| t.len() <= i < base.len() ==> base[i] == '/'
            &&& route_url_text(base, coords) == t + "/"@ + coords
                + "?overview=false&alternatives=false&steps=false"@
        }),
    decreases base.len(),
{
    if base.len() > 0 && base.last() == '/' {
        law_route_url_trims_trailing_slashes(base.drop_last(), coords);
        let t = trim_end_slashes(base);
        assert(t == trim_end_slashes(base.drop_last()));
        assert(base.drop_last().subrange(0, t.len() as int) =~= base.subrange(0, t.len() as int));
        assert forall|i: int| t.len() <= i < base.len() implies base[i] == '/' by {
            if i < base.len() - 1 {
                assert(base[i] == base.drop_last()[i]);
            }
        }
    } else {
        assert(base.subrange(0, base.len() as int) =~= base);
    }
}

} // verus!
