use cardapio_geo_api::helpers::{
    cors_preflight, error_json, health, invalid_param, json_ok, not_found, parse_qs, require_str,
    url_decode,
};

// ── url_decode ──────────────────────────────────────────────────────────────

#[test]
fn url_decode_plain_ascii() {
    assert_eq!(url_decode("Arapiraca"), "Arapiraca");
}

#[test]
fn url_decode_plus_as_space() {
    assert_eq!(url_decode("Rua+das+Flores"), "Rua das Flores");
}

#[test]
fn url_decode_percent_ascii() {
    assert_eq!(url_decode("al%3Dmaceio"), "al=maceio");
}

#[test]
fn url_decode_utf8_multibyte() {
    // %C3%A7 = ç (U+00E7, two UTF-8 bytes)
    assert_eq!(url_decode("Ara%C3%A7atuba"), "Araçatuba");
}

#[test]
fn url_decode_mixed() {
    assert_eq!(url_decode("Rua+S%C3%A3o+Jo%C3%A3o"), "Rua São João");
}

#[test]
fn url_decode_invalid_percent_passthrough() {
    // a % without two valid hex digits stays a %
    assert_eq!(url_decode("test%ZZend"), "test%ZZend");
}

#[test]
fn url_decode_percent_near_end_is_kept() {
    assert_eq!(url_decode("50%"), "50%");
    assert_eq!(url_decode("50%4"), "50%4");
}

#[test]
fn url_decode_plus_is_not_a_hex_digit() {
    // "+4" is not two hex digits: the % is kept and the + becomes a space
    assert_eq!(url_decode("a%+4b"), "a% 4b");
    assert_eq!(url_decode("%+5"), "% 5");
}

#[test]
fn url_decode_percent_before_multibyte_character() {
    assert_eq!(url_decode("%aé"), "%aé");
    assert_eq!(url_decode("%€"), "%€");
    assert_eq!(url_decode("%é"), "%é");
}

#[test]
fn url_decode_lower_case_hex() {
    assert_eq!(url_decode("%c3%a7"), "ç");
}

#[test]
fn url_decode_invalid_utf8_is_replaced() {
    assert_eq!(url_decode("a%FFb"), "a\u{FFFD}b");
}

// ── parse_qs ────────────────────────────────────────────────────────────────

#[test]
fn parse_qs_basic() {
    let qs = parse_qs("q=Arapiraca&limit=3");
    assert_eq!(qs.get("q").unwrap(), "Arapiraca");
    assert_eq!(qs.get("limit").unwrap(), "3");
}

#[test]
fn parse_qs_empty_string() {
    assert!(parse_qs("").is_empty());
}

#[test]
fn parse_qs_key_without_value() {
    let qs = parse_qs("foo=&bar=baz");
    assert_eq!(qs.get("foo").unwrap(), "");
    assert_eq!(qs.get("bar").unwrap(), "baz");
}

#[test]
fn parse_qs_decodes_values() {
    let qs = parse_qs("q=S%C3%A3o+Paulo");
    assert_eq!(qs.get("q").unwrap(), "São Paulo");
}

#[test]
fn parse_qs_last_value_wins() {
    let qs = parse_qs("a=1&a=2");
    assert_eq!(qs.len(), 1);
    assert_eq!(qs.get("a").unwrap(), "2");
}

#[test]
fn parse_qs_piece_without_equals() {
    let qs = parse_qs("flag&x=1=2");
    assert_eq!(qs.get("flag").unwrap(), "");
    assert_eq!(qs.get("x").unwrap(), "1=2");
}

#[test]
fn parse_qs_empty_pieces() {
    let qs = parse_qs("&");
    assert_eq!(qs.len(), 1);
    assert_eq!(qs.get("").unwrap(), "");
}

#[test]
fn parse_qs_decodes_keys() {
    let qs = parse_qs("from%5Flat=-9.6");
    assert_eq!(qs.get("from_lat").unwrap(), "-9.6");
}

#[test]
fn parse_qs_percent_before_multibyte_character() {
    let qs = parse_qs("q=%aé&x=%€");
    assert_eq!(qs.get("q").unwrap(), "%aé");
    assert_eq!(qs.get("x").unwrap(), "%€");
}

// ── require_str ─────────────────────────────────────────────────────────────

#[test]
fn require_str_present() {
    let qs = parse_qs("q=Macei%C3%B3");
    assert_eq!(require_str(&qs, "q").unwrap(), "Maceió");
}

#[test]
fn require_str_missing_is_err() {
    let qs = parse_qs("q=x");
    assert_eq!(require_str(&qs, "lat").unwrap_err(), "parâmetro 'lat' ausente");
}

#[test]
fn invalid_param_message_names_key_and_value() {
    assert_eq!(invalid_param("lat", "abc"), "parâmetro 'lat' inválido: 'abc'");
}

// ── reply builders ──────────────────────────────────────────────────────────

fn header<'a>(headers: &'a [(String, String)], name: &str) -> Option<&'a str> {
    headers.iter().find(|(n, _)| n == name).map(|(_, v)| v.as_str())
}

#[test]
fn json_ok_has_cors_and_cache() {
    let r = json_ok("[]".to_string());
    assert_eq!(r.status, 200);
    assert_eq!(r.body, "[]");
    assert_eq!(header(&r.headers, "content-type"), Some("application/json; charset=utf-8"));
    assert_eq!(header(&r.headers, "access-control-allow-origin"), Some("*"));
    assert_eq!(header(&r.headers, "access-control-allow-methods"), Some("GET, OPTIONS"));
    assert_eq!(header(&r.headers, "access-control-allow-headers"), Some("Content-Type"));
    assert_eq!(header(&r.headers, "cache-control"), Some("public, max-age=300"));
    assert_eq!(r.headers.len(), 5);
}

#[test]
fn error_json_escapes_message() {
    let r = error_json(400, "diz \"oi\"\n\\ \u{1}");
    assert_eq!(r.status, 400);
    assert_eq!(r.body, r#"{"error":true,"message":"diz \"oi\"\n\\ \u0001"}"#);
    assert_eq!(header(&r.headers, "content-type"), Some("application/json; charset=utf-8"));
    assert_eq!(header(&r.headers, "access-control-allow-origin"), Some("*"));
    assert_eq!(r.headers.len(), 2);
}

#[test]
fn error_json_keeps_non_ascii() {
    let r = error_json(422, "região/área");
    assert_eq!(r.body, "{\"error\":true,\"message\":\"região/área\"}");
}

#[test]
fn cors_preflight_reply() {
    let r = cors_preflight();
    assert_eq!(r.status, 204);
    assert_eq!(r.body, "");
    assert_eq!(header(&r.headers, "access-control-allow-origin"), Some("*"));
    assert_eq!(header(&r.headers, "access-control-max-age"), Some("86400"));
    assert_eq!(header(&r.headers, "content-type"), None);
}

#[test]
fn health_reply() {
    let r = health();
    assert_eq!(r.status, 200);
    assert_eq!(
        r.body,
        r#"{"status":"ok","region":"Alagoas, BR","version":"0.1.0","endpoints":["/geocode","/reverse","/route","/health"]}"#
    );
}

#[test]
fn not_found_names_path() {
    let r = not_found("/xyz");
    assert_eq!(r.status, 404);
    assert_eq!(
        r.body,
        "{\"error\":true,\"message\":\"rota '/xyz' não encontrada. Endpoints: /geocode /reverse /route /health\"}"
    );
}
