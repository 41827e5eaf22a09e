use cardapio_geo_api::geocode::{blank, limit_param, parse_u8, search_params, search_url, urlencode};
use cardapio_geo_api::helpers::{parse_qs, url_decode};
use cardapio_geo_api::ApiError;

#[test]
fn urlencode_keeps_unreserved() {
    assert_eq!(urlencode("Abc-_.~,09"), "Abc-_.~,09");
}

#[test]
fn urlencode_space_and_specials() {
    assert_eq!(urlencode("Rua X, Arapiraca"), "Rua+X,+Arapiraca");
    assert_eq!(urlencode("a&b=c+d%"), "a%26b%3Dc%2Bd%25");
}

#[test]
fn urlencode_multibyte() {
    assert_eq!(urlencode("São João"), "S%C3%A3o+Jo%C3%A3o");
    assert_eq!(urlencode("€"), "%E2%82%AC");
}

#[test]
fn urlencode_viewbox() {
    assert_eq!(urlencode("-38.24,-10.5,-35.09,-8.8"), "-38.24,-10.5,-35.09,-8.8");
}

#[test]
fn decode_inverts_encode() {
    for s in ["Rua São João, Arapiraca", "a+b%c&d=e", "€ 100%", "", "日本"] {
        assert_eq!(url_decode(&urlencode(s)), s);
    }
}

#[test]
fn encoded_pair_parses_back() {
    let (k, v) = ("chave é", "valor&=+%");
    let q = format!("{}={}", urlencode(k), urlencode(v));
    let qs = parse_qs(&q);
    assert_eq!(qs.len(), 1);
    assert_eq!(qs.get(k).unwrap(), v);
}

#[test]
fn blank_texts() {
    assert!(blank(""));
    assert!(blank("  \t\n"));
    assert!(blank("\u{a0}\u{3000}"));
    assert!(!blank(" x "));
}

#[test]
fn parse_u8_like_std() {
    for s in ["", "+", "-", "0", "7", "+7", "007", "255", "256", "-1", "1a", " 1", "++1", "+255", "9999"] {
        assert_eq!(parse_u8(s), s.parse::<u8>().ok(), "input {:?}", s);
    }
}

#[test]
fn limit_defaults_and_clamps() {
    assert_eq!(limit_param(&parse_qs("q=x")), 5);
    assert_eq!(limit_param(&parse_qs("limit=3")), 3);
    assert_eq!(limit_param(&parse_qs("limit=0")), 1);
    assert_eq!(limit_param(&parse_qs("limit=50")), 10);
    assert_eq!(limit_param(&parse_qs("limit=300")), 5);
    assert_eq!(limit_param(&parse_qs("limit=abc")), 5);
}

#[test]
fn search_params_need_text() {
    let p = search_params(&parse_qs("q=Maceio&limit=3")).unwrap();
    assert_eq!(p.q, "Maceio");
    assert_eq!(p.limit, 3);
    for q in ["", "limit=3", "q=", "q=+++"] {
        match search_params(&parse_qs(q)) {
            Err(ApiError::BadRequest(m)) => assert_eq!(m, "parâmetro 'q' ausente ou vazio"),
            _ => panic!("expected a bad request for {:?}", q),
        }
    }
}

#[test]
fn search_url_format() {
    assert_eq!(
        search_url("Rua São João, Arapiraca", 5, "-38.24,-10.5,-35.09,-8.8"),
        "https://nominatim.openstreetmap.org/search?q=Rua+S%C3%A3o+Jo%C3%A3o,+Arapiraca&format=jsonv2&addressdetails=1&limit=5&countrycodes=br&viewbox=-38.24,-10.5,-35.09,-8.8&bounded=0&accept-language=pt-BR,pt,en"
    );
}
