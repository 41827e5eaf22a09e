use serde_json::Value;
use cardapio_geo_api::dispatch::{
    endpoint, method_not_allowed, respond, split_target, Endpoint, RequestMethod,
};
use cardapio_geo_api::helpers::json_ok;
use cardapio_geo_api::reverse::reverse_reply_check;
use cardapio_geo_api::route::{check_route_code, out_of_range_reply, route_plan, route_url, RoutePlan};
use cardapio_geo_api::text::decimal_string;
use cardapio_geo_api::upstream::{body_text, check_status};
use cardapio_geo_api::ApiError;

#[test]
fn status_200_only() {
    assert!(check_status("nominatim", 200).is_ok());
    match check_status("nominatim", 503) {
        Err(ApiError::BadGateway { service, message }) => {
            assert_eq!(service, "nominatim");
            assert_eq!(message, "status HTTP 503");
        }
        _ => panic!("expected a bad gateway"),
    }
}

#[test]
fn body_must_be_utf8() {
    assert_eq!(body_text("OSRM", "{\"code\":\"Ok\"}".as_bytes()).unwrap(), "{\"code\":\"Ok\"}");
    match body_text("Nominatim", &[0x7b, 0xff]) {
        Err(ApiError::Internal(m)) => assert_eq!(m, "resposta do Nominatim não é UTF-8"),
        _ => panic!("expected an internal error"),
    }
}

#[test]
fn decimal_strings() {
    assert_eq!(decimal_string(0), "0");
    assert_eq!(decimal_string(404), "404");
    assert_eq!(decimal_string(u64::MAX), u64::MAX.to_string());
}

#[test]
fn route_url_trims_base() {
    let coords = "-35.735,-9.6658;-36.6613,-9.7522";
    let expected = "http://osrm:5000/route/v1/driving/-35.735,-9.6658;-36.6613,-9.7522?overview=false&alternatives=false&steps=false";
    assert_eq!(route_url("http://osrm:5000/route/v1/driving//", coords), expected);
    assert_eq!(route_url("http://osrm:5000/route/v1/driving", coords), expected);
    assert_eq!(route_url("", "a"), "/a?overview=false&alternatives=false&steps=false");
}

#[test]
fn route_code_check() {
    assert!(check_route_code("Ok", None).is_ok());
    match check_route_code("NoRoute", Some("Impossible route")) {
        Err(e) => assert_eq!(e.message(), "upstream osrm falhou: código de erro: Impossible route"),
        Ok(_) => panic!("expected an error"),
    }
    match check_route_code("", None) {
        Err(ApiError::BadGateway { message, .. }) => assert_eq!(message, "código de erro: "),
        _ => panic!("expected an error"),
    }
}

#[test]
fn route_plans() {
    match route_plan(false, true) {
        Err(ApiError::UnprocessableEntity(m)) => {
            assert_eq!(m, "origem está fora da região operacional (Alagoas e limítrofes)")
        }
        _ => panic!("expected 422"),
    }
    assert!(matches!(route_plan(true, false), Ok(RoutePlan::OutOfRange)));
    assert!(matches!(route_plan(true, true), Ok(RoutePlan::Fetch)));
}

#[test]
fn targets_split() {
    assert_eq!(split_target("/geocode?q=x&limit=2"), ("/geocode", "q=x&limit=2"));
    assert_eq!(split_target("/health"), ("/health", ""));
    assert_eq!(split_target("http://localhost:3000/route?a=1?b"), ("/route", "a=1?b"));
    assert_eq!(split_target("https://example.org"), ("/", ""));
    assert_eq!(split_target("https://example.org?x=1"), ("/", ""));
    assert_eq!(split_target("http://h/ção?ü=1"), ("/ção", "ü=1"));
}

#[test]
fn routing() {
    assert_eq!(endpoint(RequestMethod::Options, "/anything"), Endpoint::Preflight);
    assert_eq!(endpoint(RequestMethod::Other, "/geocode"), Endpoint::MethodNotAllowed);
    assert_eq!(endpoint(RequestMethod::Get, "/geocode"), Endpoint::Geocode);
    assert_eq!(endpoint(RequestMethod::Get, "/reverse"), Endpoint::Reverse);
    assert_eq!(endpoint(RequestMethod::Get, "/route"), Endpoint::Route);
    assert_eq!(endpoint(RequestMethod::Get, "/health"), Endpoint::Health);
    assert_eq!(endpoint(RequestMethod::Get, "/geocode/"), Endpoint::UnknownPath);
}

#[test]
fn method_not_allowed_reply() {
    let r = method_not_allowed();
    assert_eq!(r.status, 405);
    assert_eq!(r.body, "{\"error\":true,\"message\":\"método não permitido — use GET\"}");
}

#[test]
fn respond_passes_or_converts() {
    let ok = respond(Ok(json_ok("{}".to_string())));
    assert_eq!(ok.status, 200);
    assert_eq!(ok.body, "{}");
    let err = respond(Err(ApiError::not_found("endereço não encontrado para essas coordenadas")));
    assert_eq!(err.status, 404);
    assert_eq!(
        err.body,
        "{\"error\":true,\"message\":\"endereço não encontrado para essas coordenadas\"}"
    );
}

#[test]
fn reverse_error_key_is_not_found() {
    assert!(reverse_reply_check(false).is_ok());
    match reverse_reply_check(true) {
        Err(ApiError::NotFound(m)) => assert_eq!(m, "endereço não encontrado para essas coordenadas"),
        _ => panic!("expected a 404"),
    }
}

#[test]
fn out_of_range_reply_matches_json_document() {
    let mut m = serde_json::Map::new();
    m.insert("ok".to_string(), Value::Bool(false));
    m.insert("out_of_range".to_string(), Value::Bool(true));
    m.insert("within_alagoas".to_string(), Value::Bool(false));
    m.insert("within_region".to_string(), Value::Bool(false));
    m.insert("distance_km".to_string(), Value::Null);
    m.insert("duration_min".to_string(), Value::Null);
    m.insert("routes".to_string(), Value::Array(Vec::new()));
    m.insert("message".to_string(), Value::String("destino fora da área de entrega".to_string()));
    let expected = serde_json::to_string(&Value::Object(m)).unwrap();
    let r = out_of_range_reply();
    assert_eq!(r.status, 200);
    assert_eq!(r.body, expected);
    assert_eq!(r.headers.len(), 5);
}
