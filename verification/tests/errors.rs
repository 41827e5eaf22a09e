use cardapio_geo_api::ApiError;

#[test]
fn status_per_kind() {
    assert_eq!(ApiError::bad_request("x").status(), 400);
    assert_eq!(ApiError::not_found("x").status(), 404);
    assert_eq!(ApiError::unprocessable("x").status(), 422);
    assert_eq!(ApiError::bad_gateway("osrm", "x").status(), 502);
    assert_eq!(ApiError::Internal("x".to_string()).status(), 500);
}

#[test]
fn only_5xx_are_server_errors() {
    assert!(!ApiError::bad_request("x").is_server_error());
    assert!(!ApiError::not_found("x").is_server_error());
    assert!(!ApiError::unprocessable("x").is_server_error());
    assert!(ApiError::bad_gateway("nominatim", "x").is_server_error());
    assert!(ApiError::Internal("x".to_string()).is_server_error());
}

#[test]
fn messages() {
    assert_eq!(ApiError::bad_request("parâmetro 'q' ausente").message(), "parâmetro 'q' ausente");
    assert_eq!(
        ApiError::bad_gateway("nominatim", "status HTTP 503").message(),
        "upstream nominatim falhou: status HTTP 503"
    );
    assert_eq!(
        ApiError::Internal("resposta do OSRM inválida".to_string()).message(),
        "erro interno: resposta do OSRM inválida"
    );
}

#[test]
fn constructors_keep_text() {
    match ApiError::bad_gateway("osrm", "boom") {
        ApiError::BadGateway { service, message } => {
            assert_eq!(service, "osrm");
            assert_eq!(message, "boom");
        }
        other => panic!("unexpected {:?}", other),
    }
    assert!(matches!(ApiError::unprocessable("u"), ApiError::UnprocessableEntity(m) if m == "u"));
    assert!(matches!(ApiError::not_found("n"), ApiError::NotFound(m) if m == "n"));
    assert!(matches!(ApiError::bad_request("b"), ApiError::BadRequest(m) if m == "b"));
}

#[test]
fn error_reply_is_json_with_status() {
    let r = ApiError::bad_gateway("osrm", "status HTTP 500").to_reply();
    assert_eq!(r.status, 502);
    assert_eq!(r.body, "{\"error\":true,\"message\":\"upstream osrm falhou: status HTTP 500\"}");
    let r = ApiError::bad_request("parâmetro 'lat' ausente").to_reply();
    assert_eq!(r.status, 400);
    assert_eq!(r.body, "{\"error\":true,\"message\":\"parâmetro 'lat' ausente\"}");
}
