use vstd::prelude::*;
use vstd::string::StringExecFns;

use crate::helpers::{error_body, error_headers, error_json};
use crate::reply::{Reply, ReplyView};

verus! {

/// Centralised error type of the API.
///
/// Every handler returns it; it is turned into a JSON reply before it leaves the
/// component, so no unhandled error ever reaches the runtime.
#[derive(Debug)]
pub enum ApiError {
    /// Missing or invalid parameter (HTTP 400).
    BadRequest(String),
    /// Coordinate outside the operating region (HTTP 422).
    UnprocessableEntity(String),
    /// Resource not found (HTTP 404).
    NotFound(String),
    /// The upstream service (Nominatim or OSRM) failed (HTTP 502).
    BadGateway { service: &'static str, message: String },
    /// Unexpected internal error, carrying its description (HTTP 500).
    Internal(String),
}

impl ApiError {
    /// The HTTP status that each kind of error is answered with.
    pub open spec fn spec_status(&self) -> u16 {
        match self {
            ApiError::BadRequest(_) => 400,
            ApiError::NotFound(_) => 404,
            ApiError::UnprocessableEntity(_) => 422,
            ApiError::BadGateway { .. } => 502,
            ApiError::Internal(_) => 500,
        }
    }

    /// The human-readable description of the error (what the error displays as).
    pub open spec fn spec_message(&self) -> Seq<char> {
        match self {
            ApiError::BadRequest(m) => m@,
            ApiError::UnprocessableEntity(m) => m@,
            ApiError::NotFound(m) => m@,
            ApiError::BadGateway { service, message } =>
                "upstream "@ + service@ + " falhou: "@ + message@,
            ApiError::Internal(m) => "erro interno: "@ + m@,
        }
    }

    /// True for the errors that are the server's fault (5xx); those deserve a log line.
    pub open spec fn spec_is_server_error(&self) -> bool {
        self.spec_status() >= 500
    }

    /// The HTTP status of the error.
    pub fn status(&self) -> (r: u16)
        ensures
            r == self.spec_status(),
    {
        match self {
            ApiError::BadRequest(_) => 400,
            ApiError::NotFound(_) => 404,
            ApiError::UnprocessableEntity(_) => 422,
            ApiError::BadGateway { .. } => 502,
            ApiError::Internal(_) => 500,
        }
    }

    /// Server errors deserve a log line; client errors (4xx) do not.
    pub fn is_server_error(&self) -> (r: bool)
        ensures
            r == self.spec_is_server_error(),
            r <==> (self is BadGateway || self is Internal),
    {
        self.status() >= 500
    }

    /// The text the error displays as.
    pub fn message(&self) -> (r: String)
        ensures
            r@ == self.spec_message(),
    {
        match self {
            ApiError::BadRequest(m) => m.clone(),
            ApiError::UnprocessableEntity(m) => m.clone(),
            ApiError::NotFound(m) => m.clone(),
            ApiError::BadGateway { service, message } => {
                let mut s = String::from_str("upstream ");
                s.append(service);
                s.append(" falhou: ");
                s.append(message.as_str());
                s
            },
            ApiError::Internal(m) => {
                let mut s = String::from_str("erro interno: ");
                s.append(m.as_str());
                s
            },
        }
    }

    /// An upstream failure of `service`.
    pub fn bad_gateway(service: &'static str, msg: &str) -> (r: Self)
        ensures
            r matches ApiError::BadGateway { service: s, message: m } && s == service && m@ == msg@,
    {
        ApiError::BadGateway { service, message: msg.to_owned() }
    }

    /// The JSON error reply that answers this error: its status, and its text as the
    /// message.
    pub fn to_reply(&self) -> (r: Reply)
        ensures
            r@ == (ReplyView {
                status: self.spec_status(),
                headers: error_headers(),
                body: error_body(self.spec_message()),
            }),
    {
        let m = self.message();
        error_json(self.status(), m.as_str())
    }

    /// A missing or invalid parameter.
    pub fn bad_request(msg: &str) -> (r: Self)
        ensures
            r is BadRequest,
            r->BadRequest_0@ == msg@,
    {
        ApiError::BadRequest(msg.to_owned())
    }

    /// A coordinate outside the operating region.
    pub fn unprocessable(msg: &str) -> (r: Self)
        ensures
            r is UnprocessableEntity,
            r->UnprocessableEntity_0@ == msg@,
    {
        ApiError::UnprocessableEntity(msg.to_owned())
    }

    /// Nothing found.
    pub fn not_found(msg: &str) -> (r: Self)
        ensures
            r is NotFound,
            r->NotFound_0@ == msg@,
    {
        ApiError::NotFound(msg.to_owned())
    }
}

} // verus!
