use vstd::prelude::*;
use vstd::string::StringExecFns;
use vstd::utf8::*;

use crate::errors::ApiError;
use crate::text::{decimal, decimal_string, str_from_utf8};

verus! {

/// The message for an upstream reply whose status is not 200.
pub open spec fn bad_status_message(status: u16) -> Seq<char> {
    "status HTTP "@ + decimal(status as nat)
}

/// An upstream reply is used only when its status is 200; any other status is a
/// bad-gateway error naming the service and the status.
pub fn check_status(service: &'static str, status: u16) -> (r: Result<(), ApiError>)
    ensures
        r is Ok <==> status == 200,
        r matches Err(e) ==> e matches ApiError::BadGateway { service: s, message: m } && s
            == service && m@ == bad_status_message(status),
{
    if status != 200 {
        let mut m = String::from_str("status HTTP ");
        m.append(decimal_string(status as u64).as_str());
        return Err(ApiError::bad_gateway(service, m.as_str()));
    }
    Ok(())
}

/// The message for an upstream body that is not UTF-8.
pub open spec fn not_utf8_message(label: Seq<char>) -> Seq<char> {
    "resposta do "@ + label + " não é UTF-8"@
}

/// The text of an upstream body, which must be well-formed UTF-8; otherwise an
/// internal error that names the service.
pub fn body_text(label: &str, body: &[u8]) -> (r: Result<String, ApiError>)
    ensures
        r is Ok <==> valid_utf8(body@),
        r matches Ok(t) ==> t@ == decode_utf8(body@),
        r matches Err(e) ==> e is Internal && e->Internal_0@ == not_utf8_message(label@),
{
    match str_from_utf8(body) {
        Some(t) => Ok(t.to_owned()),
        None => {
            let mut m = String::from_str("resposta do ");
            m.append(label);
            m.append(" não é UTF-8");
            Err(ApiError::Internal(m))
        },
    }
}

} // verus!
