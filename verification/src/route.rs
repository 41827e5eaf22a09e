use vstd::prelude::*;
use vstd::string::{StrSliceExecFns, StringExecFns};

use crate::errors::ApiError;
use crate::helpers::{json_ok, json_ok_headers};
use crate::reply::{Reply, ReplyView};
use crate::text::str_eq;

verus! {

/// The text without its trailing `/` characters.
pub open spec fn trim_end_slashes(s: Seq<char>) -> Seq<char>
    decreases s.len(),
{
    if s.len() > 0 && s.last() == '/' {
        trim_end_slashes(s.drop_last())
    } else {
        s
    }
}

/// The OSRM route URL for a base URL and the coordinate list `lng,lat;lng,lat`.
pub open spec fn route_url_text(base: Seq<char>, coords: Seq<char>) -> Seq<char> {
    trim_end_slashes(base) + "/"@ + coords + "?overview=false&alternatives=false&steps=false"@
}

/// Builds the OSRM route URL: the base without trailing slashes, the coordinates
/// (longitude before latitude), and no overview, alternatives or steps.
pub fn route_url(base: &str, coords: &str) -> (r: String)
    ensures
        r@ == route_url_text(base@, coords@),
{
    let n = base.unicode_len();
    let mut k = n;
    assert(base@.subrange(0, n as int) =~= base@);
    while k > 0 && base.get_char(k - 1) == '/'
        invariant
            n == base@.len(),
            k <= n,
            trim_end_slashes(base@.subrange(0, k as int)) == trim_end_slashes(base@),
        decreases k,
    {
        assert(base@.subrange(0, k as int).drop_last() =~= base@.subrange(0, k - 1));
        k = k - 1;
    }
    let mut url = String::from_str(base.substring_char(0, k));
    url.append("/");
    url.append(coords);
    url.append("?overview=false&alternatives=false&steps=false");
    url
}

/// The message when OSRM answers with an error code: its message, else the code.
pub open spec fn osrm_error_message(code: Seq<char>, message: Option<Seq<char>>) -> Seq<char> {
    "código de erro: "@ + match message {
        Some(m) => m,
        None => code,
    }
}

/// OSRM's reply is used only when its `code` is `Ok`; otherwise a bad-gateway error.
pub fn check_route_code(code: &str, message: Option<&str>) -> (r: Result<(), ApiError>)
    ensures
        r is Ok <==> code@ == "Ok"@,
        r matches Err(e) ==> e matches ApiError::BadGateway { service: s, message: m } && s@
            == "osrm"@ && m@ == osrm_error_message(
            code@,
            match message {
                Some(m) => Some(m@),
                None => None,
            },
        ),
{
    if str_eq(code, "Ok") {
        return Ok(());
    }
    let mut m = String::from_str("código de erro: ");
    match message {
        Some(t) => m.append(t),
        None => m.append(code),
    }
    Err(ApiError::bad_gateway("osrm", m.as_str()))
}


/// What to do with a route request once both ends are placed.
#[derive(Debug, Clone, Copy, PartialEq, Eq, Structural)]
pub enum RoutePlan {
    /// The destination is outside the delivery area: answer `out_of_range` (HTTP 200).
    OutOfRange,
    /// Both ends are in the region: ask OSRM for the route.
    Fetch,
}

/// The message when the origin is outside the region.
pub open spec fn origin_outside_message() -> Seq<char> {
    "origem está fora da região operacional (Alagoas e limítrofes)"@
}

/// An origin outside the operating region is refused (HTTP 422); a destination
/// outside it is a business answer, not an HTTP error; otherwise the route is fetched.
pub fn route_plan(origin_in_region: bool, destination_in_region: bool) -> (r: Result<
    RoutePlan,
    ApiError,
>)
    ensures
        !origin_in_region ==> (r matches Err(e) && e is UnprocessableEntity
            && e->UnprocessableEntity_0@ == origin_outside_message()),
        origin_in_region && !destination_in_region ==> r == Ok::<RoutePlan, ApiError>(
            RoutePlan::OutOfRange,
        ),
        origin_in_region && destination_in_region ==> r == Ok::<RoutePlan, ApiError>(
            RoutePlan::Fetch,
        ),
{
    if !origin_in_region {
        return Err(
            ApiError::unprocessable("origem está fora da região operacional (Alagoas e limítrofes)"),
        );
    }
    if !destination_in_region {
        return Ok(RoutePlan::OutOfRange);
    }
    Ok(RoutePlan::Fetch)
}


/// The body of the answer for a destination outside the delivery area (the JSON
/// object with its keys in order).
pub open spec fn out_of_range_body() -> Seq<char> {
    "{\"distance_km\":null,\"duration_min\":null,\"message\":\"destino fora da área de entrega\",\"ok\":false,\"out_of_range\":true,\"routes\":[],\"within_alagoas\":false,\"within_region\":false}"@
}

/// The 200 answer for a destination outside the delivery area: no distance, no
/// duration, no routes, and `out_of_range` set.
pub fn out_of_range_reply() -> (r: Reply)
    ensures
        r@ == (ReplyView { status: 200, headers: json_ok_headers(), body: out_of_range_body() }),
{
    json_ok(
        "{\"distance_km\":null,\"duration_min\":null,\"message\":\"destino fora da área de entrega\",\"ok\":false,\"out_of_range\":true,\"routes\":[],\"within_alagoas\":false,\"within_region\":false}".to_owned(),
    )
}

} // verus!
