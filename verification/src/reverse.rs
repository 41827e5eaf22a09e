use vstd::prelude::*;

use crate::errors::ApiError;

verus! {

/// The message when Nominatim has no address for the coordinates.
pub open spec fn no_address_message() -> Seq<char> {
    "endereço não encontrado para essas coordenadas"@
}

/// Nominatim answers a document with an `error` key for coordinates without an
/// address; that answer is a 404, any other is used.
pub fn reverse_reply_check(has_error_key: bool) -> (r: Result<(), ApiError>)
    ensures
        r is Ok <==> !has_error_key,
        r matches Err(e) ==> e is NotFound && e->NotFound_0@ == no_address_message(),
{
    if has_error_key {
        return Err(ApiError::not_found("endereço não encontrado para essas coordenadas"));
    }
    Ok(())
}

} // verus!
