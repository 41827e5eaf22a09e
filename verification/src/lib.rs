//! Geocoding and routing API for the state of Alagoas (Brazil): the verified core.
//!
//! The request handling logic (query-string decoding, parameter checks, error
//! classification, response construction, request routing and the decisions taken
//! on upstream replies) lives here with its contracts. Network I/O, the Spin runtime
//! glue and floating-point coordinate work live in the accompanying application crate.

pub mod errors;
pub mod text;
pub mod json;
pub mod reply;
pub mod helpers;
pub mod geocode;
pub mod upstream;
pub mod reverse;
pub mod route;
pub mod dispatch;
pub mod laws;

pub use errors::ApiError;
