//! Client library for a remote systems-management REST API.
//!
//! The heart of the crate is the request-signing protocol: a parameter set
//! is canonicalized in ascending key order with a custom percent-encoding,
//! folded into a four-line string-to-sign, and authenticated with
//! HMAC-SHA256 under a shared secret.  Everything up to the network call is
//! verified; the HTTP transport and JSON decoding live outside this crate.

use vstd::prelude::*;

mod api;
mod encoding;
mod params;
mod signer;
mod strutil;

verus! {

pub use api::Api;
pub use api::ApiError;
pub use api::Computer;
pub use api::Creator;
pub use api::Script;
pub use api::ScriptExec;
pub use encoding::encode_rfc3986;
pub use params::canonical_query;
pub use params::ParamSet;
pub use signer::create_signature;

} // verus!
