//! The signature over a canonicalized request.
//!
//! The string-to-sign is four lines joined by `\n`: the HTTP method, the
//! request host lower-cased, the request URI path, and the canonical query
//! string.  Its HMAC-SHA256 digest under the shared secret, base64-encoded
//! with the standard alphabet and padding, is the signature.

use vstd::prelude::*;

use crate::params::canonical_of;
use crate::params::canonical_query;
use crate::params::ParamSet;
use crate::strutil::ascii_lowercase;
use crate::strutil::lower_seq;
use crate::strutil::push_char;

verus! {

/// The HMAC-SHA256 digest of `msg` keyed by `secret`, both taken as their
/// UTF-8 bytes.  The digest is a function of the two arguments alone.
pub uninterp spec fn hmac_sha256_of(key: Seq<char>, msg: Seq<char>) -> Seq<u8>;

/// The base64 rendering of `bytes` in the standard alphabet, with
/// padding.  The rendering is a function of the bytes alone.
pub uninterp spec fn base64_of(bytes: Seq<u8>) -> Seq<char>;

/// Relies on `hmac::Hmac<sha2::Sha256>` (`new_from_slice`, `update`,
/// `finalize`): the digest of a message under a key, 32 bytes for
/// SHA-256.  `new_from_slice` accepts keys of any length.
#[verifier::external_body]
fn hmac_sha256(key: &str, msg: &str) -> (r: Vec<u8>)
    ensures
        r@ == hmac_sha256_of(key@, msg@),
        r@.len() == 32,
{
    let mut mac = <hmac::Hmac<sha2::Sha256> as hmac::KeyInit>::new_from_slice(key.as_bytes())
        .expect("HMAC accepts keys of any length");
    hmac::Mac::update(&mut mac, msg.as_bytes());
    hmac::Mac::finalize(mac).into_bytes().to_vec()
}

/// Relies on `base64::Engine::encode` with the `STANDARD` engine
/// (standard alphabet, padded).  The length bound keeps the engine's
/// output-size computation from overflowing.
#[verifier::external_body]
pub(crate) fn base64_encode(data: &[u8]) -> (r: String)
    requires
        data@.len() <= 0x1000_0000_0000_0000,
    ensures
        r@ == base64_of(data@),
{
    base64::Engine::encode(&base64::engine::general_purpose::STANDARD, data)
}

/// The four-line string over which the signature is computed.
pub open spec fn string_to_sign(
    method: Seq<char>,
    host_lower: Seq<char>,
    path: Seq<char>,
    canonical: Seq<char>,
) -> Seq<char> {
    method + seq!['\n'] + host_lower + seq!['\n'] + path + seq!['\n'] + canonical
}

/// The signature of a request: the base64-encoded HMAC-SHA256 digest of
/// the string-to-sign built from the method, the lower-cased host, the
/// URI path and the canonical query string of `ps`, keyed by `secret`.
pub open spec fn signature_b64(
    secret: Seq<char>,
    ps: Seq<(Seq<char>, Seq<char>)>,
    method: Seq<char>,
    host: Seq<char>,
    path: Seq<char>,
) -> Seq<char> {
    base64_of(
        hmac_sha256_of(secret, string_to_sign(method, lower_seq(host), path, canonical_of(ps))),
    )
}

/// Computes the request signature.  The result is pinned byte-for-byte by
/// the inputs: given a fixed secret, method, host, path and parameter
/// set, repeated runs return the same string.
pub fn create_signature(
    secret_key: &str,
    params: &ParamSet,
    http_verb: &str,
    host: &str,
    uri: &str,
) -> (r: String)
    ensures
        r@ == signature_b64(secret_key@, params@, http_verb@, host@, uri@),
{
    let canonical = canonical_query(params);
    let host_lower = ascii_lowercase(host);
    let mut sts = String::new();
    sts.append(http_verb);
    push_char(&mut sts, '\n');
    sts.append(host_lower.as_str());
    push_char(&mut sts, '\n');
    sts.append(uri);
    push_char(&mut sts, '\n');
    sts.append(canonical.as_str());
    proof {
        assert(sts@ =~= string_to_sign(http_verb@, lower_seq(host@), uri@, canonical_of(params@)));
    }
    let digest = hmac_sha256(secret_key, sts.as_str());
    base64_encode(digest.as_slice())
}

/// The signature is deterministic: two signatures over the same secret,
/// parameter set, method, host and path are byte-identical.
pub proof fn lemma_signature_deterministic(
    secret: Seq<char>,
    ps: Seq<(Seq<char>, Seq<char>)>,
    method: Seq<char>,
    host: Seq<char>,
    path: Seq<char>,
    r1: Seq<char>,
    r2: Seq<char>,
)
    requires
        r1 == signature_b64(secret, ps, method, host, path),
        r2 == signature_b64(secret, ps, method, host, path),
    ensures
        r1 == r2,
{
}

} // verus!
