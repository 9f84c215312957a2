//! Trusted boundary to the cryptographic and encoding primitives, and key
//! generation.
//!
//! Ed25519 signing and verification are deterministic functions of their
//! byte inputs, so their results carry uninterpreted names that the rest of
//! the library reasons with.

use vstd::prelude::*;

verus! {

/// The Ed25519 signature of `msg` under the private key held in the PKCS#8
/// v2 document `pkcs8`; Ed25519 signing is deterministic (RFC 8032).
pub uninterp spec fn ed25519_signature(pkcs8: Seq<u8>, msg: Seq<u8>) -> Seq<u8>;

/// Whether `pkcs8` is a PKCS#8 v2 Ed25519 document that ring accepts.
pub uninterp spec fn ed25519_pkcs8_valid(pkcs8: Seq<u8>) -> bool;

/// The public key half of the key pair held in `pkcs8`.
pub uninterp spec fn ed25519_public_key(pkcs8: Seq<u8>) -> Seq<u8>;

/// Whether `signature` is a valid Ed25519 signature of `msg` under the
/// public key `public_key`; verification is deterministic.
pub uninterp spec fn ed25519_verifies(public_key: Seq<u8>, msg: Seq<u8>, signature: Seq<u8>) -> bool;

/// The canonical padded base64 encoding of `bytes` (RFC 4648).
pub uninterp spec fn spec_base64(bytes: Seq<u8>) -> Seq<char>;

/// Relies on ring's `Ed25519KeyPair::from_pkcs8` and `Ed25519KeyPair::sign`:
/// `from_pkcs8` accepts exactly the well-formed PKCS#8 v2 Ed25519 documents,
/// and signing yields the deterministic RFC 8032 signature, which verifies
/// under the pair's public key. The error is ring's, rendered as text.
#[verifier::external_body]
pub(crate) fn ed25519_sign(pkcs8: &Vec<u8>, msg: &Vec<u8>) -> (r: Result<Vec<u8>, String>)
    ensures
        (r is Ok) == ed25519_pkcs8_valid(pkcs8@),
        r matches Ok(sig) ==> sig@ == ed25519_signature(pkcs8@, msg@),
        r matches Ok(sig) ==> ed25519_verifies(ed25519_public_key(pkcs8@), msg@, sig@),
{
    let key_pair = ring::signature::Ed25519KeyPair::from_pkcs8(pkcs8).map_err(
        |e| e.to_string(),
    )?;
    Ok(key_pair.sign(msg).as_ref().to_vec())
}

/// Relies on ring's `UnparsedPublicKey::verify` with the ED25519 algorithm:
/// it accepts exactly the valid signatures of `msg` under `public_key`.
#[verifier::external_body]
pub(crate) fn ed25519_verify(public_key: &Vec<u8>, msg: &Vec<u8>, signature: &Vec<u8>) -> (r: bool)
    ensures
        r == ed25519_verifies(public_key@, msg@, signature@),
{
    ring::signature::UnparsedPublicKey::new(&ring::signature::ED25519, public_key)
        .verify(msg, signature)
        .is_ok()
}

/// Generate an Ed25519 key pair.
///
/// Returns (private key, PKCS#8 v2 encoded; public key). Relies on ring's
/// `Ed25519KeyPair::generate_pkcs8` with the system's secure randomness and
/// on `from_pkcs8` and `KeyPair::public_key`: whatever document comes back
/// is well formed, and the returned public key is its public half.
#[verifier::external_body]
pub fn generate_ed25519_key_pair() -> (r: Result<(Vec<u8>, Vec<u8>), ()>)
    ensures
        r matches Ok(pair) ==> ed25519_pkcs8_valid(pair.0@) && pair.1@ == ed25519_public_key(
            pair.0@,
        ),
{
    let rng = ring::rand::SystemRandom::new();
    let pkcs8 = ring::signature::Ed25519KeyPair::generate_pkcs8(&rng).map_err(|_| ())?;
    let key_pair = ring::signature::Ed25519KeyPair::from_pkcs8(pkcs8.as_ref()).map_err(|_| ())?;
    let public_key = ring::signature::KeyPair::public_key(&key_pair).as_ref().to_vec();
    Ok((pkcs8.as_ref().to_vec(), public_key))
}

/// Relies on data-encoding's `BASE64.encode`: the canonical padded base64
/// encoding of the input.
#[verifier::external_body]
pub(crate) fn base64_encode(bytes: &Vec<u8>) -> (s: String)
    ensures
        s@ == spec_base64(bytes@),
{
    data_encoding::BASE64.encode(bytes)
}

/// Relies on data-encoding's `BASE64.decode`: the encoding is canonical
/// (padding required, trailing bits checked, no characters ignored), so
/// decoding succeeds exactly on the canonical encoding of some bytes, and
/// then returns the unique such bytes. The error is data-encoding's,
/// rendered as text.
#[verifier::external_body]
pub(crate) fn base64_decode(s: &str) -> (r: Result<Vec<u8>, String>)
    ensures
        (r is Ok) == exists|b: Seq<u8>| s@ == #[trigger] spec_base64(b),
        r matches Ok(bytes) ==> s@ == spec_base64(bytes@) && forall|b: Seq<u8>|
            s@ == #[trigger] spec_base64(b) ==> b == bytes@,
{
    data_encoding::BASE64.decode(s.as_bytes()).map_err(|e| e.to_string())
}

/// Seconds since the Unix epoch, if the clock stands after it.
///
/// Relies on std's `SystemTime::now` and `duration_since`.
#[verifier::external_body]
pub(crate) fn now_unix_secs() -> (r: Result<u64, ()>)
{
    std::time::SystemTime::now()
        .duration_since(std::time::SystemTime::UNIX_EPOCH)
        .map(|d| d.as_secs())
        .map_err(|_| ())
}

pub assume_specification<T>[ rand::random::<T> ]() -> (r: T)
    where
        rand::distr::StandardUniform: rand::distr::Distribution<T>,
;

} // verus!
