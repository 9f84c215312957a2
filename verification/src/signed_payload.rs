//! The signed-payload envelope: payload bytes bound to a nonce and an
//! expiry timestamp by an Ed25519 signature over
//! `payload ∥ nonce_le ∥ valid_until_secs_le`.

use vstd::prelude::*;
use crate::config::ED25519Key;
use crate::crypto::{ed25519_signature, ed25519_public_key, ed25519_verifies, ed25519_sign,
    now_unix_secs, spec_base64};

verus! {

/// The envelope: who signed, what, until when, and the signature itself.
#[derive(Debug, Clone, PartialEq, Eq)]
pub struct SignedPayload {
    pub payload: Vec<u8>,
    pub nonce: u64,
    pub valid_until_secs: u64,
    pub signature: Vec<u8>,
    pub key_id: String,
}

/// Why signing failed.
#[derive(Debug, PartialEq, Eq)]
pub enum EncodePayloadError {
    KeyRejected(String),
    EncodeError(String),
    SystemClockIsBeforeUnixEpoch,
}

/// The bytes an envelope's signature is computed over.
pub open spec fn spec_bytes_to_sign(payload: Seq<u8>, nonce: u64, valid_until_secs: u64) -> Seq<
    u8,
> {
    payload + vstd::bytes::spec_u64_to_le_bytes(nonce) + vstd::bytes::spec_u64_to_le_bytes(
        valid_until_secs,
    )
}

/// An envelope whose signature is the deterministic Ed25519 signature of
/// its signing input under `pkcs8`, and which verifies under the matching
/// public key.
pub open spec fn spec_signed_with(sp: SignedPayload, pkcs8: Seq<u8>) -> bool {
    &&& sp.signature@ == ed25519_signature(
        pkcs8,
        spec_bytes_to_sign(sp.payload@, sp.nonce, sp.valid_until_secs),
    )
    &&& ed25519_verifies(
        ed25519_public_key(pkcs8),
        spec_bytes_to_sign(sp.payload@, sp.nonce, sp.valid_until_secs),
        sp.signature@,
    )
}

/// The signing input for exploded envelope parts.
pub fn to_sign_from_exploded_payload(payload: &[u8], nonce: u64, valid_until_secs: u64) -> (r: Vec<
    u8,
>)
    ensures
        r@ == spec_bytes_to_sign(payload@, nonce, valid_until_secs),
{
    let mut r: Vec<u8> = Vec::new();
    let n = payload.len();
    let mut i: usize = 0;
    while i < n
        invariant
            i <= n,
            n == payload@.len(),
            r@ == payload@.subrange(0, i as int),
        decreases n - i,
    {
        let b = *vstd::slice::slice_index_get(payload, i);
        r.push(b);
        proof {
            assert(r@ =~= payload@.subrange(0, i as int + 1));
        }
        i = i + 1;
    }
    proof {
        assert(r@ =~= payload@);
    }
    let mut nonce_bytes = vstd::bytes::u64_to_le_bytes(nonce);
    r.append(&mut nonce_bytes);
    let mut until_bytes = vstd::bytes::u64_to_le_bytes(valid_until_secs);
    r.append(&mut until_bytes);
    r
}

/// The signing input of an envelope.
pub fn payload_bytes_to_sign(payload: &SignedPayload) -> (r: Vec<u8>)
    ensures
        r@ == spec_bytes_to_sign(payload.payload@, payload.nonce, payload.valid_until_secs),
{
    to_sign_from_exploded_payload(
        payload.payload.as_slice(),
        payload.nonce,
        payload.valid_until_secs,
    )
}

/// Signs `payload` with the given key material, under the given nonce and
/// expiry instant.
///
/// Succeeds exactly when the key bytes are a well-formed PKCS#8 Ed25519
/// document; the envelope then carries the payload unchanged and the
/// deterministic signature of its signing input.
pub fn sign_payload_bytes(
    payload: Vec<u8>,
    pkcs8: &Vec<u8>,
    key_id: String,
    nonce: u64,
    valid_until_secs: u64,
) -> (r: Result<SignedPayload, EncodePayloadError>)
    ensures
        (r is Ok) == crate::crypto::ed25519_pkcs8_valid(pkcs8@),
        r matches Ok(sp) ==> {
            &&& sp.payload == payload
            &&& sp.nonce == nonce
            &&& sp.valid_until_secs == valid_until_secs
            &&& sp.key_id == key_id
            &&& spec_signed_with(sp, pkcs8@)
        },
        r matches Err(e) ==> e matches EncodePayloadError::KeyRejected(_),
{
    let to_sign = to_sign_from_exploded_payload(payload.as_slice(), nonce, valid_until_secs);
    match ed25519_sign(pkcs8, &to_sign) {
        Ok(signature) => Ok(
            SignedPayload { payload, nonce, valid_until_secs, signature, key_id },
        ),
        Err(e) => Err(EncodePayloadError::KeyRejected(e)),
    }
}

/// Signs `payload` with a configured key: decodes the key's base64 PKCS#8
/// material, stamps the expiry `validity_secs` from now (saturating), draws
/// a random nonce, and signs.
///
/// Failure is only a pathological clock or bad key material: text that is
/// not canonical base64, or decoded bytes that are no valid PKCS#8
/// Ed25519 document.
pub fn encode_and_sign(payload: Vec<u8>, key: &ED25519Key, validity_secs: u64) -> (r: Result<
    SignedPayload,
    EncodePayloadError,
>)
    ensures
        r matches Ok(sp) ==> {
            &&& sp.payload == payload
            &&& sp.key_id == key.id
            &&& exists|pkcs8: Seq<u8>|
                key.pkcs8@ == spec_base64(pkcs8) && #[trigger] spec_signed_with(sp, pkcs8)
        },
        r matches Err(e) ==> e matches EncodePayloadError::SystemClockIsBeforeUnixEpoch || (
        e matches EncodePayloadError::KeyRejected(_) && !(exists|b: Seq<u8>|
            key.pkcs8@ == #[trigger] spec_base64(b) && crate::crypto::ed25519_pkcs8_valid(b))),
{
    let valid_until_secs = match now_unix_secs() {
        Ok(now) => {
            if now <= u64::MAX - validity_secs {
                now + validity_secs
            } else {
                u64::MAX
            }
        },
        Err(_) => {
            return Err(EncodePayloadError::SystemClockIsBeforeUnixEpoch);
        },
    };
    let nonce: u64 = rand::random();
    let pkcs8 = match key.to_bytes() {
        Ok(b) => b,
        Err(e) => {
            return Err(EncodePayloadError::KeyRejected(e));
        },
    };
    let r = sign_payload_bytes(payload, &pkcs8, key.id.clone(), nonce, valid_until_secs);
    match r {
        Ok(sp) => {
            proof {
                let w = pkcs8@;
                assert(key.pkcs8@ == spec_base64(w) && spec_signed_with(sp, w));
            }
            Ok(sp)
        },
        Err(e) => {
            proof {
                assert forall|b: Seq<u8>| key.pkcs8@ == #[trigger] spec_base64(b)
                    implies !crate::crypto::ed25519_pkcs8_valid(b) by {
                    assert(b == pkcs8@);
                }
            }
            Err(e)
        },
    }
}

} // verus!
