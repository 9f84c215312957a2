//! Key generation for configuration files: a fresh Ed25519 key under a
//! name, with the matching single-entry authorized-keys map.

use vstd::prelude::*;
use crate::config::ED25519Key;
use crate::crypto::{generate_ed25519_key_pair, base64_encode, spec_base64, ed25519_pkcs8_valid,
    ed25519_public_key};

verus! {

/// Generates a named key pair, base64-encoded for a configuration file.
///
/// Returns the private key record and the one-entry authorized-keys map
/// binding the name to the base64 public key.
pub fn generate_base64_encoded_keys(key_name: &str) -> (r: Result<
    (ED25519Key, Vec<(String, String)>),
    (),
>)
    ensures
        r matches Ok(pair) ==> {
            &&& pair.0.id@ == key_name@
            &&& exists|pkcs8: Seq<u8>|
                {
                    &&& #[trigger] ed25519_pkcs8_valid(pkcs8)
                    &&& pair.0.pkcs8@ == spec_base64(pkcs8)
                    &&& pair.0.public_key matches Option::Some(p) && p@ == spec_base64(
                        ed25519_public_key(pkcs8),
                    )
                }
            &&& pair.1@.len() == 1
            &&& pair.1@[0].0@ == key_name@
            &&& pair.0.public_key matches Option::Some(p) && pair.1@[0].1@ == p@
        },
{
    let (priv_key, pub_key) = match generate_ed25519_key_pair() {
        Ok(pair) => pair,
        Err(_) => {
            return Err(());
        },
    };
    let encoded_pub = base64_encode(&pub_key);
    let key = ED25519Key {
        id: key_name.to_owned(),
        pkcs8: base64_encode(&priv_key),
        public_key: Some(encoded_pub.clone()),
    };
    let ghost gp = priv_key@;
    let mut authorized: Vec<(String, String)> = Vec::new();
    authorized.push((key_name.to_owned(), encoded_pub));
    proof {
        assert(ed25519_pkcs8_valid(gp) && key.pkcs8@ == spec_base64(gp));
    }
    Ok((key, authorized))
}

} // verus!
