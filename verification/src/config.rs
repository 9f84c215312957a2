//! Configuration shapes for the three roles, and the Ed25519 key material
//! as it stands in a configuration file: base64-encoded PKCS#8.

use vstd::prelude::*;
use crate::crypto::{spec_base64, base64_encode, base64_decode};
use crate::meta::TagMap;

verus! {

/// Paths to PEM-encoded TLS material, and the expected server domain.
#[derive(Debug)]
pub struct TlsConfig {
    pub ca_cert: String,
    pub key: String,
    pub cert: String,
    pub server_domain: Option<String>,
}

/// The task server's configuration.
#[derive(Debug)]
pub struct ServerConfig {
    pub tls: Option<TlsConfig>,
    pub bind_address: String,
    pub data_directory: String,
    pub authorized_keys: Vec<(String, String)>,
    pub admin_authorized_keys: Vec<(String, String)>,
}

/// A commander's configuration.
#[derive(Debug)]
pub struct CommanderConfig {
    pub tls: Option<TlsConfig>,
    pub server_url: String,
    pub ed25519_key: ED25519Key,
}

/// An executor's configuration.
#[derive(Debug)]
pub struct ExecutorConfig {
    pub tls: Option<TlsConfig>,
    pub client_id: String,
    pub tags: TagMap,
    pub server_url: String,
    pub authorized_keys: Vec<(String, String)>,
}

/// A named Ed25519 private key, PKCS#8-encoded then base64-encoded, with
/// its public half kept beside it for convenience.
#[derive(Debug, Clone)]
pub struct ED25519Key {
    pub id: String,
    pub pkcs8: String,
    pub public_key: Option<String>,
}

impl ED25519Key {
    /// A key from raw PKCS#8 bytes.
    pub fn new(id: &str, pkcs8_bytes: &[u8]) -> (r: ED25519Key)
        ensures
            r.id@ == id@,
            r.pkcs8@ == spec_base64(pkcs8_bytes@),
            r.public_key is None,
    {
        let bytes = vstd::slice::slice_to_vec(pkcs8_bytes);
        ED25519Key { id: id.to_owned(), pkcs8: base64_encode(&bytes), public_key: None }
    }

    /// The PKCS#8 bytes back out of the base64 text: succeeds exactly when
    /// the text is the canonical encoding of some bytes, and then returns
    /// the unique such bytes.
    pub fn to_bytes(&self) -> (r: Result<Vec<u8>, String>)
        ensures
            (r is Ok) == exists|b: Seq<u8>| self.pkcs8@ == #[trigger] spec_base64(b),
            r matches Ok(b) ==> self.pkcs8@ == spec_base64(b@) && forall|b2: Seq<u8>|
                self.pkcs8@ == #[trigger] spec_base64(b2) ==> b2 == b@,
    {
        base64_decode(self.pkcs8.as_str())
    }

    pub fn id(&self) -> (r: &String)
        ensures
            r == &self.id,
    {
        &self.id
    }
}

} // verus!
