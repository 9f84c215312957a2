//! Core logic of a fleet command-dispatch system: a predicate language for
//! selecting executors by their metadata, an Ed25519 signed-payload envelope
//! with expiry, key stores with a trust-on-first-use approval flow, and the
//! registry and dispatch decisions of the task server.

pub mod query;
pub mod meta;
pub mod parser;
pub mod crypto;
pub mod config;
pub mod signed_payload;
pub mod keystore;
pub mod strmap;
pub mod registry;
pub mod dispatch;
pub mod commander;
pub mod executor;
pub mod paths;
pub mod keygen;
pub mod laws;
pub mod printer;
