//! Core of a direct-messaging backend with end-to-end-encryption support:
//! account creation, bearer-token sessions, an authentication gate, message
//! exchange with read-state tracking, and an X3DH-style key-distribution
//! service with exactly-once consumption of one-time prekeys.
//!
//! All state lives in a [`store::Store`] value; the surrounding process is
//! expected to perform I/O, obtain timestamps, and hand plain values in.

use vstd::prelude::*;

pub mod account;
pub mod auth;
pub mod errors;
pub mod keys;
pub mod messages;
pub mod models;
pub mod store;

verus! {

/// Liveness probe; the one endpoint that is reachable without a session.
pub fn health_check() -> (r: &'static str)
    ensures
        r@ == "OK"@,
{
    "OK"
}

} // verus!
