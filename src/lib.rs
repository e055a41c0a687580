//! The protocol engine of an ACME certificate authority: single-use nonces, the
//! domain-validation challenge state machine with its reconciliation against shared
//! durable rows, and the rotation and use of the signing authority. Time is passed
//! in as seconds, and random tokens and identifiers come from the caller.
use vstd::prelude::*;

pub mod ca;
pub mod challenge;
pub mod nonce;
pub mod service;
pub mod store;

verus! {

} // verus!
