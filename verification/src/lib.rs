//! Brute-force vanity search for Nimiq user-friendly addresses.
//!
//! The library enumerates 32-byte entropy values from a random starting
//! point, derives the display address of each candidate through the
//! `nimiq_mnemonic` key-derivation pipeline, and tests it against a
//! user-supplied prefix under a configurable match policy.  Independent
//! workers share a single write-once cancellation flag so that the first
//! match stops the whole search.

use vstd::prelude::*;

pub mod address;
pub mod args;
pub mod entropy;
pub mod matching;
pub mod search;

verus! {

/// The derivation path used when the caller does not supply one.
pub const DEFAULT_PATH: &'static str = "m/44'/242'/0'/0'";

} // verus!
