//! A POAP-like badge registry: organizers create events and mint one
//! verifiable badge per participant; a read-only indexer decodes the
//! registry's ledger entries for a REST API.
//!
//! `contract` holds the registry itself (its persistent storage, its entry
//! points and their invariants); `backend` holds the indexer's pure logic
//! (storage-key encoding, value decoding, hex and strkey handling).

pub mod contract;
pub mod backend;
