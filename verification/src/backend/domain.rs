//! The indexer's domain: events as the REST API serves them.

use vstd::prelude::*;

/// The indexer serves the registry's own metadata type.
pub use crate::contract::types::EventMetadata;

verus! {

/// An event and its id as 64 hexadecimal digits.
#[derive(Clone, Debug, PartialEq, Eq)]
pub struct Event {
    /// The `event_id` in hexadecimal (64 characters).
    pub id: String,
    pub metadata: EventMetadata,
}

} // verus!
