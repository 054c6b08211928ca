//! The idempotency gateway: key validation and the durable store of
//! per-(caller, key) records that deduplicates publish requests.

pub mod key;
pub mod persistence;
