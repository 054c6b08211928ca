//! Verified core of a newsletter delivery service.
//!
//! An operator publishes an issue once; the library guarantees that
//! retried or duplicate publish requests replay the saved response
//! byte-for-byte and never repeat the fan-out, that every
//! currently-confirmed recipient gets exactly one delivery task, and
//! that the delivery worker retries transient failures only up to a
//! configured limit before abandoning a task.  The durable tables of the
//! running system are modelled as in-memory stores whose operations each
//! stand for one committed transaction; the surrounding process — HTTP,
//! SQL, the outbound email call — hands the library plain values and
//! takes plain values back.

pub mod authentication;
pub mod configuration;
pub mod domain;
pub mod idempotency;
pub mod idempotency_expire_worker;
pub mod issue_delivery_worker;
pub mod newsletters;
pub mod response;
pub mod subscriptions;
pub mod utils;
