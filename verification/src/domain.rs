//! Domain types: subscriber names, addresses, and the subscriber
//! directory that fan-out reads.

pub mod subscriber;
pub mod subscriber_email;
pub mod subscriber_name;
