//! What holds of decoding for every schema and every input.
//!
//! Each statement here is about [`decode`](crate::decode::decode), the
//! function that [`some_ip_value`](crate::decode::some_ip_value) computes, and
//! is proved from its definition.

pub mod bounds;
pub mod byte_order;
pub mod enumerations;
pub mod failures;
pub mod sizes;
pub mod streaming;
pub mod structs;
