//! A minimal in-memory key-value store speaking a subset of the Redis wire
//! protocol (RESP): a verified byte-level codec, a command translator, and a
//! store with millisecond-granularity lazy key expiry.

pub mod command;
pub mod decimal;
pub mod resp;
pub mod session;
pub mod store;
