//! Core of a CQL binary-protocol client driver: frame codec, primitive
//! wire types, stream-id allocation, response routing, connection-pool
//! policy and cluster configuration, with machine-checked contracts.

pub mod error;
pub mod frame;
pub mod query;
pub mod batch;
pub mod response;
pub mod router;
pub mod pool;
pub mod cluster;
pub mod session;
pub mod types;
