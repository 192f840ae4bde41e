//! Wire messages of the RDMA path of a distributed KV block cache: the
//! requests and responses that carry a memory-region token between nodes,
//! with their little-endian byte layout, and the decisions the RDMA request
//! handler takes on their contents.

pub mod buffer;
pub mod error;
pub mod handler;
pub mod message;
pub mod size;
pub mod wire;
