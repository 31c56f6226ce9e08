//! Storage layer of an append-only, content-addressed log.
//!
//! A log keeps four byte stores: the block payloads, the nodes of the Merkle
//! tree over them, a presence bitfield and the signatures over the tree roots.
//! This crate turns logical positions (block, node, signature) into byte
//! offsets in those stores and reads and writes the fixed-size records there.

pub mod error;
pub mod flat;
pub mod header;
pub mod keys;
pub mod memory;
pub mod node;
pub mod resolver;
pub mod storage;
pub mod store;

pub use crate::error::StorageError;
pub use crate::keys::{KeyPair, PublicKey, SecretKey};
pub use crate::memory::MemoryStore;
pub use crate::node::Node;
pub use crate::storage::Storage;
pub use crate::store::{ByteStore, Store};
