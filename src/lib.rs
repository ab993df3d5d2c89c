//! A small embedded key-value store: string keys mapped to JSON values, with
//! optional per-key expiry, key namespacing, and an atomic save protocol
//! (backup, temporary write, rename) described as steps over a storage medium.

pub mod codec;
pub mod entry;
pub mod error;
pub mod json;
pub mod medium;
pub mod namespace;
pub mod store;
pub mod table;

pub use entry::Entry;
pub use error::TinyKVError;
pub use medium::{MemoryMedium, SaveStep};
pub use store::TinyKV;
