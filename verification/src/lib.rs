//! Core of a Bitcoin node: wire-message decoding, transaction parsing and
//! validation, and a hash-indexed transaction store.

pub mod codec;
pub mod hash;
pub mod buffer;
pub mod transaction;
pub mod pairs;
pub mod store;
pub mod net_addr;
pub mod inventory_vector;
pub mod block_header;
pub mod message;
pub mod parser;
pub mod blk_file;
