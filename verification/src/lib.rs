//! The minimal unit of a proof-of-work blockchain: a generic,
//! content-addressable block that serializes to a canonical byte sequence,
//! hashes to a 32-byte digest, and is mined by searching for a nonce whose
//! digest beats the block's difficulty threshold.

pub mod encode;
pub mod hash;
pub mod order;
pub mod item;
pub mod block;
