//! Canonical wire encoding and transaction identifiers for Zcash transactions.
//!
//! The library holds the byte codec of the consensus structures, the bounds
//! used to pre-allocate vectors read from untrusted peers, the personalized
//! hash-tree builder and the digests of ZIP-244 that make up a transaction
//! identifier.
//!
//! - [`codec`]: little-endian integers, byte arrays and compact sizes.
//! - [`serialization`]: the encode/decode contract and length-prefixed vectors.
//! - [`hashes`], [`hasher`]: BLAKE2b and SHA-256, and the personalized hasher.
//! - [`transparent`], [`sapling`], [`orchard`], [`burn`]: the transaction parts.
//! - [`transaction`], [`block`]: transactions and block headers.
//! - [`digests`], [`txid`]: the ZIP-244 digests and transaction identifiers.
pub mod hashes;
pub mod hasher;
pub mod codec;
pub mod serialization;
pub mod transparent;
pub mod burn;
pub mod orchard;
pub mod sapling;
pub mod digests;
pub mod transaction;
pub mod txid;
pub mod block;
