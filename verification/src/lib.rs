//! The 64-bit variant of xxHash, a fast non-cryptographic streaming hash.
//!
//! The hash of a byte stream is defined by the specification function
//! [`model::xxh64`]; the executable [`hasher::XXHasher`] is proved to compute
//! exactly that value however the stream is split into chunks.

pub mod hasher;
pub mod model;
pub mod props;

pub use hasher::hash;
pub use hasher::hash_with_seed;
pub use hasher::oneshot;
pub use hasher::XXHasher;
