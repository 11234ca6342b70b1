//! Encrypted vault containers for removable media.
//!
//! The library holds the verified core of the vault: the little-endian
//! integer codecs, the encoding of the vault payload, the binary container
//! format, the key-derivation and AEAD layer, and the in-memory vault with its
//! file table.
pub mod bytes;
pub mod clock;
pub mod container;
pub mod crypto;
pub mod display;
pub mod fs;
pub mod payload;
pub mod text;
pub mod vault;
