//! Bounds-checked typed access to values stored at arbitrary byte offsets of a
//! byte buffer, with an explicit little-endian layout.
pub mod access;
pub mod endian;
pub mod error;
pub mod le;
pub mod pod;

pub use endian::{I16, I32, I64, U16, U32, U64};
pub use error::Error;
pub use pod::Pod;
