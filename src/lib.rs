//! Reading and writing Content Addressable aRchive (CAR) files, v1 and v2, as a
//! sans-I/O codec: the parsers take bytes handed in by the caller and answer with
//! values, or with the absolute range of bytes they still need.

pub mod read;
pub mod wire;

pub use read::{CarFormat, CarReader, CarReaderError};
