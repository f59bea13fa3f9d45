//! The wire formats of CAR files and the primitives they are built from.

pub mod varint;
pub mod cid;
pub mod cbor;
pub mod header;
pub mod section;
pub mod v1;
pub mod v2header;
pub mod index;
pub mod v2;
pub mod v2write;
