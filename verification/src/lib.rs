//! A bounds-checked reader over a borrowed byte buffer.
//!
//! [`ByteReader`] keeps a cursor into a slice of bytes and decodes unsigned
//! integers of either byte order, null-terminated text and raw blocks from it.
//! Every read checks the space that is left first, so no read ever touches a
//! byte outside the buffer.

pub mod endian;
pub mod error;
pub mod model;
pub mod reader;
pub mod text;

pub use error::ReadError;
pub use model::ReaderState;
pub use reader::ByteReader;
