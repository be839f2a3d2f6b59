//! Bencode: the value model, its grammar, an encoder and a decoder.

pub mod access;
pub mod de;
pub mod error;
pub mod grammar;
pub mod laws;
pub mod ser;
pub mod value;

pub use error::{Error, ErrorKind};
pub use value::{BValue, BencodeValue, Bytes};
