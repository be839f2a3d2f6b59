//! Decoding peer wire values from bytes.

use vstd::prelude::*;

use super::error::Error;

verus! {

/// A value that can be read from the start of a byte slice.
pub trait Decode<'a>: Sized {
    /// The inputs that `decode` can read without running out of bytes.
    spec fn decodable(src: Seq<u8>) -> bool;

    fn decode(src: &'a [u8]) -> (r: Result<Self, Error>)
        requires
            Self::decodable(src@),
    ;
}

} // verus!
