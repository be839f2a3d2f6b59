use vstd::prelude::*;

verus! {

#[verifier::external_type_specification]
#[verifier::external_body]
pub struct ExIoError(std::io::Error);

#[verifier::external_type_specification]
#[verifier::external_body]
pub struct ExUtf8Error(std::str::Utf8Error);

#[verifier::external_type_specification]
#[verifier::external_body]
pub struct ExFromUtf8Error(std::string::FromUtf8Error);

/// An error while encoding or decoding a peer wire message.
#[derive(Debug)]
pub enum Error {
    IoError(std::io::Error),
    ConversionError(&'static str),
    Utf8Error(std::str::Utf8Error),
    /// Expected at least the second number of bytes, got the first.
    BadLength(usize, usize),
    FromUtf8Error(std::string::FromUtf8Error),
}

} // verus!
