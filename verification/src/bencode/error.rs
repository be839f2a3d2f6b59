use vstd::prelude::*;
use vstd::string::StringExecFns;

use super::grammar::{
    ascii_chars, lemma_ascii_decode, lemma_nat_digits_ascii, nat_digits, write_nat_digits,
};
use crate::utf8::str_from_utf8;

verus! {

/// A bencode error: what went wrong and, where it is known, the offset into
/// the input at which the decoder stood.
#[derive(Debug)]
pub struct Error {
    pub kind: ErrorKind,
    pub position: Option<usize>,
}

impl Error {
    /// The same error, placed at `position`.
    pub fn set_position(self, position: usize) -> (r: Self)
        ensures
            r.kind == self.kind,
            r.position == Some(position),
    {
        let mut this = self;
        this.position = Some(position);
        this
    }

    /// An error of kind `Custom` with the given message and no position.
    pub fn custom(msg: String) -> (r: Self)
        ensures
            r.kind == ErrorKind::Custom(msg),
            r.position.is_none(),
    {
        ErrorKind::Custom(msg).into()
    }
}

#[derive(Debug)]
pub enum ErrorKind {
    Custom(String),
    UnexpectedEof(&'static str),
    BadInputData(&'static str),
    Unsupported(&'static str),
}

impl vstd::std_specs::convert::FromSpecImpl<ErrorKind> for Error {
    open spec fn obeys_from_spec() -> bool {
        true
    }

    open spec fn from_spec(value: ErrorKind) -> Self {
        Error { kind: value, position: None }
    }
}

impl From<ErrorKind> for Error {
    fn from(value: ErrorKind) -> (r: Self)
        ensures
            r == (Error { kind: value, position: None }),
    {
        Error { kind: value, position: None }
    }
}

/// The error of `kind` at offset `position`.
pub open spec fn error_at(kind: ErrorKind, position: int) -> Error {
    Error { kind, position: Some(position as usize) }
}

/// What an error of `kind` says, in words.
pub open spec fn kind_message(kind: ErrorKind) -> Seq<char> {
    match kind {
        ErrorKind::Custom(msg) => msg@,
        ErrorKind::UnexpectedEof(expected) => "Unexpected EOF encounetered, expected \""@ + expected@
            + "\" instead"@,
        ErrorKind::BadInputData(msg) => "Input data is broken: "@ + msg@,
        ErrorKind::Unsupported(what) => "Bencode doesn't support "@ + what@,
    }
}

/// What an error says, in words: its position where it has one, then what
/// its kind says.
pub open spec fn error_message(e: Error) -> Seq<char> {
    match e.position {
        Some(pos) => "Error at position "@ + ascii_chars(nat_digits(pos as nat)) + ": "@ + kind_message(
            e.kind,
        ),
        None => "Error: "@ + kind_message(e.kind),
    }
}

/// The decimal digits of `n`, as a string.
pub(crate) fn decimal_string(n: u64) -> (r: String)
    ensures
        r@ == ascii_chars(nat_digits(n as nat)),
{
    let mut digits: Vec<u8> = Vec::new();
    write_nat_digits(&mut digits, n);
    proof {
        lemma_nat_digits_ascii(n as nat);
        assert(digits@ =~= nat_digits(n as nat));
        lemma_ascii_decode(digits@);
    }
    let mut s = String::new();
    match str_from_utf8(digits.as_slice()) {
        Some(d) => s.append(d),
        None => {},
    }
    proof {
        assert(s@ =~= ascii_chars(nat_digits(n as nat)));
    }
    s
}

impl ErrorKind {
    /// What the error says, in words.
    pub fn message(&self) -> (r: String)
        ensures
            r@ == kind_message(*self),
    {
        match self {
            ErrorKind::Custom(msg) => msg.clone(),
            ErrorKind::UnexpectedEof(expected) => {
                let mut s = <String as StringExecFns>::from_str("Unexpected EOF encounetered, expected \"");
                s.append(expected);
                s.append("\" instead");
                s
            },
            ErrorKind::BadInputData(msg) => {
                let mut s = <String as StringExecFns>::from_str("Input data is broken: ");
                s.append(msg);
                s
            },
            ErrorKind::Unsupported(what) => {
                let mut s = <String as StringExecFns>::from_str("Bencode doesn't support ");
                s.append(what);
                s
            },
        }
    }
}

impl Error {
    /// What the error says, in words, with its position where it has one.
    pub fn message(&self) -> (r: String)
        ensures
            r@ == error_message(*self),
    {
        let mut s = match self.position {
            Some(pos) => {
                let mut s = <String as StringExecFns>::from_str("Error at position ");
                let digits = decimal_string(pos as u64);
                s.append(digits.as_str());
                s.append(": ");
                s
            },
            None => <String as StringExecFns>::from_str("Error: "),
        };
        let kind = self.kind.message();
        s.append(kind.as_str());
        s
    }
}

} // verus!
