//! What can be wrong with the text of an order.
use vstd::prelude::*;
use crate::text::{bytes_clone, bytes_to_string};

verus! {

/// The ways in which the text of an order can be wrong.
#[derive(Debug, Clone, Copy, PartialEq, Eq, Structural)]
pub enum ErrorKind {
    /// The text ends before the order is complete.
    TooFewWords,
    /// The word that should name the unit type names none.
    InvalidUnitType,
    /// The word that should name a region names none.
    InvalidRegion,
    /// The word that should name the command names none.
    UnknownCommand,
    /// A move without a destination.
    MalformedMove,
    /// A support with the wrong number of words.
    MalformedSupport,
    /// A convoy with the wrong number of words.
    MalformedConvoy,
}

/// An error of the parser: its kind, and the text that it is about.
#[derive(Debug)]
pub struct Error {
    kind: ErrorKind,
    text: Vec<u8>,
}

impl Error {
    /// The error of the kind about the text.
    pub fn new(kind: ErrorKind, text: &Vec<u8>) -> (r: Error)
        ensures
            r.kind_spec() == kind,
            r.text_spec() == text@,
    {
        Error { kind, text: bytes_clone(text) }
    }

    /// The kind of the error.
    pub closed spec fn kind_spec(&self) -> ErrorKind {
        self.kind
    }

    /// The kind of the error.
    pub fn kind(&self) -> (r: ErrorKind)
        ensures
            r == self.kind_spec(),
    {
        self.kind
    }

    /// The bytes of the text that the error is about.
    pub closed spec fn text_spec(&self) -> Seq<u8> {
        self.text@
    }

    /// The text that the error is about.
    pub fn text(&self) -> (r: String)
        ensures
            vstd::utf8::valid_utf8(self.text_spec()) ==> r@ == vstd::utf8::decode_utf8(
                self.text_spec(),
            ),
    {
        bytes_to_string(&self.text)
    }
}

} // verus!
