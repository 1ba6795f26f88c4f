//! The one error type of the library.
use vstd::prelude::*;

verus! {

/// What a byte-level parser found wrong.
#[derive(Clone, Copy, Debug, PartialEq, Eq, Structural)]
pub enum ParseErrorKind {
    /// The input ended before the field did.
    Eof,
    /// A fixed tag did not hold the expected bytes.
    Tag,
    /// A numeric field held something other than digits followed by spaces.
    Digit,
    /// A timestamp named a date, time or offset that does not exist.
    Date,
}

/// Everything that can go wrong while reading an image; `E` is the error of
/// the block reader.
#[derive(Debug)]
pub enum ISOError<E> {
    /// The block reader failed.
    Io(E),
    /// Identifier bytes were not valid UTF-8.
    Utf8,
    /// The image breaks the structure of the file system.
    InvalidFs(&'static str),
    /// A version suffix was not a decimal number that fits in 16 bits.
    ParseInt,
    /// A block read returned fewer bytes (second) than asked for (first).
    ReadSize(usize, usize),
    /// A byte-level parser failed.
    Parse(ParseErrorKind),
}

} // verus!
