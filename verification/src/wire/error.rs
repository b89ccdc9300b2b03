//! Errors of the wire format's decoder.
use vstd::prelude::*;

verus! {

/// Why bytes could not be decoded.
#[derive(Debug, Clone, Copy, PartialEq, Eq, Structural)]
pub enum Error {
    /// The input ended before the value did.
    Eof,
    /// A text field held bytes that are not UTF-8.
    Format,
    /// The value was decoded but bytes were left over.
    TrailingBytes,
    /// A tag named no variant of the enum being decoded.
    UnknownVariant,
}

/// The outcome of a decoder.
pub type Result<T> = core::result::Result<T, Error>;

} // verus!
