//! The closed set of failures the protocol core can report.

use vstd::prelude::*;

verus! {

/// How parsing or decoding a response failed. Transport failures never
/// arise in the core; the surrounding program handles them itself.
#[derive(Debug, PartialEq, Eq, Clone, Copy, Structural)]
pub enum MyErr {
    /// No line feed: the response lacks the header/body delimiter.
    MalformedResponse,
    /// The header line contains no space, so the metadata field is missing.
    MalformedHeader,
    /// The status token is empty, not numeric, or out of range.
    MalformedStatusCode,
    /// A body declared as text is not validly encoded.
    InvalidTextEncoding,
}

} // verus!
