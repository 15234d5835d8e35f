use vstd::prelude::*;

verus! {

/// The ways an input can be rejected before any search begins.
#[derive(Clone, Copy, Debug, PartialEq, Eq, Structural)]
pub enum Error {
    /// A hexadecimal string holds a character outside `[0-9a-fA-F]`.
    InvalidCharacter,
    /// A requested digest prefix is longer than forty hexadecimal
    /// characters, or holds one that is not a hexadecimal digit.
    InvalidPrefixFormat,
    /// The payload's outer header does not mark a commit record.
    NotACommit,
    /// The payload lacks its zero-byte or blank-line separator.
    MalformedObject,
}

} // verus!
