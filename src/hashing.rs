//! A common interface for message digests.

use vstd::prelude::*;

verus! {

/// A hashing algorithm: from a byte sequence to its digest, written as text.
pub trait Hasher {
    /// The digest of `input`. Every slice in Rust is at most `isize::MAX`
    /// bytes long.
    fn hash(&self, input: &[u8]) -> (r: String)
        requires
            input@.len() <= isize::MAX,
    ;
}

} // verus!
