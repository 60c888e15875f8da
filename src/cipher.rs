//! A common interface for ciphers.

use vstd::prelude::*;

verus! {

/// A cipher: encryption turns plain text into cipher text, decryption turns
/// it back.
pub trait Cipher {
    /// The cipher text of `plain_text`.
    fn encrypt(&self, plain_text: &str) -> String;

    /// The plain text of `cipher_text`.
    fn decrypt(&self, cipher_text: &str) -> String;
}

} // verus!
