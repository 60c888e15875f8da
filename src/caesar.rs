//! The Caesar cipher on the uppercase Latin alphabet.
//!
//! Each letter `A` to `Z` moves a fixed number of places down the alphabet,
//! wrapping from `Z` to `A`; every other character is left as it is.

use vstd::prelude::*;

use crate::cipher::Cipher;
use crate::text::push_char;

verus! {

/// `c` is one of the letters `A` to `Z`.
pub open spec fn is_upper(c: char) -> bool {
    'A' <= c <= 'Z'
}

/// `c` moved `k` places down the alphabet, if it is an uppercase letter.
pub open spec fn shift_char(c: char, k: nat) -> char {
    if is_upper(c) {
        ((c as int - 'A' as int + k) % 26 + 'A' as int) as char
    } else {
        c
    }
}

/// `c` moved `k` places up the alphabet, if it is an uppercase letter.
pub open spec fn unshift_char(c: char, k: nat) -> char {
    if is_upper(c) {
        ((c as int - 'A' as int - k) % 26 + 'A' as int) as char
    } else {
        c
    }
}

/// Every letter of `s` moved `k` places down the alphabet.
pub open spec fn shift_text(s: Seq<char>, k: nat) -> Seq<char> {
    s.map_values(|c: char| shift_char(c, k))
}

/// Every letter of `s` moved `k` places up the alphabet.
pub open spec fn unshift_text(s: Seq<char>, k: nat) -> Seq<char> {
    s.map_values(|c: char| unshift_char(c, k))
}

/// Decryption with the key of encryption gives back the plain text.
pub proof fn lemma_decrypt_encrypt(s: Seq<char>, k: nat)
    ensures
        unshift_text(shift_text(s, k), k) == s,
{
    assert forall|i: int| 0 <= i < s.len() implies unshift_char(shift_char(s[i], k), k) == s[i] by {
        let c = s[i];
        if is_upper(c) {
            let x = c as int - 'A' as int;
            assert(0 <= x < 26);
            assert(((x + k) % 26 - k) % 26 == x) by (nonlinear_arith)
                requires
                    0 <= x < 26,
            {
                vstd::arithmetic::div_mod::lemma_mod_bound(x + k, 26);
            }
        }
    }
    assert(unshift_text(shift_text(s, k), k) =~= s);
}

/// A Caesar cipher with a given shift distance.
pub struct Caesar {
    /// The shift distance that the cipher was made with.
    pub shift_distance: usize,
    /// The shift distance modulo 26.
    shift_distance_mod: u8,
}

impl Caesar {
    /// The shift distance that the cipher was made with.
    pub closed spec fn distance(&self) -> nat {
        self.shift_distance as nat
    }

    /// The number of places that a letter moves.
    pub closed spec fn key(&self) -> nat {
        (self.shift_distance_mod % 26) as nat
    }

    /// A cipher that moves each letter `shift_distance` places, modulo 26.
    pub fn new(shift_distance: usize) -> (r: Self)
        ensures
            r.distance() == shift_distance,
            r.key() == shift_distance % 26,
    {
        let shift_distance_mod = (shift_distance % 26) as u8;
        Self { shift_distance, shift_distance_mod }
    }
}

impl Cipher for Caesar {
    fn encrypt(&self, plain_text: &str) -> (r: String)
        ensures
            r@ == shift_text(plain_text@, self.key()),
    {
        // below 26 whenever the cipher was made by `new`
        let k = self.shift_distance_mod % 26;
        let mut res = String::new();
        for ch in it: plain_text.chars()
            invariant
                k == self.key(),
                it.seq() == plain_text@,
                res@ == shift_text(it.seq().take(it.index() as int), k as nat),
        {
            let out = if 'A' <= ch && ch <= 'Z' {
                ((ch as u8 - 65 + k) % 26 + 65) as char
            } else {
                ch
            };
            push_char(&mut res, out);
            assert(shift_text(it.seq().take(it.index() + 1), k as nat) =~= shift_text(
                it.seq().take(it.index() as int),
                k as nat,
            ).push(shift_char(ch, k as nat)));
        }
        assert(plain_text@.take(plain_text@.len() as int) =~= plain_text@);
        res
    }

    fn decrypt(&self, cipher_text: &str) -> (r: String)
        ensures
            r@ == unshift_text(cipher_text@, self.key()),
    {
        let k = self.shift_distance_mod % 26;
        let mut res = String::new();
        for ch in it: cipher_text.chars()
            invariant
                k == self.key(),
                it.seq() == cipher_text@,
                res@ == unshift_text(it.seq().take(it.index() as int), k as nat),
        {
            let out = if 'A' <= ch && ch <= 'Z' {
                // adding 26 keeps the difference from going below zero
                ((ch as u8 - 65 + 26 - k) % 26 + 65) as char
            } else {
                ch
            };
            push_char(&mut res, out);
            assert(unshift_text(it.seq().take(it.index() + 1), k as nat) =~= unshift_text(
                it.seq().take(it.index() as int),
                k as nat,
            ).push(unshift_char(ch, k as nat)));
        }
        assert(cipher_text@.take(cipher_text@.len() as int) =~= cipher_text@);
        res
    }
}

} // verus!
