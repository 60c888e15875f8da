//! The mathematical model of MD5 (RFC 1321): the padded message, its words,
//! the 64 compression steps, the digest and its text, with their properties.

use vstd::prelude::*;

use crate::md5::SINE_TABLE;

verus! {

// ---------------------------------------------------------------------------
// The constant table.
// ---------------------------------------------------------------------------

/// Entry `k` (1 to 64) is floor(|sin(k)| * 2^32), sin taken in radians;
/// entry 0 is unused, so that step `k` (counted from 1) reads entry `k`.
pub open spec fn sine_table() -> Seq<u32> {
    SINE_TABLE@
}

// ---------------------------------------------------------------------------
// Preprocessing: the padded message.
// ---------------------------------------------------------------------------

/// Number of zero bytes between the terminator byte and the length suffix:
/// the least count that brings the length to 56 modulo 64.
pub open spec fn zero_fill_len(n: nat) -> nat {
    ((119 - (n % 64) as int) % 64) as nat
}

/// Bytes of `v`, least significant first.
pub open spec fn le_bytes_u64(v: u64) -> Seq<u8> {
    seq![
        (v % 0x100) as u8,
        ((v / 0x100) % 0x100) as u8,
        ((v / 0x1_0000) % 0x100) as u8,
        ((v / 0x100_0000) % 0x100) as u8,
        ((v / 0x1_0000_0000) % 0x100) as u8,
        ((v / 0x100_0000_0000) % 0x100) as u8,
        ((v / 0x1_0000_0000_0000) % 0x100) as u8,
        ((v / 0x100_0000_0000_0000) % 0x100) as u8,
    ]
}

/// The message length in bits, modulo 2^64.
pub open spec fn bit_length(n: nat) -> u64 {
    ((n * 8) % 0x1_0000_0000_0000_0000) as u64
}

/// The padded message: the input, the byte 0x80, zero bytes up to 56 modulo
/// 64, then the bit length as eight little-endian bytes.
pub open spec fn padded(msg: Seq<u8>) -> Seq<u8> {
    msg + seq![0x80u8] + Seq::new(zero_fill_len(msg.len()), |k: int| 0u8) + le_bytes_u64(
        bit_length(msg.len()),
    )
}

/// The value of eight bytes read least significant first.
pub open spec fn le_value_u64(b: Seq<u8>) -> nat {
    b[0] as nat + 0x100 * b[1] as nat + 0x1_0000 * b[2] as nat + 0x100_0000 * b[3] as nat
        + 0x1_0000_0000 * b[4] as nat + 0x100_0000_0000 * b[5] as nat
        + 0x1_0000_0000_0000 * b[6] as nat + 0x100_0000_0000_0000 * b[7] as nat
}

// ---------------------------------------------------------------------------
// Block decoding: 32-bit little-endian words.
// ---------------------------------------------------------------------------

/// The word of four bytes, the first least significant.
pub open spec fn le_word(b0: u8, b1: u8, b2: u8, b3: u8) -> u32 {
    (b0 as nat + 0x100 * b1 as nat + 0x1_0000 * b2 as nat + 0x100_0000 * b3 as nat) as u32
}

/// The message read as words: word `w` is made of bytes `4w .. 4w + 4`.
pub open spec fn words_of(b: Seq<u8>) -> Seq<u32> {
    Seq::new(b.len() / 4, |w: int| le_word(b[4 * w], b[4 * w + 1], b[4 * w + 2], b[4 * w + 3]))
}

/// The sixteen words of block `j` of a padded message.
pub open spec fn block_words(p: Seq<u8>, j: int) -> Seq<u32> {
    words_of(p).subrange(16 * j, 16 * j + 16)
}

// ---------------------------------------------------------------------------
// Compression: 64 steps over four registers.
// ---------------------------------------------------------------------------

/// The four registers `(a, b, c, d)`.
pub type Regs = (u32, u32, u32, u32);

/// The registers before the first block.
pub open spec fn initial_regs() -> Regs {
    (0x67452301u32, 0xefcdab89u32, 0x98badcfeu32, 0x10325476u32)
}

/// Round one: each bit of `y` or of `z`, as the bit of `x` selects.
pub open spec fn aux_f(x: u32, y: u32, z: u32) -> u32 {
    (x & y) | (!x & z)
}

/// Round two: each bit of `x` or of `y`, as the bit of `z` selects.
pub open spec fn aux_g(x: u32, y: u32, z: u32) -> u32 {
    (x & z) | (y & !z)
}

/// Round three: bitwise parity.
pub open spec fn aux_h(x: u32, y: u32, z: u32) -> u32 {
    x ^ y ^ z
}

/// Round four: `y` exclusive-or (`x` or not `z`).
pub open spec fn aux_i(x: u32, y: u32, z: u32) -> u32 {
    y ^ (x | !z)
}

/// Rotation of `x` by `s` bits to the left, for `0 < s < 32`.
pub open spec fn rotl(x: u32, s: u32) -> u32 {
    (x << s) | (x >> (32 - s) as u32)
}

/// The auxiliary function of step `i` (steps are numbered from 0 to 63).
pub open spec fn aux(i: int, x: u32, y: u32, z: u32) -> u32 {
    if i < 16 {
        aux_f(x, y, z)
    } else if i < 32 {
        aux_g(x, y, z)
    } else if i < 48 {
        aux_h(x, y, z)
    } else {
        aux_i(x, y, z)
    }
}

/// The message word that step `i` reads: in order in round one, then every
/// fifth from 1, every third from 5 and every seventh from 0, modulo 16.
pub open spec fn word_index(i: int) -> int {
    if i < 16 {
        i
    } else if i < 32 {
        (1 + 5 * (i - 16)) % 16
    } else if i < 48 {
        (5 + 3 * (i - 32)) % 16
    } else {
        (7 * (i - 48)) % 16
    }
}

/// The rotation of step `i`: each round cycles through four amounts.
pub open spec fn shift_amount(i: int) -> u32 {
    let c = i % 4;
    if i < 16 {
        if c == 0 { 7 } else if c == 1 { 12 } else if c == 2 { 17 } else { 22 }
    } else if i < 32 {
        if c == 0 { 5 } else if c == 1 { 9 } else if c == 2 { 14 } else { 20 }
    } else if i < 48 {
        if c == 0 { 4 } else if c == 1 { 11 } else if c == 2 { 16 } else { 23 }
    } else {
        if c == 0 { 6 } else if c == 1 { 10 } else if c == 2 { 15 } else { 21 }
    }
}

/// Step `i` on block `x`: `b` gains the rotated sum of `a`, the auxiliary
/// function, the message word and the table entry `i + 1`, and the registers
/// turn: `(a, b, c, d)` becomes `(d, b', b, c)`. Sums wrap modulo 2^32.
pub open spec fn step(r: Regs, x: Seq<u32>, i: int) -> Regs {
    let (a, b, c, d) = r;
    let sum = a.wrapping_add(aux(i, b, c, d)).wrapping_add(x[word_index(i)]).wrapping_add(
        sine_table()[i + 1],
    );
    (d, b.wrapping_add(rotl(sum, shift_amount(i))), b, c)
}

/// The registers after steps `lo .. hi` starting from `r`.
pub open spec fn run_steps(r: Regs, x: Seq<u32>, lo: int, hi: int) -> Regs
    decreases hi - lo,
{
    if hi <= lo {
        r
    } else {
        step(run_steps(r, x, lo, hi - 1), x, hi - 1)
    }
}

/// Each register added to its counterpart, modulo 2^32.
pub open spec fn add_regs(r: Regs, e: Regs) -> Regs {
    (r.0.wrapping_add(e.0), r.1.wrapping_add(e.1), r.2.wrapping_add(e.2), r.3.wrapping_add(e.3))
}

/// One block folded into the running state.
pub open spec fn compress(r: Regs, x: Seq<u32>) -> Regs {
    add_regs(r, run_steps(r, x, 0, 64))
}

/// The state after the first `n` blocks of the padded message `p`.
pub open spec fn state_after(p: Seq<u8>, n: nat) -> Regs
    decreases n,
{
    if n == 0 {
        initial_regs()
    } else {
        compress(state_after(p, (n - 1) as nat), block_words(p, n - 1))
    }
}

// ---------------------------------------------------------------------------
// The digest.
// ---------------------------------------------------------------------------

/// Bytes of `w`, least significant first.
pub open spec fn le_bytes_u32(w: u32) -> Seq<u8> {
    seq![
        (w % 0x100) as u8,
        ((w / 0x100) % 0x100) as u8,
        ((w / 0x1_0000) % 0x100) as u8,
        ((w / 0x100_0000) % 0x100) as u8,
    ]
}

/// The sixteen digest bytes: the registers in order, each least significant
/// byte first.
pub open spec fn regs_bytes(r: Regs) -> Seq<u8> {
    le_bytes_u32(r.0) + le_bytes_u32(r.1) + le_bytes_u32(r.2) + le_bytes_u32(r.3)
}

/// The MD5 digest of `msg`.
pub open spec fn md5_digest(msg: Seq<u8>) -> Seq<u8> {
    let p = padded(msg);
    regs_bytes(state_after(p, p.len() / 64))
}

/// Lowercase hexadecimal digit of `n < 16`.
pub open spec fn hex_digit(n: u8) -> char {
    if n < 10 {
        (('0' as u8) + n) as char
    } else {
        (('a' as u8) + (n - 10)) as char
    }
}

/// Two lowercase hexadecimal digits per byte, high nibble first.
pub open spec fn hex_of(b: Seq<u8>) -> Seq<char> {
    Seq::new(
        2 * b.len(),
        |k: int|
            if k % 2 == 0 {
                hex_digit(b[k / 2] / 16)
            } else {
                hex_digit(b[k / 2] % 16)
            },
    )
}

/// The digest of `msg` as text: `0x` and 32 lowercase hexadecimal digits.
pub open spec fn md5_hex(msg: Seq<u8>) -> Seq<char> {
    seq!['0', 'x'] + hex_of(md5_digest(msg))
}

// ---------------------------------------------------------------------------
// Properties.
// ---------------------------------------------------------------------------

/// The padded message fills whole 64-byte blocks.
pub proof fn lemma_padded_len(msg: Seq<u8>)
    ensures
        padded(msg).len() == msg.len() + 1 + zero_fill_len(msg.len()) + 8,
        padded(msg).len() % 64 == 0,
{
}

/// The last eight bytes of the padded message, read least significant
/// first, are the message length in bits modulo 2^64.
pub proof fn lemma_padded_suffix(msg: Seq<u8>)
    ensures
        le_value_u64(padded(msg).subrange(padded(msg).len() - 8, padded(msg).len() as int)) == (
        msg.len() * 8) % 0x1_0000_0000_0000_0000,
{
    let p = padded(msg);
    let v = bit_length(msg.len());
    assert(p.subrange(p.len() - 8, p.len() as int) =~= le_bytes_u64(v));
    lemma_le_value_u64(v);
}

proof fn lemma_le_value_u64(v: u64)
    ensures
        le_value_u64(le_bytes_u64(v)) == v,
{
    assert((v % 0x100) + 0x100 * ((v / 0x100) % 0x100) + 0x1_0000 * ((v / 0x1_0000) % 0x100)
        + 0x100_0000 * ((v / 0x100_0000) % 0x100) + 0x1_0000_0000 * ((v / 0x1_0000_0000) % 0x100)
        + 0x100_0000_0000 * ((v / 0x100_0000_0000) % 0x100) + 0x1_0000_0000_0000 * ((v
        / 0x1_0000_0000_0000) % 0x100) + 0x100_0000_0000_0000 * ((v / 0x100_0000_0000_0000)
        % 0x100) == v) by (bit_vector);
}

/// The digest is a function of the input alone: equal inputs give equal
/// digests, however often it is computed.
pub proof fn lemma_hash_deterministic(x: Seq<u8>, y: Seq<u8>)
    requires
        x == y,
    ensures
        md5_digest(x) == md5_digest(y),
        md5_hex(x) == md5_hex(y),
{
}

/// Running steps `lo .. mid` and then `mid .. hi` is running `lo .. hi`.
pub proof fn lemma_run_steps_split(r: Regs, x: Seq<u32>, lo: int, mid: int, hi: int)
    requires
        lo <= mid <= hi,
    ensures
        run_steps(run_steps(r, x, lo, mid), x, mid, hi) == run_steps(r, x, lo, hi),
    decreases hi - mid,
{
    if hi > mid {
        lemma_run_steps_split(r, x, lo, mid, hi - 1);
    }
}

} // verus!
