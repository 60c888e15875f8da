//! The MD5 message digest: padding, block decoding, the four compression
//! rounds and the final serialisation, each proved against the model in
//! `md5_model`.

use vstd::prelude::*;
use vstd::slice::slice_to_vec;

use crate::hashing::Hasher;
use crate::md5_model::{
    aux_f, aux_g, aux_h, aux_i, bit_length, block_words, compress, hex_digit, hex_of,
    le_bytes_u32, le_bytes_u64, le_word, lemma_padded_len, lemma_run_steps_split, md5_digest,
    md5_hex, padded, rotl, run_steps, state_after, words_of, zero_fill_len, Regs,
};
use crate::text::push_char;

verus! {

// ---------------------------------------------------------------------------
// The constant table.
// ---------------------------------------------------------------------------

/// Entry `k` (1 to 64) is floor(|sin(k)| * 2^32), sin taken in radians in
/// double precision; entry 0 is unused, so that step `k` (counted from 1)
/// reads entry `k`.
pub const SINE_TABLE: [u32; 65] = [
    0,
    0xd76aa478, 0xe8c7b756, 0x242070db, 0xc1bdceee, 0xf57c0faf, 0x4787c62a, 0xa8304613, 0xfd469501,
    0x698098d8, 0x8b44f7af, 0xffff5bb1, 0x895cd7be, 0x6b901122, 0xfd987193, 0xa679438e, 0x49b40821,
    0xf61e2562, 0xc040b340, 0x265e5a51, 0xe9b6c7aa, 0xd62f105d, 0x02441453, 0xd8a1e681, 0xe7d3fbc8,
    0x21e1cde6, 0xc33707d6, 0xf4d50d87, 0x455a14ed, 0xa9e3e905, 0xfcefa3f8, 0x676f02d9, 0x8d2a4c8a,
    0xfffa3942, 0x8771f681, 0x6d9d6122, 0xfde5380c, 0xa4beea44, 0x4bdecfa9, 0xf6bb4b60, 0xbebfbc70,
    0x289b7ec6, 0xeaa127fa, 0xd4ef3085, 0x04881d05, 0xd9d4d039, 0xe6db99e5, 0x1fa27cf8, 0xc4ac5665,
    0xf4292244, 0x432aff97, 0xab9423a7, 0xfc93a039, 0x655b59c3, 0x8f0ccc92, 0xffeff47d, 0x85845dd1,
    0x6fa87e4f, 0xfe2ce6e0, 0xa3014314, 0x4e0811a1, 0xf7537e82, 0xbd3af235, 0x2ad7d2bb, 0xeb86d391,
];

// ---------------------------------------------------------------------------
// Preprocessing.
// ---------------------------------------------------------------------------

/// The eight bytes of `size`, least significant first.
fn u64_to_array_u8(size: u64) -> (r: [u8; 8])
    ensures
        r@ == le_bytes_u64(size),
{
    let mut bytes = [0u8; 8];
    for i in 0..8usize
        invariant
            bytes@.len() == 8,
            forall|k: int| 0 <= k < i ==> bytes@[k] == #[trigger] le_bytes_u64(size)[k],
    {
        // the byte of weight 2^(8 i) moved to the lowest position
        bytes[i] = (size >> ((i * 8) as u64)) as u8;
        proof {
            lemma_shifted_byte(size, i as u64);
        }
    }
    assert(bytes@ =~= le_bytes_u64(size));
    bytes
}

proof fn lemma_shifted_byte(v: u64, i: u64)
    requires
        i < 8,
    ensures
        (v >> (i * 8)) as u8 == le_bytes_u64(v)[i as int],
{
    assert(i == 0 ==> (v >> (i * 8)) as u8 == (v % 0x100) as u8) by (bit_vector);
    assert(i == 1 ==> (v >> (i * 8)) as u8 == ((v / 0x100) % 0x100) as u8) by (bit_vector);
    assert(i == 2 ==> (v >> (i * 8)) as u8 == ((v / 0x1_0000) % 0x100) as u8) by (bit_vector);
    assert(i == 3 ==> (v >> (i * 8)) as u8 == ((v / 0x100_0000) % 0x100) as u8) by (bit_vector);
    assert(i == 4 ==> (v >> (i * 8)) as u8 == ((v / 0x1_0000_0000) % 0x100) as u8) by (bit_vector);
    assert(i == 5 ==> (v >> (i * 8)) as u8 == ((v / 0x100_0000_0000) % 0x100) as u8)
        by (bit_vector);
    assert(i == 6 ==> (v >> (i * 8)) as u8 == ((v / 0x1_0000_0000_0000) % 0x100) as u8)
        by (bit_vector);
    assert(i == 7 ==> (v >> (i * 8)) as u8 == ((v / 0x100_0000_0000_0000) % 0x100) as u8)
        by (bit_vector);
}

/// Pads `input` for MD5: the byte 0x80, zero bytes until the length is 56
/// modulo 64, then the input's length in bits, modulo 2^64, as eight
/// little-endian bytes.
pub fn pad_input(input: &[u8]) -> (r: Vec<u8>)
    requires
        input@.len() <= isize::MAX,
    ensures
        r@ == padded(input@),
        r@.len() % 64 == 0,
{
    let n = input.len();
    let mut bytes = slice_to_vec(input);
    // the terminator: a single 1 bit followed by seven 0 bits
    bytes.push(0x80);
    let ghost z = zero_fill_len(n as nat);
    while bytes.len() % 64 != 56
        invariant
            n == input@.len(),
            n <= isize::MAX,
            z == zero_fill_len(n as nat),
            n + 1 <= bytes@.len() <= n + 1 + z,
            bytes@ == input@ + seq![0x80u8] + Seq::new(
                (bytes@.len() - n - 1) as nat,
                |k: int| 0u8,
            ),
        decreases n + 1 + z - bytes@.len(),
    {
        assert((n + 1 + z) % 64 == 56);
        bytes.push(0);
        assert(bytes@ =~= input@ + seq![0x80u8] + Seq::new(
            (bytes@.len() - n - 1) as nat,
            |k: int| 0u8,
        ));
    }
    assert(bytes@.len() == n + 1 + z);
    let size_in_bits = (n as u64).wrapping_mul(8);
    assert(size_in_bits == bit_length(n as nat));
    let suffix = u64_to_array_u8(size_in_bits);
    let ghost prefix = bytes@;
    for t in 0..8usize
        invariant
            suffix@ == le_bytes_u64(bit_length(n as nat)),
            bytes@ == prefix + suffix@.subrange(0, t as int),
    {
        bytes.push(suffix[t]);
        assert(bytes@ =~= prefix + suffix@.subrange(0, t + 1));
    }
    assert(bytes@ =~= padded(input@));
    proof {
        lemma_padded_len(input@);
    }
    bytes
}

// ---------------------------------------------------------------------------
// Block decoding.
// ---------------------------------------------------------------------------

proof fn lemma_le_word(b0: u8, b1: u8, b2: u8, b3: u8)
    ensures
        (b0 as u32) | ((b1 as u32) << 8) | ((b2 as u32) << 16) | ((b3 as u32) << 24) == le_word(
            b0,
            b1,
            b2,
            b3,
        ),
{
    assert((b0 as u32) | ((b1 as u32) << 8) | ((b2 as u32) << 16) | ((b3 as u32) << 24) == (b0
        as nat + 0x100 * b1 as nat + 0x1_0000 * b2 as nat + 0x100_0000 * b3 as nat) as u32)
        by (bit_vector);
}

/// Reads `bytes` as 32-bit words, each made of four consecutive bytes, least
/// significant first.
pub fn bytes_to_u32_chunks(bytes: &[u8]) -> (r: Vec<u32>)
    requires
        bytes@.len() % 4 == 0,
    ensures
        r@ == words_of(bytes@),
{
    let len = bytes.len();
    let n = len / 4;
    let mut chunks: Vec<u32> = Vec::with_capacity(n);
    for w in 0..n
        invariant
            len == bytes@.len(),
            n == len / 4,
            len == 4 * n,
            chunks@.len() == w,
            forall|k: int| 0 <= k < w ==> chunks@[k] == #[trigger] words_of(bytes@)[k],
    {
        let o = 4 * w;
        let word = (bytes[o] as u32) | ((bytes[o + 1] as u32) << 8) | ((bytes[o + 2] as u32) << 16)
            | ((bytes[o + 3] as u32) << 24);
        proof {
            lemma_le_word(bytes@[o as int], bytes@[o + 1], bytes@[o + 2], bytes@[o + 3]);
        }
        chunks.push(word);
    }
    assert(chunks@ =~= words_of(bytes@));
    chunks
}

// ---------------------------------------------------------------------------
// Compression.
// ---------------------------------------------------------------------------

/// Auxiliary function of round one: each bit of `y` or `z`, selected by `x`.
fn f(x: u32, y: u32, z: u32) -> (r: u32)
    ensures
        r == aux_f(x, y, z),
{
    x & y | !x & z
}

/// Auxiliary function of round two: each bit of `x` or `y`, selected by `z`.
fn g(x: u32, y: u32, z: u32) -> (r: u32)
    ensures
        r == aux_g(x, y, z),
{
    x & z | y & !z
}

/// Auxiliary function of round three: bitwise parity.
fn h(x: u32, y: u32, z: u32) -> (r: u32)
    ensures
        r == aux_h(x, y, z),
{
    x ^ y ^ z
}

/// Auxiliary function of round four.
fn i(x: u32, y: u32, z: u32) -> (r: u32)
    ensures
        r == aux_i(x, y, z),
{
    y ^ (x | !z)
}

/// The generic step: `b` plus the left rotation by `s` of
/// `a + fx + word + t`, every sum wrapping modulo 2^32.
fn round_op(a: u32, b: u32, fx: u32, word: u32, t: u32, s: u32) -> (r: u32)
    requires
        0 < s < 32,
    ensures
        r == b.wrapping_add(rotl(a.wrapping_add(fx).wrapping_add(word).wrapping_add(t), s)),
{
    let sum = a.wrapping_add(fx).wrapping_add(word).wrapping_add(t);
    b.wrapping_add((sum << s) | (sum >> (32 - s)))
}

/// Round one: steps 0 to 15, with `F`, the words in order and rotations
/// 7, 12, 17, 22.
fn round_1(a: u32, b: u32, c: u32, d: u32, x: &[u32]) -> (r: Regs)
    requires
        x@.len() == 16,
    ensures
        r == run_steps((a, b, c, d), x@, 0, 16),
{
    let ghost r0 = (a, b, c, d);
    let (mut a, mut b, mut c, mut d) = (a, b, c, d);
    for j in 0..16usize
        invariant
            x@.len() == 16,
            (a, b, c, d) == run_steps(r0, x@, 0, j as int),
    {
        let s: u32 = if j % 4 == 0 {
            7
        } else if j % 4 == 1 {
            12
        } else if j % 4 == 2 {
            17
        } else {
            22
        };
        let nb = round_op(a, b, f(b, c, d), x[j], SINE_TABLE[j + 1], s);
        let (na, nc, nd) = (d, b, c);
        a = na;
        b = nb;
        c = nc;
        d = nd;
    }
    (a, b, c, d)
}

/// Round two: steps 16 to 31, with `G`, every fifth word from word 1 and rotations
/// 5, 9, 14, 20.
fn round_2(a: u32, b: u32, c: u32, d: u32, x: &[u32]) -> (r: Regs)
    requires
        x@.len() == 16,
    ensures
        r == run_steps((a, b, c, d), x@, 16, 32),
{
    let ghost r0 = (a, b, c, d);
    let (mut a, mut b, mut c, mut d) = (a, b, c, d);
    for j in 0..16usize
        invariant
            x@.len() == 16,
            (a, b, c, d) == run_steps(r0, x@, 16, 16 + j),
    {
        let s: u32 = if j % 4 == 0 {
            5
        } else if j % 4 == 1 {
            9
        } else if j % 4 == 2 {
            14
        } else {
            20
        };
        let k = (1 + 5 * j) % 16;
        let nb = round_op(a, b, g(b, c, d), x[k], SINE_TABLE[17 + j], s);
        let (na, nc, nd) = (d, b, c);
        a = na;
        b = nb;
        c = nc;
        d = nd;
    }
    (a, b, c, d)
}

/// Round three: steps 32 to 47, with `H`, every third word from word 5 and rotations
/// 4, 11, 16, 23.
fn round_3(a: u32, b: u32, c: u32, d: u32, x: &[u32]) -> (r: Regs)
    requires
        x@.len() == 16,
    ensures
        r == run_steps((a, b, c, d), x@, 32, 48),
{
    let ghost r0 = (a, b, c, d);
    let (mut a, mut b, mut c, mut d) = (a, b, c, d);
    for j in 0..16usize
        invariant
            x@.len() == 16,
            (a, b, c, d) == run_steps(r0, x@, 32, 32 + j),
    {
        let s: u32 = if j % 4 == 0 {
            4
        } else if j % 4 == 1 {
            11
        } else if j % 4 == 2 {
            16
        } else {
            23
        };
        let k = (5 + 3 * j) % 16;
        let nb = round_op(a, b, h(b, c, d), x[k], SINE_TABLE[33 + j], s);
        let (na, nc, nd) = (d, b, c);
        a = na;
        b = nb;
        c = nc;
        d = nd;
    }
    (a, b, c, d)
}

/// Round four: steps 48 to 63, with `I`, every seventh word from word 0 and rotations
/// 6, 10, 15, 21.
fn round_4(a: u32, b: u32, c: u32, d: u32, x: &[u32]) -> (r: Regs)
    requires
        x@.len() == 16,
    ensures
        r == run_steps((a, b, c, d), x@, 48, 64),
{
    let ghost r0 = (a, b, c, d);
    let (mut a, mut b, mut c, mut d) = (a, b, c, d);
    for j in 0..16usize
        invariant
            x@.len() == 16,
            (a, b, c, d) == run_steps(r0, x@, 48, 48 + j),
    {
        let s: u32 = if j % 4 == 0 {
            6
        } else if j % 4 == 1 {
            10
        } else if j % 4 == 2 {
            15
        } else {
            21
        };
        let k = (7 * j) % 16;
        let nb = round_op(a, b, i(b, c, d), x[k], SINE_TABLE[49 + j], s);
        let (na, nc, nd) = (d, b, c);
        a = na;
        b = nb;
        c = nc;
        d = nd;
    }
    (a, b, c, d)
}

/// One block folded into the registers: the four rounds, then each register
/// added to its value before the block.
fn compress_block(a: u32, b: u32, c: u32, d: u32, x: &[u32]) -> (r: Regs)
    requires
        x@.len() == 16,
    ensures
        r == compress((a, b, c, d), x@),
{
    let (a1, b1, c1, d1) = round_1(a, b, c, d, x);
    let (a2, b2, c2, d2) = round_2(a1, b1, c1, d1, x);
    let (a3, b3, c3, d3) = round_3(a2, b2, c2, d2, x);
    let (a4, b4, c4, d4) = round_4(a3, b3, c3, d3, x);
    proof {
        lemma_run_steps_split((a, b, c, d), x@, 0, 16, 32);
        lemma_run_steps_split((a, b, c, d), x@, 0, 32, 48);
        lemma_run_steps_split((a, b, c, d), x@, 0, 48, 64);
    }
    (a.wrapping_add(a4), b.wrapping_add(b4), c.wrapping_add(c4), d.wrapping_add(d4))
}

/// The registers after every block of a padded message.
fn process_blocks(msg: &[u8]) -> (r: Regs)
    requires
        msg@.len() % 64 == 0,
    ensures
        r == state_after(msg@, msg@.len() / 64),
{
    let words = bytes_to_u32_chunks(msg);
    let len = msg.len();
    let nblocks = len / 64;
    assert(words@.len() == 16 * nblocks);
    let (mut a, mut b, mut c, mut d) = (0x67452301u32, 0xefcdab89u32, 0x98badcfeu32, 0x10325476u32);
    for j in 0..nblocks
        invariant
            len == msg@.len(),
            nblocks == len / 64,
            words@ == words_of(msg@),
            words@.len() == 16 * nblocks,
            (a, b, c, d) == state_after(msg@, j as nat),
    {
        let x = &words.as_slice()[16 * j..16 * j + 16];
        assert(x@ == block_words(msg@, j as int));
        let (na, nb, nc, nd) = compress_block(a, b, c, d, x);
        a = na;
        b = nb;
        c = nc;
        d = nd;
    }
    (a, b, c, d)
}

// ---------------------------------------------------------------------------
// The digest.
// ---------------------------------------------------------------------------

proof fn lemma_le_bytes_u32(w: u32)
    ensures
        le_bytes_u32(w) == seq![w as u8, (w >> 8) as u8, (w >> 16) as u8, (w >> 24) as u8],
{
    assert(w as u8 == (w % 0x100) as u8 && (w >> 8) as u8 == ((w / 0x100) % 0x100) as u8 && (w
        >> 16) as u8 == ((w / 0x1_0000) % 0x100) as u8 && (w >> 24) as u8 == ((w / 0x100_0000)
        % 0x100) as u8) by (bit_vector);
    assert(le_bytes_u32(w) =~= seq![w as u8, (w >> 8) as u8, (w >> 16) as u8, (w >> 24) as u8]);
}

/// Appends the four bytes of `w`, least significant first.
fn push_le_bytes(out: &mut Vec<u8>, w: u32)
    ensures
        final(out)@ == old(out)@ + le_bytes_u32(w),
{
    proof {
        lemma_le_bytes_u32(w);
    }
    out.push(w as u8);
    out.push((w >> 8) as u8);
    out.push((w >> 16) as u8);
    out.push((w >> 24) as u8);
    assert(final(out)@ =~= old(out)@ + le_bytes_u32(w));
}

/// The sixteen bytes of the MD5 digest of `input`.
fn compute_digest(input: &[u8]) -> (r: Vec<u8>)
    requires
        input@.len() <= isize::MAX,
    ensures
        r@ == md5_digest(input@),
        r@.len() == 16,
{
    let msg = pad_input(input);
    let (a, b, c, d) = process_blocks(msg.as_slice());
    let mut out: Vec<u8> = Vec::with_capacity(16);
    push_le_bytes(&mut out, a);
    push_le_bytes(&mut out, b);
    push_le_bytes(&mut out, c);
    push_le_bytes(&mut out, d);
    out
}

/// The lowercase hexadecimal digit of `n`.
fn hex_char(n: u8) -> (r: char)
    requires
        n < 16,
    ensures
        r == hex_digit(n),
{
    // 48 is the code of '0', 97 the code of 'a'
    if n < 10 {
        (48u8 + n) as char
    } else {
        (97u8 + (n - 10)) as char
    }
}

/// `0x` followed by two lowercase hexadecimal digits per byte.
fn to_hex(bytes: &[u8]) -> (r: String)
    ensures
        r@ == seq!['0', 'x'] + hex_of(bytes@),
{
    let mut s = String::new();
    push_char(&mut s, '0');
    push_char(&mut s, 'x');
    for k in 0..bytes.len()
        invariant
            s@ == seq!['0', 'x'] + hex_of(bytes@.subrange(0, k as int)),
    {
        let byte = bytes[k];
        assert(byte >> 4 == byte / 16 && byte & 0xf == byte % 16) by (bit_vector);
        push_char(&mut s, hex_char(byte >> 4));
        push_char(&mut s, hex_char(byte & 0xf));
        assert(hex_of(bytes@.subrange(0, k + 1)) =~= hex_of(bytes@.subrange(0, k as int)) + seq![
            hex_digit(byte / 16),
            hex_digit(byte % 16),
        ]);
    }
    assert(bytes@.subrange(0, bytes@.len() as int) =~= bytes@);
    s
}

/// The MD5 message digest.
pub struct MD5 {}

impl MD5 {
    /// The sixteen bytes of the digest of `input`.
    pub fn digest(&self, input: &[u8]) -> (r: Vec<u8>)
        requires
            input@.len() <= isize::MAX,
        ensures
            r@ == md5_digest(input@),
            r@.len() == 16,
    {
        compute_digest(input)
    }
}

impl Hasher for MD5 {
    /// `0x` and the 32 lowercase hexadecimal digits of the digest of `input`.
    fn hash(&self, input: &[u8]) -> (r: String)
        ensures
            r@ == md5_hex(input@),
    {
        to_hex(compute_digest(input).as_slice())
    }
}

} // verus!
