use crypto_primitives::md5::{bytes_to_u32_chunks, pad_input, SINE_TABLE};
use crypto_primitives::{Hasher, MD5};

fn le_u64(b: &[u8]) -> u64 {
    let mut v: u64 = 0;
    for (k, x) in b.iter().enumerate() {
        v |= (*x as u64) << (8 * k);
    }
    v
}

#[test]
fn test_pad_input() {
    let input = "hello";
    let padded = pad_input(input.as_bytes());
    assert_eq!(padded.len() % 64, 0);
}

#[test]
fn test_bytes_to_u32_chunks() {
    let input: Vec<u8> = vec![0x01, 0x02, 0x03, 0x04, 0x05, 0x06, 0x07, 0x08];
    let output = bytes_to_u32_chunks(&input);
    assert_eq!(output, vec![0x04030201, 0x08070605]);
}

#[test]
fn test_hash_empty() {
    let text = "";
    let md5 = MD5 {};
    assert_eq!(md5.hash(text.as_bytes()), "0xd41d8cd98f00b204e9800998ecf8427e");
}

#[test]
fn test_hash_a() {
    let text = "a";
    let md5 = MD5 {};
    assert_eq!(md5.hash(text.as_bytes()), "0x0cc175b9c0f1b6a831c399e269772661");
}

#[test]
fn test_hash_abc() {
    let text = "abc";
    let md5 = MD5 {};
    assert_eq!(md5.hash(text.as_bytes()), "0x900150983cd24fb0d6963f7d28e17f72");
}

#[test]
fn test_hash_long() {
    let text = "12345678901234567890123456789012345678901234567890123456789012345678901234567890";
    let md5 = MD5 {};
    assert_eq!(md5.hash(text.as_bytes()), "0x57edf4a22be3c955ac49da2e2107b67a");
}

#[test]
fn test_hash_longer() {
    let text = "Hello everyone, I am learning crypto by learning resources online but also in \
                books. Here is my implementation of the MD5 algorithm. And here is some \
                gibberish to verify that it works as expected! \
                aoirsetnariosetjazutzunuzntarsnt iarntuarntiezfnfp ulnt iearn132 424 23 \
                zustnu&lj'è çé_ è'çéj'çé_è rsietn _çéè'çé_' uzj'ç_éèj rs nt_çéè'én";
    let md5 = MD5 {};
    assert_eq!(md5.hash(text.as_bytes()), "0xc060ab56adf028acdc4d1f3a2e71c553");
}

#[test]
fn sine_table_matches_formula() {
    assert_eq!(SINE_TABLE.len(), 65);
    let coefficient: f64 = (2f64).powf(32.0);
    for k in 1..=64usize {
        let expected = (coefficient * (k as f64).sin().abs()) as u32;
        assert_eq!(SINE_TABLE[k], expected, "entry {}", k);
    }
}

#[test]
fn padded_length_is_whole_blocks() {
    for n in 0..300usize {
        let input: Vec<u8> = (0..n).map(|i| (i * 31 + 7) as u8).collect();
        let padded = pad_input(&input);
        assert_eq!(padded.len() % 64, 0, "length {}", n);
        assert!(padded.len() >= n + 9 && padded.len() < n + 9 + 64, "length {}", n);
        assert_eq!(&padded[..n], &input[..]);
        assert_eq!(padded[n], 0x80);
        assert!(padded[n + 1..padded.len() - 8].iter().all(|b| *b == 0));
    }
}

#[test]
fn padded_suffix_is_bit_length() {
    for n in [0usize, 1, 5, 55, 56, 63, 64, 100, 1000] {
        let input = vec![0xabu8; n];
        let padded = pad_input(&input);
        let suffix = &padded[padded.len() - 8..];
        assert_eq!(le_u64(suffix), (n as u64) * 8, "length {}", n);
    }
    let padded = pad_input(&[0u8; 300]);
    assert_eq!(&padded[padded.len() - 8..], &[0x60, 0x09, 0, 0, 0, 0, 0, 0]);
}

#[test]
fn padding_boundary_55_and_56() {
    assert_eq!(pad_input(&[0x61u8; 55]).len(), 64);
    assert_eq!(pad_input(&[0x61u8; 56]).len(), 128);
    let md5 = MD5 {};
    assert_eq!(md5.hash(&[0x61u8; 55]), "0xef1772b6dff9a122358552954ad0df65");
    assert_eq!(md5.hash(&[0x61u8; 56]), "0x3b0c8ac703f828b04c6c197006d17218");
}

#[test]
fn digests_at_block_boundaries() {
    let md5 = MD5 {};
    let cases = [
        (55usize, "0x52c0e574e1198de5fe3f8f11440dcb1b"),
        (56, "0x46c9907fc908ee68b1e7b8e71286a518"),
        (63, "0xa62f6d59e837867693f042f5b8f5a236"),
        (64, "0x7160b8fb5e9e4023d549c3971fbaeead"),
        (119, "0xe84905d4214f4d1ca56c2cdcc152b143"),
        (120, "0xe3eb5a6c8669ea01a8c185b8abc8a5dc"),
    ];
    for (n, expected) in cases {
        let input: Vec<u8> = (0..n).map(|i| ((i * 7 + 3) % 256) as u8).collect();
        assert_eq!(md5.hash(&input), expected, "length {}", n);
    }
}

#[test]
fn hash_is_deterministic() {
    let md5 = MD5 {};
    let input = b"The quick brown fox jumps over the lazy dog";
    let first = md5.hash(input);
    let second = md5.hash(input);
    assert_eq!(first, second);
    assert_eq!(first, "0x9e107d9d372bb6826bd81d3542a419d6");
    assert_eq!(MD5 {}.hash(&input.to_vec()), first);
}

#[test]
fn single_bit_flips_change_the_digest() {
    let md5 = MD5 {};
    let inputs: [&[u8]; 3] = [b"abc", b"The quick brown fox jumps over the lazy dog", &[0u8; 70]];
    for input in inputs {
        let base = md5.hash(input);
        for bit in 0..input.len() * 8 {
            let mut flipped = input.to_vec();
            flipped[bit / 8] ^= 1 << (bit % 8);
            assert_ne!(md5.hash(&flipped), base, "bit {}", bit);
        }
    }
    assert_eq!(
        md5.hash(b"The quick brown fox jumps over the lazy cog"),
        "0x1055d3e698d289f2af8663725127bd4b"
    );
}

#[test]
fn hash_accepts_bytes_that_are_not_text() {
    let md5 = MD5 {};
    assert_eq!(md5.hash(&[0xff, 0xfe, 0x00, 0x80]), "0xbefdd6d5dd41ec321ab57139806edbb1");
}

#[test]
fn digest_bytes_and_text_agree() {
    let bytes = MD5 {}.digest(b"abc");
    assert_eq!(
        bytes,
        vec![0x90, 0x01, 0x50, 0x98, 0x3c, 0xd2, 0x4f, 0xb0, 0xd6, 0x96, 0x3f, 0x7d, 0x28, 0xe1, 0x7f, 0x72]
    );
    let empty: String = MD5 {}.digest(b"").iter().map(|b| format!("{:02x}", b)).collect();
    assert_eq!(format!("0x{}", empty), MD5 {}.hash(b""));
}
