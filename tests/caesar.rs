use crypto_primitives::bruteforce::{count_words, parse_word_list};
use crypto_primitives::{BruteForce, Caesar, Cipher};

#[test]
fn test_encrypt_sd_1() {
    let caesar = Caesar::new(1);
    let plain_text = "HELLO WORLD";
    let encrypted = caesar.encrypt(plain_text);

    assert_eq!(encrypted, "IFMMP XPSME");
}

#[test]
fn test_encrypt_sd_0() {
    let caesar = Caesar::new(0);
    let plain_text = "HELLO WORLD";
    let encrypted = caesar.encrypt(plain_text);

    assert_eq!(encrypted, "HELLO WORLD");
}

#[test]
fn test_encrypt_sd_53() {
    let caesar = Caesar::new(53);
    let plain_text = "HELLO WORLD";
    let encrypted = caesar.encrypt(plain_text);

    assert_eq!(encrypted, "IFMMP XPSME");
}

#[test]
fn test_decrypt_sd_1() {
    let caesar = Caesar::new(1);
    let cipher_text = "IFMMP XPSME";
    let decrypted = caesar.decrypt(cipher_text);

    assert_eq!(decrypted, "HELLO WORLD");
}

#[test]
fn test_decrypt_sd_0() {
    let caesar = Caesar::new(0);
    let cipher_text = "HELLO WORLD";
    let decrypted = caesar.decrypt(cipher_text);

    assert_eq!(decrypted, "HELLO WORLD");
}

#[test]
fn test_decrypt_sd_53() {
    let caesar = Caesar::new(53);
    let cipher_text = "IFMMP XPSME";
    let decrypted = caesar.decrypt(cipher_text);

    assert_eq!(decrypted, "HELLO WORLD");
}

#[test]
fn new_keeps_the_distance() {
    assert_eq!(Caesar::new(53).shift_distance, 53);
    assert_eq!(Caesar::new(26).encrypt("ABC XYZ"), "ABC XYZ");
}

#[test]
fn encrypt_wraps_past_z() {
    assert_eq!(Caesar::new(3).encrypt("XYZ"), "ABC");
    assert_eq!(Caesar::new(25).encrypt("A"), "Z");
    assert_eq!(Caesar::new(3).decrypt("ABC"), "XYZ");
}

#[test]
fn other_characters_pass_through() {
    let caesar = Caesar::new(4);
    assert_eq!(caesar.encrypt("hello, World! é€"), "hello, Aorld! é€");
    assert_eq!(caesar.decrypt("hello, Aorld! é€"), "hello, World! é€");
    assert_eq!(caesar.encrypt(""), "");
}

#[test]
fn decrypt_undoes_encrypt() {
    let text = "THE QUICK BROWN FOX JUMPS OVER THE LAZY DOG - 123 ünïcödé";
    for k in 0..60usize {
        let caesar = Caesar::new(k);
        assert_eq!(caesar.decrypt(&caesar.encrypt(text)), text);
    }
}

fn words(list: &[&str]) -> Vec<String> {
    list.iter().map(|w| w.to_string()).collect()
}

#[test]
fn count_words_counts_entries_found() {
    let list = words(&["THE", "DOG", "CAT", "HE"]);
    assert_eq!(count_words("THE DOG", &list), 3);
    assert_eq!(count_words("", &list), 0);
    assert_eq!(count_words("ANYTHING", &[]), 0);
}

#[test]
fn test_brute_force_short() {
    // a few common English words stand in for the word list file
    let word_list = parse_word_list("the\nof\nand\ninstant\nenemy\nto\nin\n");
    let caesar = Caesar::new(3);
    let expected = "instant enemy".to_ascii_uppercase();
    let cipher_text = caesar.encrypt(&expected);
    let result = caesar.brute_force(&cipher_text, &word_list);
    assert_eq!(result, expected);
}

#[test]
fn brute_force_does_not_depend_on_the_key() {
    let expected = "INSTANT ENEMY";
    let cipher_text = Caesar::new(3).encrypt(expected);
    let list = words(&["INSTANT", "ENEMY", "THE", "AND"]);
    assert_eq!(Caesar::new(11).brute_force(&cipher_text, &list), expected);
}

#[test]
fn brute_force_prefers_the_larger_shift_on_ties() {
    // no word matches any candidate: every score is 0, and shift 24 wins
    let cipher_text = "ABC";
    assert_eq!(Caesar::new(0).brute_force(cipher_text, &[]), Caesar::new(24).decrypt(cipher_text));
}

#[test]
fn brute_force_does_not_try_shift_25() {
    let plain = "HELLO";
    let cipher_text = Caesar::new(25).encrypt(plain);
    let list = words(&["HELLO"]);
    assert_ne!(Caesar::new(0).brute_force(&cipher_text, &list), plain);
}

#[test]
fn parse_word_list_splits_lines_and_uppercases() {
    let words = parse_word_list("the\nOf\r\nand\n\nthe\nAnd\nlast");
    assert_eq!(words, vec!["THE", "OF", "AND", "", "LAST"]);
    assert_eq!(parse_word_list(""), Vec::<String>::new());
    assert_eq!(parse_word_list("one\n"), vec!["ONE"]);
    // only ASCII letters change case; a carriage return without a line feed stays
    assert_eq!(parse_word_list("é\r"), vec!["é\r"]);
}

#[test]
fn brute_force_with_parsed_word_list() {
    let list = parse_word_list("instant\nenemy\nthe\n");
    let cipher_text = Caesar::new(7).encrypt("THE INSTANT ENEMY");
    assert_eq!(Caesar::new(0).brute_force(&cipher_text, &list), "THE INSTANT ENEMY");
}
