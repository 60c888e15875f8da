//! Recovering the plain text of a Caesar cipher text by trying the shifts and
//! scoring each candidate against a list of known words.

use vstd::prelude::*;

use crate::caesar::{unshift_text, Caesar};
use crate::cipher::Cipher;
use crate::text::push_char;

verus! {

/// A brute-force attack on a cipher.
pub trait BruteForce {
    /// The most likely plain text of `cipher_text`, judged by the words of
    /// `words` that each candidate contains.
    fn brute_force(&self, cipher_text: &str, words: &[String]) -> String;
}

/// `word` occurs in `text` as a run of consecutive characters.
pub open spec fn occurs_in(word: Seq<char>, text: Seq<char>) -> bool {
    exists|i: int|
        0 <= i <= text.len() - word.len() && #[trigger] text.subrange(i, i + word.len()) == word
}

/// Relies on `str::contains` with a `&str` pattern: true exactly when
/// `word` occurs in `text`.
#[verifier::external_body]
fn str_contains(text: &str, word: &str) -> (r: bool)
    ensures
        r == occurs_in(word@, text@),
{
    text.contains(word)
}

/// The number of entries of `words` that occur in `text`.
pub open spec fn score(text: Seq<char>, words: Seq<Seq<char>>) -> nat
    decreases words.len(),
{
    if words.len() == 0 {
        0
    } else {
        score(text, words.drop_last()) + if occurs_in(words.last(), text) {
            1nat
        } else {
            0nat
        }
    }
}

/// The text of each entry.
pub open spec fn views(words: Seq<String>) -> Seq<Seq<char>> {
    words.map_values(|w: String| w@)
}

/// The number of entries of `words` that occur in `text`.
pub fn count_words(text: &str, words: &[String]) -> (r: usize)
    ensures
        r == score(text@, views(words@)),
{
    let mut count: usize = 0;
    for i in 0..words.len()
        invariant
            count <= i,
            count == score(text@, views(words@.take(i as int))),
    {
        if str_contains(text, words[i].as_str()) {
            count = count + 1;
        }
        assert(views(words@.take(i + 1)).drop_last() =~= views(words@.take(i as int)));
    }
    assert(words@.take(words@.len() as int) =~= words@);
    count
}

/// The candidate plain text for shift `s`.
pub open spec fn candidate(cipher: Seq<char>, s: nat) -> Seq<char> {
    unshift_text(cipher, s)
}

/// Of the shifts `0 .. n`, the last one whose candidate scores highest.
pub open spec fn best_shift(cipher: Seq<char>, words: Seq<Seq<char>>, n: nat) -> nat
    decreases n,
{
    if n <= 1 {
        0
    } else {
        let b = best_shift(cipher, words, (n - 1) as nat);
        if score(candidate(cipher, (n - 1) as nat), words) >= score(candidate(cipher, b), words) {
            (n - 1) as nat
        } else {
            b
        }
    }
}

/// `best_shift` is a shift whose candidate scores highest, and the last
/// such shift.
pub proof fn lemma_best_shift(cipher: Seq<char>, words: Seq<Seq<char>>, n: nat)
    requires
        n >= 1,
    ensures
        best_shift(cipher, words, n) < n,
        forall|s: nat|
            s < n ==> #[trigger] score(candidate(cipher, s), words) <= score(
                candidate(cipher, best_shift(cipher, words, n)),
                words,
            ),
        forall|s: nat|
            best_shift(cipher, words, n) < s < n ==> #[trigger] score(candidate(cipher, s), words)
                < score(candidate(cipher, best_shift(cipher, words, n)), words),
    decreases n,
{
    if n > 1 {
        lemma_best_shift(cipher, words, (n - 1) as nat);
    }
}

/// The number of shifts tried: 0 to 24.
pub const SHIFTS_TRIED: usize = 25;

impl BruteForce for Caesar {
    /// Tries the shifts 0 to 24 and keeps the candidate that contains the
    /// most entries of `words`; of equal scores, the larger shift.
    fn brute_force(&self, cipher_text: &str, words: &[String]) -> (r: String)
        ensures
            r@ == candidate(cipher_text@, best_shift(cipher_text@, views(words@), SHIFTS_TRIED as nat)),
    {
        let ghost ws = views(words@);
        let mut best = Caesar::new(0).decrypt(cipher_text);
        let mut best_count = count_words(best.as_str(), words);
        let ghost mut best_s: nat = 0;
        for s in 1..SHIFTS_TRIED
            invariant
                ws == views(words@),
                best_s == best_shift(cipher_text@, ws, s as nat),
                best@ == candidate(cipher_text@, best_s),
                best_count == score(best@, ws),
        {
            let decoded = Caesar::new(s).decrypt(cipher_text);
            let count = count_words(decoded.as_str(), words);
            if count >= best_count {
                best = decoded;
                best_count = count;
                proof {
                    best_s = s as nat;
                }
            }
        }
        best
    }
}

// ---------------------------------------------------------------------------
// Word lists: one word per line, compared in uppercase, each word once.
// ---------------------------------------------------------------------------

/// ASCII lowercase letters in uppercase; every other character unchanged.
pub open spec fn ascii_upper(c: char) -> char {
    if 'a' <= c <= 'z' {
        (c as int - 32) as char
    } else {
        c
    }
}

/// `s` with its ASCII lowercase letters in uppercase.
pub open spec fn upper_text(s: Seq<char>) -> Seq<char> {
    s.map_values(|c: char| ascii_upper(c))
}

/// A line without its terminating carriage return, if it has one.
pub open spec fn strip_cr(line: Seq<char>) -> Seq<char> {
    if line.len() > 0 && line.last() == '\r' {
        line.drop_last()
    } else {
        line
    }
}

/// The lines of `s` that a line feed has ended, and the text after the
/// last line feed.
pub open spec fn line_split(s: Seq<char>) -> (Seq<Seq<char>>, Seq<char>)
    decreases s.len(),
{
    if s.len() == 0 {
        (seq![], seq![])
    } else {
        let (done, cur) = line_split(s.drop_last());
        if s.last() == '\n' {
            (done.push(strip_cr(cur)), seq![])
        } else {
            (done, cur.push(s.last()))
        }
    }
}

/// The lines of `s`: split at each line feed, each without a final carriage
/// return before the line feed; the text after the last line feed is a line
/// when it is not empty.
pub open spec fn lines_of(s: Seq<char>) -> Seq<Seq<char>> {
    let (done, cur) = line_split(s);
    if cur.len() == 0 {
        done
    } else {
        done.push(cur)
    }
}

/// The entries of `s` in order, each kept only where it first occurs.
pub open spec fn dedup(s: Seq<Seq<char>>) -> Seq<Seq<char>>
    decreases s.len(),
{
    if s.len() == 0 {
        seq![]
    } else {
        let d = dedup(s.drop_last());
        if d.contains(s.last()) {
            d
        } else {
            d.push(s.last())
        }
    }
}

/// The text of `chars`.
fn string_of(chars: &Vec<char>) -> (r: String)
    ensures
        r@ == chars@,
{
    let mut s = String::new();
    for k in 0..chars.len()
        invariant
            s@ == chars@.take(k as int),
    {
        push_char(&mut s, chars[k]);
        assert(chars@.take(k + 1) =~= chars@.take(k as int).push(chars@[k as int]));
    }
    assert(chars@.take(chars@.len() as int) =~= chars@);
    s
}

/// An entry occurs after a push exactly when it occurred before or is the
/// one pushed.
proof fn lemma_push_contains(s: Seq<Seq<char>>, x: Seq<char>, y: Seq<char>)
    ensures
        s.push(x).contains(y) <==> (s.contains(y) || x == y),
{
    if s.contains(y) {
        let k = choose|k: int| 0 <= k < s.len() && s[k] == y;
        assert(s.push(x)[k] == y);
    }
    if x == y {
        assert(s.push(x)[s.len() as int] == y);
    }
    if s.push(x).contains(y) && x != y {
        let k = choose|k: int| 0 <= k < s.len() + 1 && s.push(x)[k] == y;
        assert(s[k] == y);
    }
}

/// Adds `line` at the end of `words` unless it is there already.
fn add_word(words: &mut Vec<String>, line: &Vec<char>)
    ensures
        views(final(words)@) == if views(old(words)@).contains(line@) {
            views(old(words)@)
        } else {
            views(old(words)@).push(line@)
        },
{
    let word = string_of(line);
    let mut found = false;
    for t in 0..words.len()
        invariant
            word@ == line@,
            found == views(words@.take(t as int)).contains(line@),
    {
        proof {
            assert(views(words@.take(t + 1)) =~= views(words@.take(t as int)).push(words@[t as int]@));
            lemma_push_contains(views(words@.take(t as int)), words@[t as int]@, line@);
        }
        if words[t] == word {
            found = true;
        }
    }
    assert(words@.take(words@.len() as int) =~= words@);
    if !found {
        words.push(word);
        assert(views(words@) =~= views(old(words)@).push(line@));
    }
}

/// The distinct words of a word list, one per line, in uppercase, in the
/// order of their first occurrence.
pub fn parse_word_list(text: &str) -> (r: Vec<String>)
    ensures
        views(r@) == dedup(lines_of(upper_text(text@))),
{
    let mut words: Vec<String> = Vec::new();
    let mut cur: Vec<char> = Vec::new();
    for ch in it: text.chars()
        invariant
            it.seq() == text@,
            views(words@) == dedup(line_split(upper_text(it.seq().take(it.index() as int))).0),
            cur@ == line_split(upper_text(it.seq().take(it.index() as int))).1,
    {
        let ghost prefix = upper_text(it.seq().take(it.index() as int));
        let ghost next = upper_text(it.seq().take(it.index() + 1));
        let ghost (done, part) = line_split(prefix);
        assert(next.drop_last() =~= prefix);
        assert(next.last() == ascii_upper(ch));
        if ch == '\n' {
            let n = cur.len();
            if n > 0 && cur[n - 1] == '\r' {
                cur.truncate(n - 1);
            }
            assert(cur@ =~= strip_cr(part));
            add_word(&mut words, &cur);
            assert(done.push(strip_cr(part)).drop_last() =~= done);
            cur = Vec::new();
        } else {
            let up = if 'a' <= ch && ch <= 'z' {
                ((ch as u8) - 32) as char
            } else {
                ch
            };
            cur.push(up);
        }
        assert(line_split(next) == (if ch == '\n' {
            (done.push(strip_cr(part)), seq![])
        } else {
            (done, part.push(ascii_upper(ch)))
        }));
    }
    let ghost (done, part) = line_split(upper_text(text@));
    assert(text@.take(text@.len() as int) =~= text@);
    if cur.len() > 0 {
        add_word(&mut words, &cur);
        assert(done.push(part).drop_last() =~= done);
    }
    words
}

} // verus!
