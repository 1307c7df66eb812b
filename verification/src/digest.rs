//! Content digests: SHA-1 over a byte buffer, and the comparison of a digest
//! with the hexadecimal text a descriptor carries.

use sha1::{Digest, Sha1};
use vstd::prelude::*;
use vstd::string::*;
use vstd::utf8::is_ascii_chars;

verus! {

/// The SHA-1 digest of `data`, as computed by the `sha1` crate.
pub uninterp spec fn sha1_digest(data: Seq<u8>) -> Seq<u8>;

/// Calls `sha1::Sha1::digest` on the whole buffer. Trusted: the bytes that
/// come back are the SHA-1 digest of `data`, and there are twenty of them.
#[verifier::external_body]
fn compute_sha1(data: &[u8]) -> (digest: Vec<u8>)
    ensures
        digest@ == sha1_digest(data@),
        digest@.len() == 20,
{
    Sha1::digest(data).to_vec()
}

/// The lower-case hexadecimal digit for a value below sixteen.
pub open spec fn hex_digit(nibble: int) -> char {
    if nibble < 10 {
        ((48 + nibble) as u8) as char
    } else {
        ((87 + nibble) as u8) as char
    }
}

/// The character at position `i` of the hexadecimal form of `digest`: the
/// high half of a byte comes first.
pub open spec fn hex_char_at(digest: Seq<u8>, i: int) -> char {
    if i % 2 == 0 {
        hex_digit((digest[i / 2] / 16) as int)
    } else {
        hex_digit((digest[i / 2] % 16) as int)
    }
}

/// The lower-case hexadecimal form of `digest`, two characters per byte.
pub open spec fn to_hex(digest: Seq<u8>) -> Seq<char> {
    Seq::new(2 * digest.len(), |i: int| hex_char_at(digest, i))
}

/// `c` with an ASCII capital letter replaced by its small letter.
pub open spec fn ascii_lower(c: char) -> char {
    if 'A' <= c <= 'Z' {
        (((c as u8) + 32) as u8) as char
    } else {
        c
    }
}

/// `text` with every ASCII capital letter replaced by its small letter.
pub open spec fn normalize_case(text: Seq<char>) -> Seq<char> {
    Seq::new(text.len(), |i: int| ascii_lower(text[i]))
}

/// Whether `expected`, read without regard to letter case, is the
/// hexadecimal form of `digest`.
pub open spec fn digest_matches(digest: Seq<u8>, expected: Seq<char>) -> bool {
    normalize_case(expected) == to_hex(digest)
}

/// Whether the content `data` has the digest that `expected` spells out.
pub open spec fn content_is_valid(data: Seq<u8>, expected: Seq<char>) -> bool {
    digest_matches(sha1_digest(data), expected)
}

fn hex_byte(nibble: u8) -> (digit: u8)
    requires
        nibble < 16,
    ensures
        digit as char == hex_digit(nibble as int),
        digit < 128,
{
    if nibble < 10 {
        48 + nibble
    } else {
        87 + nibble
    }
}

fn lower_byte(byte: u8) -> (folded: u8)
    requires
        byte < 128,
    ensures
        folded as char == ascii_lower(byte as char),
        folded < 128,
{
    if 65 <= byte && byte <= 90 {
        byte + 32
    } else {
        byte
    }
}

/// A text that holds a character outside ASCII is the hexadecimal form of
/// no digest.
proof fn lemma_non_ascii_never_matches(digest: Seq<u8>, expected: Seq<char>)
    requires
        !is_ascii_chars(expected),
    ensures
        !digest_matches(digest, expected),
{
    let i = choose|i: int| 0 <= i < expected.len() && !('\0' <= #[trigger] expected[i] <= '\u{7f}');
    if digest_matches(digest, expected) {
        assert(normalize_case(expected).len() == to_hex(digest).len());
        assert(normalize_case(expected)[i] == to_hex(digest)[i]);
        assert(ascii_lower(expected[i]) == expected[i]);
        assert(to_hex(digest)[i] == hex_char_at(digest, i));
    }
}

/// Whether `c` is a hexadecimal digit of either letter case.
pub open spec fn is_hex_digit(c: char) -> bool {
    ||| '0' <= c <= '9'
    ||| 'a' <= c <= 'f'
    ||| 'A' <= c <= 'F'
}

/// A malformed text matches no digest: a text that matches a digest has
/// two characters for each byte of it, and each of them is a hexadecimal
/// digit.
pub proof fn lemma_match_needs_hex_digits(digest: Seq<u8>, expected: Seq<char>)
    requires
        digest_matches(digest, expected),
    ensures
        expected.len() == 2 * digest.len(),
        forall|i: int| 0 <= i < expected.len() ==> is_hex_digit(#[trigger] expected[i]),
{
    assert(normalize_case(expected).len() == to_hex(digest).len());
    assert forall|i: int| 0 <= i < expected.len() implies is_hex_digit(#[trigger] expected[i]) by {
        assert(normalize_case(expected)[i] == to_hex(digest)[i]);
        assert(ascii_lower(expected[i]) == hex_char_at(digest, i));
        let byte = digest[i / 2];
        assert(0 <= byte / 16 < 16 && 0 <= byte % 16 < 16);
    }
}

/// Compares a digest with the hexadecimal text that is expected for it.
/// Capital and small letters count as equal; a text of another length or
/// with any other character matches nothing.
pub fn matches_digest(digest: &[u8], expected: &str) -> (ok: bool)
    ensures
        ok == digest_matches(digest@, expected@),
{
    if !expected.is_ascii() {
        proof {
            lemma_non_ascii_never_matches(digest@, expected@);
        }
        return false;
    }
    proof {
        is_ascii_spec_bytes(expected);
    }
    let n: usize = expected.as_bytes().len();
    assert(n == expected@.len());
    if n % 2 != 0 || n / 2 != digest.len() {
        assert(normalize_case(expected@).len() != to_hex(digest@).len());
        return false;
    }
    let mut i: usize = 0;
    while i < digest.len()
        invariant
            i <= digest.len(),
            n == expected@.len(),
            n == 2 * digest@.len(),
            expected.is_ascii(),
            forall|k: int| 0 <= k < 2 * i ==> ascii_lower(expected@[k]) == hex_char_at(digest@, k),
        decreases digest.len() - i,
    {
        let byte: u8 = digest[i];
        let high: u8 = expected.get_ascii(2 * i);
        let low: u8 = expected.get_ascii(2 * i + 1);
        let ghost at: int = 2 * i;
        assert('\0' <= expected@[at] <= '\u{7f}');
        assert('\0' <= expected@[at + 1] <= '\u{7f}');
        assert(high as char == expected@[at]);
        assert(low as char == expected@[at + 1]);
        let high_ok: bool = lower_byte(high) == hex_byte(byte / 16);
        let low_ok: bool = lower_byte(low) == hex_byte(byte % 16);
        if !high_ok || !low_ok {
            proof {
                if !high_ok {
                    assert(normalize_case(expected@)[at] != to_hex(digest@)[at]);
                } else {
                    assert(normalize_case(expected@)[at + 1] != to_hex(digest@)[at + 1]);
                }
            }
            return false;
        }
        i = i + 1;
    }
    assert(normalize_case(expected@) =~= to_hex(digest@));
    true
}

/// Decides whether `data` is the content that `expected` names: computes the
/// SHA-1 digest of the whole buffer and compares its hexadecimal form with
/// `expected`, letter case aside.
pub fn verify(data: &[u8], expected: &str) -> (ok: bool)
    ensures
        ok == content_is_valid(data@, expected@),
{
    let digest = compute_sha1(data);
    matches_digest(digest.as_slice(), expected)
}

} // verus!
