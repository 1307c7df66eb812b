use mod_launcher::digest::{matches_digest, verify};

#[test]
fn verify_accepts_the_digest_of_the_content() {
    assert!(verify(b"hello world", "2aae6c35c94fcfb415dbe95f408b9ce91ee846ed"));
    assert!(verify(b"abc", "a9993e364706816aba3e25717850c26c9cd0d89d"));
    assert!(verify(
        b"The quick brown fox jumps over the lazy dog",
        "2fd4e1c67a2d28fced849ee1bb76e7391b93eb12"
    ));
}

#[test]
fn verify_accepts_the_digest_of_the_empty_content() {
    assert!(verify(b"", "da39a3ee5e6b4b0d3255bfef95601890afd80709"));
}

#[test]
fn verify_ignores_letter_case() {
    assert!(verify(b"hello world", "2AAE6C35C94FCFB415DBE95F408B9CE91EE846ED"));
    assert!(verify(b"hello world", "2aae6c35C94FCFB415dbe95f408b9ce91ee846ED"));
}

#[test]
fn verify_rejects_another_content() {
    assert!(!verify(b"hello world!", "2aae6c35c94fcfb415dbe95f408b9ce91ee846ed"));
    assert!(!verify(b"", "2aae6c35c94fcfb415dbe95f408b9ce91ee846ed"));
}

#[test]
fn verify_does_not_hand_the_content_back_as_its_digest() {
    // Forty hexadecimal characters as content are not their own digest.
    let text = "2aae6c35c94fcfb415dbe95f408b9ce91ee846ed";
    assert!(!verify(text.as_bytes(), text));
}

#[test]
fn verify_never_matches_a_malformed_digest() {
    let content = b"hello world";
    assert!(!verify(content, ""));
    assert!(!verify(content, "2aae6c35c94fcfb415dbe95f408b9ce91ee846e"));
    assert!(!verify(content, "2aae6c35c94fcfb415dbe95f408b9ce91ee846ed0"));
    assert!(!verify(content, "2aae6c35c94fcfb415dbe95f408b9ce91ee846eg"));
    assert!(!verify(content, " 2aae6c35c94fcfb415dbe95f408b9ce91ee846ed"));
    assert!(!verify(content, "zzzzzzzzzzzzzzzzzzzzzzzzzzzzzzzzzzzzzzzz"));
    assert!(!verify(content, "2aae6c35c94fcfb415dbe95f408b9ce91ee846e\u{ff44}"));
    assert!(!verify(content, "\u{e9}\u{e9}\u{e9}\u{e9}\u{e9}\u{e9}\u{e9}\u{e9}\u{e9}\u{e9}\u{e9}\u{e9}\u{e9}\u{e9}\u{e9}\u{e9}\u{e9}\u{e9}\u{e9}\u{e9}"));
}

#[test]
fn matches_digest_spells_bytes_high_half_first() {
    assert!(matches_digest(&[0xab, 0x09, 0xf0], "ab09f0"));
    assert!(matches_digest(&[0xab, 0x09, 0xf0], "AB09F0"));
    assert!(matches_digest(&[0x00, 0xff], "00ff"));
    assert!(!matches_digest(&[0xab, 0x09, 0xf0], "ba900f"));
    assert!(!matches_digest(&[0xab], "ac"));
    assert!(!matches_digest(&[0xab], "bb"));
}

#[test]
fn matches_digest_needs_two_characters_for_each_byte() {
    assert!(matches_digest(&[], ""));
    assert!(!matches_digest(&[], "00"));
    assert!(!matches_digest(&[0x00], ""));
    assert!(!matches_digest(&[0x00], "0"));
    assert!(!matches_digest(&[0x00], "000"));
}

#[test]
fn matches_digest_folds_only_ascii_capitals() {
    // '@' and '`' lie next to the letters and are no digits of any case.
    assert!(!matches_digest(&[0xaa], "@@"));
    assert!(!matches_digest(&[0xaa], "``"));
    assert!(!matches_digest(&[0xaa], "Gg"));
    assert!(matches_digest(&[0xaf], "aF"));
}
