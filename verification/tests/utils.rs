use telembed::qa::utils::{get_question_hash, starts_with, HASH_LEN};

#[test]
fn question_hash_is_sha256_in_lower_hex() {
    assert_eq!(
        get_question_hash("hello"),
        "2cf24dba5fb0a30e26e83b2ac5b9e29e1b161e5c1fa7425e73043362938b9824"
    );
    assert_eq!(
        get_question_hash(""),
        "e3b0c44298fc1c149afbf4c8996fb92427ae41e4649b934ca495991b7852b855"
    );
}

#[test]
fn question_hash_covers_the_utf8_bytes() {
    // "é" is the two bytes c3 a9 in UTF-8.
    assert_eq!(
        get_question_hash("é"),
        "4a99557e4033c3539de2eb65472017cad5f9557f7a0625a09f1c3f6e2ba69c4c"
    );
}

#[test]
fn question_hash_has_the_shape_of_a_hash() {
    for text in ["", "a", "What is Rust?", "如何安装？"] {
        let hash = get_question_hash(text);
        assert_eq!(hash.chars().count(), HASH_LEN);
        assert!(hash.chars().all(|c| c.is_ascii_digit() || ('a'..='f').contains(&c)));
    }
}

#[test]
fn question_hash_is_consistent() {
    assert_eq!(get_question_hash("q1"), get_question_hash("q1"));
}

#[test]
fn question_hash_is_sensitive_to_the_text() {
    assert_ne!(get_question_hash("q1"), get_question_hash("q2"));
    assert_ne!(get_question_hash("q1"), get_question_hash("q1 "));
    assert_ne!(get_question_hash("q1"), get_question_hash("Q1"));
}

#[test]
fn starts_with_compares_characters() {
    assert!(starts_with("abcdef", ""));
    assert!(starts_with("abcdef", "abc"));
    assert!(starts_with("abcdef", "abcdef"));
    assert!(!starts_with("abcdef", "abd"));
    assert!(!starts_with("abc", "abcd"));
    assert!(!starts_with("", "a"));
    assert!(starts_with("", ""));
    assert!(starts_with("äöü", "äö"));
    assert!(!starts_with("äöü", "ä\u{6f}"));
}
