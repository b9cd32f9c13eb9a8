use private_vault::text::{char_is_whitespace, escape_identifier, filled, is_blank, nonempty, optional_bytes, present, same_text, to_hex_lower, trim};

#[test]
fn trim_removes_unicode_whitespace_at_both_ends() {
    assert_eq!(trim("  abc \t\n"), "abc");
    assert_eq!(trim("\u{3000}名字\u{00A0}"), "名字");
    assert_eq!(trim("a b"), "a b");
    assert_eq!(trim("   "), "");
    assert_eq!(trim(""), "");
}

#[test]
fn trim_agrees_with_std() {
    for s in ["  x  ", "\u{2028}y", "z\u{205F}", "\u{85}\u{1680}", "plain", " \u{200B} "] {
        assert_eq!(trim(s), s.trim());
    }
}

#[test]
fn whitespace_matches_std_table() {
    for u in 0u32..0x3100 {
        if let Some(c) = char::from_u32(u) {
            assert_eq!(char_is_whitespace(c), c.is_whitespace(), "code point {u:#x}");
        }
    }
}

#[test]
fn blank_and_present_texts() {
    assert!(is_blank(" \t"));
    assert!(!is_blank(" a "));
    assert_eq!(nonempty(&Some(" ".to_string())), None);
    assert_eq!(nonempty(&Some(" x".to_string())), Some(" x"));
    assert_eq!(nonempty(&None), None);
    assert_eq!(present(&Some("\n".to_string())), None);
    assert_eq!(filled(&Some(" ".to_string())), Some(" ".to_string()));
    assert_eq!(filled(&Some(String::new())), None);
}

#[test]
fn optional_bytes_skips_empty_text() {
    assert_eq!(optional_bytes(&Some("ab".to_string())), Some("ab".as_bytes()));
    assert_eq!(optional_bytes(&Some(String::new())), None);
    assert_eq!(optional_bytes(&None), None);
}

#[test]
fn hex_is_lowercase_two_digits_per_byte() {
    assert_eq!(to_hex_lower(&[0x00, 0x0f, 0xa5, 0xff]), "000fa5ff");
    assert_eq!(to_hex_lower(&[]), "");
    let bytes: Vec<u8> = (0u8..=255).collect();
    let expected: String = bytes.iter().map(|b| format!("{b:02x}")).collect();
    assert_eq!(to_hex_lower(&bytes), expected);
}

#[test]
fn same_text_compares_characters() {
    assert!(same_text("密码", "密码"));
    assert!(!same_text("密码", "密"));
    assert!(!same_text("a", "b"));
}

#[test]
fn identifiers_double_their_quotes() {
    assert_eq!(escape_identifier("people"), "people");
    assert_eq!(escape_identifier("a\"b\"\""), "a\"\"b\"\"\"\"");
    assert_eq!(escape_identifier("表\""), "表\"\"");
    assert_eq!(escape_identifier(""), "");
}
