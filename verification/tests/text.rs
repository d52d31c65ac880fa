use simplicityhl::text::{
    append_copies, byte_len, decimal_text, find, is_white, same_text, starts_with, trim,
    trim_end, trim_start,
};

#[test]
fn white_space_is_that_of_the_standard_library() {
    for n in 0..=0x10ffff_u32 {
        if let Some(c) = char::from_u32(n) {
            assert_eq!(is_white(c), c.is_whitespace(), "{n:x}");
        }
    }
}

#[test]
fn trimming_is_that_of_the_standard_library() {
    for s in ["", " ", "a", " a ", "\t\u{3000}é b\u{85}\n", "\u{200b} x"] {
        assert_eq!(trim(s), s.trim());
        assert_eq!(trim_start(s), s.trim_start());
        assert_eq!(trim_end(s), s.trim_end());
        assert_eq!(byte_len(s), s.len());
    }
}

#[test]
fn searching_counts_characters() {
    assert_eq!(find("aéb", 'b'), Some(2));
    assert_eq!(find("aéb", 'c'), None);
    assert!(starts_with("éa", "é"));
    assert!(!starts_with("é", "éa"));
    assert!(same_text("é", "é"));
    assert!(!same_text("é", "e"));
}

#[test]
fn numbers_are_shown_in_decimal() {
    for n in [0, 9, 10, 99, 100, 1234567890, u64::MAX] {
        assert_eq!(decimal_text(n), n.to_string());
    }
    let mut s = "a".to_string();
    append_copies(&mut s, "é", 3);
    assert_eq!(s, "aééé");
}
