use ghostprompt::text::{contains_chars, is_blank, is_whitespace_char, to_chars, trim_end_matches_char};

#[test]
fn blank_strings() {
    assert!(is_blank(""));
    assert!(is_blank(" \t\r\n"));
    assert!(is_blank("\u{a0}\u{2003}\u{3000}\u{85}"));
    assert!(!is_blank(" a "));
    assert!(!is_blank("\u{200b}"));
}

#[test]
fn whitespace_agrees_with_std() {
    for u in 0u32..0x3100 {
        if let Some(c) = char::from_u32(u) {
            assert_eq!(is_whitespace_char(c), c.is_whitespace(), "{:x}", u);
        }
    }
}

#[test]
fn trailing_slashes_removed() {
    assert_eq!(trim_end_matches_char("https://a/v1///", '/'), "https://a/v1");
    assert_eq!(trim_end_matches_char("///", '/'), "");
    assert_eq!(trim_end_matches_char("a/b", '/'), "a/b");
}

#[test]
fn substring_search() {
    let hay = to_chars("Stereo Mix (Realtek)");
    assert!(contains_chars(&hay, &to_chars("Mix")));
    assert!(contains_chars(&hay, &to_chars("")));
    assert!(!contains_chars(&hay, &to_chars("mix")));
    assert!(!contains_chars(&to_chars("ab"), &to_chars("abc")));
}
