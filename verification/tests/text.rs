use omasprite::text::{blank, same_text, text_before, trim};

#[test]
fn trimming_matches_unicode_whitespace() {
    assert_eq!(trim("  Snow Village \t\n"), "Snow Village");
    assert_eq!(trim("\u{3000}x\u{2028}"), "x");
    assert_eq!(trim("   "), "");
    assert!(blank(" \u{a0}\u{205f}"));
    assert!(!blank(" a "));
    assert!(blank(""));
}

#[test]
fn texts_compare_like_strings() {
    assert!(same_text("main", "main"));
    assert!(!same_text("main", "mains"));
    assert!(text_before("interior", "main"));
    assert!(text_before("main", "mains"));
    assert!(!text_before("main", "main"));
    assert!(text_before("Zed", "apple"));
    assert_eq!(text_before("é", "z"), "é" < "z");
}
