use adequate_booru_viewer::panels::tag_seed;

#[test]
fn tag_seed_accepts_printable_query_glyphs() {
    assert_eq!(tag_seed("b"), Some("b".to_owned()));
    assert_eq!(tag_seed("-rating:g"), Some("-rating:g".to_owned()));
}

#[test]
fn tag_seed_rejects_blank_and_control_text() {
    assert_eq!(tag_seed(" "), None);
    assert_eq!(tag_seed("\n"), None);
}

#[test]
fn tag_seed_drops_control_characters_and_keeps_spaces() {
    assert_eq!(tag_seed("a\u{7}b c"), Some("ab c".to_owned()));
    assert_eq!(tag_seed("\t \u{1b}"), None);
}
