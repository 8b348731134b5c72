use leaks::parse_tld;

#[test]
fn comments_and_blank_lines_are_left_out() {
    let list = "// a comment\n\ncom\n   \n  net  \n//another\nco.uk\n";
    assert_eq!(parse_tld(list), "com net co.uk");
}

#[test]
fn list_ends_at_the_private_section() {
    let list = "com\n// ===BEGIN PRIVATE DOMAINS===\nblogspot.com\ngithub.io\n";
    assert_eq!(parse_tld(list), "com");
    let list = "com\n   // ===BEGIN PRIVATE DOMAINS\nblogspot.com";
    assert_eq!(parse_tld(list), "com");
}

#[test]
fn other_section_marks_are_comments() {
    let list = "// ===BEGIN ICANN DOMAINS===\ncom\n// ===END ICANN DOMAINS===\nnet";
    assert_eq!(parse_tld(list), "com net");
}

#[test]
fn last_line_needs_no_line_feed() {
    assert_eq!(parse_tld("com\nnet"), "com net");
    assert_eq!(parse_tld("com"), "com");
}

#[test]
fn carriage_returns_are_trimmed() {
    assert_eq!(parse_tld("com\r\nnet\r\n\r\nco.uk\r\n"), "com net co.uk");
}

#[test]
fn nothing_gives_nothing() {
    assert_eq!(parse_tld(""), "");
    assert_eq!(parse_tld("\n\n"), "");
    assert_eq!(parse_tld("// only a comment"), "");
    assert_eq!(parse_tld("// ===BEGIN PRIVATE DOMAINS===\ncom"), "");
}

#[test]
fn suffixes_beyond_ascii_are_kept() {
    assert_eq!(parse_tld("\u{516c}\u{53f8}.cn\n\u{2003}com\u{2003}\n"), "\u{516c}\u{53f8}.cn com");
}

#[test]
fn inner_white_space_stays() {
    assert_eq!(parse_tld(" a b \n/ /c\n"), "a b / /c");
}
