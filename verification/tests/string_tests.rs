use fer::strings::{decode_string_literal, normalize_multiline_string};

#[test]
fn decode_strips_delimiters_and_dedents() {
    assert_eq!(decode_string_literal("`\n  one\n    two\n  `"), "one\n  two");
    assert_eq!(decode_string_literal("`plain`"), "plain");
    assert_eq!(decode_string_literal("`"), "`");
}

#[test]
fn normalize_decodes_each_escape() {
    assert_eq!(normalize_multiline_string("a\\nb\\tc\\\\d\\`e\\{f\\}"), "a\nb\tc\\d`e{f}");
    assert_eq!(normalize_multiline_string("keep \\q"), "keep \\q");
    assert_eq!(normalize_multiline_string("end\\"), "end\\");
    assert_eq!(normalize_multiline_string("x \\\r\n\t y"), "x y");
}

#[test]
fn normalize_keeps_unicode_and_crops_unicode_indentation() {
    assert_eq!(normalize_multiline_string("\n\u{3000}é\n\u{3000}ü"), "é\nü");
    assert_eq!(normalize_multiline_string(""), "");
    assert_eq!(normalize_multiline_string("\n"), "");
}
