use fer::formatter::{format_source, format_source_with_options, FormatError, FormatOptions};
use fer::lossless_cst::parse_lossless_cst;
use fer::span::FileId;

#[test]
fn formats_nested_code_indentation_without_rewriting_content() {
    let source = "main = () -> i64 {\nanswer = 40 + 2\nanswer\n}\n";
    let formatted = format_source(source).expect("balanced source must format");
    assert_eq!(
        formatted,
        "main = () -> i64 {\n  answer = 40 + 2\n  answer\n}\n"
    );
    assert_eq!(
        format_source(&formatted).expect("formatted source must be idempotent"),
        formatted
    );
}

#[test]
fn preserves_comments_strings_and_crlf_line_endings() {
    let source = "main = () -> i64 {\r\nanswer = `text {not-code}` /* keep */\r\n}\r\n";
    let formatted = format_source(source).expect("balanced source must format");
    assert_eq!(
        formatted,
        "main = () -> i64 {\r\n  answer = `text {not-code}` /* keep */\r\n}\r\n"
    );
}

#[test]
fn leaves_line_comment_text_unchanged() {
    let source = "main = () -> i64 {\nanswer = 42 // /* not a block comment\n}\n";
    let formatted = format_source(source).expect("balanced source must format");
    assert_eq!(
        formatted,
        "main = () -> i64 {\n  answer = 42 // /* not a block comment\n}\n"
    );
}

#[test]
fn formats_with_tabs_when_requested() {
    let source = "main = () -> i64 {\nanswer = 42\n}\n";
    let formatted = format_source_with_options(
        source,
        FormatOptions {
            indent_width: 4,
            use_tabs: true,
        },
    )
    .expect("balanced source must format");
    assert_eq!(formatted, "main = () -> i64 {\n\tanswer = 42\n}\n");
}

#[test]
fn rejects_invalid_tokens_and_unbalanced_braces() {
    assert!(matches!(
        format_source("main = () -> i64 { $$$"),
        Err(FormatError::InvalidToken { .. })
    ));
    assert!(matches!(
        format_source("main = () -> i64 { 42"),
        Err(FormatError::UnbalancedBraces { .. })
    ));
    assert!(matches!(
        format_source("main = ("),
        Err(FormatError::Parse { .. })
    ));
}

#[test]
fn rejects_zero_indent_width() {
    assert!(matches!(
        format_source_with_options(
            "main = () -> i64 { 42 }",
            FormatOptions {
                indent_width: 0,
                use_tabs: false,
            }
        ),
        Err(FormatError::InvalidIndentWidth { width: 0 })
    ));
}

#[test]
fn headerless_source_does_not_receive_a_synthetic_path_comment() {
    let source = "answer=40+2\n";
    let formatted = format_source(source).expect("headerless source must format");

    assert_eq!(formatted, "answer = 40 + 2\n");
    assert!(!formatted.starts_with("/// @/"));
}

/// Example programs in the current syntax, each with its location header.
const EXAMPLES: &[(&str, &str)] = &[
    (
        "condition.fer",
        "/// @/examples/condition.fer\nage = 20\nstatus = age {\n  < 18 { `minor` }\n  > 60 { `old` }\n  { `adult` }\n}\nallowed = all (age more 17, age less 65)\n",
    ),
    (
        "constants.fer",
        "/// @/examples/constants.fer\n{ get post } = @fer/http\nname = `Fuyeor`\nlimit: u8 = 10\n/* a block\n   comment */\ngreeting = `Hello, {name}!`\n",
    ),
    (
        "example.fer",
        "/// @/examples/example.fer\nGender: enum {\n  ai, female, male, nonbinary\n}\nUser: struct {\n  id: i64\n  name: string\n  gender: Gender\n}\n",
    ),
    (
        "function.fer",
        "/// @/examples/function.fer\nauthenticate = (user: string, token: string) -> bool {\n  valid = user equals token\n  valid\n}\nmain = () -> i64 {\n  answer = 40 + 2\n  answer\n}\n",
    ),
];

#[test]
fn d11_examples_parse_as_current_fer_syntax() {
    for (name, source) in EXAMPLES {
        let snapshot = parse_lossless_cst(source, FileId(0))
            .unwrap_or_else(|error| panic!("{name} must parse: {error:?}"));
        assert!(snapshot.root().0 > 0, "{name} must have a module root");
    }
}

#[test]
fn d11_examples_format_losslessly_and_idempotently() {
    for (name, source) in EXAMPLES {
        let formatted =
            format_source(source).unwrap_or_else(|error| panic!("{name} must format: {error:?}"));
        let reformatted = format_source(&formatted)
            .unwrap_or_else(|error| panic!("{name} must format twice: {error:?}"));
        assert_eq!(formatted, reformatted, "{name} formatter must be idempotent");
        assert!(
            formatted.starts_with("/// @/examples/"),
            "{name} must preserve its source-location header"
        );
    }
}

#[test]
fn respacing_changes_only_horizontal_whitespace() {
    let source = "main=()->i64{\n\t  answer=all(x more 1,y less 2)  // keep  this\n  value = f( a = 1 ,b = -2 )\n}\n";
    let formatted = format_source(source).expect("source must format");
    assert_eq!(
        formatted,
        "main = () -> i64 {\n  answer = all (x more 1, y less 2)  // keep  this\n  value = f(a = 1, b = -2)\n}\n"
    );
    let strip = |s: &str| s.replace([' ', '\t'], "");
    assert_eq!(strip(&formatted), strip(source));
}

#[test]
fn wide_indentation_uses_the_requested_width() {
    let source = "a = () -> i64 {\nb = 1\nc = x {\n1 { 2 }\n}\n}\n";
    let formatted = format_source_with_options(
        source,
        FormatOptions {
            indent_width: 4,
            use_tabs: false,
        },
    )
    .expect("source must format");
    assert_eq!(
        formatted,
        "a = () -> i64 {\n    b = 1\n    c = x {\n        1 { 2 }\n    }\n}\n"
    );
}

#[test]
fn default_options_indent_by_two_spaces() {
    let options = FormatOptions::default();
    assert_eq!(options.indent_width, 2);
    assert!(!options.use_tabs);
}

#[test]
fn interpolation_bodies_keep_their_layout() {
    let source = "a = () -> i64 {\nmessage = `line\n    {name}\n  end`\n}\n";
    let formatted = format_source(source).expect("source must format");
    assert_eq!(
        formatted,
        "a = () -> i64 {\n  message = `line\n    {name}\n  end`\n}\n"
    );
}

#[test]
fn validate_parse_accepts_empty_and_rejects_error_tokens() {
    assert!(fer::formatter::validate_parse("").is_ok());
    assert!(fer::formatter::validate_parse("  // only a comment\n").is_ok());
    assert!(matches!(
        fer::formatter::validate_parse("'"),
        Err(FormatError::Parse { .. })
    ));
}

#[test]
fn lone_literal_formats_and_validates() {
    assert!(fer::formatter::validate_parse("42").is_ok());
    assert!(format_source("42\n").is_ok());
}

#[test]
fn binary_literal_expression_formats_and_validates() {
    assert!(fer::formatter::validate_parse("40 + 2").is_ok());
    assert_eq!(format_source("40+2\n"), Ok(String::from("40 + 2\n")));
}

#[test]
fn fragment_declarations_validate_and_format() {
    let source = "total = (1 + 2) * -3\ntotal\n";
    assert!(fer::formatter::validate_parse(source).is_ok());
    assert!(format_source(source).is_ok());
}
