use fer::grammar::{keyword_token, prec_of, TokenKind};
use fer::interner::Interner;
use fer::lex::{Lexer, Token};
use fer::span::Span;

fn lex_one(source: &str) -> Token {
    let mut lexer = Lexer::new(source, Interner::new());
    lexer.next_token()
}

fn kinds(source: &str) -> Vec<TokenKind> {
    let mut lexer = Lexer::new(source, Interner::new());
    let mut out = Vec::new();
    loop {
        let token = lexer.next_token();
        out.push(token.kind);
        if token.kind == TokenKind::Eof {
            break;
        }
    }
    out
}

#[test]
fn keyword_token_recognizes_all() {
    let keywords = [
        "struct", "enum", "exports", "and", "or", "not", "contains", "less", "more", "least",
        "most", "equals", "in", "matches", "starts", "ends", "true", "false",
    ];
    for kw in keywords {
        let tok = keyword_token(kw).expect("keyword must be recognized");
        assert!(matches!(tok, TokenKind::Identifier) == false);
    }
}

#[test]
fn logical_keywords_map_to_their_kinds() {
    assert_eq!(keyword_token("and"), Some(TokenKind::And));
    assert_eq!(keyword_token("or"), Some(TokenKind::Or));
    assert_eq!(keyword_token("Enum"), None);
}

#[test]
fn keyword_token_rejects_non_keywords() {
    assert_eq!(keyword_token("foo"), None);
    assert_eq!(keyword_token("bar"), None);
    assert_eq!(keyword_token(""), None);
}

#[test]
fn prec_of_unknown_ops_returns_none() {
    assert_eq!(prec_of(TokenKind::Identifier), None);
    assert_eq!(prec_of(TokenKind::Eof), None);
}

#[test]
fn precedence_order_is_respected() {
    let plus = prec_of(TokenKind::Plus).unwrap().0;
    let star = prec_of(TokenKind::Star).unwrap().0;
    assert!(star > plus, "Star should bind tighter than plus");
}

#[test]
fn eof_token() {
    let tok = lex_one("");
    assert_eq!(tok.kind, TokenKind::Eof);
}

#[test]
fn integer_literal() {
    let tok = lex_one("42");
    assert_eq!(tok.kind, TokenKind::IntLiteral);
    assert_eq!(tok.span, Span::new(0, 2));
}

#[test]
fn float_literal() {
    let tok = lex_one("3.14");
    assert_eq!(tok.kind, TokenKind::FloatLiteral);
}

#[test]
fn identifier_kebab_case() {
    let tok = lex_one("my-var");
    assert_eq!(tok.kind, TokenKind::Identifier);
    assert!(tok.symbol.is_some());
}

#[test]
fn identifier_with_underscore_allowed() {
    let tok = lex_one("my_var");
    assert_eq!(tok.kind, TokenKind::Identifier);
}

#[test]
fn identifier_capital_allowed() {
    let tok = lex_one("StructName");
    assert_eq!(tok.kind, TokenKind::Identifier);
}

#[test]
fn keyword_enum() {
    let tok = lex_one("enum");
    assert_eq!(tok.kind, TokenKind::Enum);
    assert!(tok.symbol.is_none());
}

#[test]
fn logical_words_are_contextual_identifiers() {
    for word in ["and", "or", "all", "any", "one", "none"] {
        assert_eq!(
            lex_one(word).kind,
            TokenKind::Identifier,
            "{word} must remain contextual"
        );
    }
}

#[test]
fn simple_string() {
    let mut lexer = Lexer::new("`hello`", Interner::new());
    let tok = lexer.next_token();
    assert_eq!(tok.kind, TokenKind::StringLiteral);
    if let Some(sym) = tok.symbol {
        assert_eq!(lexer.interner().lookup(sym), Some("hello".as_bytes()));
    } else {
        panic!("Expected symbol");
    }
}

#[test]
fn operators() {
    assert_eq!(lex_one("+").kind, TokenKind::Plus);
    assert_eq!(lex_one("-").kind, TokenKind::Minus);
    assert_eq!(lex_one("*").kind, TokenKind::Star);
    assert_eq!(lex_one("/").kind, TokenKind::Slash);
    assert_eq!(lex_one("<").kind, TokenKind::Lt);
    assert_eq!(lex_one(">").kind, TokenKind::Gt);
    assert_eq!(lex_one("<=").kind, TokenKind::LtEq);
    assert_eq!(lex_one(">=").kind, TokenKind::GtEq);
    assert_eq!(lex_one("=").kind, TokenKind::Eq);
    assert_eq!(lex_one("->").kind, TokenKind::Arrow);
}

#[test]
fn at_symbol() {
    assert_eq!(lex_one("@").kind, TokenKind::At);
}

#[test]
fn hash_symbol() {
    assert_eq!(lex_one("#").kind, TokenKind::Hash);
}

#[test]
fn single_quote_is_error() {
    let tok = lex_one("'");
    assert_eq!(tok.kind, TokenKind::Error);
}

#[test]
fn unicode_line_comment_is_scanned_without_panicking() {
    let mut lexer = Lexer::new("// It’s a UUID\n42", Interner::new());
    let token = lexer.next_token();
    assert_eq!(token.kind, TokenKind::IntLiteral);
    assert_eq!(token.span, Span::new(17, 19));
}

#[test]
fn unicode_block_comment_is_scanned_without_panicking() {
    let mut lexer = Lexer::new("/* keep — this */42", Interner::new());
    let token = lexer.next_token();
    assert_eq!(token.kind, TokenKind::IntLiteral);
    assert_eq!(token.span, Span::new(19, 21));
}

#[test]
fn interpolated_string_tokens() {
    assert_eq!(
        kinds("`Hello, {name}!`"),
        [
            TokenKind::StringStart,
            TokenKind::StringPart,
            TokenKind::ExprStart,
            TokenKind::Identifier,
            TokenKind::ExprEnd,
            TokenKind::StringPart,
            TokenKind::StringEnd,
            TokenKind::Eof,
        ]
    );
}

#[test]
fn multiline_string_dedents_and_joins_physical_lines() {
    let mut lexer = Lexer::new("`\n  one\n  two\n  `", Interner::new());
    let token = lexer.next_token();
    assert_eq!(token.kind, TokenKind::StringLiteral);
    assert_eq!(
        token.symbol.and_then(|symbol| lexer.interner().lookup(symbol)),
        Some("one\ntwo".as_bytes())
    );

    let mut continued = Lexer::new("`one \\\n  two`", Interner::new());
    let token = continued.next_token();
    assert_eq!(
        token.symbol.and_then(|symbol| continued.interner().lookup(symbol)),
        Some("one two".as_bytes())
    );
}

#[test]
fn escaped_braces_remain_plain_string_text() {
    let mut lexer = Lexer::new(r#"`\{name\}`"#, Interner::new());
    let token = lexer.next_token();
    assert_eq!(token.kind, TokenKind::StringLiteral);
    assert_eq!(
        token.symbol.and_then(|symbol| lexer.interner().lookup(symbol)),
        Some("{name}".as_bytes())
    );
}

#[test]
fn regex_after_matches_and_equals() {
    assert_eq!(
        kinds("x matches /^[0-9]/i"),
        [TokenKind::Identifier, TokenKind::Matches, TokenKind::RegexLiteral, TokenKind::Eof]
    );
    assert_eq!(kinds("a = /b/"), [TokenKind::Identifier, TokenKind::Eq, TokenKind::RegexLiteral, TokenKind::Eof]);
    assert_eq!(kinds("a / b"), [TokenKind::Identifier, TokenKind::Slash, TokenKind::Identifier, TokenKind::Eof]);
}

#[test]
fn unterminated_string_is_an_error_at_the_end() {
    let tok = lex_one("`abc");
    assert_eq!(tok.kind, TokenKind::Error);
    assert_eq!(tok.span, Span::new(4, 4));
}

#[test]
fn non_ascii_character_is_one_error_token() {
    let tok = lex_one("€");
    assert_eq!(tok.kind, TokenKind::Error);
    assert_eq!(tok.span, Span::new(0, 3));
}

#[test]
fn nested_braces_inside_interpolation() {
    assert_eq!(
        kinds("`a{ {1} }b`"),
        [
            TokenKind::StringStart,
            TokenKind::StringPart,
            TokenKind::ExprStart,
            TokenKind::LBrace,
            TokenKind::IntLiteral,
            TokenKind::RBrace,
            TokenKind::ExprEnd,
            TokenKind::StringPart,
            TokenKind::StringEnd,
            TokenKind::Eof,
        ]
    );
}

#[test]
fn checkpoint_restores_the_position() {
    let mut lexer = Lexer::new("a b", Interner::new());
    let ck = lexer.checkpoint();
    let first = lexer.next_token();
    lexer.restore(ck);
    let again = lexer.next_token();
    assert_eq!(first.span, again.span);
}
