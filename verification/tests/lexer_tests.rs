use rwx_core::lexer::{is_number_char_continuation, lex, Token};
use rwx_core::num::parse_number;

#[test]
fn numbers_lex_to_micro_units() {
    let toks = lex("1.5 -2 0.25 1e3 2.5e-1");
    let expected: Vec<i64> = vec![1_500_000, -2_000_000, 250_000, 1_000_000_000, 250_000];
    let mut got: Vec<i64> = Vec::new();
    for t in &toks {
        if let Token::Number(n) = t {
            got.push(*n);
        }
    }
    assert_eq!(got, expected);
    assert!(matches!(toks.last(), Some(Token::Eof)));
}

#[test]
fn malformed_number_falls_back_to_identifier() {
    let toks = lex("1.2.3");
    match &toks[0] {
        Token::Ident(s) => assert_eq!(s, "1.2.3"),
        other => panic!("expected an identifier fallback, got {:?}", other),
    }
}

#[test]
fn keywords_match_case_insensitively() {
    let toks = lex("modelbegin VERTEX uv ProtoEnd cLuMpBeGiN");
    assert!(matches!(toks[0], Token::ModelBeginKeyword));
    assert!(matches!(toks[1], Token::VertexKeyword));
    assert!(matches!(toks[2], Token::UVKeyword));
    assert!(matches!(toks[3], Token::ProtoEndKeyword));
    assert!(matches!(toks[4], Token::ClumpBeginKeyword));
}

#[test]
fn strings_comments_and_punctuation() {
    let toks = lex("\"abc def\" # a comment\n{ , }");
    match &toks[0] {
        Token::StringLiteral(s) => assert_eq!(s, "abc def"),
        other => panic!("expected a string literal, got {:?}", other),
    }
    assert!(matches!(toks[1], Token::BeginBlock));
    assert!(matches!(toks[2], Token::Comma));
    assert!(matches!(toks[3], Token::EndBlock));
    assert!(matches!(toks[4], Token::Eof));
}

#[test]
fn unterminated_string_runs_to_end() {
    let toks = lex("\"abc");
    match &toks[0] {
        Token::StringLiteral(s) => assert_eq!(s, "abc"),
        other => panic!("expected a string literal, got {:?}", other),
    }
    assert!(matches!(toks[1], Token::Eof));
}

#[test]
fn identifiers_keep_their_text() {
    let toks = lex("Hints couch_2c");
    match (&toks[0], &toks[1]) {
        (Token::Ident(a), Token::Ident(b)) => {
            assert_eq!(a, "Hints");
            assert_eq!(b, "couch_2c");
        }
        other => panic!("expected identifiers, got {:?}", other),
    }
}

#[test]
fn number_continuation_characters() {
    for c in ['0', '9', '.', 'e', 'E', '+', '-'] {
        assert!(is_number_char_continuation(c));
    }
    for c in ['x', ' ', '"', '_'] {
        assert!(!is_number_char_continuation(c));
    }
}

#[test]
fn parse_number_exact_values() {
    assert_eq!(parse_number("3.14159"), Some(3_141_590));
    assert_eq!(parse_number("-0.0000019"), Some(-1));
    assert_eq!(parse_number("42"), Some(42_000_000));
    assert_eq!(parse_number("1e-30"), Some(0));
    assert_eq!(parse_number("12."), Some(12_000_000));
    assert_eq!(parse_number(".5"), Some(500_000));
    assert_eq!(parse_number("2.5e+2"), Some(250_000_000));
}

#[test]
fn parse_number_saturates() {
    assert_eq!(parse_number("1e30"), Some(1_000_000_000_000_000));
    assert_eq!(parse_number("-1e30"), Some(-1_000_000_000_000_000));
}

#[test]
fn parse_number_rejects_malformed_text() {
    assert_eq!(parse_number("abc"), None);
    assert_eq!(parse_number("1.2.3"), None);
    assert_eq!(parse_number("-"), None);
    assert_eq!(parse_number("1e"), None);
    assert_eq!(parse_number(""), None);
}
