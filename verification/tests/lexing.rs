use minilang::lexer::{lex, LexError};
use minilang::token::Token;

#[test]
fn empty_input_gives_only_eof() {
    assert_eq!(lex("").unwrap(), vec![Token::EOF]);
}

#[test]
fn whitespace_only_gives_only_eof() {
    assert_eq!(lex("  \t\n  ").unwrap(), vec![Token::EOF]);
}

#[test]
fn single_symbols() {
    assert_eq!(
        lex("= + - ; ( )").unwrap(),
        vec![
            Token::Equal,
            Token::Plus,
            Token::Minus,
            Token::Semicolon,
            Token::LParen,
            Token::RParen,
            Token::EOF,
        ]
    );
}

#[test]
fn keywords_become_keyword_tokens() {
    assert_eq!(
        lex("int float uint string").unwrap(),
        vec![
            Token::KwInt,
            Token::KwFloat,
            Token::KwUint,
            Token::KwString,
            Token::EOF,
        ]
    );
}

#[test]
fn keyword_prefix_is_an_identifier() {
    assert_eq!(
        lex("integer intx in").unwrap(),
        vec![
            Token::Identifier("integer".to_string()),
            Token::Identifier("intx".to_string()),
            Token::Identifier("in".to_string()),
            Token::EOF,
        ]
    );
}

#[test]
fn identifiers_may_hold_digits_and_underscores() {
    assert_eq!(
        lex("a_b x1").unwrap(),
        vec![
            Token::Identifier("a_b".to_string()),
            Token::Identifier("x1".to_string()),
            Token::EOF,
        ]
    );
}

#[test]
fn number_literal_keeps_raw_text() {
    assert_eq!(
        lex("42 3.14").unwrap(),
        vec![
            Token::NumberLiteral("42".to_string()),
            Token::NumberLiteral("3.14".to_string()),
            Token::EOF,
        ]
    );
}

#[test]
fn number_scan_stops_at_second_decimal_point() {
    // The second '.' ends the run; standing alone it is then unrecognized.
    assert_eq!(
        lex("1.2.3"),
        Err(LexError::UnrecognizedCharacter('.'))
    );
}

#[test]
fn string_literal_content_is_kept_verbatim() {
    assert_eq!(
        lex("\"hi there\"").unwrap(),
        vec![Token::StringLiteral("hi there".to_string()), Token::EOF]
    );
}

#[test]
fn string_literal_takes_no_escapes() {
    assert_eq!(
        lex("\"a\\\"").unwrap(),
        vec![Token::StringLiteral("a\\".to_string()), Token::EOF]
    );
}

#[test]
fn unclosed_string_literal_fails() {
    assert_eq!(lex("\"hi"), Err(LexError::UnclosedStringLiteral));
}

#[test]
fn unrecognized_character_fails_identifying_it() {
    assert_eq!(lex("@"), Err(LexError::UnrecognizedCharacter('@')));
    assert_eq!(lex("int x @ y"), Err(LexError::UnrecognizedCharacter('@')));
    assert_eq!(lex("1 + #"), Err(LexError::UnrecognizedCharacter('#')));
}

#[test]
fn lex_error_messages() {
    assert_eq!(
        LexError::UnrecognizedCharacter('@').message(),
        "Unrecognized character: '@'"
    );
    assert_eq!(
        LexError::UnclosedStringLiteral.message(),
        "Unclosed string literal"
    );
}

#[test]
fn whitespace_between_tokens_is_insignificant() {
    let spaced = lex("1 + 2 - 3 ;").unwrap();
    let tight = lex("1+2-3;").unwrap();
    assert_eq!(spaced, tight);
    let decl_spaced = lex("int   x\t=\n5 ;").unwrap();
    let decl_tight = lex("int x=5;").unwrap();
    assert_eq!(decl_spaced, decl_tight);
}

#[test]
fn whitespace_inside_string_literal_is_significant() {
    assert_ne!(lex("\"a b\"").unwrap(), lex("\"ab\"").unwrap());
}

#[test]
fn unicode_whitespace_separates_tokens() {
    // No-break space and em space are whitespace too.
    assert_eq!(lex("1\u{00A0}+\u{2003}2;").unwrap(), lex("1 + 2;").unwrap());
}

#[test]
fn unicode_letters_form_identifiers() {
    assert_eq!(
        lex("h\u{00E9}llo").unwrap(),
        vec![Token::Identifier("h\u{00E9}llo".to_string()), Token::EOF]
    );
}

#[test]
fn number_may_end_in_a_decimal_point() {
    assert_eq!(
        lex("1.").unwrap(),
        vec![Token::NumberLiteral("1.".to_string()), Token::EOF]
    );
}

#[test]
fn decimal_point_cannot_begin_a_number() {
    assert_eq!(lex(".5"), Err(LexError::UnrecognizedCharacter('.')));
}
