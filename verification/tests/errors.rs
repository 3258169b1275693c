use minilang::lexer::lex;
use minilang::parse_source;
use minilang::parser::{parse_statements, ParserError};
use minilang::token::Token;

#[test]
fn unclosed_string_fails_lexing() {
    assert_eq!(
        parse_source("string s = \"hi;"),
        Err("Unclosed string literal".to_string())
    );
}

#[test]
fn missing_semicolon_fails_parsing() {
    let tokens = lex("int x = 5").unwrap();
    assert_eq!(
        parse_statements(&tokens),
        Err(ParserError::ExpectedSemicolon)
    );
    assert_eq!(parse_source("int x = 5"), Err("Expected ';'".to_string()));
}

#[test]
fn unknown_character_fails_lexing_identifying_it() {
    assert_eq!(
        parse_source("int x = @;"),
        Err("Unrecognized character: '@'".to_string())
    );
}

#[test]
fn missing_identifier_after_type_keyword() {
    let tokens = lex("int 5;").unwrap();
    assert_eq!(
        parse_statements(&tokens),
        Err(ParserError::ExpectedIdentifier)
    );
    assert_eq!(parse_source("int;"), Err("Expected identifier".to_string()));
}

#[test]
fn missing_closing_parenthesis() {
    let tokens = lex("(1 + 2;").unwrap();
    assert_eq!(
        parse_statements(&tokens),
        Err(ParserError::ExpectedClosingParen)
    );
    assert_eq!(parse_source("(1;"), Err("Expected ')'".to_string()));
}

#[test]
fn token_that_begins_no_expression() {
    let tokens = lex("1 + ;").unwrap();
    assert_eq!(
        parse_statements(&tokens),
        Err(ParserError::UnexpectedToken(Token::Semicolon))
    );
    assert_eq!(
        parse_source("1 + ;"),
        Err("Unexpected token in expression: ;".to_string())
    );
    assert_eq!(
        parse_source("+;"),
        Err("Unexpected token in expression: +".to_string())
    );
}

#[test]
fn assignment_is_no_expression() {
    // The grammar has no assignment operator: after the variable reference
    // the statement must end, so the `=` is reported at the semicolon check.
    let tokens = lex("x = 1;").unwrap();
    assert_eq!(
        parse_statements(&tokens),
        Err(ParserError::ExpectedSemicolon)
    );
}

#[test]
fn missing_initializer_expression() {
    let tokens = lex("int x = ;").unwrap();
    assert_eq!(
        parse_statements(&tokens),
        Err(ParserError::UnexpectedToken(Token::Semicolon))
    );
}

#[test]
fn expression_cut_short_without_end_marker() {
    // Without the end-of-input marker the token sequence is exhausted
    // inside the expression.
    let tokens = vec![Token::NumberLiteral("1".to_string()), Token::Plus];
    assert_eq!(
        parse_statements(&tokens),
        Err(ParserError::UnexpectedEndOfInput)
    );
}

#[test]
fn end_marker_inside_an_expression_is_an_unexpected_token() {
    let tokens = lex("1 +").unwrap();
    assert_eq!(
        parse_statements(&tokens),
        Err(ParserError::UnexpectedToken(Token::EOF))
    );
}

#[test]
fn parse_error_messages_name_the_offending_token() {
    assert_eq!(
        ParserError::UnexpectedToken(Token::Identifier("abc".to_string()))
            .message(),
        "Unexpected token in expression: identifier 'abc'"
    );
    assert_eq!(
        ParserError::UnexpectedToken(Token::EOF).message(),
        "Unexpected token in expression: end of input"
    );
    assert_eq!(ParserError::ExpectedTypeKeyword.message(), "Expected type keyword");
    assert_eq!(ParserError::UnexpectedEndOfInput.message(), "Unexpected end of tokens");
}

#[test]
fn first_error_wins_across_stages() {
    // The lex error comes first even though a parse error would follow.
    assert_eq!(
        parse_source("int x = $ ;"),
        Err("Unrecognized character: '$'".to_string())
    );
}
