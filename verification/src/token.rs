//! The token model: the closed set of lexical token kinds and their payloads.

use vstd::prelude::*;
use vstd::string::StringExecFns;

verus! {

/// One lexical unit of source text: a type keyword, a single-character
/// symbol, an identifier, a literal, or the end-of-input marker.
#[derive(Debug, Clone, PartialEq)]
pub enum Token {
    // keywords
    KwInt,
    KwFloat,
    KwUint,
    KwString,
    // symbols
    Equal,
    Plus,
    Minus,
    Semicolon,
    LParen,
    RParen,
    // identifiers and literals
    Identifier(String),
    /// Raw text of the literal: digits and at most one decimal point.
    NumberLiteral(String),
    /// Decoded content of the literal: quotes stripped, no escape processing.
    StringLiteral(String),
    // end of input
    EOF,
}

/// The view of a [`Token`]: the same variants over `Seq<char>`.
pub enum TokenView {
    KwInt,
    KwFloat,
    KwUint,
    KwString,
    Equal,
    Plus,
    Minus,
    Semicolon,
    LParen,
    RParen,
    Identifier(Seq<char>),
    NumberLiteral(Seq<char>),
    StringLiteral(Seq<char>),
    EOF,
}

impl View for Token {
    type V = TokenView;

    open spec fn view(&self) -> TokenView {
        match self {
            Token::KwInt => TokenView::KwInt,
            Token::KwFloat => TokenView::KwFloat,
            Token::KwUint => TokenView::KwUint,
            Token::KwString => TokenView::KwString,
            Token::Equal => TokenView::Equal,
            Token::Plus => TokenView::Plus,
            Token::Minus => TokenView::Minus,
            Token::Semicolon => TokenView::Semicolon,
            Token::LParen => TokenView::LParen,
            Token::RParen => TokenView::RParen,
            Token::Identifier(name) => TokenView::Identifier(name@),
            Token::NumberLiteral(text) => TokenView::NumberLiteral(text@),
            Token::StringLiteral(content) => TokenView::StringLiteral(content@),
            Token::EOF => TokenView::EOF,
        }
    }
}

/// A short textual description of a token, for error messages.
pub open spec fn token_text(t: TokenView) -> Seq<char> {
    match t {
        TokenView::KwInt => "int"@,
        TokenView::KwFloat => "float"@,
        TokenView::KwUint => "uint"@,
        TokenView::KwString => "string"@,
        TokenView::Equal => "="@,
        TokenView::Plus => "+"@,
        TokenView::Minus => "-"@,
        TokenView::Semicolon => ";"@,
        TokenView::LParen => "("@,
        TokenView::RParen => ")"@,
        TokenView::Identifier(name) => ("identifier '"@ + name) + "'"@,
        TokenView::NumberLiteral(text) => ("number '"@ + text) + "'"@,
        TokenView::StringLiteral(content) => ("string literal '"@ + content) + "'"@,
        TokenView::EOF => "end of input"@,
    }
}

impl Token {
    /// The short textual description of this token, for error messages.
    pub fn text(&self) -> (r: String)
        ensures
            r@ == token_text(self@),
    {
        match self {
            Token::KwInt => String::from_str("int"),
            Token::KwFloat => String::from_str("float"),
            Token::KwUint => String::from_str("uint"),
            Token::KwString => String::from_str("string"),
            Token::Equal => String::from_str("="),
            Token::Plus => String::from_str("+"),
            Token::Minus => String::from_str("-"),
            Token::Semicolon => String::from_str(";"),
            Token::LParen => String::from_str("("),
            Token::RParen => String::from_str(")"),
            Token::Identifier(name) => String::from_str("identifier '").concat(
                name.as_str(),
            ).concat("'"),
            Token::NumberLiteral(text) => String::from_str("number '").concat(
                text.as_str(),
            ).concat("'"),
            Token::StringLiteral(content) => String::from_str("string literal '").concat(
                content.as_str(),
            ).concat("'"),
            Token::EOF => String::from_str("end of input"),
        }
    }
}

/// The views of a token sequence, in order.
pub open spec fn token_views(tokens: Seq<Token>) -> Seq<TokenView> {
    tokens.map_values(|t: Token| t@)
}

/// Appending a token appends its view.
pub proof fn lemma_token_views_push(tokens: Seq<Token>, t: Token)
    ensures
        token_views(tokens.push(t)) == token_views(tokens) + seq![t@],
{
    assert(token_views(tokens.push(t)) =~= token_views(tokens) + seq![t@]);
}

} // verus!
