//! Front end of a minimal programming language: a lexer that turns source
//! text into a token sequence and a recursive-descent parser that turns the
//! token sequence into a syntax tree of typed variable declarations and
//! left-associative arithmetic expressions.
//!
//! Source text goes through [`lexer::lex`] to an ordered token sequence
//! terminated by an end-of-input marker, and through
//! [`parser::parse_statements`] to the tree root. [`parse_source`] composes
//! the two. Each run is a pure, stateless pass; the first error at either
//! stage aborts the whole operation.

use vstd::prelude::*;

pub mod ast;
pub mod lexer;
pub mod parser;
pub mod token;

use crate::ast::{AstRoot, AstRootView};
use crate::lexer::{lex, lex_error_message, lex_spec};
use crate::lexer::{is_alnum_char, is_space_char, lemma_whitespace_insertion, token_boundary};
use crate::parser::{parse_error_message, parse_statements, statements_spec};

verus! {

/// What converting the whole source denotes: the syntax tree that lexing
/// followed by parsing assigns to it, or the descriptive text of the first
/// error from either stage.
pub open spec fn parse_source_spec(s: Seq<char>) -> Result<AstRootView, Seq<char>> {
    match lex_spec(s) {
        Err(e) => Err(lex_error_message(e)),
        Ok(tokens) => match statements_spec(tokens, 0) {
            Err(e) => Err(parse_error_message(e)),
            Ok(nodes) => Ok(AstRootView { nodes }),
        },
    }
}

/// Reads the entire source text, tokenizes it, and produces the root of the
/// syntax tree — exactly the value that [`parse_source_spec`] assigns to the
/// text — or returns the first error message from either stage verbatim.
pub fn parse_source(source: &str) -> (r: Result<AstRoot, String>)
    ensures
        match r {
            Ok(root) => parse_source_spec(source@) == Ok::<AstRootView, Seq<char>>(root@),
            Err(m) => parse_source_spec(source@) == Err::<AstRootView, Seq<char>>(m@),
        },
{
    let tokens = match lex(source) {
        Ok(tokens) => tokens,
        Err(e) => {
            return Err(e.message());
        },
    };
    match parse_statements(tokens.as_slice()) {
        Ok(root) => Ok(root),
        Err(e) => Err(e.message()),
    }
}

/// Idempotence of whitespace, end to end: inserting a whitespace character
/// at a token boundary of the source — between two tokens, or inside a
/// whitespace run, but not inside a token or a string literal — changes
/// neither the token sequence nor the syntax tree nor the reported error.
/// The hypothesis that `w` is not alphanumeric records, for the character
/// classification the lexer deliberately leaves unspecified, a fact that
/// holds of every Unicode whitespace character.
pub proof fn lemma_whitespace_insertion_source(s: Seq<char>, k: int, w: char)
    requires
        is_space_char(w),
        !is_alnum_char(w),
        0 <= k <= s.len(),
        token_boundary(s, k),
    ensures
        parse_source_spec(s.insert(k, w)) == parse_source_spec(s),
{
    lemma_whitespace_insertion(s, k, w);
}

} // verus!
