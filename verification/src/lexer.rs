//! The lexical analyzer: consumes a source string left to right, classifies
//! characters into tokens, and produces an ordered token sequence terminated
//! by an end-of-input marker.
//!
//! The function [`lex_from`] is the mathematical definition of lexing: it
//! says, for every position of the input, which tokens the rest of the input
//! denotes, or on which error scanning stops. The executable [`lex`] is
//! proved to return exactly that value.

use vstd::prelude::*;
use vstd::string::{StrSliceExecFns, StringExecFns};

use crate::token::{lemma_token_views_push, token_views, Token, TokenView};

verus! {

/// A failure of lexical analysis.
#[derive(Debug, Clone, Copy, PartialEq, Eq, Structural)]
pub enum LexError {
    /// A character that begins no token; scanning stops at it.
    UnrecognizedCharacter(char),
    /// The input ended inside a string literal, before its closing quote.
    UnclosedStringLiteral,
}

/// The descriptive text of a lexical error.
pub open spec fn lex_error_message(e: LexError) -> Seq<char> {
    match e {
        LexError::UnrecognizedCharacter(c) => "Unrecognized character: '"@.push(c) + "'"@,
        LexError::UnclosedStringLiteral => "Unclosed string literal"@,
    }
}

/// Relies on `String::push`: appends one character at the end of the string.
#[verifier::external_body]
fn push_char(s: &mut String, c: char)
    ensures
        final(s)@ == old(s)@.push(c),
{
    s.push(c)
}

impl LexError {
    /// The descriptive text of this error.
    pub fn message(&self) -> (r: String)
        ensures
            r@ == lex_error_message(*self),
    {
        match self {
            LexError::UnrecognizedCharacter(c) => {
                let mut text = String::from_str("Unrecognized character: '");
                push_char(&mut text, *c);
                text.append("'");
                text
            },
            LexError::UnclosedStringLiteral => String::from_str("Unclosed string literal"),
        }
    }
}

/// The Unicode White_Space code points: U+0009..U+000D, U+0020, U+0085,
/// U+00A0, U+1680, U+2000..U+200A, U+2028, U+2029, U+202F, U+205F, U+3000.
pub open spec fn is_space_char(c: char) -> bool {
    ||| c == ' '
    ||| c == '\t'
    ||| c == '\n'
    ||| c == '\r'
    ||| c as u32 == 0x0B
    ||| c as u32 == 0x0C
    ||| c as u32 == 0x85
    ||| c as u32 == 0xA0
    ||| c as u32 == 0x1680
    ||| (0x2000 <= c as u32 && c as u32 <= 0x200A)
    ||| c as u32 == 0x2028
    ||| c as u32 == 0x2029
    ||| c as u32 == 0x202F
    ||| c as u32 == 0x205F
    ||| c as u32 == 0x3000
}

/// An ASCII decimal digit.
pub open spec fn is_digit_char(c: char) -> bool {
    '0' as u32 <= c as u32 && c as u32 <= '9' as u32
}

/// Whether a character has the Unicode Alphabetic property; which characters
/// those are is deliberately left unspecified here.
pub uninterp spec fn is_alpha_char(c: char) -> bool;

/// Whether a character is alphanumeric (alphabetic or numeric); which
/// characters those are is deliberately left unspecified here.
pub uninterp spec fn is_alnum_char(c: char) -> bool;

/// Relies on `char::is_whitespace`: true exactly on the characters with the
/// Unicode White_Space property, which are the code points that
/// [`is_space_char`] lists.
#[verifier::external_body]
fn is_space(c: char) -> (r: bool)
    ensures
        r == is_space_char(c),
{
    c.is_whitespace()
}

/// Relies on `char::is_alphabetic`: true exactly on the characters with the
/// Unicode Alphabetic property, here named [`is_alpha_char`].
#[verifier::external_body]
fn is_alpha(c: char) -> (r: bool)
    ensures
        r == is_alpha_char(c),
{
    c.is_alphabetic()
}

/// Relies on `char::is_alphanumeric`: true exactly on the characters that
/// are alphabetic or numeric, here named [`is_alnum_char`].
#[verifier::external_body]
fn is_alnum(c: char) -> (r: bool)
    ensures
        r == is_alnum_char(c),
{
    c.is_alphanumeric()
}

/// An ASCII decimal digit, executably.
fn is_digit(c: char) -> (r: bool)
    ensures
        r == is_digit_char(c),
{
    let u = c as u32;
    48 <= u && u <= 57
}

/// A character that may continue an identifier: alphanumeric or underscore.
pub open spec fn is_ident_char(c: char) -> bool {
    is_alnum_char(c) || c == '_'
}

/// The position just past the maximal run of identifier characters that
/// starts at `i`.
pub open spec fn scan_ident(s: Seq<char>, i: int) -> int
    decreases s.len() - i,
{
    if i < 0 || i >= s.len() {
        i
    } else if is_ident_char(s[i]) {
        scan_ident(s, i + 1)
    } else {
        i
    }
}

/// The position just past the maximal run of digits, permitting at most one
/// decimal point, that starts at `i`; `seen_dot` records whether a decimal
/// point was already consumed.
pub open spec fn scan_number(s: Seq<char>, i: int, seen_dot: bool) -> int
    decreases s.len() - i,
{
    if i < 0 || i >= s.len() {
        i
    } else if is_digit_char(s[i]) {
        scan_number(s, i + 1, seen_dot)
    } else if s[i] == '.' && !seen_dot {
        scan_number(s, i + 1, true)
    } else {
        i
    }
}

/// The position of the first closing quote at or after `i`, if any.
pub open spec fn close_quote(s: Seq<char>, i: int) -> Option<int>
    decreases s.len() - i,
{
    if i < 0 || i >= s.len() {
        None
    } else if s[i] == '"' {
        Some(i)
    } else {
        close_quote(s, i + 1)
    }
}

pub proof fn lemma_scan_ident_bounds(s: Seq<char>, i: int)
    requires
        0 <= i <= s.len(),
    ensures
        i <= scan_ident(s, i) <= s.len(),
    decreases s.len() - i,
{
    if i < s.len() && is_ident_char(s[i]) {
        lemma_scan_ident_bounds(s, i + 1);
    }
}

pub proof fn lemma_scan_number_bounds(s: Seq<char>, i: int, seen_dot: bool)
    requires
        0 <= i <= s.len(),
    ensures
        i <= scan_number(s, i, seen_dot) <= s.len(),
    decreases s.len() - i,
{
    if i < s.len() {
        if is_digit_char(s[i]) {
            lemma_scan_number_bounds(s, i + 1, seen_dot);
        } else if s[i] == '.' && !seen_dot {
            lemma_scan_number_bounds(s, i + 1, true);
        }
    }
}

pub proof fn lemma_close_quote_bounds(s: Seq<char>, i: int)
    requires
        0 <= i <= s.len(),
    ensures
        close_quote(s, i) matches Some(j) ==> i <= j < s.len() && s[j] == '"',
    decreases s.len() - i,
{
    if i < s.len() && s[i] != '"' {
        lemma_close_quote_bounds(s, i + 1);
    }
}

/// The classification of a completed alphabetic run: an exact keyword, or
/// else an identifier carrying the text.
pub open spec fn keyword_or_identifier(text: Seq<char>) -> TokenView {
    if text == "int"@ {
        TokenView::KwInt
    } else if text == "float"@ {
        TokenView::KwFloat
    } else if text == "uint"@ {
        TokenView::KwUint
    } else if text == "string"@ {
        TokenView::KwString
    } else {
        TokenView::Identifier(text)
    }
}

/// Prepends one produced token to the outcome of lexing the rest.
pub open spec fn with_token(t: TokenView, rest: Result<Seq<TokenView>, LexError>) -> Result<
    Seq<TokenView>,
    LexError,
> {
    match rest {
        Ok(tokens) => Ok(seq![t] + tokens),
        Err(e) => Err(e),
    }
}

/// What lexing the input denotes from position `i` on: the token sequence of
/// the rest of the input, terminated by the end-of-input marker, or the first
/// error. This is the mathematical definition that [`lex`] is proved to
/// match.
pub open spec fn lex_from(s: Seq<char>, i: int) -> Result<Seq<TokenView>, LexError>
    decreases s.len() - i,
    via lex_from_decreases
{
    if i < 0 || i >= s.len() {
        Ok(seq![TokenView::EOF])
    } else {
        let c = s[i];
        if is_space_char(c) {
            lex_from(s, i + 1)
        } else if c == '=' {
            with_token(TokenView::Equal, lex_from(s, i + 1))
        } else if c == '+' {
            with_token(TokenView::Plus, lex_from(s, i + 1))
        } else if c == '-' {
            with_token(TokenView::Minus, lex_from(s, i + 1))
        } else if c == ';' {
            with_token(TokenView::Semicolon, lex_from(s, i + 1))
        } else if c == '(' {
            with_token(TokenView::LParen, lex_from(s, i + 1))
        } else if c == ')' {
            with_token(TokenView::RParen, lex_from(s, i + 1))
        } else if c == '"' {
            match close_quote(s, i + 1) {
                Some(j) => with_token(
                    TokenView::StringLiteral(s.subrange(i + 1, j)),
                    lex_from(s, j + 1),
                ),
                None => Err(LexError::UnclosedStringLiteral),
            }
        } else if is_alpha_char(c) {
            let j = scan_ident(s, i + 1);
            with_token(keyword_or_identifier(s.subrange(i, j)), lex_from(s, j))
        } else if is_digit_char(c) {
            let j = scan_number(s, i + 1, false);
            with_token(TokenView::NumberLiteral(s.subrange(i, j)), lex_from(s, j))
        } else {
            Err(LexError::UnrecognizedCharacter(c))
        }
    }
}

#[via_fn]
proof fn lex_from_decreases(s: Seq<char>, i: int) {
    if 0 <= i < s.len() {
        lemma_scan_ident_bounds(s, i + 1);
        lemma_scan_number_bounds(s, i + 1, false);
        lemma_close_quote_bounds(s, i + 1);
    }
}

/// What lexing the whole input denotes.
pub open spec fn lex_spec(s: Seq<char>) -> Result<Seq<TokenView>, LexError> {
    lex_from(s, 0)
}

/// Whitespace produces no token: lexing from a whitespace character gives
/// the same outcome as lexing from just past it. Inputs that differ only by
/// whitespace between tokens therefore shed that whitespace the same way.
pub proof fn lemma_whitespace_skipped(s: Seq<char>, i: int)
    requires
        0 <= i < s.len(),
        is_space_char(s[i]),
    ensures
        lex_from(s, i) == lex_from(s, i + 1),
{
}

/// On success the token sequence ends with the end-of-input marker, and the
/// marker occurs nowhere else in it.
pub proof fn lemma_end_marker(s: Seq<char>, i: int)
    ensures
        lex_from(s, i) matches Ok(ts) ==> ts.len() >= 1 && ts.last() is EOF && forall|m: int|
            0 <= m < ts.len() - 1 ==> !((#[trigger] ts[m]) is EOF),
    decreases s.len() - i,
{
    if 0 <= i < s.len() {
        let c = s[i];
        if is_space_char(c) {
            lemma_end_marker(s, i + 1);
        } else if c == '=' || c == '+' || c == '-' || c == ';' || c == '(' || c == ')' {
            lemma_end_marker(s, i + 1);
        } else if c == '"' {
            match close_quote(s, i + 1) {
                Some(j) => {
                    lemma_close_quote_bounds(s, i + 1);
                    lemma_end_marker(s, j + 1);
                },
                None => {},
            }
        } else if is_alpha_char(c) {
            lemma_scan_ident_bounds(s, i + 1);
            lemma_end_marker(s, scan_ident(s, i + 1));
        } else if is_digit_char(c) {
            lemma_scan_number_bounds(s, i + 1, false);
            lemma_end_marker(s, scan_number(s, i + 1, false));
        }
    }
}

/// The whole outcome of lexing, given that the tokens `done` were already
/// produced and position `i` is about to be scanned.
pub open spec fn lex_cont(s: Seq<char>, i: int, done: Seq<TokenView>) -> Result<
    Seq<TokenView>,
    LexError,
> {
    match lex_from(s, i) {
        Ok(rest) => Ok(done + rest),
        Err(e) => Err(e),
    }
}

/// Whether the character at `j` may continue an identifier.
fn ident_char_at(s: &str, j: usize) -> (r: bool)
    requires
        j < s@.len(),
    ensures
        r == is_ident_char(s@[j as int]),
{
    let c = s.get_char(j);
    let alnum = is_alnum(c);
    alnum || c == '_'
}

/// Whether the character at `j` may continue a number literal whose scan has
/// already consumed a decimal point iff `seen_dot`.
fn number_char_at(s: &str, j: usize, seen_dot: bool) -> (r: bool)
    requires
        j < s@.len(),
    ensures
        r == (is_digit_char(s@[j as int]) || (s@[j as int] == '.' && !seen_dot)),
{
    let c = s.get_char(j);
    let digit = is_digit(c);
    digit || (c == '.' && !seen_dot)
}

/// Whether the character at `j` is a closing quote.
fn quote_at(s: &str, j: usize) -> (r: bool)
    requires
        j < s@.len(),
    ensures
        r == (s@[j as int] == '"'),
{
    s.get_char(j) == '"'
}

/// Classifies a completed alphabetic run: an exact match of `int`, `float`,
/// `uint` or `string` becomes the corresponding keyword token, any other
/// text becomes an identifier token carrying that text.
fn classify_word(text: &str) -> (t: Token)
    ensures
        t@ == keyword_or_identifier(text@),
{
    let owned = text.to_owned();
    if owned == String::from_str("int") {
        Token::KwInt
    } else if owned == String::from_str("float") {
        Token::KwFloat
    } else if owned == String::from_str("uint") {
        Token::KwUint
    } else if owned == String::from_str("string") {
        Token::KwString
    } else {
        Token::Identifier(owned)
    }
}

/// Producing the token `t` and moving the scan from `i` to `j` leaves the
/// whole outcome unchanged.
proof fn lemma_step_token(s: Seq<char>, i: int, j: int, t: TokenView, done: Seq<TokenView>)
    requires
        lex_from(s, i) == with_token(t, lex_from(s, j)),
    ensures
        lex_cont(s, i, done) == lex_cont(s, j, done + seq![t]),
{
    match lex_from(s, j) {
        Ok(rest) => {
            assert(done + (seq![t] + rest) =~= (done + seq![t]) + rest);
        },
        Err(_) => {},
    }
}

/// Tokenizes the whole input: produces exactly the token sequence that
/// [`lex_spec`] assigns to the input, with a trailing end-of-input marker,
/// or the first lexical error.
pub fn lex(input: &str) -> (r: Result<Vec<Token>, LexError>)
    ensures
        match r {
            Ok(tokens) => lex_spec(input@) == Ok::<Seq<TokenView>, LexError>(token_views(tokens@)),
            Err(e) => lex_spec(input@) == Err::<Seq<TokenView>, LexError>(e),
        },
{
    let ghost s = input@;
    let n = input.unicode_len();
    let mut tokens: Vec<Token> = Vec::new();
    let mut i: usize = 0;
    proof {
        if lex_from(s, 0) is Ok {
            assert(token_views(tokens@) + lex_from(s, 0)->Ok_0 =~= lex_from(s, 0)->Ok_0);
        }
    }
    while i < n
        invariant
            s == input@,
            n == s.len(),
            i <= n,
            lex_from(s, 0) == lex_cont(s, i as int, token_views(tokens@)),
        decreases n - i,
    {
        let ghost done = token_views(tokens@);
        let c = input.get_char(i);
        if is_space(c) {
            i = i + 1;
        } else if c == '=' || c == '+' || c == '-' || c == ';' || c == '(' || c == ')' {
            let tok = if c == '=' {
                Token::Equal
            } else if c == '+' {
                Token::Plus
            } else if c == '-' {
                Token::Minus
            } else if c == ';' {
                Token::Semicolon
            } else if c == '(' {
                Token::LParen
            } else {
                Token::RParen
            };
            let ghost prev = tokens@;
            tokens.push(tok);
            proof {
                lemma_token_views_push(prev, tok);
                lemma_step_token(s, i as int, i + 1, tok@, done);
            }
            i = i + 1;
        } else if c == '"' {
            let start = i;
            let mut j = i + 1;
            while j < n && !quote_at(input, j)
                invariant
                    s == input@,
                    n == s.len(),
                    start + 1 <= j <= n,
                    close_quote(s, start + 1) == close_quote(s, j as int),
                decreases n - j,
            {
                j = j + 1;
            }
            if j == n {
                // The input ended before a closing quote was found.
                return Err(LexError::UnclosedStringLiteral);
            }
            let content = input.substring_char(start + 1, j);
            let tok = Token::StringLiteral(content.to_owned());
            let ghost prev = tokens@;
            tokens.push(tok);
            proof {
                lemma_token_views_push(prev, tok);
                lemma_step_token(s, i as int, j + 1, tok@, done);
            }
            i = j + 1;
        } else if is_alpha(c) {
            let start = i;
            let mut j = i + 1;
            while j < n && ident_char_at(input, j)
                invariant
                    s == input@,
                    n == s.len(),
                    start + 1 <= j <= n,
                    scan_ident(s, start + 1) == scan_ident(s, j as int),
                decreases n - j,
            {
                j = j + 1;
            }
            let text = input.substring_char(start, j);
            let tok = classify_word(text);
            let ghost prev = tokens@;
            tokens.push(tok);
            proof {
                lemma_token_views_push(prev, tok);
                lemma_step_token(s, i as int, j as int, tok@, done);
            }
            i = j;
        } else if is_digit(c) {
            let start = i;
            let mut j = i + 1;
            let mut seen_dot = false;
            while j < n && number_char_at(input, j, seen_dot)
                invariant
                    s == input@,
                    n == s.len(),
                    start + 1 <= j <= n,
                    scan_number(s, start + 1, false) == scan_number(s, j as int, seen_dot),
                decreases n - j,
            {
                let c2 = input.get_char(j);
                if !is_digit(c2) {
                    seen_dot = true;
                }
                j = j + 1;
            }
            let text = input.substring_char(start, j);
            let tok = Token::NumberLiteral(text.to_owned());
            let ghost prev = tokens@;
            tokens.push(tok);
            proof {
                lemma_token_views_push(prev, tok);
                lemma_step_token(s, i as int, j as int, tok@, done);
            }
            i = j;
        } else {
            // Fail fast: scanning does not continue past a lex error.
            return Err(LexError::UnrecognizedCharacter(c));
        }
    }
    let ghost done = token_views(tokens@);
    let ghost prev = tokens@;
    tokens.push(Token::EOF);
    proof {
        lemma_token_views_push(prev, Token::EOF);
        assert(done + seq![TokenView::EOF] =~= token_views(tokens@));
    }
    Ok(tokens)
}

// What follows states and proves the idempotence of whitespace: inserting a
// whitespace character at a token boundary leaves the outcome of lexing
// unchanged. The shift lemmas show that every scan depends only on the
// characters from its start on; the prefix lemmas show that a scan that
// ends before position `k` is untouched by what stands at `k` and after.

/// The identifier scan depends only on the characters from its start on.
proof fn lemma_scan_ident_shift(s1: Seq<char>, i1: int, s2: Seq<char>, i2: int)
    requires
        0 <= i1 <= s1.len(),
        0 <= i2 <= s2.len(),
        s1.len() - i1 == s2.len() - i2,
        forall|m: int| i1 <= m < s1.len() ==> #[trigger] s1[m] == s2[m - i1 + i2],
    ensures
        scan_ident(s1, i1) - i1 == scan_ident(s2, i2) - i2,
    decreases s1.len() - i1,
{
    if i1 < s1.len() {
        assert(s1[i1] == s2[i2]);
        if is_ident_char(s1[i1]) {
            lemma_scan_ident_shift(s1, i1 + 1, s2, i2 + 1);
        }
    }
}

/// The number scan depends only on the characters from its start on.
proof fn lemma_scan_number_shift(s1: Seq<char>, i1: int, s2: Seq<char>, i2: int, seen_dot: bool)
    requires
        0 <= i1 <= s1.len(),
        0 <= i2 <= s2.len(),
        s1.len() - i1 == s2.len() - i2,
        forall|m: int| i1 <= m < s1.len() ==> #[trigger] s1[m] == s2[m - i1 + i2],
    ensures
        scan_number(s1, i1, seen_dot) - i1 == scan_number(s2, i2, seen_dot) - i2,
    decreases s1.len() - i1,
{
    if i1 < s1.len() {
        assert(s1[i1] == s2[i2]);
        if is_digit_char(s1[i1]) || (s1[i1] == '.' && !seen_dot) {
            let next_dot = seen_dot || !is_digit_char(s1[i1]);
            lemma_scan_number_shift(s1, i1 + 1, s2, i2 + 1, next_dot);
        }
    }
}

/// The search for a closing quote depends only on the characters from its
/// start on.
proof fn lemma_close_quote_shift(s1: Seq<char>, i1: int, s2: Seq<char>, i2: int)
    requires
        0 <= i1 <= s1.len(),
        0 <= i2 <= s2.len(),
        s1.len() - i1 == s2.len() - i2,
        forall|m: int| i1 <= m < s1.len() ==> #[trigger] s1[m] == s2[m - i1 + i2],
    ensures
        match close_quote(s1, i1) {
            Some(j) => close_quote(s2, i2) == Some(j - i1 + i2),
            None => close_quote(s2, i2) is None,
        },
    decreases s1.len() - i1,
{
    if i1 < s1.len() {
        assert(s1[i1] == s2[i2]);
        if s1[i1] != '"' {
            lemma_close_quote_shift(s1, i1 + 1, s2, i2 + 1);
        }
    }
}

/// Lexing depends only on the characters from the scan position on.
proof fn lemma_lex_shift(s1: Seq<char>, i1: int, s2: Seq<char>, i2: int)
    requires
        0 <= i1 <= s1.len(),
        0 <= i2 <= s2.len(),
        s1.len() - i1 == s2.len() - i2,
        forall|m: int| i1 <= m < s1.len() ==> #[trigger] s1[m] == s2[m - i1 + i2],
    ensures
        lex_from(s1, i1) == lex_from(s2, i2),
    decreases s1.len() - i1,
{
    if i1 < s1.len() {
        assert(s1[i1] == s2[i2]);
        let c = s1[i1];
        let d = i2 - i1;
        if is_space_char(c) || c == '=' || c == '+' || c == '-' || c == ';' || c == '(' || c
            == ')' {
            lemma_lex_shift(s1, i1 + 1, s2, i2 + 1);
        } else if c == '"' {
            lemma_close_quote_shift(s1, i1 + 1, s2, i2 + 1);
            match close_quote(s1, i1 + 1) {
                Some(j) => {
                    lemma_close_quote_bounds(s1, i1 + 1);
                    assert(s1.subrange(i1 + 1, j) =~= s2.subrange(i2 + 1, j + d));
                    lemma_lex_shift(s1, j + 1, s2, j + d + 1);
                },
                None => {},
            }
        } else if is_alpha_char(c) {
            lemma_scan_ident_shift(s1, i1 + 1, s2, i2 + 1);
            let j = scan_ident(s1, i1 + 1);
            lemma_scan_ident_bounds(s1, i1 + 1);
            assert(s1.subrange(i1, j) =~= s2.subrange(i2, j + d));
            lemma_lex_shift(s1, j, s2, j + d);
        } else if is_digit_char(c) {
            lemma_scan_number_shift(s1, i1 + 1, s2, i2 + 1, false);
            let j = scan_number(s1, i1 + 1, false);
            lemma_scan_number_bounds(s1, i1 + 1, false);
            assert(s1.subrange(i1, j) =~= s2.subrange(i2, j + d));
            lemma_lex_shift(s1, j, s2, j + d);
        }
    }
}

/// A scan of identifier characters that ends at or before `k` is untouched
/// by what stands at `k` and after.
proof fn lemma_scan_ident_prefix(s: Seq<char>, t: Seq<char>, x: int, k: int)
    requires
        0 <= x <= k,
        k <= s.len(),
        k < t.len(),
        forall|m: int| 0 <= m < k ==> s[m] == t[m],
        scan_ident(s, x) <= k,
        !is_ident_char(t[k]),
    ensures
        scan_ident(t, x) == scan_ident(s, x),
    decreases k - x,
{
    if x < k {
        if is_ident_char(s[x]) {
            lemma_scan_ident_prefix(s, t, x + 1, k);
        }
    } else {
        lemma_scan_ident_bounds(s, k);
    }
}

/// A scan of number characters that ends at or before `k` is untouched by
/// what stands at `k` and after.
proof fn lemma_scan_number_prefix(s: Seq<char>, t: Seq<char>, x: int, k: int, seen_dot: bool)
    requires
        0 <= x <= k,
        k <= s.len(),
        k < t.len(),
        forall|m: int| 0 <= m < k ==> s[m] == t[m],
        scan_number(s, x, seen_dot) <= k,
        !is_digit_char(t[k]),
        t[k] != '.',
    ensures
        scan_number(t, x, seen_dot) == scan_number(s, x, seen_dot),
    decreases k - x,
{
    if x < k {
        if is_digit_char(s[x]) {
            lemma_scan_number_prefix(s, t, x + 1, k, seen_dot);
        } else if s[x] == '.' && !seen_dot {
            lemma_scan_number_prefix(s, t, x + 1, k, true);
        }
    } else {
        lemma_scan_number_bounds(s, k, seen_dot);
    }
}

/// A search that finds its closing quote before `k` is untouched by what
/// stands at `k` and after.
proof fn lemma_close_quote_prefix(s: Seq<char>, t: Seq<char>, x: int, k: int, j: int)
    requires
        0 <= x <= j,
        j < k,
        k <= s.len(),
        k <= t.len(),
        forall|m: int| 0 <= m < k ==> s[m] == t[m],
        close_quote(s, x) == Some(j),
    ensures
        close_quote(t, x) == Some(j),
    decreases j - x,
{
    if s[x] != '"' {
        lemma_close_quote_bounds(s, x + 1);
        lemma_close_quote_prefix(s, t, x + 1, k, j);
    }
}

/// Whether position `k` is a token boundary of the scan that starts at `i`:
/// the scan, which in each step skips one whitespace character or consumes
/// one whole token, lands exactly on `k`.
pub open spec fn boundary_from(s: Seq<char>, i: int, k: int) -> bool
    decreases s.len() - i,
    via boundary_from_decreases
{
    if i == k {
        true
    } else if i < 0 || i > k || i >= s.len() {
        false
    } else {
        let c = s[i];
        if is_space_char(c) {
            boundary_from(s, i + 1, k)
        } else if c == '=' || c == '+' || c == '-' || c == ';' || c == '(' || c == ')' {
            boundary_from(s, i + 1, k)
        } else if c == '"' {
            match close_quote(s, i + 1) {
                Some(j) => boundary_from(s, j + 1, k),
                None => false,
            }
        } else if is_alpha_char(c) {
            boundary_from(s, scan_ident(s, i + 1), k)
        } else if is_digit_char(c) {
            boundary_from(s, scan_number(s, i + 1, false), k)
        } else {
            false
        }
    }
}

#[via_fn]
proof fn boundary_from_decreases(s: Seq<char>, i: int, k: int) {
    if 0 <= i < s.len() {
        lemma_scan_ident_bounds(s, i + 1);
        lemma_scan_number_bounds(s, i + 1, false);
        lemma_close_quote_bounds(s, i + 1);
    }
}

/// Whether position `k` of the input is a token boundary: it lies between
/// two tokens (or in a whitespace run) of the scan that starts the input.
pub open spec fn token_boundary(s: Seq<char>, k: int) -> bool {
    boundary_from(s, 0, k)
}

/// The heart of the idempotence of whitespace: inserting the whitespace
/// character `w` at the boundary `k` leaves lexing from any boundary-chain
/// position `i` unchanged. The hypothesis that `w` is not alphanumeric
/// records, for the classification deliberately left unspecified here, a
/// fact that holds of every Unicode whitespace character.
proof fn lemma_insert_space_from(s: Seq<char>, k: int, w: char, i: int)
    requires
        is_space_char(w),
        !is_alnum_char(w),
        0 <= i <= k <= s.len(),
        boundary_from(s, i, k),
    ensures
        lex_from(s.insert(k, w), i) == lex_from(s, i),
    decreases k - i,
{
    let t = s.insert(k, w);
    s.insert_ensures(k, w);
    if i == k {
        // The inserted character is whitespace, so it is skipped, and from
        // `k + 1` on the inserted sequence is the original from `k` on.
        assert(lex_from(t, k) == lex_from(t, k + 1));
        assert forall|m: int| k + 1 <= m < t.len() implies #[trigger] t[m] == s[m - (k + 1) + k] by {
            assert(t[(m - 1) + 1] == s[m - 1]);
        }
        lemma_lex_shift(t, k + 1, s, k);
    } else {
        let c = s[i];
        assert(t[i] == s[i]);
        if is_space_char(c) || c == '=' || c == '+' || c == '-' || c == ';' || c == '(' || c
            == ')' {
            lemma_insert_space_from(s, k, w, i + 1);
        } else if c == '"' {
            match close_quote(s, i + 1) {
                Some(j) => {
                    lemma_close_quote_bounds(s, i + 1);
                    // The recursion lands at j + 1, so j + 1 <= k.
                    assert(boundary_from(s, j + 1, k));
                    assert(j + 1 <= k);
                    lemma_close_quote_prefix(s, t, i + 1, k, j);
                    assert(s.subrange(i + 1, j) =~= t.subrange(i + 1, j));
                    lemma_insert_space_from(s, k, w, j + 1);
                },
                None => {
                    // Then the boundary predicate would be false.
                    assert(false);
                },
            }
        } else if is_alpha_char(c) {
            let j = scan_ident(s, i + 1);
            lemma_scan_ident_bounds(s, i + 1);
            assert(boundary_from(s, j, k));
            assert(j <= k);
            assert(!is_ident_char(t[k]));
            lemma_scan_ident_prefix(s, t, i + 1, k);
            assert(s.subrange(i, j) =~= t.subrange(i, j));
            lemma_insert_space_from(s, k, w, j);
        } else if is_digit_char(c) {
            let j = scan_number(s, i + 1, false);
            lemma_scan_number_bounds(s, i + 1, false);
            assert(boundary_from(s, j, k));
            assert(j <= k);
            assert(!is_digit_char(t[k]) && t[k] != '.');
            lemma_scan_number_prefix(s, t, i + 1, k, false);
            assert(s.subrange(i, j) =~= t.subrange(i, j));
            lemma_insert_space_from(s, k, w, j);
        } else {
            // Then the boundary predicate would be false.
            assert(false);
        }
    }
}

/// Idempotence of whitespace: inserting a whitespace character at a token
/// boundary — between two tokens, or inside a whitespace run, but not
/// inside a token or a string literal — produces the same token sequence
/// and the same error, if any. The hypothesis that `w` is not alphanumeric
/// records, for the classification deliberately left unspecified here, a
/// fact that holds of every Unicode whitespace character.
pub proof fn lemma_whitespace_insertion(s: Seq<char>, k: int, w: char)
    requires
        is_space_char(w),
        !is_alnum_char(w),
        0 <= k <= s.len(),
        token_boundary(s, k),
    ensures
        lex_spec(s.insert(k, w)) == lex_spec(s),
{
    lemma_insert_space_from(s, k, w, 0);
}

} // verus!
