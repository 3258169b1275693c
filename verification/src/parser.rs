//! The recursive-descent parser: consumes the token sequence with a single
//! forward cursor, no backtracking, and builds the syntax tree.
//!
//! The spec functions [`statements_spec`], [`statement_spec`],
//! [`var_decl_spec`], [`expression_spec`] and [`primary_spec`] are the
//! mathematical definition of the grammar: each maps the token sequence and
//! a cursor position to the parsed value and the new position, or to the
//! first error. The executable functions are proved to return exactly those
//! values.

use vstd::prelude::*;
use vstd::string::{StrSliceExecFns, StringExecFns};

use crate::ast::{
    AstNode, AstNodeView, AstRoot, BasicType, BinaryOperator, Expression, ExpressionView,
    Statement, StatementView, VariableDeclaration, VariableDeclarationView,
};
use crate::token::{token_views, Token, TokenView};

verus! {

/// A failure of parsing, carrying the offending token where applicable.
#[derive(Debug, Clone, PartialEq)]
pub enum ParserError {
    /// A variable declaration was expected but no type keyword stood first.
    ExpectedTypeKeyword,
    /// A type keyword was not followed by an identifier.
    ExpectedIdentifier,
    /// A statement was not terminated by `;`.
    ExpectedSemicolon,
    /// A parenthesized expression was not closed by `)`.
    ExpectedClosingParen,
    /// A token that no expression can begin with.
    UnexpectedToken(Token),
    /// The token sequence was exhausted inside an expression.
    UnexpectedEndOfInput,
}

/// The view of a [`ParserError`].
pub enum ParserErrorView {
    ExpectedTypeKeyword,
    ExpectedIdentifier,
    ExpectedSemicolon,
    ExpectedClosingParen,
    UnexpectedToken(TokenView),
    UnexpectedEndOfInput,
}

impl View for ParserError {
    type V = ParserErrorView;

    open spec fn view(&self) -> ParserErrorView {
        match self {
            ParserError::ExpectedTypeKeyword => ParserErrorView::ExpectedTypeKeyword,
            ParserError::ExpectedIdentifier => ParserErrorView::ExpectedIdentifier,
            ParserError::ExpectedSemicolon => ParserErrorView::ExpectedSemicolon,
            ParserError::ExpectedClosingParen => ParserErrorView::ExpectedClosingParen,
            ParserError::UnexpectedToken(t) => ParserErrorView::UnexpectedToken(t@),
            ParserError::UnexpectedEndOfInput => ParserErrorView::UnexpectedEndOfInput,
        }
    }
}

/// The descriptive text of a parse error.
pub open spec fn parse_error_message(e: ParserErrorView) -> Seq<char> {
    match e {
        ParserErrorView::ExpectedTypeKeyword => "Expected type keyword"@,
        ParserErrorView::ExpectedIdentifier => "Expected identifier"@,
        ParserErrorView::ExpectedSemicolon => "Expected ';'"@,
        ParserErrorView::ExpectedClosingParen => "Expected ')'"@,
        ParserErrorView::UnexpectedToken(t) => "Unexpected token in expression: "@
            + crate::token::token_text(t),
        ParserErrorView::UnexpectedEndOfInput => "Unexpected end of tokens"@,
    }
}

impl ParserError {
    /// The descriptive text of this error.
    pub fn message(&self) -> (r: String)
        ensures
            r@ == parse_error_message(self@),
    {
        match self {
            ParserError::ExpectedTypeKeyword => String::from_str("Expected type keyword"),
            ParserError::ExpectedIdentifier => String::from_str("Expected identifier"),
            ParserError::ExpectedSemicolon => String::from_str("Expected ';'"),
            ParserError::ExpectedClosingParen => String::from_str("Expected ')'"),
            ParserError::UnexpectedToken(t) => {
                let described = t.text();
                String::from_str("Unexpected token in expression: ").concat(described.as_str())
            },
            ParserError::UnexpectedEndOfInput => String::from_str("Unexpected end of tokens"),
        }
    }
}

/// Whether a number literal's raw text contains a decimal point.
pub open spec fn contains_dot(text: Seq<char>) -> bool {
    exists|k: int| 0 <= k < text.len() && text[k] == '.'
}

/// The type of a number literal: `Float` if its raw text contains a decimal
/// point, `Int` otherwise.
pub open spec fn number_type_of(text: Seq<char>) -> BasicType {
    if contains_dot(text) {
        BasicType::Float
    } else {
        BasicType::Int
    }
}

/// Classification of number literals: a literal whose raw text contains a
/// decimal point is produced with type `Float`; one of digits only is
/// produced with type `Int`.
pub proof fn lemma_number_classification(tokens: Seq<TokenView>, pos: int, text: Seq<char>)
    requires
        0 <= pos < tokens.len(),
        tokens[pos] == TokenView::NumberLiteral(text),
    ensures
        (exists|k: int| 0 <= k < text.len() && text[k] == '.') ==> primary_spec(tokens, pos)
            == Ok::<(ExpressionView, int), ParserErrorView>(
            (ExpressionView::NumberLiteral { value: text, number_type: BasicType::Float }, pos + 1),
        ),
        (forall|k: int| 0 <= k < text.len() ==> crate::lexer::is_digit_char(text[k]))
            ==> primary_spec(tokens, pos) == Ok::<(ExpressionView, int), ParserErrorView>(
            (ExpressionView::NumberLiteral { value: text, number_type: BasicType::Int }, pos + 1),
        ),
{
    // A decimal point is not a digit, so digit-only text contains none.
    assert(!crate::lexer::is_digit_char('.'));
}

/// Whether a token is one of the four type keywords.
pub open spec fn is_type_keyword(t: TokenView) -> bool {
    t is KwInt || t is KwFloat || t is KwUint || t is KwString
}

/// The declared type that a type keyword denotes.
pub open spec fn keyword_type(t: TokenView) -> BasicType {
    match t {
        TokenView::KwInt => BasicType::Int,
        TokenView::KwFloat => BasicType::Float,
        TokenView::KwUint => BasicType::Uint,
        _ => BasicType::String,
    }
}

/// The primary rule: a number literal, a string literal, a variable
/// reference, or a parenthesized expression, which is returned unwrapped —
/// parentheses are purely structural and leave no trace in the tree.
pub open spec fn primary_spec(tokens: Seq<TokenView>, pos: int) -> Result<
    (ExpressionView, int),
    ParserErrorView,
>
    decreases tokens.len() - pos, 0int,
{
    if pos < 0 || pos >= tokens.len() {
        Err(ParserErrorView::UnexpectedEndOfInput)
    } else {
        match tokens[pos] {
            TokenView::NumberLiteral(text) => Ok(
                (
                    ExpressionView::NumberLiteral {
                        value: text,
                        number_type: number_type_of(text),
                    },
                    pos + 1,
                ),
            ),
            TokenView::StringLiteral(content) => Ok(
                (ExpressionView::StringLiteral(content), pos + 1),
            ),
            TokenView::Identifier(name) => Ok((ExpressionView::VariableRef(name), pos + 1)),
            TokenView::LParen => match expression_spec(tokens, pos + 1) {
                Ok((inner, p)) => if 0 <= p < tokens.len() && tokens[p] is RParen {
                    Ok((inner, p + 1))
                } else {
                    Err(ParserErrorView::ExpectedClosingParen)
                },
                Err(e) => Err(e),
            },
            t => Err(ParserErrorView::UnexpectedToken(t)),
        }
    }
}

/// The left-associative fold: while the cursor stands on `+` or `-`, consume
/// the operator and the next primary expression, combining the expression
/// built so far as the left operand and the newly parsed primary as the
/// right one.
pub open spec fn binop_rest_spec(tokens: Seq<TokenView>, pos: int, acc: ExpressionView) -> Result<
    (ExpressionView, int),
    ParserErrorView,
>
    decreases tokens.len() - pos, 1int,
{
    if 0 <= pos < tokens.len() && (tokens[pos] is Plus || tokens[pos] is Minus) {
        let op = if tokens[pos] is Plus {
            BinaryOperator::Add
        } else {
            BinaryOperator::Sub
        };
        match primary_spec(tokens, pos + 1) {
            Ok((rhs, p)) => {
                let combined = ExpressionView::BinaryOp {
                    op: op,
                    left: Box::new(acc),
                    right: Box::new(rhs),
                };
                // Parsing a primary always moves the cursor forward and
                // never past the end; the bound here only justifies
                // termination of this definition.
                if pos < p <= tokens.len() {
                    binop_rest_spec(tokens, p, combined)
                } else {
                    Ok((combined, p))
                }
            },
            Err(e) => Err(e),
        }
    } else {
        Ok((acc, pos))
    }
}

/// The expression rule: one primary expression, then the left-associative
/// fold over `+` and `-`.
pub open spec fn expression_spec(tokens: Seq<TokenView>, pos: int) -> Result<
    (ExpressionView, int),
    ParserErrorView,
>
    decreases tokens.len() - pos, 2int,
{
    match primary_spec(tokens, pos) {
        Ok((first, p)) => if pos <= p <= tokens.len() {
            binop_rest_spec(tokens, p, first)
        } else {
            Ok((first, p))
        },
        Err(e) => Err(e),
    }
}

/// Parsing an expression moves the cursor forward and never past the end.
pub proof fn lemma_expression_advances(tokens: Seq<TokenView>, pos: int, acc: ExpressionView)
    ensures
        primary_spec(tokens, pos) matches Ok((e, p)) ==> pos < p <= tokens.len(),
        expression_spec(tokens, pos) matches Ok((e, p)) ==> pos < p <= tokens.len(),
        pos <= tokens.len() ==> (binop_rest_spec(tokens, pos, acc) matches Ok((e, p)) ==> pos <= p
            <= tokens.len()),
    decreases tokens.len() - pos,
{
    // The primary rule: every successful branch lands just past a consumed
    // token; the parenthesized branch recurses at pos + 1.
    if 0 <= pos < tokens.len() && tokens[pos] is LParen {
        lemma_expression_advances(tokens, pos + 1, acc);
    }
    // The fold: each successful step consumes the operator and a primary.
    if 0 <= pos < tokens.len() && (tokens[pos] is Plus || tokens[pos] is Minus) {
        lemma_expression_advances(tokens, pos + 1, acc);
        match primary_spec(tokens, pos + 1) {
            Ok((rhs, p)) => {
                let op = if tokens[pos] is Plus {
                    BinaryOperator::Add
                } else {
                    BinaryOperator::Sub
                };
                let combined = ExpressionView::BinaryOp {
                    op: op,
                    left: Box::new(acc),
                    right: Box::new(rhs),
                };
                lemma_expression_advances(tokens, p, combined);
            },
            Err(_) => {},
        }
    }
    // The expression rule follows from the two above.
    match primary_spec(tokens, pos) {
        Ok((first, p)) => {
            lemma_expression_advances(tokens, p, first);
        },
        Err(_) => {},
    }
}

/// The mandatory statement terminator.
pub open spec fn semicolon_then(tokens: Seq<TokenView>, pos: int, built: StatementView) -> Result<
    (StatementView, int),
    ParserErrorView,
> {
    if 0 <= pos < tokens.len() && tokens[pos] is Semicolon {
        Ok((built, pos + 1))
    } else {
        Err(ParserErrorView::ExpectedSemicolon)
    }
}

/// The variable-declaration rule: a type keyword, an identifier, an optional
/// `=` followed by an initializer expression, and a terminating `;`.
pub open spec fn var_decl_spec(tokens: Seq<TokenView>, pos: int) -> Result<
    (StatementView, int),
    ParserErrorView,
>
    decreases tokens.len() - pos, 3int,
{
    if !(0 <= pos < tokens.len() && is_type_keyword(tokens[pos])) {
        Err(ParserErrorView::ExpectedTypeKeyword)
    } else if !(pos + 1 < tokens.len() && tokens[pos + 1] is Identifier) {
        Err(ParserErrorView::ExpectedIdentifier)
    } else {
        let var_type = keyword_type(tokens[pos]);
        let name = tokens[pos + 1]->Identifier_0;
        if pos + 2 < tokens.len() && tokens[pos + 2] is Equal {
            match expression_spec(tokens, pos + 3) {
                Ok((init, p)) => semicolon_then(
                    tokens,
                    p,
                    StatementView::VarDecl(
                        VariableDeclarationView {
                            var_type: var_type,
                            name: name,
                            initializer: Some(init),
                        },
                    ),
                ),
                Err(e) => Err(e),
            }
        } else {
            semicolon_then(
                tokens,
                pos + 2,
                StatementView::VarDecl(
                    VariableDeclarationView { var_type: var_type, name: name, initializer: None },
                ),
            )
        }
    }
}

/// The statement rule: a type keyword begins a variable declaration; any
/// other token begins an expression statement followed by a mandatory `;`.
pub open spec fn statement_spec(tokens: Seq<TokenView>, pos: int) -> Result<
    (StatementView, int),
    ParserErrorView,
>
    decreases tokens.len() - pos, 4int,
{
    if 0 <= pos < tokens.len() && is_type_keyword(tokens[pos]) {
        var_decl_spec(tokens, pos)
    } else {
        match expression_spec(tokens, pos) {
            Ok((e, p)) => semicolon_then(tokens, p, StatementView::Expr(e)),
            Err(e) => Err(e),
        }
    }
}

/// Parsing a statement moves the cursor forward and never past the end.
pub proof fn lemma_statement_advances(tokens: Seq<TokenView>, pos: int)
    ensures
        statement_spec(tokens, pos) matches Ok((st, p)) ==> pos < p <= tokens.len(),
{
    let placeholder = ExpressionView::VariableRef(Seq::empty());
    lemma_expression_advances(tokens, pos, placeholder);
    lemma_expression_advances(tokens, pos + 3, placeholder);
}

/// The top level: statements parsed in order until the end-of-input marker
/// (or the end of the sequence) is reached.
pub open spec fn statements_spec(tokens: Seq<TokenView>, pos: int) -> Result<
    Seq<AstNodeView>,
    ParserErrorView,
>
    decreases tokens.len() - pos, 5int,
{
    if !(0 <= pos < tokens.len()) || tokens[pos] is EOF {
        Ok(Seq::empty())
    } else {
        match statement_spec(tokens, pos) {
            Ok((st, p)) => if pos < p <= tokens.len() {
                match statements_spec(tokens, p) {
                    Ok(rest) => Ok(seq![AstNodeView::Statement(st)] + rest),
                    Err(e) => Err(e),
                }
            } else {
                Ok(seq![AstNodeView::Statement(st)])
            },
            Err(e) => Err(e),
        }
    }
}

/// The whole outcome of the top level, given that the nodes `done` were
/// already built and the cursor stands at `pos`.
pub open spec fn statements_cont(tokens: Seq<TokenView>, pos: int, done: Seq<AstNodeView>) -> Result<
    Seq<AstNodeView>,
    ParserErrorView,
> {
    match statements_spec(tokens, pos) {
        Ok(rest) => Ok(done + rest),
        Err(e) => Err(e),
    }
}

/// Building one statement node and moving the cursor from `pos` to `p`
/// leaves the whole outcome unchanged.
proof fn lemma_step_statement(
    tokens: Seq<TokenView>,
    pos: int,
    p: int,
    st: StatementView,
    done: Seq<AstNodeView>,
)
    requires
        0 <= pos < tokens.len(),
        !(tokens[pos] is EOF),
        statement_spec(tokens, pos) == Ok::<(StatementView, int), ParserErrorView>((st, p)),
        pos < p <= tokens.len(),
    ensures
        statements_cont(tokens, pos, done) == statements_cont(
            tokens,
            p,
            done + seq![AstNodeView::Statement(st)],
        ),
{
    match statements_spec(tokens, p) {
        Ok(rest) => {
            assert(done + (seq![AstNodeView::Statement(st)] + rest) =~= (done
                + seq![AstNodeView::Statement(st)]) + rest);
        },
        Err(_) => {},
    }
}

/// A copy of a token, equal to the original.
fn duplicate_token(t: &Token) -> (r: Token)
    ensures
        r == *t,
{
    match t {
        Token::KwInt => Token::KwInt,
        Token::KwFloat => Token::KwFloat,
        Token::KwUint => Token::KwUint,
        Token::KwString => Token::KwString,
        Token::Equal => Token::Equal,
        Token::Plus => Token::Plus,
        Token::Minus => Token::Minus,
        Token::Semicolon => Token::Semicolon,
        Token::LParen => Token::LParen,
        Token::RParen => Token::RParen,
        Token::Identifier(s) => Token::Identifier(s.clone()),
        Token::NumberLiteral(s) => Token::NumberLiteral(s.clone()),
        Token::StringLiteral(s) => Token::StringLiteral(s.clone()),
        Token::EOF => Token::EOF,
    }
}

/// Whether the raw text of a number literal contains a decimal point.
fn text_contains_dot(text: &str) -> (r: bool)
    ensures
        r == contains_dot(text@),
{
    let n = text.unicode_len();
    let mut k: usize = 0;
    while k < n
        invariant
            n == text@.len(),
            k <= n,
            forall|m: int| 0 <= m < k ==> text@[m] != '.',
        decreases n - k,
    {
        if text.get_char(k) == '.' {
            return true;
        }
        k = k + 1;
    }
    false
}

/// Whether the token at `p` is `+` or `-`.
fn op_token_at(tokens: &[Token], p: usize) -> (r: bool)
    requires
        p < tokens@.len(),
    ensures
        r == (token_views(tokens@)[p as int] is Plus || token_views(tokens@)[p as int] is Minus),
{
    match &tokens[p] {
        Token::Plus => true,
        Token::Minus => true,
        _ => false,
    }
}

/// Whether the token at `p` is a type keyword.
fn type_keyword_at(tokens: &[Token], p: usize) -> (r: bool)
    requires
        p < tokens@.len(),
    ensures
        r == is_type_keyword(token_views(tokens@)[p as int]),
{
    match &tokens[p] {
        Token::KwInt => true,
        Token::KwFloat => true,
        Token::KwUint => true,
        Token::KwString => true,
        _ => false,
    }
}

/// Whether the token at `p` is `=`.
fn equal_at(tokens: &[Token], p: usize) -> (r: bool)
    requires
        p < tokens@.len(),
    ensures
        r == (token_views(tokens@)[p as int] is Equal),
{
    match &tokens[p] {
        Token::Equal => true,
        _ => false,
    }
}

/// Whether the token at `p` is the end-of-input marker.
fn eof_at(tokens: &[Token], p: usize) -> (r: bool)
    requires
        p < tokens@.len(),
    ensures
        r == (token_views(tokens@)[p as int] is EOF),
{
    match &tokens[p] {
        Token::EOF => true,
        _ => false,
    }
}

/// Parses one primary expression, exactly as [`primary_spec`] says.
fn parse_primary(tokens: &[Token], pos: usize) -> (r: Result<(Expression, usize), ParserError>)
    requires
        pos <= tokens@.len(),
    ensures
        match r {
            Ok((e, p)) => primary_spec(token_views(tokens@), pos as int) == Ok::<
                (ExpressionView, int),
                ParserErrorView,
            >((e@, p as int)) && pos < p <= tokens@.len(),
            Err(er) => primary_spec(token_views(tokens@), pos as int) == Err::<
                (ExpressionView, int),
                ParserErrorView,
            >(er@),
        },
    decreases tokens@.len() - pos, 0int,
{
    if pos >= tokens.len() {
        return Err(ParserError::UnexpectedEndOfInput);
    }
    match &tokens[pos] {
        Token::NumberLiteral(text) => {
            let is_float = text_contains_dot(text.as_str());
            let number_type = if is_float {
                BasicType::Float
            } else {
                BasicType::Int
            };
            Ok((Expression::NumberLiteral { value: text.clone(), number_type }, pos + 1))
        },
        Token::StringLiteral(content) => Ok(
            (Expression::StringLiteral(content.clone()), pos + 1),
        ),
        Token::Identifier(name) => Ok((Expression::VariableRef(name.clone()), pos + 1)),
        Token::LParen => {
            match parse_expression(tokens, pos + 1) {
                Ok((inner, p)) => {
                    if p < tokens.len() {
                        let closing = match &tokens[p] {
                            Token::RParen => true,
                            _ => false,
                        };
                        if closing {
                            return Ok((inner, p + 1));
                        }
                    }
                    Err(ParserError::ExpectedClosingParen)
                },
                Err(er) => Err(er),
            }
        },
        t => Err(ParserError::UnexpectedToken(duplicate_token(t))),
    }
}

/// Parses one full expression: a primary, then the left-associative fold
/// over `+` and `-`, exactly as [`expression_spec`] says.
fn parse_expression(tokens: &[Token], pos: usize) -> (r: Result<(Expression, usize), ParserError>)
    requires
        pos <= tokens@.len(),
    ensures
        match r {
            Ok((e, p)) => expression_spec(token_views(tokens@), pos as int) == Ok::<
                (ExpressionView, int),
                ParserErrorView,
            >((e@, p as int)) && pos < p <= tokens@.len(),
            Err(er) => expression_spec(token_views(tokens@), pos as int) == Err::<
                (ExpressionView, int),
                ParserErrorView,
            >(er@),
        },
    decreases tokens@.len() - pos, 2int,
{
    let ghost tv = token_views(tokens@);
    let (mut e, mut p) = match parse_primary(tokens, pos) {
        Ok(x) => x,
        Err(er) => {
            return Err(er);
        },
    };
    while p < tokens.len() && op_token_at(tokens, p)
        invariant
            tv == token_views(tokens@),
            pos < p <= tokens@.len(),
            expression_spec(tv, pos as int) == binop_rest_spec(tv, p as int, e@),
        decreases tokens@.len() - p,
    {
        let op = match &tokens[p] {
            Token::Plus => BinaryOperator::Add,
            _ => BinaryOperator::Sub,
        };
        match parse_primary(tokens, p + 1) {
            Ok((rhs, p2)) => {
                e = Expression::BinaryOp { op, left: Box::new(e), right: Box::new(rhs) };
                p = p2;
            },
            Err(er) => {
                return Err(er);
            },
        }
    }
    Ok((e, p))
}

/// Consumes the mandatory `;`, or reports that it is missing.
fn consume_semicolon(tokens: &[Token], pos: usize) -> (r: Result<usize, ParserError>)
    requires
        pos <= tokens@.len(),
    ensures
        match r {
            Ok(p) => pos < tokens@.len() && token_views(tokens@)[pos as int] is Semicolon && p
                == pos + 1,
            Err(er) => !(pos < tokens@.len() && token_views(tokens@)[pos as int] is Semicolon)
                && er@ is ExpectedSemicolon,
        },
{
    if pos >= tokens.len() {
        return Err(ParserError::ExpectedSemicolon);
    }
    match &tokens[pos] {
        Token::Semicolon => Ok(pos + 1),
        _ => Err(ParserError::ExpectedSemicolon),
    }
}

/// Parses one variable declaration, exactly as [`var_decl_spec`] says.
fn parse_var_decl(tokens: &[Token], pos: usize) -> (r: Result<(Statement, usize), ParserError>)
    requires
        pos <= tokens@.len(),
    ensures
        match r {
            Ok((st, p)) => var_decl_spec(token_views(tokens@), pos as int) == Ok::<
                (StatementView, int),
                ParserErrorView,
            >((st@, p as int)) && pos < p <= tokens@.len(),
            Err(er) => var_decl_spec(token_views(tokens@), pos as int) == Err::<
                (StatementView, int),
                ParserErrorView,
            >(er@),
        },
{
    if pos >= tokens.len() {
        return Err(ParserError::ExpectedTypeKeyword);
    }
    let var_type = match &tokens[pos] {
        Token::KwInt => BasicType::Int,
        Token::KwFloat => BasicType::Float,
        Token::KwUint => BasicType::Uint,
        Token::KwString => BasicType::String,
        _ => {
            return Err(ParserError::ExpectedTypeKeyword);
        },
    };
    if pos + 1 >= tokens.len() {
        return Err(ParserError::ExpectedIdentifier);
    }
    let name = match &tokens[pos + 1] {
        Token::Identifier(s) => s.clone(),
        _ => {
            return Err(ParserError::ExpectedIdentifier);
        },
    };
    let has_initializer = pos + 2 < tokens.len() && equal_at(tokens, pos + 2);
    if has_initializer {
        match parse_expression(tokens, pos + 3) {
            Ok((init, p)) => match consume_semicolon(tokens, p) {
                Ok(p2) => Ok(
                    (
                        Statement::VarDecl(
                            VariableDeclaration { var_type, name, initializer: Some(init) },
                        ),
                        p2,
                    ),
                ),
                Err(er) => Err(er),
            },
            Err(er) => Err(er),
        }
    } else {
        match consume_semicolon(tokens, pos + 2) {
            Ok(p2) => Ok(
                (
                    Statement::VarDecl(
                        VariableDeclaration { var_type, name, initializer: None },
                    ),
                    p2,
                ),
            ),
            Err(er) => Err(er),
        }
    }
}

/// Parses one statement, exactly as [`statement_spec`] says: a variable
/// declaration if a type keyword stands first, else an expression statement.
fn parse_statement(tokens: &[Token], pos: usize) -> (r: Result<(Statement, usize), ParserError>)
    requires
        pos <= tokens@.len(),
    ensures
        match r {
            Ok((st, p)) => statement_spec(token_views(tokens@), pos as int) == Ok::<
                (StatementView, int),
                ParserErrorView,
            >((st@, p as int)) && pos < p <= tokens@.len(),
            Err(er) => statement_spec(token_views(tokens@), pos as int) == Err::<
                (StatementView, int),
                ParserErrorView,
            >(er@),
        },
{
    if pos < tokens.len() && type_keyword_at(tokens, pos) {
        parse_var_decl(tokens, pos)
    } else {
        match parse_expression(tokens, pos) {
            Ok((e, p)) => match consume_semicolon(tokens, p) {
                Ok(p2) => Ok((Statement::Expr(e), p2)),
                Err(er) => Err(er),
            },
            Err(er) => Err(er),
        }
    }
}

/// Parses the whole token sequence: statements in source order until the
/// end-of-input marker, collected into the tree root — exactly the value
/// that [`statements_spec`] assigns to the sequence, or its first error.
pub fn parse_statements(tokens: &[Token]) -> (r: Result<AstRoot, ParserError>)
    ensures
        match r {
            Ok(root) => statements_spec(token_views(tokens@), 0) == Ok::<
                Seq<AstNodeView>,
                ParserErrorView,
            >(root@.nodes),
            Err(er) => statements_spec(token_views(tokens@), 0) == Err::<
                Seq<AstNodeView>,
                ParserErrorView,
            >(er@),
        },
{
    let ghost tv = token_views(tokens@);
    let mut nodes: Vec<AstNode> = Vec::new();
    let mut pos: usize = 0;
    proof {
        if statements_spec(tv, 0) is Ok {
            assert(crate::ast::node_views(nodes@) + statements_spec(tv, 0)->Ok_0 =~= statements_spec(
                tv,
                0,
            )->Ok_0);
        }
    }
    while pos < tokens.len() && !eof_at(tokens, pos)
        invariant
            tv == token_views(tokens@),
            pos <= tokens@.len(),
            statements_spec(tv, 0) == statements_cont(tv, pos as int, crate::ast::node_views(nodes@)),
        decreases tokens@.len() - pos,
    {
        match parse_statement(tokens, pos) {
            Ok((st, p)) => {
                let ghost stv = st@;
                let ghost prev = nodes@;
                let ghost done = crate::ast::node_views(nodes@);
                nodes.push(AstNode::Statement(st));
                proof {
                    crate::ast::lemma_node_views_push(prev, nodes@[nodes@.len() - 1]);
                    lemma_step_statement(tv, pos as int, p as int, stv, done);
                }
                pos = p;
            },
            Err(er) => {
                return Err(er);
            },
        }
    }
    proof {
        assert(crate::ast::node_views(nodes@) + Seq::<AstNodeView>::empty() =~= crate::ast::node_views(
            nodes@,
        ));
    }
    Ok(AstRoot { nodes })
}

} // verus!
