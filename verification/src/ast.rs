//! The syntax-tree data model: declarable types, expressions, declarations,
//! statements, and the tree root, together with their mathematical views.
//!
//! Each executable node type carries `String` payloads; its view replaces
//! every `String` by a `Seq<char>`, so that contracts can speak of the tree
//! as a pure mathematical value.

use vstd::prelude::*;

verus! {

/// The closed set of declarable variable types.
#[derive(Debug, Clone, Copy, PartialEq, Eq, Structural)]
pub enum BasicType {
    Int,
    Float,
    Uint,
    String,
}

/// A binary operator supported by the language: `+` or `-`.
#[derive(Debug, Clone, Copy, PartialEq, Eq, Structural)]
pub enum BinaryOperator {
    Add,
    Sub,
}

/// An expression: a variable reference, a number literal kept as raw text,
/// a string literal, or a binary operation owning both operands.
#[derive(Debug, PartialEq)]
pub enum Expression {
    VariableRef(String),
    /// The value is retained as raw text; `number_type` is `Int` unless the
    /// text contains a decimal point, in which case it is `Float`.
    NumberLiteral { value: String, number_type: BasicType },
    /// Decoded literal text: quotes stripped, no escape processing.
    StringLiteral(String),
    /// A binary operation; the node exclusively owns both operands, so every
    /// expression is a finite tree by construction.
    BinaryOp { op: BinaryOperator, left: Box<Expression>, right: Box<Expression> },
}

/// The view of an [`Expression`]: the same tree over `Seq<char>`.
pub enum ExpressionView {
    VariableRef(Seq<char>),
    NumberLiteral { value: Seq<char>, number_type: BasicType },
    StringLiteral(Seq<char>),
    BinaryOp { op: BinaryOperator, left: Box<ExpressionView>, right: Box<ExpressionView> },
}

pub open spec fn expression_view(e: Expression) -> ExpressionView
    decreases e,
{
    match e {
        Expression::VariableRef(name) => ExpressionView::VariableRef(name@),
        Expression::NumberLiteral { value, number_type } => ExpressionView::NumberLiteral {
            value: value@,
            number_type: number_type,
        },
        Expression::StringLiteral(content) => ExpressionView::StringLiteral(content@),
        Expression::BinaryOp { op, left, right } => ExpressionView::BinaryOp {
            op: op,
            left: Box::new(expression_view(*left)),
            right: Box::new(expression_view(*right)),
        },
    }
}

impl View for Expression {
    type V = ExpressionView;

    open spec fn view(&self) -> ExpressionView {
        expression_view(*self)
    }
}

/// A single variable declaration, e.g. `int x = 5;`.
///
/// No check is made that the initializer's apparent type matches `var_type`;
/// that is deferred to a future semantic pass.
#[derive(Debug, PartialEq)]
pub struct VariableDeclaration {
    pub var_type: BasicType,
    /// Identifier of the variable.
    pub name: String,
    /// Optional initializer expression.
    pub initializer: Option<Expression>,
}

/// The view of a [`VariableDeclaration`].
pub struct VariableDeclarationView {
    pub var_type: BasicType,
    pub name: Seq<char>,
    pub initializer: Option<ExpressionView>,
}

impl View for VariableDeclaration {
    type V = VariableDeclarationView;

    open spec fn view(&self) -> VariableDeclarationView {
        VariableDeclarationView {
            var_type: self.var_type,
            name: self.name@,
            initializer: match self.initializer {
                Some(e) => Some(expression_view(e)),
                None => None,
            },
        }
    }
}

/// A statement: a variable declaration or an expression statement.
#[derive(Debug, PartialEq)]
pub enum Statement {
    /// A variable declaration statement.
    VarDecl(VariableDeclaration),
    /// A statement that evaluates an expression.
    Expr(Expression),
}

/// The view of a [`Statement`].
pub enum StatementView {
    VarDecl(VariableDeclarationView),
    Expr(ExpressionView),
}

impl View for Statement {
    type V = StatementView;

    open spec fn view(&self) -> StatementView {
        match self {
            Statement::VarDecl(d) => StatementView::VarDecl(d@),
            Statement::Expr(e) => StatementView::Expr(expression_view(*e)),
        }
    }
}

/// A top-level construct; for now every top-level construct is a statement.
#[derive(Debug, PartialEq)]
pub enum AstNode {
    Statement(Statement),
}

/// The view of an [`AstNode`].
pub enum AstNodeView {
    Statement(StatementView),
}

impl View for AstNode {
    type V = AstNodeView;

    open spec fn view(&self) -> AstNodeView {
        match self {
            AstNode::Statement(s) => AstNodeView::Statement(s@),
        }
    }
}

/// The parse result: the root of the syntax tree, owning all nodes in source
/// order.
#[derive(Debug, PartialEq)]
pub struct AstRoot {
    pub nodes: Vec<AstNode>,
}

/// The view of an [`AstRoot`].
pub struct AstRootView {
    pub nodes: Seq<AstNodeView>,
}

/// The views of a sequence of nodes, in order.
pub open spec fn node_views(nodes: Seq<AstNode>) -> Seq<AstNodeView> {
    nodes.map_values(|n: AstNode| n@)
}

impl View for AstRoot {
    type V = AstRootView;

    open spec fn view(&self) -> AstRootView {
        AstRootView { nodes: node_views(self.nodes@) }
    }
}

/// Appending a node appends its view.
pub proof fn lemma_node_views_push(nodes: Seq<AstNode>, n: AstNode)
    ensures
        node_views(nodes.push(n)) == node_views(nodes) + seq![n@],
{
    assert(node_views(nodes.push(n)) =~= node_views(nodes) + seq![n@]);
}

} // verus!
