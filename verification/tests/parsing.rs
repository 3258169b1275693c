use minilang::ast::{
    AstNode, BasicType, BinaryOperator, Expression, Statement, VariableDeclaration,
};
use minilang::parse_source;

fn number(text: &str, number_type: BasicType) -> Expression {
    Expression::NumberLiteral {
        value: text.to_string(),
        number_type,
    }
}

fn binary(op: BinaryOperator, left: Expression, right: Expression) -> Expression {
    Expression::BinaryOp {
        op,
        left: Box::new(left),
        right: Box::new(right),
    }
}

fn single_statement(source: &str) -> Statement {
    let root = parse_source(source).unwrap();
    assert_eq!(root.nodes.len(), 1);
    let AstNode::Statement(statement) = root.nodes.into_iter().next().unwrap();
    statement
}

#[test]
fn number_with_decimal_point_is_float() {
    assert_eq!(
        single_statement("1.5;"),
        Statement::Expr(number("1.5", BasicType::Float))
    );
}

#[test]
fn number_of_digits_only_is_int() {
    assert_eq!(
        single_statement("15;"),
        Statement::Expr(number("15", BasicType::Int))
    );
}

#[test]
fn addition_and_subtraction_fold_left() {
    // "1 + 2 - 3;" is (1 + 2) - 3: the outer node is Sub, its left child Add.
    let expected = binary(
        BinaryOperator::Sub,
        binary(
            BinaryOperator::Add,
            number("1", BasicType::Int),
            number("2", BasicType::Int),
        ),
        number("3", BasicType::Int),
    );
    assert_eq!(single_statement("1 + 2 - 3;"), Statement::Expr(expected));
}

#[test]
fn redundant_parentheses_leave_no_trace() {
    let unparenthesized = parse_source("1 + 2 - 3;").unwrap();
    let parenthesized = parse_source("(1 + 2) - 3;").unwrap();
    assert_eq!(parenthesized, unparenthesized);
}

#[test]
fn parentheses_on_the_right_group_the_right_operands() {
    let expected = binary(
        BinaryOperator::Sub,
        number("1", BasicType::Int),
        binary(
            BinaryOperator::Add,
            number("2", BasicType::Int),
            number("3", BasicType::Int),
        ),
    );
    assert_eq!(single_statement("1 - (2 + 3);"), Statement::Expr(expected));
    assert_ne!(
        parse_source("1 - (2 + 3);").unwrap(),
        parse_source("1 - 2 + 3;").unwrap()
    );
}

#[test]
fn declaration_without_initializer() {
    assert_eq!(
        single_statement("int x;"),
        Statement::VarDecl(VariableDeclaration {
            var_type: BasicType::Int,
            name: "x".to_string(),
            initializer: None,
        })
    );
}

#[test]
fn declaration_with_initializer() {
    assert_eq!(
        single_statement("string s = \"hi\";"),
        Statement::VarDecl(VariableDeclaration {
            var_type: BasicType::String,
            name: "s".to_string(),
            initializer: Some(Expression::StringLiteral("hi".to_string())),
        })
    );
}

#[test]
fn declarations_of_each_type() {
    assert_eq!(
        single_statement("float f = 1.5;"),
        Statement::VarDecl(VariableDeclaration {
            var_type: BasicType::Float,
            name: "f".to_string(),
            initializer: Some(number("1.5", BasicType::Float)),
        })
    );
    assert_eq!(
        single_statement("uint u = 3;"),
        Statement::VarDecl(VariableDeclaration {
            var_type: BasicType::Uint,
            name: "u".to_string(),
            initializer: Some(number("3", BasicType::Int)),
        })
    );
}

#[test]
fn declaration_initializer_may_be_a_full_expression() {
    assert_eq!(
        single_statement("int x = 1 + y;"),
        Statement::VarDecl(VariableDeclaration {
            var_type: BasicType::Int,
            name: "x".to_string(),
            initializer: Some(binary(
                BinaryOperator::Add,
                number("1", BasicType::Int),
                Expression::VariableRef("y".to_string()),
            )),
        })
    );
}

#[test]
fn statements_keep_source_order() {
    let root = parse_source("int x; x + 1; string s;").unwrap();
    assert_eq!(root.nodes.len(), 3);
    let AstNode::Statement(first) = &root.nodes[0];
    let AstNode::Statement(second) = &root.nodes[1];
    let AstNode::Statement(third) = &root.nodes[2];
    assert!(matches!(first, Statement::VarDecl(d) if d.name == "x"));
    assert!(matches!(second, Statement::Expr(_)));
    assert!(matches!(third, Statement::VarDecl(d) if d.name == "s"));
}

#[test]
fn empty_source_gives_an_empty_root() {
    assert_eq!(parse_source("").unwrap().nodes.len(), 0);
    assert_eq!(parse_source("   ").unwrap().nodes.len(), 0);
}

#[test]
fn nested_parentheses_also_leave_no_trace() {
    assert_eq!(
        parse_source("((1));").unwrap(),
        parse_source("1;").unwrap()
    );
}

#[test]
fn number_ending_in_decimal_point_is_float() {
    assert_eq!(
        single_statement("1.;"),
        Statement::Expr(number("1.", BasicType::Float))
    );
}

#[test]
fn whitespace_between_tokens_changes_no_tree() {
    assert_eq!(
        parse_source("1 + 2 - 3;").unwrap(),
        parse_source("1+2-3;").unwrap()
    );
    assert_eq!(
        parse_source("int   x\t=\n5 ;").unwrap(),
        parse_source("int x=5;").unwrap()
    );
}
