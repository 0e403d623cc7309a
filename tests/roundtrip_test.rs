use compiler::ast::{ASTNode, SymbolNode};
use compiler::parser::Parser;
use compiler::semantics::Semantics;
use compiler::types::{OperatorType, SymbolKind, Type};

fn write_expr(e: &ASTNode, out: &mut String) {
    match e {
        ASTNode::Expr(inner) => write_expr(inner, out),
        ASTNode::BinaryOperation { left, right, operation } => {
            write_expr(left, out);
            let op = match operation.as_operator().unwrap() {
                OperatorType::Add => " + ",
                OperatorType::Sub => " - ",
                OperatorType::Mul => " * ",
                OperatorType::Div => " / ",
                OperatorType::Equal => " = ",
            };
            out.push_str(op);
            write_expr(right, out);
        }
        ASTNode::Number(n) => out.push_str(&n.to_string()),
        ASTNode::Bool(b) => out.push_str(if *b { "true" } else { "false" }),
        ASTNode::String(s) => {
            out.push('"');
            out.push_str(s);
            out.push('"');
        }
        ASTNode::Char(c) => {
            out.push('\'');
            out.push(*c);
            out.push('\'');
        }
        _ => panic!("outside the literal and binary-operation subset"),
    }
}

fn lit(n: i32) -> Box<ASTNode> {
    Box::new(ASTNode::Expr(Box::new(ASTNode::Number(n))))
}

fn op(left: Box<ASTNode>, o: OperatorType, right: Box<ASTNode>) -> Box<ASTNode> {
    Box::new(ASTNode::Expr(Box::new(ASTNode::BinaryOperation {
        left,
        right,
        operation: Box::new(ASTNode::Operator(o)),
    })))
}

fn reparse_value(e: &ASTNode) -> ASTNode {
    let mut text = String::from("v = ");
    write_expr(e, &mut text);
    text.push(';');
    let mut parser = Parser::new(text.into_bytes());
    let mut symbols = parser.parse().unwrap();
    assert_eq!(symbols.len(), 1);
    let s: SymbolNode = symbols.pop().unwrap();
    assert_eq!(s.kind, SymbolKind::Assign);
    match s.value {
        ASTNode::Assign { value, .. } => *value,
        _ => panic!("not an assignment"),
    }
}

#[test]
fn written_expression_reads_back_equal() {
    let e = op(op(lit(2), OperatorType::Mul, lit(2)), OperatorType::Add, lit(2));
    assert_eq!(reparse_value(&e), *e);
    let e = op(op(op(lit(7), OperatorType::Sub, lit(3)), OperatorType::Div, lit(1)), OperatorType::Add, lit(0));
    assert_eq!(reparse_value(&e), *e);
    let single = lit(42);
    assert_eq!(reparse_value(&single), *single);
    let s = Box::new(ASTNode::Expr(Box::new(ASTNode::String("ab c".into()))));
    assert_eq!(reparse_value(&s), *s);
    let c = Box::new(ASTNode::Expr(Box::new(ASTNode::Char('x'))));
    assert_eq!(reparse_value(&c), *c);
    let b = op(
        Box::new(ASTNode::Expr(Box::new(ASTNode::Bool(true)))),
        OperatorType::Add,
        Box::new(ASTNode::Expr(Box::new(ASTNode::Bool(false)))),
    );
    assert_eq!(reparse_value(&b), *b);
}

#[test]
fn right_nested_expression_needs_parentheses() {
    let e = op(lit(1), OperatorType::Sub, op(lit(2), OperatorType::Sub, lit(3)));
    assert_ne!(reparse_value(&e), *e);
}

#[test]
fn scenario_declaration_with_arithmetic() {
    let mut parser = Parser::new(b"int x = 2 * 2 + 2;".to_vec());
    let symbols = parser.parse().unwrap();
    let expected = ASTNode::DeclarationAssignment {
        typ: Type::Integer,
        name: Box::new(ASTNode::Identifier("x".into())),
        value: op(op(lit(2), OperatorType::Mul, lit(2)), OperatorType::Add, lit(2)),
    };
    assert_eq!(symbols, vec![SymbolNode::new(SymbolKind::DeclarationAssignment, expected)]);
    assert_eq!(Semantics::new(&symbols).validate_semantics(), Ok(()));
}
