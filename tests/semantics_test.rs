use compiler::ast::{ASTNode, SymbolNode};
use compiler::parser::Parser;
use compiler::semantics::{Scope, SemanticError, Semantics, VariablesTable};
use compiler::types::{OperatorType, SymbolKind, Type};

fn check(source: &str) -> Result<(), SemanticError> {
    let mut parser = Parser::new(source.as_bytes().to_vec());
    let symbols = parser.parse().unwrap();
    Semantics::new(&symbols).validate_semantics()
}

#[test]
fn arithmetic_initializer_passes() {
    assert_eq!(check("int x = 2 * 2 + 2;"), Ok(()));
    assert_eq!(check("int x = 2 * 2 + 2;\nx = 1;"), Ok(()));
}

#[test]
fn redeclaration_is_rejected() {
    assert_eq!(check("int x; int x;"), Err(SemanticError::AlreadyDeclared));
    assert_eq!(check("int x; bool x = true;"), Err(SemanticError::AlreadyDeclared));
}

#[test]
fn redeclaration_is_rejected_across_scopes() {
    let mut table = VariablesTable::new();
    table.add_global_variable("x".to_string(), Type::Integer);
    table.add_scope();
    assert_eq!(table.find_variable("x"), Some(&Type::Integer));
    table.add_variable("y".to_string(), Type::Bool);
    assert_eq!(table.find_variable("y"), Some(&Type::Bool));
    table.remove_scope();
    assert_eq!(table.find_variable("y"), None);
    assert_eq!(table.find_variable("x"), Some(&Type::Integer));
    table.remove_scope();
    table.remove_scope();
    assert_eq!(table.find_variable("x"), Some(&Type::Integer));
}

#[test]
fn mismatched_initializer_is_rejected() {
    assert_eq!(check("bool b = 1 + 2;"), Err(SemanticError::TypeMismatch));
    assert_eq!(check("string s = 'c';"), Err(SemanticError::TypeMismatch));
    assert_eq!(check("int i = 1 + true;"), Err(SemanticError::TypeMismatch));
    assert_eq!(check("char c = 'c';"), Ok(()));
    assert_eq!(check("string s = \"t\"; bool b = false;"), Ok(()));
}

#[test]
fn undeclared_assignment_is_rejected() {
    assert_eq!(check("y = 1;"), Err(SemanticError::NotDeclared));
}

#[test]
fn first_error_halts_the_pass() {
    assert_eq!(check("y = 1; int y; int y;"), Err(SemanticError::NotDeclared));
}

#[test]
fn non_statement_at_top_level_is_unsupported() {
    let symbols = vec![SymbolNode::new(
        SymbolKind::Expr,
        ASTNode::Expr(Box::new(ASTNode::Number(1))),
    )];
    assert_eq!(
        Semantics::new(&symbols).validate_semantics(),
        Err(SemanticError::UnsupportedStatement)
    );
}

#[test]
fn name_that_is_not_an_identifier_is_invalid() {
    let symbols = vec![SymbolNode::new(
        SymbolKind::Declaration,
        ASTNode::Declaration { typ: Type::Integer, name: Box::new(ASTNode::Number(1)) },
    )];
    assert_eq!(
        Semantics::new(&symbols).validate_semantics(),
        Err(SemanticError::InvalidName)
    );
}

#[test]
fn variable_references_are_not_typed() {
    let symbols = vec![
        SymbolNode::new(
            SymbolKind::Declaration,
            ASTNode::Declaration {
                typ: Type::Integer,
                name: Box::new(ASTNode::Identifier("a".into())),
            },
        ),
        SymbolNode::new(
            SymbolKind::Assign,
            ASTNode::Assign {
                name: Box::new(ASTNode::Identifier("a".into())),
                value: Box::new(ASTNode::Expr(Box::new(ASTNode::Identifier("a".into())))),
            },
        ),
    ];
    assert_eq!(
        Semantics::new(&symbols).validate_semantics(),
        Err(SemanticError::TypeMismatch)
    );
}

#[test]
fn declared_types_are_exposed_after_analysis() {
    let mut parser = Parser::new(b"int a = 1; bool b;".to_vec());
    let symbols = parser.parse().unwrap();
    let mut sem = Semantics::new(&symbols);
    assert_eq!(sem.validate_semantics(), Ok(()));
    assert_eq!(sem.variable_type("a"), Some(Type::Integer));
    assert_eq!(sem.variable_type("b"), Some(Type::Bool));
    assert_eq!(sem.variable_type("c"), None);
}

#[test]
fn expression_types_look_through_wrappers() {
    let e = ASTNode::Expr(Box::new(ASTNode::BinaryOperation {
        left: Box::new(ASTNode::Expr(Box::new(ASTNode::Number(1)))),
        right: Box::new(ASTNode::Expr(Box::new(ASTNode::Number(2)))),
        operation: Box::new(ASTNode::Operator(OperatorType::Add)),
    }));
    assert!(Semantics::validate_expr_type(&e, &Type::Integer));
    assert!(!Semantics::validate_expr_type(&e, &Type::Bool));
    assert!(!Semantics::validate_expr_type(&ASTNode::Identifier("v".into()), &Type::Integer));
}

#[test]
fn scope_bindings() {
    let mut scope = Scope::new();
    assert!(!scope.has_variable("k"));
    scope.add_variable("k".to_string(), Type::Char);
    assert!(scope.has_variable("k"));
    assert_eq!(scope.get_variable("k"), Some(&Type::Char));
    scope.add_variable("k".to_string(), Type::Bool);
    assert_eq!(scope.get_variable("k"), Some(&Type::Bool));
    assert_eq!(scope.get_variable("kk"), None);
}

#[test]
fn failed_declaration_leaves_scopes_unchanged() {
    let mut parser = Parser::new(b"int x; bool x; y = 2;".to_vec());
    let symbols = parser.parse().unwrap();
    let mut sem = Semantics::new(&symbols);
    assert_eq!(sem.validate_semantics(), Err(SemanticError::AlreadyDeclared));
    assert_eq!(sem.variable_type("x"), Some(Type::Integer));
    let x = ASTNode::Identifier("x".into());
    assert_eq!(sem.declaration(&Type::Char, &x), Err(SemanticError::AlreadyDeclared));
    assert_eq!(sem.variable_type("x"), Some(Type::Integer));
    let y = ASTNode::Identifier("y".into());
    assert_eq!(sem.assignment(&y, &ASTNode::Number(1)), Err(SemanticError::NotDeclared));
    assert_eq!(sem.variable_type("y"), None);
}

#[test]
fn mistyped_initializer_keeps_the_declaration() {
    let symbols: Vec<SymbolNode> = Vec::new();
    let mut sem = Semantics::new(&symbols);
    let x = ASTNode::Identifier("x".into());
    let value = ASTNode::Expr(Box::new(ASTNode::Bool(true)));
    assert_eq!(
        sem.declaration_assignment(&Type::Integer, &x, &value),
        Err(SemanticError::TypeMismatch)
    );
    assert_eq!(sem.variable_type("x"), Some(Type::Integer));
    assert_eq!(
        sem.declaration_assignment(&Type::Char, &x, &ASTNode::Char('c')),
        Err(SemanticError::AlreadyDeclared)
    );
    assert_eq!(sem.variable_type("x"), Some(Type::Integer));
}
