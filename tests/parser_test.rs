use compiler::ast::{ASTNode, SymbolNode};
use compiler::grammar::{GrammarTable, Rule};
use compiler::lexer::Token;
use compiler::parser::{check_symbols_in_rule, Parser};
use compiler::types::{OperatorType, ParseError, SymbolKind, Type};

fn parse_source(source: &str) -> Result<Vec<SymbolNode>, ParseError> {
    let mut parser = Parser::new(source.as_bytes().to_vec());
    parser.parse()
}

fn num_expr(n: i32) -> Box<ASTNode> {
    Box::new(ASTNode::Expr(Box::new(ASTNode::Number(n))))
}

#[test]
fn test_basic_parser() {
    let source = "int x = 2 * 2 + 2;\ny = 1;";
    let symbols = parse_source(source).unwrap();

    let expected = vec![
        SymbolNode::new(
            SymbolKind::DeclarationAssignment,
            ASTNode::DeclarationAssignment {
                typ: Type::Integer,
                name: Box::new(ASTNode::Identifier("x".into())),
                value: Box::new(ASTNode::Expr(Box::new(ASTNode::BinaryOperation {
                    left: Box::new(ASTNode::Expr(Box::new(ASTNode::BinaryOperation {
                        left: Box::new(ASTNode::Expr(Box::new(ASTNode::Number(2)))),
                        right: Box::new(ASTNode::Expr(Box::new(ASTNode::Number(2)))),
                        operation: Box::new(ASTNode::Operator(OperatorType::Mul)),
                    }))),
                    right: Box::new(ASTNode::Expr(Box::new(ASTNode::Number(2)))),
                    operation: Box::new(ASTNode::Operator(OperatorType::Add)),
                }))),
            },
        ),
        SymbolNode::new(
            SymbolKind::Assign,
            ASTNode::Assign {
                name: Box::new(ASTNode::Identifier("y".into())),
                value: Box::new(ASTNode::Expr(Box::new(ASTNode::Number(1)))),
            },
        ),
    ];

    assert_eq!(symbols, expected, "Parsed output does not match expected AST");
}

#[test]
fn declaration_without_initializer() {
    let symbols = parse_source("char c;").unwrap();
    assert_eq!(
        symbols,
        vec![SymbolNode::new(
            SymbolKind::Declaration,
            ASTNode::Declaration {
                typ: Type::Char,
                name: Box::new(ASTNode::Identifier("c".into())),
            },
        )]
    );
}

#[test]
fn literals_of_every_kind_fold_to_expressions() {
    let symbols = parse_source("string s = \"ab\"; bool b = true; char c = 'z';").unwrap();
    assert_eq!(symbols.len(), 3);
    let values: Vec<&ASTNode> = symbols
        .iter()
        .map(|s| s.value.as_declaration_assignment().unwrap().2)
        .collect();
    assert_eq!(*values[0], ASTNode::Expr(Box::new(ASTNode::String("ab".into()))));
    assert_eq!(*values[1], ASTNode::Expr(Box::new(ASTNode::Bool(true))));
    assert_eq!(*values[2], ASTNode::Expr(Box::new(ASTNode::Char('z'))));
}

#[test]
fn operators_fold_left_to_right_without_precedence() {
    let symbols = parse_source("x = 1 + 2 * 3;").unwrap();
    let (_, value) = symbols[0].value.as_assign().unwrap();
    let expected = ASTNode::Expr(Box::new(ASTNode::BinaryOperation {
        left: Box::new(ASTNode::Expr(Box::new(ASTNode::BinaryOperation {
            left: num_expr(1),
            right: num_expr(2),
            operation: Box::new(ASTNode::Operator(OperatorType::Add)),
        }))),
        right: num_expr(3),
        operation: Box::new(ASTNode::Operator(OperatorType::Mul)),
    }));
    assert_eq!(*value, expected);
}

#[test]
fn unknown_type_name_cites_its_line() {
    assert_eq!(parse_source("float f = 1;"), Err(ParseError::TypeResolution { line: 1 }));
    assert_eq!(
        parse_source("int a;\nfloat f = 1;"),
        Err(ParseError::TypeResolution { line: 2 })
    );
    assert_eq!(parse_source("int a;\n\nfloat f;"), Err(ParseError::TypeResolution { line: 3 }));
}

#[test]
fn input_ending_mid_expression_is_a_syntax_error() {
    assert_eq!(parse_source("int x = 2 +"), Err(ParseError::Syntax { line: 1 }));
    assert_eq!(parse_source("int x = 1;\ny"), Err(ParseError::Syntax { line: 2 }));
}

#[test]
fn empty_input_parses_to_nothing() {
    assert_eq!(parse_source(""), Ok(vec![]));
    assert_eq!(parse_source("  \n "), Ok(vec![]));
}

#[test]
fn out_of_range_number_is_an_invalid_literal() {
    assert_eq!(parse_source("int x = 2147483648;"), Err(ParseError::InvalidLiteral { line: 1 }));
    let symbols = parse_source("int x = 2147483647;").unwrap();
    let value = symbols[0].value.as_declaration_assignment().unwrap().2;
    assert_eq!(value.as_expr().unwrap().as_number(), Some(i32::MAX));
}

#[test]
fn empty_char_literal_is_an_invalid_literal() {
    assert_eq!(parse_source("char c = '';"), Err(ParseError::InvalidLiteral { line: 1 }));
}

#[test]
fn process_folds_and_skips_whitespace() {
    let mut parser = Parser::new(Vec::new());
    let tokens = vec![
        Token::new(SymbolKind::Identifier, "y".into(), 4),
        Token::new(SymbolKind::Whitespace, " ".into(), 4),
        Token::new(SymbolKind::Operator, "=".into(), 4),
        Token::new(SymbolKind::Number, "5".into(), 5),
        Token::new(SymbolKind::Punctuation, ";".into(), 5),
    ];
    for t in &tokens {
        parser.process(t).unwrap();
    }
    let symbols = parser.finish().unwrap();
    assert_eq!(
        symbols,
        vec![SymbolNode::new(
            SymbolKind::Assign,
            ASTNode::Assign {
                name: Box::new(ASTNode::Identifier("y".into())),
                value: num_expr(5),
            },
        )]
    );
}

#[test]
fn unmatched_tokens_stay_on_the_stack() {
    let mut parser = Parser::new(Vec::new());
    parser.process(&Token::new(SymbolKind::Identifier, "a".into(), 3)).unwrap();
    parser.process(&Token::new(SymbolKind::Operator, "+".into(), 3)).unwrap();
    assert_eq!(parser.finish(), Err(ParseError::Syntax { line: 3 }));
}

#[test]
fn grammar_lookup_by_rightmost_kind() {
    let g = GrammarTable::new();
    let statements = g.lookup(SymbolKind::Punctuation).unwrap();
    let produced: Vec<SymbolKind> = statements.iter().map(|r| r.produced).collect();
    assert_eq!(
        produced,
        vec![SymbolKind::DeclarationAssignment, SymbolKind::Declaration, SymbolKind::Assign]
    );
    for r in statements {
        assert_eq!(*r.required.last().unwrap(), SymbolKind::Punctuation);
    }
    let expr = g.lookup(SymbolKind::Expr).unwrap();
    assert_eq!(expr.len(), 1);
    assert_eq!(expr[0].produced, SymbolKind::BinaryOperation);
    assert_eq!(
        expr[0].required,
        vec![SymbolKind::Expr, SymbolKind::Operator, SymbolKind::Expr]
    );
    assert!(g.lookup(SymbolKind::Identifier).is_none());
    assert!(g.lookup(SymbolKind::Assign).is_none());
}

#[test]
fn leading_blank_line_counts() {
    assert_eq!(parse_source("\nfloat f;"), Err(ParseError::TypeResolution { line: 2 }));
    assert_eq!(
        parse_source("string s = \"a\";\nfloat f;"),
        Err(ParseError::TypeResolution { line: 2 })
    );
}

#[test]
fn rule_check_folds_on_a_match() {
    let expr_rule = Rule { produced: SymbolKind::Expr, required: vec![SymbolKind::Number] };
    let mut stack = vec![
        SymbolNode::new(SymbolKind::Identifier, ASTNode::Identifier("a".into())),
        SymbolNode::new(SymbolKind::Number, ASTNode::Number(3)),
    ];
    assert_eq!(check_symbols_in_rule(&mut stack, &expr_rule, 1), Ok(true));
    assert_eq!(stack.len(), 2);
    assert_eq!(stack[1], SymbolNode::new(SymbolKind::Expr, ASTNode::Expr(Box::new(ASTNode::Number(3)))));

    let assign_rule = Rule {
        produced: SymbolKind::Assign,
        required: vec![
            SymbolKind::Identifier,
            SymbolKind::Operator,
            SymbolKind::Expr,
            SymbolKind::Punctuation,
        ],
    };
    let before = vec![
        SymbolNode::new(SymbolKind::Identifier, ASTNode::Identifier("a".into())),
        SymbolNode::new(SymbolKind::Expr, ASTNode::Expr(Box::new(ASTNode::Number(3)))),
    ];
    let mut stack = vec![
        SymbolNode::new(SymbolKind::Identifier, ASTNode::Identifier("a".into())),
        SymbolNode::new(SymbolKind::Expr, ASTNode::Expr(Box::new(ASTNode::Number(3)))),
    ];
    assert_eq!(check_symbols_in_rule(&mut stack, &assign_rule, 1), Ok(false));
    assert_eq!(stack, before);

    let decl_rule = Rule {
        produced: SymbolKind::Declaration,
        required: vec![SymbolKind::Identifier, SymbolKind::Identifier, SymbolKind::Punctuation],
    };
    let mut stack = vec![
        SymbolNode::new(SymbolKind::Identifier, ASTNode::Identifier("float".into())),
        SymbolNode::new(SymbolKind::Identifier, ASTNode::Identifier("f".into())),
        SymbolNode::new(
            SymbolKind::Punctuation,
            ASTNode::Punctuation(compiler::types::Punctuation::Semicolon),
        ),
    ];
    assert_eq!(
        check_symbols_in_rule(&mut stack, &decl_rule, 6),
        Err(ParseError::TypeResolution { line: 6 })
    );
}
