use compiler::lexer::{Lexer, Token};
use compiler::types::{ParseError, SymbolKind};

fn scan_all(source: &str) -> Result<Vec<Token>, ParseError> {
    let mut lexer = Lexer::new(source.as_bytes().to_vec());
    let mut tokens = Vec::new();
    while let Some(token) = lexer.get_next_token()? {
        tokens.push(token);
    }
    Ok(tokens)
}

#[test]
fn test_basic_tokens() {
    let source = "int x = 1;\ntest = 2 ( 2";
    let tokens = scan_all(source).unwrap();

    let expected = vec![
        SymbolKind::Identifier,
        SymbolKind::Whitespace,
        SymbolKind::Identifier,
        SymbolKind::Whitespace,
        SymbolKind::Operator,
        SymbolKind::Whitespace,
        SymbolKind::Number,
        SymbolKind::Punctuation,
        SymbolKind::Whitespace,
        SymbolKind::Identifier,
        SymbolKind::Whitespace,
        SymbolKind::Operator,
        SymbolKind::Whitespace,
        SymbolKind::Number,
        SymbolKind::Whitespace,
        SymbolKind::Punctuation,
        SymbolKind::Whitespace,
        SymbolKind::Number,
    ];

    let actual: Vec<_> = tokens.iter().map(|t| t.get_kind()).collect();
    assert_eq!(actual, expected, "Token kinds do not match!");
}

#[test]
fn identifiers_take_letters_digits_and_underscores() {
    let tokens = scan_all("abc_1 42").unwrap();
    assert_eq!(tokens.len(), 3);
    assert_eq!(tokens[0].get_kind(), SymbolKind::Identifier);
    assert_eq!(tokens[0].get_value(), "abc_1");
    assert_eq!(tokens[2].get_kind(), SymbolKind::Number);
    assert_eq!(tokens[2].get_value(), "42");
}

#[test]
fn true_and_false_become_booleans() {
    let tokens = scan_all("true false truth").unwrap();
    assert_eq!(tokens[0].get_kind(), SymbolKind::Bool);
    assert_eq!(tokens[2].get_kind(), SymbolKind::Bool);
    assert_eq!(tokens[4].get_kind(), SymbolKind::Identifier);
    assert_eq!(tokens[4].get_value(), "truth");
}

#[test]
fn string_and_char_literals_lose_their_quotes() {
    let tokens = scan_all("\"hi there\" 'c'").unwrap();
    assert_eq!(tokens.len(), 3);
    assert_eq!(tokens[0].get_kind(), SymbolKind::String);
    assert_eq!(tokens[0].get_value(), "hi there");
    assert_eq!(tokens[2].get_kind(), SymbolKind::Char);
    assert_eq!(tokens[2].get_value(), "c");
}

#[test]
fn lines_are_counted_and_carriage_returns_skipped() {
    let tokens = scan_all("a\r\nb\nc").unwrap();
    let lines: Vec<u32> = tokens.iter().map(|t| t.get_line_number()).collect();
    let kinds: Vec<SymbolKind> = tokens.iter().map(|t| t.get_kind()).collect();
    assert_eq!(kinds.len(), 5);
    assert_eq!(lines, vec![1, 2, 2, 3, 3]);
}

#[test]
fn unclassified_character_is_a_lexical_error() {
    assert_eq!(scan_all("int x = 1 # 2;").unwrap_err(), ParseError::Lexical { line: 1 });
    assert_eq!(scan_all("int a;\n@").unwrap_err(), ParseError::Lexical { line: 2 });
}

#[test]
fn classification_of_first_characters() {
    assert_eq!(SymbolKind::choose_type_by_char('q'), Some(SymbolKind::Identifier));
    assert_eq!(SymbolKind::choose_type_by_char('Q'), Some(SymbolKind::Identifier));
    assert_eq!(SymbolKind::choose_type_by_char('7'), Some(SymbolKind::Number));
    assert_eq!(SymbolKind::choose_type_by_char('"'), Some(SymbolKind::String));
    assert_eq!(SymbolKind::choose_type_by_char('\''), Some(SymbolKind::Char));
    assert_eq!(SymbolKind::choose_type_by_char('/'), Some(SymbolKind::Operator));
    assert_eq!(SymbolKind::choose_type_by_char('\t'), Some(SymbolKind::Whitespace));
    assert_eq!(SymbolKind::choose_type_by_char(']'), Some(SymbolKind::Punctuation));
    assert_eq!(SymbolKind::choose_type_by_char('#'), None);
    assert_eq!(SymbolKind::choose_type_by_char('_'), None);
}

#[test]
fn extension_rules_per_kind() {
    assert!(SymbolKind::can_add_char('_', &SymbolKind::Identifier));
    assert!(SymbolKind::can_add_char('9', &SymbolKind::Identifier));
    assert!(!SymbolKind::can_add_char('+', &SymbolKind::Identifier));
    assert!(SymbolKind::can_add_char('5', &SymbolKind::Number));
    assert!(!SymbolKind::can_add_char('a', &SymbolKind::Number));
    assert!(SymbolKind::can_add_char(' ', &SymbolKind::String));
    assert!(SymbolKind::can_add_char('x', &SymbolKind::Char));
    assert!(!SymbolKind::can_add_char('=', &SymbolKind::Operator));
    assert!(!SymbolKind::can_add_char(' ', &SymbolKind::Whitespace));
}

#[test]
fn token_accessors() {
    let t = Token::new(SymbolKind::Number, "12".to_string(), 7);
    assert_eq!(t.get_kind(), SymbolKind::Number);
    assert_eq!(t.get_value(), "12");
    assert_eq!(t.get_line_number(), 7);
}

#[test]
fn every_newline_advances_the_line() {
    assert_eq!(scan_all("\n@").unwrap_err(), ParseError::Lexical { line: 2 });
    assert_eq!(scan_all("'a'\n@").unwrap_err(), ParseError::Lexical { line: 2 });
    assert_eq!(scan_all("\"a\nb\"\n@").unwrap_err(), ParseError::Lexical { line: 3 });
    let tokens = scan_all("\"x\"\ny").unwrap();
    assert_eq!(tokens.last().unwrap().get_line_number(), 2);
}
