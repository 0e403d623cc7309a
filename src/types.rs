use vstd::prelude::*;

verus! {

/// A fatal condition met while turning tokens into top-level nodes; each cites a source line.
#[derive(Debug, PartialEq, Eq, Copy, Clone, Structural)]
pub enum ParseError {
    /// A character that belongs to no category.
    Lexical { line: u32 },
    /// A literal whose text cannot be read as a value of its category.
    InvalidLiteral { line: u32 },
    /// Input ended while the stack still held an incomplete fragment.
    Syntax { line: u32 },
    /// A declaration names a type outside the closed vocabulary.
    TypeResolution { line: u32 },
}

/// The single tag shared by lexical categories and syntactic categories.
#[derive(Debug, PartialEq, Eq, Hash, Copy, Clone, Structural)]
pub enum SymbolKind {
    Identifier,
    Number,
    String,
    Bool,
    Char,
    Punctuation,
    Operator,
    Whitespace,
    Assign,
    Declaration,
    DeclarationAssignment,
    Expr,
    BinaryOperation,
    Empty,
}

#[derive(Debug, PartialEq, Eq, Hash, Copy, Clone, Structural)]
pub enum OperatorType {
    Add,
    Sub,
    Mul,
    Div,
    Equal,
}

#[derive(Debug, PartialEq, Eq, Hash, Copy, Clone, Structural)]
pub enum Type {
    Integer,
    String,
    Bool,
    Char,
}

#[derive(Debug, PartialEq, Eq, Hash, Copy, Clone, Structural)]
pub enum Punctuation {
    OpenBracket,
    CloseBracket,
    OpenBrace,
    CloseBrace,
    OpenParen,
    CloseParen,
    Semicolon,
}

pub open spec fn operator_of_char(c: char) -> Option<OperatorType> {
    if c == '+' {
        Some(OperatorType::Add)
    } else if c == '-' {
        Some(OperatorType::Sub)
    } else if c == '*' {
        Some(OperatorType::Mul)
    } else if c == '/' {
        Some(OperatorType::Div)
    } else if c == '=' {
        Some(OperatorType::Equal)
    } else {
        None
    }
}

pub open spec fn punctuation_of_char(c: char) -> Option<Punctuation> {
    if c == '{' {
        Some(Punctuation::OpenBrace)
    } else if c == '}' {
        Some(Punctuation::CloseBrace)
    } else if c == '(' {
        Some(Punctuation::OpenParen)
    } else if c == ')' {
        Some(Punctuation::CloseParen)
    } else if c == '[' {
        Some(Punctuation::OpenBracket)
    } else if c == ']' {
        Some(Punctuation::CloseBracket)
    } else if c == ';' {
        Some(Punctuation::Semicolon)
    } else {
        None
    }
}

/// The closed vocabulary of type names.
pub open spec fn type_of_name(s: Seq<char>) -> Option<Type> {
    if s == seq!['i', 'n', 't'] {
        Some(Type::Integer)
    } else if s == seq!['s', 't', 'r', 'i', 'n', 'g'] {
        Some(Type::String)
    } else if s == seq!['b', 'o', 'o', 'l'] {
        Some(Type::Bool)
    } else if s == seq!['c', 'h', 'a', 'r'] {
        Some(Type::Char)
    } else {
        None
    }
}

impl OperatorType {
    pub fn from_char(char: char) -> (r: Option<OperatorType>)
        ensures
            r == operator_of_char(char),
    {
        match char {
            '+' => Some(OperatorType::Add),
            '-' => Some(OperatorType::Sub),
            '*' => Some(OperatorType::Mul),
            '/' => Some(OperatorType::Div),
            '=' => Some(OperatorType::Equal),
            _ => None,
        }
    }
}

impl Punctuation {
    pub fn from_char(ch: char) -> (r: Option<Punctuation>)
        ensures
            r == punctuation_of_char(ch),
    {
        match ch {
            '{' => Some(Punctuation::OpenBrace),
            '}' => Some(Punctuation::CloseBrace),
            '(' => Some(Punctuation::OpenParen),
            ')' => Some(Punctuation::CloseParen),
            '[' => Some(Punctuation::OpenBracket),
            ']' => Some(Punctuation::CloseBracket),
            ';' => Some(Punctuation::Semicolon),
            _ => None,
        }
    }
}

/// Whether `s` spells exactly the characters of `word`.
pub fn str_is(s: &str, word: &str) -> (r: bool)
    ensures
        r == (s@ == word@),
{
    let n = s.unicode_len();
    let m = word.unicode_len();
    if n != m {
        return false;
    }
    let mut i: usize = 0;
    while i < n
        invariant
            n == s@.len(),
            m == word@.len(),
            n == m,
            i <= n,
            forall|j: int| 0 <= j < i ==> s@[j] == word@[j],
        decreases n - i,
    {
        if s.get_char(i) != word.get_char(i) {
            return false;
        }
        i = i + 1;
    }
    assert(s@ =~= word@);
    true
}

impl Type {
    pub fn from_str(s: &str) -> (r: Option<Type>)
        ensures
            r == type_of_name(s@),
    {
        proof {
            reveal_strlit("int");
            reveal_strlit("string");
            reveal_strlit("bool");
            reveal_strlit("char");
        }
        if str_is(s, "int") {
            assert("int"@ =~= seq!['i', 'n', 't']);
            Some(Type::Integer)
        } else if str_is(s, "string") {
            assert("string"@ =~= seq!['s', 't', 'r', 'i', 'n', 'g']);
            Some(Type::String)
        } else if str_is(s, "bool") {
            assert("bool"@ =~= seq!['b', 'o', 'o', 'l']);
            Some(Type::Bool)
        } else if str_is(s, "char") {
            assert("char"@ =~= seq!['c', 'h', 'a', 'r']);
            Some(Type::Char)
        } else {
            proof {
                assert("int"@ =~= seq!['i', 'n', 't']);
                assert("string"@ =~= seq!['s', 't', 'r', 'i', 'n', 'g']);
                assert("bool"@ =~= seq!['b', 'o', 'o', 'l']);
                assert("char"@ =~= seq!['c', 'h', 'a', 'r']);
            }
            None
        }
    }
}

} // verus!
