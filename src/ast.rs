use vstd::prelude::*;
use std::collections::VecDeque;
use crate::lexer::{Token, push_char};
use crate::types::{
    OperatorType, ParseError, Punctuation, SymbolKind, Type, operator_of_char, punctuation_of_char,
    str_is, type_of_name,
};

verus! {

#[derive(Debug, PartialEq, Eq, Hash)]
pub enum ASTNode {
    Number(i32),
    String(String),
    Bool(bool),
    Char(char),
    Identifier(String),
    Declaration { typ: Type, name: Box<ASTNode> },
    DeclarationAssignment { typ: Type, name: Box<ASTNode>, value: Box<ASTNode> },
    Assign { name: Box<ASTNode>, value: Box<ASTNode> },
    BinaryOperation { left: Box<ASTNode>, right: Box<ASTNode>, operation: Box<ASTNode> },
    Operator(OperatorType),
    Punctuation(Punctuation),
    Expr(Box<ASTNode>),
    Empty(),
}

/// An entry of the reduction stack: a category paired with the node it carries.
#[derive(Debug, PartialEq, Eq)]
pub struct SymbolNode {
    pub kind: SymbolKind,
    pub value: ASTNode,
}

pub open spec fn is_ascii_digit(c: char) -> bool {
    '0' <= c && c <= '9'
}

pub open spec fn all_ascii_digits(s: Seq<char>) -> bool {
    forall|i: int| 0 <= i < s.len() ==> is_ascii_digit(#[trigger] s[i])
}

/// The value of a string of decimal digits, most significant first.
pub open spec fn decimal_value(s: Seq<char>) -> int
    decreases s.len(),
{
    if s.len() == 0 {
        0
    } else {
        decimal_value(s.drop_last()) * 10 + (s.last() as int - '0' as int)
    }
}

/// The text starts with a sign.
pub open spec fn has_sign(s: Seq<char>) -> bool {
    s.len() > 0 && (s[0] == '+' || s[0] == '-')
}

/// The digits of an integer literal: its text without the optional sign.
pub open spec fn literal_digits(s: Seq<char>) -> Seq<char> {
    if has_sign(s) {
        s.drop_first()
    } else {
        s
    }
}

/// The value of an integer literal: an optional sign, then decimal digits.
pub open spec fn literal_value(s: Seq<char>) -> int {
    if s.len() > 0 && s[0] == '-' {
        -decimal_value(literal_digits(s))
    } else {
        decimal_value(literal_digits(s))
    }
}

/// The text of an integer literal that fits in a signed 32-bit integer: an optional `+` or
/// `-`, then at least one ASCII digit.
pub open spec fn is_i32_literal(s: Seq<char>) -> bool {
    &&& literal_digits(s).len() > 0
    &&& all_ascii_digits(literal_digits(s))
    &&& i32::MIN <= literal_value(s) <= i32::MAX
}

/// A token whose text can be turned into a node of its category.
pub open spec fn token_convertible(kind: SymbolKind, lexeme: Seq<char>) -> bool {
    match kind {
        SymbolKind::Number => is_i32_literal(lexeme),
        SymbolKind::Char => lexeme.len() > 0,
        SymbolKind::Operator => lexeme.len() > 0 && operator_of_char(lexeme[0]).is_some(),
        SymbolKind::Punctuation => lexeme.len() > 0 && punctuation_of_char(lexeme[0]).is_some(),
        _ => true,
    }
}

/// `node` is the node that a convertible token of `kind` with text `lexeme` stands for.
pub open spec fn token_node(kind: SymbolKind, lexeme: Seq<char>, node: ASTNode) -> bool {
    match kind {
        SymbolKind::Number => node == ASTNode::Number(literal_value(lexeme) as i32),
        SymbolKind::Identifier => node is Identifier && node->Identifier_0@ == lexeme,
        SymbolKind::String => node is String && node->String_0@ == lexeme,
        SymbolKind::Bool => node == ASTNode::Bool(lexeme == seq!['t', 'r', 'u', 'e']),
        SymbolKind::Char => node == ASTNode::Char(lexeme[0]),
        SymbolKind::Operator => node == ASTNode::Operator(operator_of_char(lexeme[0]).unwrap()),
        SymbolKind::Punctuation => node == ASTNode::Punctuation(
            punctuation_of_char(lexeme[0]).unwrap(),
        ),
        _ => node == ASTNode::Empty(),
    }
}

/// The declared type that a type-name node resolves to.
pub open spec fn type_of_node(node: ASTNode) -> Option<Type> {
    match node {
        ASTNode::Identifier(s) => type_of_name(s@),
        _ => None,
    }
}

/// The type a literal node carries by itself.
pub open spec fn literal_type(node: ASTNode) -> Option<Type> {
    match node {
        ASTNode::Number(_) => Some(Type::Integer),
        ASTNode::String(_) => Some(Type::String),
        ASTNode::Bool(_) => Some(Type::Bool),
        ASTNode::Char(_) => Some(Type::Char),
        _ => None,
    }
}

/// The node that the rule producing `produced` builds from the matched symbols `m`,
/// or the error it reports at `line`.
pub open spec fn reduced_node(produced: SymbolKind, m: Seq<SymbolNode>, line: u32) -> Result<
    ASTNode,
    ParseError,
> {
    match produced {
        SymbolKind::Assign => Ok(
            ASTNode::Assign { name: Box::new(m[0].value), value: Box::new(m[2].value) },
        ),
        SymbolKind::Expr => Ok(ASTNode::Expr(Box::new(m[0].value))),
        SymbolKind::BinaryOperation => Ok(
            ASTNode::BinaryOperation {
                left: Box::new(m[0].value),
                right: Box::new(m[2].value),
                operation: Box::new(m[1].value),
            },
        ),
        SymbolKind::Declaration => match type_of_node(m[0].value) {
            Some(t) => Ok(ASTNode::Declaration { typ: t, name: Box::new(m[1].value) }),
            None => Err(ParseError::TypeResolution { line }),
        },
        SymbolKind::DeclarationAssignment => match type_of_node(m[0].value) {
            Some(t) => Ok(
                ASTNode::DeclarationAssignment {
                    typ: t,
                    name: Box::new(m[1].value),
                    value: Box::new(m[3].value),
                },
            ),
            None => Err(ParseError::TypeResolution { line }),
        },
        _ => Ok(ASTNode::Empty()),
    }
}

proof fn lemma_decimal_step(s: Seq<char>, i: int)
    requires
        0 <= i < s.len(),
        all_ascii_digits(s),
    ensures
        decimal_value(s.take(i + 1)) == decimal_value(s.take(i)) * 10 + (s[i] as int
            - '0' as int),
        0 <= decimal_value(s.take(i)) <= decimal_value(s.take(i + 1)),
    decreases i,
{
    assert(s.take(i + 1).drop_last() =~= s.take(i));
    if i > 0 {
        lemma_decimal_step(s, i - 1);
    } else {
        assert(s.take(0) =~= Seq::<char>::empty());
    }
}

/// Reads an optionally signed string of ASCII digits as a signed 32-bit integer.
pub fn parse_i32_literal(s: &str) -> (r: Option<i32>)
    ensures
        r == (if is_i32_literal(s@) {
            Some(literal_value(s@) as i32)
        } else {
            None
        }),
{
    let n = s.unicode_len();
    let mut start: usize = 0;
    let mut negative = false;
    if n > 0 {
        let c0 = s.get_char(0);
        if c0 == '+' || c0 == '-' {
            start = 1;
            negative = c0 == '-';
        }
    }
    let ghost d = literal_digits(s@);
    assert(d =~= s@.subrange(start as int, n as int));
    let m = n - start;
    if m == 0 {
        return None;
    }
    let limit: i64 = if negative { 2147483648 } else { 2147483647 };
    let mut acc: i64 = 0;
    let mut too_big = false;
    let mut i: usize = 0;
    while i < m
        invariant
            n == s@.len(),
            start <= n,
            m == n - start,
            d == s@.subrange(start as int, n as int),
            d == literal_digits(s@),
            negative == (s@.len() > 0 && s@[0] == '-'),
            limit == (if negative { 2147483648int } else { 2147483647int }),
            i <= m,
            limit <= 2147483648,
            all_ascii_digits(d.take(i as int)),
            too_big ==> decimal_value(d.take(i as int)) > limit,
            !too_big ==> acc == decimal_value(d.take(i as int)),
            0 <= acc <= limit,
        decreases m - i,
    {
        let c = s.get_char(start + i);
        assert(d[i as int] == c);
        if !('0' <= c && c <= '9') {
            assert(!all_ascii_digits(d));
            return None;
        }
        proof {
            assert(all_ascii_digits(d.take(i + 1)));
            lemma_decimal_step(d.take(i + 1), i as int);
            assert(d.take(i + 1).take(i as int) =~= d.take(i as int));
            assert(d.take(i + 1).take(i + 1) =~= d.take(i + 1));
        }
        if !too_big {
            let digit = (c as u32 - '0' as u32) as i64;
            let next = acc * 10 + digit;
            if next > limit {
                too_big = true;
            } else {
                acc = next;
            }
        }
        i = i + 1;
    }
    assert(d.take(m as int) =~= d);
    if too_big {
        None
    } else if negative {
        Some((-acc) as i32)
    } else {
        Some(acc as i32)
    }
}

impl Type {
    pub fn from_identifier(identifier: &ASTNode) -> (r: Option<Type>)
        ensures
            r == type_of_node(*identifier),
    {
        if let ASTNode::Identifier(ident) = identifier {
            Type::from_str(ident.as_str())
        } else {
            None
        }
    }
}

impl ASTNode {
    /// The node a token stands for, or `None` when its text is not a valid literal.
    pub fn from_token_value(token: &Token) -> (r: Option<ASTNode>)
        ensures
            r is None <==> !token_convertible(token.kind, token.lexeme@),
            r matches Some(n) ==> token_node(token.kind, token.lexeme@, n),
    {
        let lexeme = token.lexeme.as_str();
        match token.get_kind() {
            SymbolKind::Number => match parse_i32_literal(lexeme) {
                Some(n) => Some(ASTNode::Number(n)),
                None => None,
            },
            SymbolKind::Identifier => Some(ASTNode::Identifier(token.get_value())),
            SymbolKind::String => Some(ASTNode::String(token.get_value())),
            SymbolKind::Bool => {
                proof {
                    reveal_strlit("true");
                    assert("true"@ =~= seq!['t', 'r', 'u', 'e']);
                }
                Some(ASTNode::Bool(str_is(lexeme, "true")))
            },
            SymbolKind::Char => {
                if lexeme.unicode_len() == 0 {
                    None
                } else {
                    Some(ASTNode::Char(lexeme.get_char(0)))
                }
            },
            SymbolKind::Operator => {
                if lexeme.unicode_len() == 0 {
                    None
                } else {
                    match OperatorType::from_char(lexeme.get_char(0)) {
                        Some(op) => Some(ASTNode::Operator(op)),
                        None => None,
                    }
                }
            },
            SymbolKind::Punctuation => {
                if lexeme.unicode_len() == 0 {
                    None
                } else {
                    match Punctuation::from_char(lexeme.get_char(0)) {
                        Some(p) => Some(ASTNode::Punctuation(p)),
                        None => None,
                    }
                }
            },
            _ => Some(ASTNode::Empty()),
        }
    }

    pub fn inferred_type(&self) -> (r: Option<Type>)
        ensures
            r == literal_type(*self),
    {
        match self {
            ASTNode::Number(_) => Some(Type::Integer),
            ASTNode::String(_) => Some(Type::String),
            ASTNode::Bool(_) => Some(Type::Bool),
            ASTNode::Char(_) => Some(Type::Char),
            _ => None,
        }
    }
}

impl ASTNode {
    /// Builds an assignment from `name`, `=`, `value`; the operator slot is dropped.
    pub fn create_assign(symbols: &mut VecDeque<SymbolNode>) -> (r: ASTNode)
        requires
            old(symbols)@.len() >= 3,
        ensures
            reduced_node(SymbolKind::Assign, old(symbols)@, 0) == Ok::<ASTNode, ParseError>(r),
            final(symbols)@ == old(symbols)@.subrange(3, old(symbols)@.len() as int),
    {
        let name = Box::new(symbols.pop_front().unwrap().get_value());
        let _ = symbols.pop_front();
        let value = Box::new(symbols.pop_front().unwrap().get_value());
        ASTNode::Assign { name, value }
    }

    /// Builds a binary operation from left operand, operator, right operand.
    pub fn create_binary_op(symbols: &mut VecDeque<SymbolNode>) -> (r: ASTNode)
        requires
            old(symbols)@.len() >= 3,
        ensures
            reduced_node(SymbolKind::BinaryOperation, old(symbols)@, 0) == Ok::<ASTNode, ParseError>(r),
            final(symbols)@ == old(symbols)@.subrange(3, old(symbols)@.len() as int),
    {
        let left = Box::new(symbols.pop_front().unwrap().get_value());
        let operation = Box::new(symbols.pop_front().unwrap().get_value());
        let right = Box::new(symbols.pop_front().unwrap().get_value());
        ASTNode::BinaryOperation { left, right, operation }
    }

    /// Wraps the first symbol's node as an expression.
    pub fn create_expr(symbols: &mut VecDeque<SymbolNode>) -> (r: ASTNode)
        requires
            old(symbols)@.len() >= 1,
        ensures
            reduced_node(SymbolKind::Expr, old(symbols)@, 0) == Ok::<ASTNode, ParseError>(r),
            final(symbols)@ == old(symbols)@.subrange(1, old(symbols)@.len() as int),
    {
        ASTNode::Expr(Box::new(symbols.pop_front().unwrap().get_value()))
    }

    /// Takes the type name off the front and resolves it, reporting `line` when it is unknown.
    fn get_type(symbols: &mut VecDeque<SymbolNode>, line: u32) -> (r: Result<Type, ParseError>)
        requires
            old(symbols)@.len() >= 1,
        ensures
            r == (match type_of_node(old(symbols)@[0].value) {
                Some(t) => Ok::<Type, ParseError>(t),
                None => Err(ParseError::TypeResolution { line }),
            }),
            final(symbols)@ == old(symbols)@.subrange(1, old(symbols)@.len() as int),
    {
        let token = symbols.pop_front().unwrap().get_value();
        match Type::from_identifier(&token) {
            Some(t) => Ok(t),
            None => Err(ParseError::TypeResolution { line }),
        }
    }

    /// Builds a declaration from a type name and a variable name.
    pub fn create_declaration(symbols: &mut VecDeque<SymbolNode>, line: u32) -> (r: Result<
        ASTNode,
        ParseError,
    >)
        requires
            old(symbols)@.len() >= 2,
        ensures
            r == reduced_node(SymbolKind::Declaration, old(symbols)@, line),
            r is Ok ==> final(symbols)@ == old(symbols)@.subrange(2, old(symbols)@.len() as int),
    {
        let typ = Self::get_type(symbols, line)?;
        let name = Box::new(symbols.pop_front().unwrap().get_value());
        Ok(ASTNode::Declaration { typ, name })
    }

    /// Builds a declaration with initializer from type name, name, `=`, value.
    pub fn create_declaration_assignment(symbols: &mut VecDeque<SymbolNode>, line: u32) -> (r:
        Result<ASTNode, ParseError>)
        requires
            old(symbols)@.len() >= 4,
        ensures
            r == reduced_node(SymbolKind::DeclarationAssignment, old(symbols)@, line),
            r is Ok ==> final(symbols)@ == old(symbols)@.subrange(4, old(symbols)@.len() as int),
    {
        let typ = Self::get_type(symbols, line)?;
        let name = Box::new(symbols.pop_front().unwrap().get_value());
        let _ = symbols.pop_front();
        let value = Box::new(symbols.pop_front().unwrap().get_value());
        Ok(ASTNode::DeclarationAssignment { typ, name, value })
    }
}

impl SymbolNode {
    pub fn new(kind: SymbolKind, value: ASTNode) -> (r: SymbolNode)
        ensures
            r == (SymbolNode { kind, value }),
    {
        SymbolNode { kind, value }
    }

    pub fn get_value(self) -> (r: ASTNode)
        ensures
            r == self.value,
    {
        self.value
    }
}

impl ASTNode {
    pub fn as_number(&self) -> (r: Option<i32>)
        ensures
            r == (match *self {
                ASTNode::Number(n) => Some(n),
                _ => None,
            }),
    {
        if let ASTNode::Number(n) = self {
            Some(*n)
        } else {
            None
        }
    }

    pub fn as_string(&self) -> (r: Option<&str>)
        ensures
            r is Some <==> self is String,
            r matches Some(s) ==> s@ == self->String_0@,
    {
        if let ASTNode::String(s) = self {
            Some(s.as_str())
        } else {
            None
        }
    }

    pub fn as_bool(&self) -> (r: Option<bool>)
        ensures
            r == (match *self {
                ASTNode::Bool(b) => Some(b),
                _ => None,
            }),
    {
        if let ASTNode::Bool(b) = self {
            Some(*b)
        } else {
            None
        }
    }

    pub fn as_identifier(&self) -> (r: Option<&str>)
        ensures
            r is Some <==> self is Identifier,
            r matches Some(s) ==> s@ == self->Identifier_0@,
    {
        if let ASTNode::Identifier(s) = self {
            Some(s.as_str())
        } else {
            None
        }
    }

    pub fn as_declaration(&self) -> (r: Option<(&Type, &ASTNode)>)
        ensures
            r is Some <==> self is Declaration,
            r matches Some(p) ==> *p.0 == self->Declaration_typ && *p.1 == *self->Declaration_name,
    {
        if let ASTNode::Declaration { typ, name } = self {
            Some((typ, &**name))
        } else {
            None
        }
    }

    pub fn as_declaration_assignment(&self) -> (r: Option<(&Type, &ASTNode, &ASTNode)>)
        ensures
            r is Some <==> self is DeclarationAssignment,
            r matches Some(p) ==> *p.0 == self->DeclarationAssignment_typ && *p.1
                == *self->DeclarationAssignment_name && *p.2 == *self->DeclarationAssignment_value,
    {
        if let ASTNode::DeclarationAssignment { typ, name, value } = self {
            Some((typ, &**name, &**value))
        } else {
            None
        }
    }

    pub fn as_assign(&self) -> (r: Option<(&ASTNode, &ASTNode)>)
        ensures
            r is Some <==> self is Assign,
            r matches Some(p) ==> *p.0 == *self->Assign_name && *p.1 == *self->Assign_value,
    {
        if let ASTNode::Assign { name, value } = self {
            Some((&**name, &**value))
        } else {
            None
        }
    }

    /// The left operand, the right operand and the operator, in that order.
    pub fn as_binary_operation(&self) -> (r: Option<(&ASTNode, &ASTNode, &ASTNode)>)
        ensures
            r is Some <==> self is BinaryOperation,
            r matches Some(p) ==> *p.0 == *self->BinaryOperation_left && *p.1
                == *self->BinaryOperation_right && *p.2 == *self->BinaryOperation_operation,
    {
        if let ASTNode::BinaryOperation { left, right, operation } = self {
            Some((&**left, &**right, &**operation))
        } else {
            None
        }
    }

    pub fn as_operator(&self) -> (r: Option<&OperatorType>)
        ensures
            r is Some <==> self is Operator,
            r matches Some(op) ==> *op == self->Operator_0,
    {
        if let ASTNode::Operator(op) = self {
            Some(op)
        } else {
            None
        }
    }

    pub fn as_punctuation(&self) -> (r: Option<&Punctuation>)
        ensures
            r is Some <==> self is Punctuation,
            r matches Some(p) ==> *p == self->Punctuation_0,
    {
        if let ASTNode::Punctuation(p) = self {
            Some(p)
        } else {
            None
        }
    }

    pub fn as_expr(&self) -> (r: Option<&ASTNode>)
        ensures
            r is Some <==> self is Expr,
            r matches Some(inner) ==> *inner == *self->Expr_0,
    {
        if let ASTNode::Expr(inner) = self {
            Some(&**inner)
        } else {
            None
        }
    }

    pub fn as_empty(&self) -> (r: Option<()>)
        ensures
            r is Some <==> self is Empty,
    {
        if let ASTNode::Empty() = self {
            Some(())
        } else {
            None
        }
    }
}

/// The decimal digits of a natural number, most significant first.
pub open spec fn digits_text(n: nat) -> Seq<char>
    decreases n,
{
    if n < 10 {
        seq![(n + '0' as nat) as char]
    } else {
        digits_text(n / 10).push(((n % 10) + '0' as nat) as char)
    }
}

/// The decimal text of an integer, with a leading minus sign when negative.
pub open spec fn int_text(n: int) -> Seq<char> {
    if n < 0 {
        seq!['-'] + digits_text((-n) as nat)
    } else {
        digits_text(n as nat)
    }
}

/// Appends the decimal digits of `m`.
fn write_digits(m: u32, out: &mut String)
    ensures
        final(out)@ == old(out)@ + digits_text(m as nat),
    decreases m,
{
    if m >= 10 {
        write_digits(m / 10, out);
    }
    let d = ((m % 10) as u8 + 48u8) as char;
    push_char(out, d);
    assert(out@ =~= old(out)@ + digits_text(m as nat));
}

/// The decimal text of `n`.
fn i32_text(n: i32) -> (r: String)
    ensures
        r@ == int_text(n as int),
{
    let mut out = String::new();
    if n < 0 {
        push_char(&mut out, '-');
        let magnitude = (-(n as i64)) as u32;
        write_digits(magnitude, &mut out);
    } else {
        write_digits(n as u32, &mut out);
    }
    assert(out@ =~= int_text(n as int));
    out
}

pub open spec fn type_text(t: Type) -> Seq<char> {
    match t {
        Type::Integer => "Integer"@,
        Type::String => "String"@,
        Type::Bool => "Bool"@,
        Type::Char => "Char"@,
    }
}

pub open spec fn operator_text(o: OperatorType) -> Seq<char> {
    match o {
        OperatorType::Add => "Add"@,
        OperatorType::Sub => "Sub"@,
        OperatorType::Mul => "Mul"@,
        OperatorType::Div => "Div"@,
        OperatorType::Equal => "Equal"@,
    }
}

pub open spec fn punctuation_text(p: Punctuation) -> Seq<char> {
    match p {
        Punctuation::OpenBracket => "OpenBracket"@,
        Punctuation::CloseBracket => "CloseBracket"@,
        Punctuation::OpenBrace => "OpenBrace"@,
        Punctuation::CloseBrace => "CloseBrace"@,
        Punctuation::OpenParen => "OpenParen"@,
        Punctuation::CloseParen => "CloseParen"@,
        Punctuation::Semicolon => "Semicolon"@,
    }
}

/// The textual form of a node: literals as written in source, composite nodes as their
/// variant name followed by their parts in parentheses.
pub open spec fn node_text(node: ASTNode) -> Seq<char>
    decreases node,
{
    match node {
        ASTNode::Number(n) => int_text(n as int),
        ASTNode::String(s) => seq!['"'] + s@ + seq!['"'],
        ASTNode::Bool(b) => if b {
            "true"@
        } else {
            "false"@
        },
        ASTNode::Char(c) => seq!['\'', c, '\''],
        ASTNode::Identifier(name) => name@,
        ASTNode::Declaration { typ, name } => "Declaration("@ + type_text(typ) + ", "@ + node_text(
            *name,
        ) + ")"@,
        ASTNode::DeclarationAssignment { typ, name, value } => "DeclarationAssignment("@
            + type_text(typ) + ", "@ + node_text(*name) + ", "@ + node_text(*value) + ")"@,
        ASTNode::Assign { name, value } => "Assign("@ + node_text(*name) + ", "@ + node_text(
            *value,
        ) + ")"@,
        ASTNode::BinaryOperation { left, right, operation } => "BinaryOperation("@ + node_text(
            *left,
        ) + ", "@ + node_text(*operation) + ", "@ + node_text(*right) + ")"@,
        ASTNode::Operator(o) => operator_text(o),
        ASTNode::Punctuation(p) => punctuation_text(p),
        ASTNode::Expr(inner) => "Expr("@ + node_text(*inner) + ")"@,
        ASTNode::Empty() => "Empty"@,
    }
}

impl Type {
    pub fn name_text(&self) -> (r: &'static str)
        ensures
            r@ == type_text(*self),
    {
        match self {
            Type::Integer => "Integer",
            Type::String => "String",
            Type::Bool => "Bool",
            Type::Char => "Char",
        }
    }
}

impl OperatorType {
    pub fn name_text(&self) -> (r: &'static str)
        ensures
            r@ == operator_text(*self),
    {
        match self {
            OperatorType::Add => "Add",
            OperatorType::Sub => "Sub",
            OperatorType::Mul => "Mul",
            OperatorType::Div => "Div",
            OperatorType::Equal => "Equal",
        }
    }
}

impl Punctuation {
    pub fn name_text(&self) -> (r: &'static str)
        ensures
            r@ == punctuation_text(*self),
    {
        match self {
            Punctuation::OpenBracket => "OpenBracket",
            Punctuation::CloseBracket => "CloseBracket",
            Punctuation::OpenBrace => "OpenBrace",
            Punctuation::CloseBrace => "CloseBrace",
            Punctuation::OpenParen => "OpenParen",
            Punctuation::CloseParen => "CloseParen",
            Punctuation::Semicolon => "Semicolon",
        }
    }
}

impl ASTNode {
    /// Appends the textual form of this node to `out`.
    pub fn write_text(&self, out: &mut String)
        ensures
            final(out)@ == old(out)@ + node_text(*self),
        decreases self,
    {
        let ghost start = out@;
        match self {
            ASTNode::Number(n) => {
                let t = i32_text(*n);
                out.append(t.as_str());
            },
            ASTNode::String(s) => {
                push_char(out, '"');
                out.append(s.as_str());
                push_char(out, '"');
                assert(out@ =~= start + node_text(*self));
            },
            ASTNode::Bool(b) => {
                if *b {
                    out.append("true");
                } else {
                    out.append("false");
                }
            },
            ASTNode::Char(c) => {
                push_char(out, '\'');
                push_char(out, *c);
                push_char(out, '\'');
                assert(out@ =~= start + node_text(*self));
            },
            ASTNode::Identifier(name) => {
                out.append(name.as_str());
            },
            ASTNode::Declaration { typ, name } => {
                out.append("Declaration(");
                out.append(typ.name_text());
                out.append(", ");
                name.write_text(out);
                out.append(")");
                assert(out@ =~= start + node_text(*self));
            },
            ASTNode::DeclarationAssignment { typ, name, value } => {
                out.append("DeclarationAssignment(");
                out.append(typ.name_text());
                out.append(", ");
                name.write_text(out);
                out.append(", ");
                value.write_text(out);
                out.append(")");
                assert(out@ =~= start + node_text(*self));
            },
            ASTNode::Assign { name, value } => {
                out.append("Assign(");
                name.write_text(out);
                out.append(", ");
                value.write_text(out);
                out.append(")");
                assert(out@ =~= start + node_text(*self));
            },
            ASTNode::BinaryOperation { left, right, operation } => {
                out.append("BinaryOperation(");
                left.write_text(out);
                out.append(", ");
                operation.write_text(out);
                out.append(", ");
                right.write_text(out);
                out.append(")");
                assert(out@ =~= start + node_text(*self));
            },
            ASTNode::Operator(o) => {
                out.append(o.name_text());
            },
            ASTNode::Punctuation(p) => {
                out.append(p.name_text());
            },
            ASTNode::Expr(inner) => {
                out.append("Expr(");
                inner.write_text(out);
                out.append(")");
                assert(out@ =~= start + node_text(*self));
            },
            ASTNode::Empty() => {
                out.append("Empty");
            },
        }
    }

    /// The textual form of this node.
    pub fn to_text(&self) -> (r: String)
        ensures
            r@ == node_text(*self),
    {
        let mut out = String::new();
        self.write_text(&mut out);
        assert(out@ =~= node_text(*self));
        out
    }
}

proof fn lemma_digits_text_value(n: nat)
    ensures
        digits_text(n).len() > 0,
        all_ascii_digits(digits_text(n)),
        decimal_value(digits_text(n)) == n,
    decreases n,
{
    let t = digits_text(n);
    if n >= 10 {
        lemma_digits_text_value(n / 10);
        assert(t.drop_last() =~= digits_text(n / 10));
        assert(t.last() as int == n % 10 + '0' as int);
        assert(n == (n / 10) * 10 + n % 10) by (nonlinear_arith);
        assert(decimal_value(t) == decimal_value(t.drop_last()) * 10 + (t.last() as int
            - '0' as int));
    } else {
        assert(t.last() as int == n + '0' as int);
        assert(t.drop_last() =~= Seq::<char>::empty());
        assert(decimal_value(Seq::<char>::empty()) == 0);
        assert(decimal_value(t) == decimal_value(t.drop_last()) * 10 + (t.last() as int
            - '0' as int));
    }
}

/// The text of an integer node reads back as a literal of the same value.
pub proof fn lemma_number_text_reads_back(n: i32)
    ensures
        is_i32_literal(node_text(ASTNode::Number(n))),
        literal_value(node_text(ASTNode::Number(n))) == n,
        token_convertible(SymbolKind::Number, node_text(ASTNode::Number(n))),
        token_node(SymbolKind::Number, node_text(ASTNode::Number(n)), ASTNode::Number(n)),
{
    let t = node_text(ASTNode::Number(n));
    if n < 0 {
        lemma_digits_text_value((-n) as nat);
        assert(t.drop_first() =~= digits_text((-n) as nat));
    } else {
        lemma_digits_text_value(n as nat);
        assert(t[0] != '+' && t[0] != '-');
    }
}

} // verus!
