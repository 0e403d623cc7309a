use vstd::prelude::*;
use crate::types::{ParseError, SymbolKind, str_is};

verus! {

/// One scanned unit of source: its category, its text and the line it starts on.
#[derive(Debug)]
pub struct Token {
    pub kind: SymbolKind,
    pub lexeme: String,
    pub line_number: u32,
}

impl View for Token {
    type V = (SymbolKind, Seq<char>, u32);

    open spec fn view(&self) -> (SymbolKind, Seq<char>, u32) {
        (self.kind, self.lexeme@, self.line_number)
    }
}

impl Token {
    pub fn new(kind: SymbolKind, lexeme: String, line_number: u32) -> (r: Token)
        ensures
            r.kind == kind,
            r.lexeme@ == lexeme@,
            r.line_number == line_number,
    {
        Token { kind, lexeme, line_number }
    }

    pub fn get_kind(&self) -> (r: SymbolKind)
        ensures
            r == self.kind,
    {
        self.kind
    }

    pub fn get_value(&self) -> (r: String)
        ensures
            r@ == self.lexeme@,
    {
        self.lexeme.clone()
    }

    pub fn get_line_number(&self) -> (r: u32)
        ensures
            r == self.line_number,
    {
        self.line_number
    }
}

/// Whether std classifies `c` as alphanumeric (Unicode Alphabetic or Numeric).
pub uninterp spec fn unicode_alphanumeric(c: char) -> bool;

/// Whether std classifies `c` as numeric (Unicode Nd, Nl or No).
pub uninterp spec fn unicode_numeric(c: char) -> bool;

/// The characters std calls alphanumeric: on ASCII, exactly the letters and digits.
pub open spec fn alphanumeric_char(c: char) -> bool {
    if (c as u32) < 128 {
        ('a' <= c && c <= 'z') || ('A' <= c && c <= 'Z') || ('0' <= c && c <= '9')
    } else {
        unicode_alphanumeric(c)
    }
}

/// The characters std calls numeric: on ASCII, exactly the digits.
pub open spec fn numeric_char(c: char) -> bool {
    if (c as u32) < 128 {
        '0' <= c && c <= '9'
    } else {
        unicode_numeric(c)
    }
}

/// Relies on char::is_alphanumeric, whose answer depends on the character alone; an ASCII
/// character is alphanumeric exactly when it is a letter or a digit.
#[verifier::external_body]
fn char_is_alphanumeric(c: char) -> (r: bool)
    ensures
        r == alphanumeric_char(c),
        (c as u32) >= 128 ==> r == unicode_alphanumeric(c),
{
    c.is_alphanumeric()
}

/// Relies on char::is_numeric, whose answer depends on the character alone; an ASCII
/// character is numeric exactly when it is a digit.
#[verifier::external_body]
fn char_is_numeric(c: char) -> (r: bool)
    ensures
        r == numeric_char(c),
        (c as u32) >= 128 ==> r == unicode_numeric(c),
{
    c.is_numeric()
}

/// Relies on String::push: appends one character.
#[verifier::external_body]
pub(crate) fn push_char(s: &mut String, c: char)
    ensures
        final(s)@ == old(s)@.push(c),
{
    s.push(c)
}

/// Whether a token of category `kind` can take `c` as its next character.
pub open spec fn may_extend(c: char, kind: SymbolKind) -> bool {
    match kind {
        SymbolKind::Identifier => alphanumeric_char(c) || c == '_',
        SymbolKind::Number => numeric_char(c),
        SymbolKind::String => true,
        SymbolKind::Char => true,
        _ => false,
    }
}

/// The category that a token starting with `c` belongs to.
pub open spec fn kind_of_first_char(c: char) -> Option<SymbolKind> {
    if ('a' <= c && c <= 'z') || ('A' <= c && c <= 'Z') {
        Some(SymbolKind::Identifier)
    } else if '0' <= c && c <= '9' {
        Some(SymbolKind::Number)
    } else if c == '"' {
        Some(SymbolKind::String)
    } else if c == '+' || c == '-' || c == '*' || c == '/' || c == '=' {
        Some(SymbolKind::Operator)
    } else if c == '\'' {
        Some(SymbolKind::Char)
    } else if c == ' ' || c == '\n' || c == '\t' {
        Some(SymbolKind::Whitespace)
    } else if c == '(' || c == ')' || c == '{' || c == '}' || c == '[' || c == ']' || c == ';' {
        Some(SymbolKind::Punctuation)
    } else {
        None
    }
}

impl SymbolKind {
    pub fn can_add_char(char: char, current_state: &SymbolKind) -> (r: bool)
        ensures
            r == may_extend(char, *current_state),
    {
        match current_state {
            SymbolKind::Identifier => char_is_alphanumeric(char) || char == '_',
            SymbolKind::Number => char_is_numeric(char),
            SymbolKind::String => true,
            SymbolKind::Char => true,
            _ => false,
        }
    }

    pub fn choose_type_by_char(char: char) -> (r: Option<SymbolKind>)
        ensures
            r == kind_of_first_char(char),
    {
        if ('a' <= char && char <= 'z') || ('A' <= char && char <= 'Z') {
            Some(SymbolKind::Identifier)
        } else if '0' <= char && char <= '9' {
            Some(SymbolKind::Number)
        } else if char == '"' {
            Some(SymbolKind::String)
        } else if char == '+' || char == '-' || char == '*' || char == '/' || char == '=' {
            Some(SymbolKind::Operator)
        } else if char == '\'' {
            Some(SymbolKind::Char)
        } else if char == ' ' || char == '\n' || char == '\t' {
            Some(SymbolKind::Whitespace)
        } else if char == '(' || char == ')' || char == '{' || char == '}' || char == '['
            || char == ']' || char == ';' {
            Some(SymbolKind::Punctuation)
        } else {
            None
        }
    }
}

pub open spec fn is_bool_word(s: Seq<char>) -> bool {
    s == seq!['t', 'r', 'u', 'e'] || s == seq!['f', 'a', 'l', 's', 'e']
}

/// A finished token: the identifiers `true` and `false` are boolean literals.
pub open spec fn reclassified(t: (SymbolKind, Seq<char>, u32)) -> (SymbolKind, Seq<char>, u32) {
    if t.0 == SymbolKind::Identifier && is_bool_word(t.1) {
        (SymbolKind::Bool, t.1, t.2)
    } else {
        t
    }
}

/// The token begun by `c` on `line`, or the error for a character of no category.
pub open spec fn started(c: char, line: u32) -> Result<(SymbolKind, Seq<char>, u32), ParseError> {
    match kind_of_first_char(c) {
        Some(k) => Ok((k, seq![c], line)),
        None => Err(ParseError::Lexical { line }),
    }
}

pub open spec fn next_line(line: u32, c: char) -> u32 {
    if c == '\n' && line < u32::MAX {
        (line + 1) as u32
    } else {
        line
    }
}

/// The scanner's reaction to a character other than a carriage return, with `line`
/// already counting it: the token in progress afterwards and the token it completes, if any.
pub open spec fn scan_char(
    pending: Option<(SymbolKind, Seq<char>, u32)>,
    line: u32,
    c: char,
) -> Result<(Option<(SymbolKind, Seq<char>, u32)>, Option<(SymbolKind, Seq<char>, u32)>), ParseError> {
    match pending {
        None => match started(c, line) {
            Ok(t) => Ok((Some(t), None)),
            Err(e) => Err(e),
        },
        Some(t) => if may_extend(c, t.0) {
            let text = t.1.push(c);
            if (t.0 == SymbolKind::String && c == '"') || (t.0 == SymbolKind::Char && c == '\'') {
                Ok((None, Some((t.0, text.subrange(1, text.len() - 1), t.2))))
            } else {
                Ok((Some((t.0, text, t.2)), None))
            }
        } else {
            match started(c, line) {
                Ok(t2) => Ok((Some(t2), Some(reclassified(t)))),
                Err(e) => Err(e),
            }
        },
    }
}

/// The scanner's reaction to one character: carriage returns are skipped, every newline
/// advances the line counter, then the character is scanned. Gives the token in progress
/// afterwards, the line counter afterwards, and the token completed, if any.
pub open spec fn scan_step(
    pending: Option<(SymbolKind, Seq<char>, u32)>,
    line: u32,
    c: char,
) -> Result<(Option<(SymbolKind, Seq<char>, u32)>, u32, Option<(SymbolKind, Seq<char>, u32)>), ParseError> {
    if c == '\r' {
        Ok((pending, line, None))
    } else {
        match scan_char(pending, next_line(line, c), c) {
            Ok((p, t)) => Ok((p, next_line(line, c), t)),
            Err(e) => Err(e),
        }
    }
}

/// Scans from `pos` until a token completes or the input ends: the token in progress, the
/// line counter and the position afterwards, and the token found (none at the very end).
pub open spec fn scan_next(
    pending: Option<(SymbolKind, Seq<char>, u32)>,
    line: u32,
    input: Seq<char>,
    pos: int,
) -> Result<(Option<(SymbolKind, Seq<char>, u32)>, u32, int, Option<(SymbolKind, Seq<char>, u32)>), ParseError>
    decreases input.len() - pos,
{
    if pos < 0 || pos >= input.len() {
        match pending {
            Some(t) => Ok((None, line, pos, Some(reclassified(t)))),
            None => Ok((None, line, pos, None)),
        }
    } else {
        match scan_step(pending, line, input[pos]) {
            Err(e) => Err(e),
            Ok((p, l, Some(t))) => Ok((p, l, pos + 1, Some(t))),
            Ok((p, l, None)) => scan_next(p, l, input, pos + 1),
        }
    }
}

pub open spec fn scan_measure(pending: Option<(SymbolKind, Seq<char>, u32)>, input: Seq<char>, pos: int) -> int {
    2 * (input.len() - pos) + if pending is Some { 1int } else { 0 }
}

/// Each token found moves the scanner on: the position never goes back, and either it
/// advances or the token in progress is handed out.
pub proof fn lemma_scan_next_progress(
    pending: Option<(SymbolKind, Seq<char>, u32)>,
    line: u32,
    input: Seq<char>,
    pos: int,
)
    requires
        0 <= pos <= input.len(),
    ensures
        scan_next(pending, line, input, pos) matches Ok((p, l, pos2, Some(t))) ==> pos <= pos2
            <= input.len() && 0 <= scan_measure(p, input, pos2) < scan_measure(pending, input, pos),
        scan_next(pending, line, input, pos) matches Ok((p, l, pos2, o)) ==> pos <= pos2
            <= input.len(),
    decreases input.len() - pos,
{
    if pos < input.len() {
        if let Ok((p, l, None)) = scan_step(pending, line, input[pos]) {
            lemma_scan_next_progress(p, l, input, pos + 1);
        }
    }
}

/// The characters of the source: each byte read as the character of the same code.
pub open spec fn source_chars(bytes: Seq<u8>) -> Seq<char> {
    bytes.map_values(|b: u8| b as char)
}

/// The scanner, pulled one token at a time.
pub struct Lexer {
    source: Vec<u8>,
    position: usize,
    current_token: Option<Token>,
    current_line: u32,
}

impl Lexer {
    pub closed spec fn input(&self) -> Seq<char> {
        source_chars(self.source@)
    }

    pub closed spec fn position(&self) -> int {
        self.position as int
    }

    pub closed spec fn pending(&self) -> Option<(SymbolKind, Seq<char>, u32)> {
        match self.current_token {
            Some(t) => Some(t@),
            None => None,
        }
    }

    pub closed spec fn line(&self) -> u32 {
        self.current_line
    }

    pub closed spec fn wf(&self) -> bool {
        &&& self.position <= self.source@.len()
        &&& self.current_token matches Some(t) ==> t.lexeme@.len() > 0
    }

    pub proof fn lemma_position_in_bounds(&self)
        requires
            self.wf(),
        ensures
            0 <= self.position() <= self.input().len(),
    {
    }

    /// A scanner at the start of `source`, on line one.
    pub fn new(source: Vec<u8>) -> (r: Lexer)
        ensures
            r.wf(),
            r.input() == source_chars(source@),
            r.position() == 0,
            r.pending() is None,
            r.line() == 1,
    {
        Lexer { source, position: 0, current_token: None, current_line: 1 }
    }

    fn update_token_before_return(token: &mut Token)
        ensures
            final(token)@ == reclassified(old(token)@),
    {
        proof {
            reveal_strlit("true");
            reveal_strlit("false");
            assert("true"@ =~= seq!['t', 'r', 'u', 'e']);
            assert("false"@ =~= seq!['f', 'a', 'l', 's', 'e']);
        }
        if token.kind == SymbolKind::Identifier {
            if str_is(token.lexeme.as_str(), "true") || str_is(token.lexeme.as_str(), "false") {
                token.kind = SymbolKind::Bool;
            }
        }
    }

    fn start_new_token(&mut self, char: char) -> (r: Result<(), ParseError>)
        requires
            old(self).current_token is None,
        ensures
            final(self).source == old(self).source,
            final(self).position == old(self).position,
            final(self).current_line == old(self).current_line,
            final(self).current_token matches Some(t) ==> t.lexeme@.len() > 0,
            match started(char, old(self).current_line) {
                Ok(t) => r is Ok && final(self).pending() == Some(t),
                Err(e) => r == Err::<(), ParseError>(e),
            },
    {
        let kind = match SymbolKind::choose_type_by_char(char) {
            Some(k) => k,
            None => {
                return Err(ParseError::Lexical { line: self.current_line });
            },
        };
        let mut lexeme = String::new();
        push_char(&mut lexeme, char);
        assert(lexeme@ =~= seq![char]);
        self.current_token = Some(Token::new(kind, lexeme, self.current_line));
        Ok(())
    }

    fn handle_in_token(&mut self, char: char) -> (r: Result<Option<Token>, ParseError>)
        requires
            old(self).current_token is Some,
            old(self).wf(),
            char != '\r',
        ensures
            final(self).wf(),
            final(self).source == old(self).source,
            final(self).position == old(self).position,
            final(self).current_line == old(self).current_line,
            match scan_char(old(self).pending(), old(self).current_line, char) {
                Ok((p, t)) => r matches Ok(o) && final(self).pending() == p && match o {
                    Some(tok) => t == Some(tok@),
                    None => t is None,
                },
                Err(e) => r == Err::<Option<Token>, ParseError>(e),
            },
    {
        let mut token = self.current_token.take().unwrap();
        if SymbolKind::can_add_char(char, &token.kind) {
            push_char(&mut token.lexeme, char);
            if (token.kind == SymbolKind::String && char == '"') || (token.kind == SymbolKind::Char
                && char == '\'') {
                let n = token.lexeme.as_str().unicode_len();
                assert(n >= 2);
                let inner = String::from_str(token.lexeme.as_str().substring_char(1, n - 1));
                token.lexeme = inner;
                return Ok(Some(token));
            }
            self.current_token = Some(token);
            Ok(None)
        } else {
            match self.start_new_token(char) {
                Ok(()) => {},
                Err(e) => {
                    return Err(e);
                },
            }
            Self::update_token_before_return(&mut token);
            Ok(Some(token))
        }
    }

    fn finalize_token(&mut self) -> (r: Option<Token>)
        ensures
            final(self).source == old(self).source,
            final(self).position == old(self).position,
            final(self).current_line == old(self).current_line,
            final(self).current_token is None,
            match old(self).pending() {
                Some(t) => r matches Some(tok) && tok@ == reclassified(t),
                None => r is None,
            },
    {
        match self.current_token.take() {
            Some(t) => {
                let mut token = t;
                Self::update_token_before_return(&mut token);
                Some(token)
            },
            None => None,
        }
    }

    /// Scans up to the end of the next token; `None` once the input is used up.
    pub fn get_next_token(&mut self) -> (r: Result<Option<Token>, ParseError>)
        requires
            old(self).wf(),
        ensures
            final(self).wf(),
            final(self).input() == old(self).input(),
            match scan_next(old(self).pending(), old(self).line(), old(self).input(), old(self).position()) {
                Ok((p, l, pos, t)) => r matches Ok(o) && final(self).pending() == p
                    && final(self).line() == l && final(self).position() == pos && match o {
                    Some(tok) => t == Some(tok@),
                    None => t is None,
                },
                Err(e) => r == Err::<Option<Token>, ParseError>(e),
            },
    {
        let ghost input = self.input();
        let ghost target = scan_next(self.pending(), self.line(), input, self.position());
        while self.position < self.source.len()
            invariant
                self.wf(),
                self.input() == input,
                input == old(self).input(),
                target == scan_next(old(self).pending(), old(self).line(), input, old(self).position()),
                target == scan_next(self.pending(), self.line(), input, self.position()),
            decreases self.source@.len() - self.position,
        {
            let char = self.source[self.position] as char;
            assert(input[self.position as int] == char);
            self.position = self.position + 1;
            if char == '\r' {
                continue;
            }
            if char == '\n' && self.current_line < u32::MAX {
                self.current_line = self.current_line + 1;
            }
            if self.current_token.is_some() {
                match self.handle_in_token(char) {
                    Ok(Some(token)) => {
                        return Ok(Some(token));
                    },
                    Ok(None) => {},
                    Err(e) => {
                        return Err(e);
                    },
                }
            } else {
                match self.start_new_token(char) {
                    Ok(()) => {},
                    Err(e) => {
                        return Err(e);
                    },
                }
            }
        }
        Ok(self.finalize_token())
    }
}

} // verus!
