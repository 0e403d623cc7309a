use vstd::prelude::*;
use std::collections::VecDeque;
use crate::ast::{
    ASTNode, SymbolNode, literal_type, reduced_node, token_convertible, token_node,
};
use crate::grammar::{GrammarTable, Rule, grammar_rules, rules_view};
use crate::lexer::{Lexer, Token, scan_measure, scan_next};
use crate::types::{ParseError, SymbolKind};

verus! {

/// The top `req.len()` symbols of `stack` have exactly the kinds `req`, in order.
pub open spec fn suffix_matches(stack: Seq<SymbolNode>, req: Seq<SymbolKind>) -> bool {
    &&& req.len() <= stack.len()
    &&& forall|i: int|
        0 <= i < req.len() ==> #[trigger] stack[stack.len() - req.len() + i].kind == req[i]
}

/// The index of the first rule, from `from` on, whose required kinds end the stack.
pub open spec fn first_match(
    stack: Seq<SymbolNode>,
    rules: Seq<(SymbolKind, Seq<SymbolKind>)>,
    from: int,
) -> Option<int>
    decreases rules.len() - from,
{
    if from < 0 || from >= rules.len() {
        None
    } else if suffix_matches(stack, rules[from].1) {
        Some(from)
    } else {
        first_match(stack, rules, from + 1)
    }
}

/// The rules that may fire on `stack`: those filed under the kind of its top symbol.
pub open spec fn candidates(stack: Seq<SymbolNode>) -> Seq<(SymbolKind, Seq<SymbolKind>)> {
    if stack.len() == 0 {
        seq![]
    } else {
        grammar_rules(stack.last().kind)
    }
}

/// The stack after folding the suffix matched by `rule` into `node`.
pub open spec fn folded(stack: Seq<SymbolNode>, rule: (SymbolKind, Seq<SymbolKind>), node: ASTNode) -> Seq<
    SymbolNode,
> {
    stack.take(stack.len() - rule.1.len()).push(SymbolNode { kind: rule.0, value: node })
}

/// One fold at the top of the stack: `None` when no candidate rule matches, otherwise the
/// stack with the first matching rule's suffix replaced by the node it builds.
pub open spec fn reduce_step(stack: Seq<SymbolNode>, line: u32) -> Option<
    Result<Seq<SymbolNode>, ParseError>,
> {
    let rules = candidates(stack);
    match first_match(stack, rules, 0) {
        None => None,
        Some(i) => {
            let rule = rules[i];
            let matched = stack.subrange(stack.len() - rule.1.len(), stack.len() as int);
            match reduced_node(rule.0, matched, line) {
                Ok(node) => Some(Ok(folded(stack, rule, node))),
                Err(e) => Some(Err(e)),
            }
        },
    }
}

pub open spec fn kind_rank(k: SymbolKind) -> int {
    match k {
        SymbolKind::Number | SymbolKind::Bool | SymbolKind::String | SymbolKind::Char
        | SymbolKind::BinaryOperation => 1,
        _ => 0,
    }
}

/// Shrinks with every fold: a one-symbol rule lowers the rank of the top kind, a longer
/// one removes at least two symbols.
pub open spec fn fold_measure(stack: Seq<SymbolNode>) -> int {
    if stack.len() == 0 {
        0
    } else {
        2 * stack.len() + kind_rank(stack.last().kind)
    }
}

proof fn lemma_first_match_bounds(
    stack: Seq<SymbolNode>,
    rules: Seq<(SymbolKind, Seq<SymbolKind>)>,
    from: int,
)
    ensures
        first_match(stack, rules, from) matches Some(i) ==> from <= i < rules.len()
            && suffix_matches(stack, rules[i].1),
    decreases rules.len() - from,
{
    if 0 <= from < rules.len() && !suffix_matches(stack, rules[from].1) {
        lemma_first_match_bounds(stack, rules, from + 1);
    }
}

proof fn lemma_reduce_step_shrinks(stack: Seq<SymbolNode>, line: u32)
    ensures
        reduce_step(stack, line) matches Some(Ok(s)) ==> 0 <= fold_measure(s) < fold_measure(
            stack,
        ),
{
    let rules = candidates(stack);
    lemma_first_match_bounds(stack, rules, 0);
    if let Some(i) = first_match(stack, rules, 0) {
        assert(stack.len() > 0);
        let k = stack.last().kind;
        assert(rules == grammar_rules(k));
        if k == SymbolKind::Punctuation {
            assert(i == 0 || i == 1 || i == 2);
        }
    }
}

proof fn lemma_first_match_is(
    stack: Seq<SymbolNode>,
    rules: Seq<(SymbolKind, Seq<SymbolKind>)>,
    from: int,
    i: int,
)
    requires
        0 <= from <= i < rules.len(),
        suffix_matches(stack, rules[i].1),
        forall|j: int| from <= j < i ==> !suffix_matches(stack, #[trigger] rules[j].1),
    ensures
        first_match(stack, rules, from) == Some(i),
    decreases i - from,
{
    if from < i {
        lemma_first_match_is(stack, rules, from + 1, i);
    }
}

/// Folds until no candidate rule matches; the first error met ends the cascade.
pub open spec fn cascade(stack: Seq<SymbolNode>, line: u32) -> Result<Seq<SymbolNode>, ParseError>
    decreases fold_measure(stack),
    via cascade_decreases
{
    match reduce_step(stack, line) {
        None => Ok(stack),
        Some(Err(e)) => Err(e),
        Some(Ok(s)) => cascade(s, line),
    }
}

#[via_fn]
proof fn cascade_decreases(stack: Seq<SymbolNode>, line: u32) {
    lemma_reduce_step_shrinks(stack, line);
}

/// A fold replaces the matched suffix by exactly one symbol of the rule's produced kind, so
/// the stack shrinks by the rule's length less one; what lies below the suffix is kept.
pub proof fn lemma_reduction_replaces_suffix(stack: Seq<SymbolNode>, line: u32, i: int)
    requires
        0 <= i < candidates(stack).len(),
        suffix_matches(stack, candidates(stack)[i].1),
        forall|j: int| 0 <= j < i ==> !suffix_matches(stack, #[trigger] candidates(stack)[j].1),
    ensures
        ({
            let rule = candidates(stack)[i];
            let n = rule.1.len();
            match reduce_step(stack, line) {
                Some(Ok(s)) => {
                    &&& s.len() == stack.len() - (n - 1)
                    &&& s.last().kind == rule.0
                    &&& s.take(s.len() - 1) == stack.take(stack.len() - n)
                },
                Some(Err(e)) => e == ParseError::TypeResolution { line },
                None => false,
            }
        }),
{
    let rules = candidates(stack);
    lemma_first_match_is(stack, rules, 0, i);
    let rule = rules[i];
    let n = rule.1.len();
    assert(stack.len() > 0);
    if let Some(Ok(s)) = reduce_step(stack, line) {
        assert(s.take(s.len() - 1) =~= stack.take(stack.len() - n));
    }
}

/// When no candidate rule matches the top of the stack, a fold leaves the stack as it is.
pub proof fn lemma_no_match_is_no_op(stack: Seq<SymbolNode>, line: u32)
    requires
        forall|j: int|
            0 <= j < candidates(stack).len() ==> !suffix_matches(
                stack,
                #[trigger] candidates(stack)[j].1,
            ),
    ensures
        reduce_step(stack, line) is None,
        cascade(stack, line) == Ok::<Seq<SymbolNode>, ParseError>(stack),
{
    lemma_first_match_bounds(stack, candidates(stack), 0);
}

/// `n` matched symbols are enough for the node of kind `produced`.
pub open spec fn node_fits(produced: SymbolKind, n: nat) -> bool {
    match produced {
        SymbolKind::Assign => n >= 3,
        SymbolKind::Expr => n >= 1,
        SymbolKind::BinaryOperation => n >= 3,
        SymbolKind::Declaration => n >= 2,
        SymbolKind::DeclarationAssignment => n >= 4,
        _ => true,
    }
}

/// The rule's length is enough for the node it builds.
pub open spec fn rule_fits(rule: (SymbolKind, Seq<SymbolKind>)) -> bool {
    node_fits(rule.0, rule.1.len())
}

proof fn lemma_grammar_rules_fit(k: SymbolKind, i: int)
    requires
        0 <= i < grammar_rules(k).len(),
    ensures
        rule_fits(grammar_rules(k)[i]),
{
}

/// A top-level symbol that is a complete statement.
pub open spec fn is_statement(k: SymbolKind) -> bool {
    k == SymbolKind::Assign || k == SymbolKind::Declaration || k
        == SymbolKind::DeclarationAssignment
}

pub open spec fn all_statements(stack: Seq<SymbolNode>) -> bool {
    forall|i: int| 0 <= i < stack.len() ==> is_statement(#[trigger] stack[i].kind)
}

/// What the end of input yields: the stack when it holds complete statements only.
pub open spec fn finish_outcome(stack: Seq<SymbolNode>, line: u32) -> Result<
    Seq<SymbolNode>,
    ParseError,
> {
    if all_statements(stack) {
        Ok(stack)
    } else {
        Err(ParseError::Syntax { line })
    }
}

/// `outcome` is a result of running the engine from the scanner state (`pending`, `sline`,
/// `pos`) over `input`, with `stack` folded so far and `line` the line of the last symbol
/// pushed: each token is scanned, whitespace is dropped, any other token is turned into
/// its node, pushed and folded, and the end of input checks for complete statements.
pub open spec fn parse_outcome(
    pending: Option<(SymbolKind, Seq<char>, u32)>,
    sline: u32,
    input: Seq<char>,
    pos: int,
    stack: Seq<SymbolNode>,
    line: u32,
    outcome: Result<Seq<SymbolNode>, ParseError>,
) -> bool
    decreases scan_measure(pending, input, pos),
    when 0 <= pos <= input.len()
    via parse_outcome_decreases
{
    match scan_next(pending, sline, input, pos) {
        Err(e) => outcome == Err::<Seq<SymbolNode>, ParseError>(e),
        Ok((p, l, pos2, None)) => outcome == finish_outcome(stack, line),
        Ok((p, l, pos2, Some(t))) => if t.0 == SymbolKind::Whitespace {
            parse_outcome(p, l, input, pos2, stack, line, outcome)
        } else if !token_convertible(t.0, t.1) {
            outcome == Err::<Seq<SymbolNode>, ParseError>(ParseError::InvalidLiteral { line: t.2 })
        } else {
            exists|node: ASTNode|
                #[trigger] token_node(t.0, t.1, node) && match cascade(
                    stack.push(SymbolNode { kind: t.0, value: node }),
                    t.2,
                ) {
                    Err(e) => outcome == Err::<Seq<SymbolNode>, ParseError>(e),
                    Ok(s) => parse_outcome(p, l, input, pos2, s, t.2, outcome),
                }
        },
    }
}

#[via_fn]
proof fn parse_outcome_decreases(
    pending: Option<(SymbolKind, Seq<char>, u32)>,
    sline: u32,
    input: Seq<char>,
    pos: int,
    stack: Seq<SymbolNode>,
    line: u32,
    outcome: Result<Seq<SymbolNode>, ParseError>,
) {
    crate::lexer::lemma_scan_next_progress(pending, sline, input, pos);
}

/// The reduction engine: a stack of symbols folded by the grammar table as tokens arrive.
pub struct Parser {
    lexer: Lexer,
    grammar: GrammarTable,
    symbols: Vec<SymbolNode>,
    current_line: u32,
}

/// Whether the top symbols of `symbols` have the kinds that `rule` requires.
fn suffix_matches_rule(symbols: &Vec<SymbolNode>, rule: &Rule) -> (r: bool)
    ensures
        r == suffix_matches(symbols@, rule.required@),
{
    let n = rule.required.len();
    let len = symbols.len();
    if n > len {
        return false;
    }
    let mut i: usize = 0;
    while i < n
        invariant
            n == rule.required@.len(),
            len == symbols@.len(),
            n <= len,
            i <= n,
            forall|j: int|
                0 <= j < i ==> #[trigger] symbols@[len - n + j].kind == rule.required@[j],
        decreases n - i,
    {
        if symbols[len - n + i].kind != rule.required[i] {
            return false;
        }
        i = i + 1;
    }
    true
}

/// Pops the suffix that `rule` matched and pushes the node it builds.
pub fn create_ast_node(
    symbols: &mut Vec<SymbolNode>,
    produced: SymbolKind,
    n: usize,
    line: u32,
) -> (r: Result<(), ParseError>)
    requires
        n <= old(symbols)@.len(),
        node_fits(produced, n as nat),
    ensures
        ({
            let stack = old(symbols)@;
            match reduced_node(produced, stack.subrange(stack.len() - n, stack.len() as int), line) {
                Ok(node) => r is Ok && final(symbols)@ == stack.take(stack.len() - n).push(
                    SymbolNode { kind: produced, value: node },
                ),
                Err(e) => r == Err::<(), ParseError>(e),
            }
        }),
{
    let ghost stack = symbols@;
    let mut matched: VecDeque<SymbolNode> = VecDeque::new();
    let mut k: usize = 0;
    while k < n
        invariant
            n <= stack.len(),
            k <= n,
            symbols@ == stack.take(stack.len() - k),
            matched@ == stack.subrange(stack.len() - k, stack.len() as int),
        decreases n - k,
    {
        let top = symbols.pop().unwrap();
        matched.push_front(top);
        k = k + 1;
        assert(symbols@ =~= stack.take(stack.len() - k));
        assert(matched@ =~= stack.subrange(stack.len() - k, stack.len() as int));
    }
    let node = match produced {
        SymbolKind::Assign => ASTNode::create_assign(&mut matched),
        SymbolKind::Expr => ASTNode::create_expr(&mut matched),
        SymbolKind::BinaryOperation => ASTNode::create_binary_op(&mut matched),
        SymbolKind::Declaration => ASTNode::create_declaration(&mut matched, line)?,
        SymbolKind::DeclarationAssignment => ASTNode::create_declaration_assignment(
            &mut matched,
            line,
        )?,
        _ => ASTNode::Empty(),
    };
    symbols.push(SymbolNode::new(produced, node));
    Ok(())
}

/// Tries `rule` on the top of the stack: when the top symbols have the kinds it requires,
/// they are replaced by the one node it builds and the answer is `true`; otherwise the
/// stack is left as it is and the answer is `false`.
pub fn check_symbols_in_rule(symbols: &mut Vec<SymbolNode>, rule: &Rule, line: u32) -> (r: Result<
    bool,
    ParseError,
>)
    requires
        rule_fits(rule@),
    ensures
        !suffix_matches(old(symbols)@, rule.required@) ==> r == Ok::<bool, ParseError>(false)
            && final(symbols)@ == old(symbols)@,
        suffix_matches(old(symbols)@, rule.required@) ==> ({
            let stack = old(symbols)@;
            let n = rule.required@.len();
            match reduced_node(
                rule.produced,
                stack.subrange(stack.len() - n, stack.len() as int),
                line,
            ) {
                Ok(node) => r == Ok::<bool, ParseError>(true) && final(symbols)@ == folded(
                    stack,
                    rule@,
                    node,
                ),
                Err(e) => r == Err::<bool, ParseError>(e),
            }
        }),
{
    if !suffix_matches_rule(symbols, rule) {
        return Ok(false);
    }
    match create_ast_node(symbols, rule.produced, rule.required.len(), line) {
        Ok(()) => Ok(true),
        Err(e) => Err(e),
    }
}

impl Parser {
    pub closed spec fn stack(&self) -> Seq<SymbolNode> {
        self.symbols@
    }

    pub closed spec fn line(&self) -> u32 {
        self.current_line
    }

    pub closed spec fn wf(&self) -> bool {
        self.grammar.wf() && self.lexer.wf()
    }

    pub closed spec fn scanner(&self) -> Lexer {
        self.lexer
    }

    /// An engine with an empty stack, at line one, that reads `source`.
    pub fn new(source: Vec<u8>) -> (r: Parser)
        ensures
            r.wf(),
            r.stack() == Seq::<SymbolNode>::empty(),
            r.line() == 1,
            r.scanner().input() == crate::lexer::source_chars(source@),
            r.scanner().position() == 0,
            r.scanner().pending() is None,
            r.scanner().line() == 1,
    {
        Parser {
            lexer: Lexer::new(source),
            grammar: GrammarTable::new(),
            symbols: Vec::new(),
            current_line: 1,
        }
    }

    /// Performs one fold at the top of the stack, if a candidate rule matches.
    pub fn reduce_once(&mut self) -> (r: Result<bool, ParseError>)
        requires
            old(self).wf(),
        ensures
            final(self).wf(),
            final(self).scanner() == old(self).scanner(),
            final(self).line() == old(self).line(),
            match reduce_step(old(self).stack(), old(self).line()) {
                None => r == Ok::<bool, ParseError>(false) && final(self).stack() == old(
                    self,
                ).stack(),
                Some(Ok(s)) => r == Ok::<bool, ParseError>(true) && final(self).stack() == s,
                Some(Err(e)) => r == Err::<bool, ParseError>(e),
            },
    {
        let ghost stack = self.symbols@;
        let ghost line = self.current_line;
        let len = self.symbols.len();
        if len == 0 {
            return Ok(false);
        }
        let kind = self.symbols[len - 1].kind;
        let ghost cands = candidates(stack);
        assert(cands == grammar_rules(kind));
        let rules = match self.grammar.lookup(kind) {
            None => {
                return Ok(false);
            },
            Some(rules) => rules,
        };
        assert(rules_view(rules@) == cands);
        let mut j: usize = 0;
        while j < rules.len()
            invariant
                self.symbols@ == stack,
                self.current_line == line,
                self.lexer == old(self).lexer,
                self.lexer.wf(),
                stack == old(self).symbols@,
                line == old(self).current_line,
                self.grammar.wf(),
                cands == grammar_rules(kind),
                rules_view(rules@) == cands,
                cands == candidates(stack),
                cands.len() == rules@.len(),
                j <= rules@.len(),
                first_match(stack, cands, 0) == first_match(stack, cands, j as int),
            decreases rules@.len() - j,
        {
            assert(rules@[j as int]@ == cands[j as int]);
            proof {
                lemma_grammar_rules_fit(kind, j as int);
            }
            match check_symbols_in_rule(&mut self.symbols, &rules[j], self.current_line) {
                Ok(true) => {
                    return Ok(true);
                },
                Ok(false) => {},
                Err(e) => {
                    return Err(e);
                },
            }
            j = j + 1;
        }
        Ok(false)
    }

    /// Folds the top of the stack again and again until no candidate rule matches.
    pub fn try_reduce(&mut self) -> (r: Result<(), ParseError>)
        requires
            old(self).wf(),
        ensures
            final(self).wf(),
            final(self).scanner() == old(self).scanner(),
            final(self).line() == old(self).line(),
            match cascade(old(self).stack(), old(self).line()) {
                Ok(s) => r is Ok && final(self).stack() == s,
                Err(e) => r == Err::<(), ParseError>(e),
            },
    {
        let ghost line = self.current_line;
        let ghost start = self.symbols@;
        loop
            invariant
                self.wf(),
                self.current_line == line,
                self.lexer == old(self).lexer,
                line == old(self).current_line,
                start == old(self).symbols@,
                cascade(start, line) == cascade(self.symbols@, line),
            decreases fold_measure(self.symbols@),
        {
            let ghost before = self.symbols@;
            proof {
                lemma_reduce_step_shrinks(before, line);
            }
            match self.reduce_once() {
                Ok(true) => {
                    assert(cascade(before, line) == cascade(self.symbols@, line));
                },
                Ok(false) => {
                    assert(cascade(before, line) == Ok::<Seq<SymbolNode>, ParseError>(before));
                    return Ok(());
                },
                Err(e) => {
                    return Err(e);
                },
            }
        }
    }

    /// Takes in one token: whitespace is dropped; any other token is pushed as a symbol of
    /// its own kind and the stack is folded as far as it goes.
    pub fn process(&mut self, token: &Token) -> (r: Result<(), ParseError>)
        requires
            old(self).wf(),
        ensures
            final(self).wf(),
            final(self).scanner() == old(self).scanner(),
            token.kind == SymbolKind::Whitespace ==> r is Ok && final(self).stack() == old(
                self,
            ).stack() && final(self).line() == old(self).line(),
            token.kind != SymbolKind::Whitespace && !token_convertible(token.kind, token.lexeme@)
                ==> r == Err::<(), ParseError>(
                ParseError::InvalidLiteral { line: token.line_number },
            ),
            token.kind != SymbolKind::Whitespace && token_convertible(token.kind, token.lexeme@)
                ==> final(self).line() == token.line_number && exists|node: ASTNode|
                {
                    &&& token_node(token.kind, token.lexeme@, node)
                    &&& match cascade(
                        old(self).stack().push(SymbolNode { kind: token.kind, value: node }),
                        token.line_number,
                    ) {
                        Ok(s) => r is Ok && final(self).stack() == s,
                        Err(e) => r == Err::<(), ParseError>(e),
                    }
                },
    {
        if token.get_kind() == SymbolKind::Whitespace {
            return Ok(());
        }
        let line = token.get_line_number();
        let node = match ASTNode::from_token_value(token) {
            Some(node) => node,
            None => {
                return Err(ParseError::InvalidLiteral { line });
            },
        };
        let ghost pushed = SymbolNode { kind: token.kind, value: node };
        self.current_line = line;
        self.symbols.push(SymbolNode::new(token.get_kind(), node));
        let r = self.try_reduce();
        assert(token_node(token.kind, token.lexeme@, pushed.value));
        r
    }

    /// Ends the input: the stack is the parse result when every symbol on it is a complete
    /// statement; otherwise an incomplete fragment remains and the input is rejected.
    pub fn finish(&mut self) -> (r: Result<Vec<SymbolNode>, ParseError>)
        ensures
            final(self).wf() == old(self).wf(),
            final(self).scanner() == old(self).scanner(),
            final(self).line() == old(self).line(),
            all_statements(old(self).stack()) ==> (r matches Ok(v) && v@ == old(self).stack()),
            r is Ok ==> final(self).stack() == Seq::<SymbolNode>::empty(),
            r is Err ==> final(self).stack() == old(self).stack(),
            !all_statements(old(self).stack()) ==> r == Err::<Vec<SymbolNode>, ParseError>(
                ParseError::Syntax { line: old(self).line() },
            ),
    {
        let mut i: usize = 0;
        while i < self.symbols.len()
            invariant
                i <= self.symbols@.len(),
                forall|j: int| 0 <= j < i ==> is_statement(#[trigger] self.symbols@[j].kind),
            decreases self.symbols@.len() - i,
        {
            let k = self.symbols[i].kind;
            if !(k == SymbolKind::Assign || k == SymbolKind::Declaration || k
                == SymbolKind::DeclarationAssignment) {
                return Err(ParseError::Syntax { line: self.current_line });
            }
            i = i + 1;
        }
        let mut out: Vec<SymbolNode> = Vec::new();
        std::mem::swap(&mut out, &mut self.symbols);
        Ok(out)
    }

    /// Pulls every token from the scanner and folds it in; at the end of input the stack
    /// must hold complete statements only, and it is returned.
    pub fn parse(&mut self) -> (r: Result<Vec<SymbolNode>, ParseError>)
        requires
            old(self).wf(),
        ensures
            parse_outcome(
                old(self).scanner().pending(),
                old(self).scanner().line(),
                old(self).scanner().input(),
                old(self).scanner().position(),
                old(self).stack(),
                old(self).line(),
                match r {
                    Ok(v) => Ok(v@),
                    Err(e) => Err(e),
                },
            ),
            r matches Ok(v) ==> all_statements(v@),
    {
        let ghost input = self.lexer.input();
        let ghost p0 = self.lexer.pending();
        let ghost l0 = self.lexer.line();
        let ghost pos0 = self.lexer.position();
        let ghost stack0 = self.symbols@;
        let ghost line0 = self.current_line;
        proof {
            self.lexer.lemma_position_in_bounds();
        }
        loop
            invariant
                self.wf(),
                self.lexer.input() == input,
                0 <= self.lexer.position() <= input.len(),
                0 <= pos0 <= input.len(),
                p0 == old(self).lexer.pending(),
                l0 == old(self).lexer.line(),
                pos0 == old(self).lexer.position(),
                input == old(self).lexer.input(),
                stack0 == old(self).symbols@,
                line0 == old(self).current_line,
                forall|o: Result<Seq<SymbolNode>, ParseError>|
                    #[trigger] parse_outcome(
                        self.lexer.pending(),
                        self.lexer.line(),
                        input,
                        self.lexer.position(),
                        self.symbols@,
                        self.current_line,
                        o,
                    ) ==> parse_outcome(p0, l0, input, pos0, stack0, line0, o),
            decreases scan_measure(self.lexer.pending(), input, self.lexer.position()),
        {
            let ghost lp = self.lexer.pending();
            let ghost ll = self.lexer.line();
            let ghost lpos = self.lexer.position();
            let ghost stack = self.symbols@;
            let ghost line = self.current_line;
            proof {
                crate::lexer::lemma_scan_next_progress(lp, ll, input, lpos);
            }
            let token = match self.lexer.get_next_token() {
                Ok(Some(token)) => token,
                Ok(None) => {
                    let r = self.finish();
                    assert(parse_outcome(lp, ll, input, lpos, stack, line, match r {
                        Ok(v) => Ok(v@),
                        Err(e) => Err(e),
                    }));
                    return r;
                },
                Err(e) => {
                    assert(parse_outcome(lp, ll, input, lpos, stack, line, Err(e)));
                    return Err(e);
                },
            };
            let ghost t = token@;
            match self.process(&token) {
                Ok(()) => {
                    assert forall|o: Result<Seq<SymbolNode>, ParseError>|
                        #[trigger] parse_outcome(
                            self.lexer.pending(),
                            self.lexer.line(),
                            input,
                            self.lexer.position(),
                            self.symbols@,
                            self.current_line,
                            o,
                        ) implies parse_outcome(p0, l0, input, pos0, stack0, line0, o) by {
                        if t.0 != SymbolKind::Whitespace {
                            let node = choose|node: ASTNode|
                                {
                                    &&& token_node(token.kind, token.lexeme@, node)
                                    &&& match cascade(
                                        stack.push(SymbolNode { kind: token.kind, value: node }),
                                        token.line_number,
                                    ) {
                                        Ok(s) => self.symbols@ == s,
                                        Err(e) => false,
                                    }
                                };
                            assert(token_node(t.0, t.1, node));
                        }
                        assert(parse_outcome(lp, ll, input, lpos, stack, line, o));
                    }
                },
                Err(e) => {
                    proof {
                        if t.0 != SymbolKind::Whitespace && token_convertible(t.0, t.1) {
                            let node = choose|node: ASTNode|
                                {
                                    &&& token_node(token.kind, token.lexeme@, node)
                                    &&& match cascade(
                                        stack.push(SymbolNode { kind: token.kind, value: node }),
                                        token.line_number,
                                    ) {
                                        Ok(s) => false,
                                        Err(e2) => e2 == e,
                                    }
                                };
                            assert(token_node(t.0, t.1, node));
                        }
                        assert(parse_outcome(lp, ll, input, lpos, stack, line, Err(e)));
                    }
                    return Err(e);
                },
            }
        }
    }
}

/// The category of the symbol a literal node is pushed as.
pub open spec fn literal_kind(node: ASTNode) -> SymbolKind {
    match node {
        ASTNode::Number(_) => SymbolKind::Number,
        ASTNode::String(_) => SymbolKind::String,
        ASTNode::Bool(_) => SymbolKind::Bool,
        _ => SymbolKind::Char,
    }
}

/// An expression in the literal and binary-operation subset that reads back without
/// parentheses: a literal, or an operation whose right operand is a literal.
pub open spec fn printable(e: ASTNode) -> bool
    decreases e,
{
    match e {
        ASTNode::Expr(inner) => match *inner {
            ASTNode::BinaryOperation { left, right, operation } => {
                &&& *operation is Operator
                &&& printable(*left)
                &&& *right is Expr
                &&& literal_type(*right->Expr_0) is Some
            },
            lit => literal_type(lit) is Some,
        },
        _ => false,
    }
}

/// The symbols an expression is written as, left to right: each literal and each operator.
pub open spec fn expr_symbols(e: ASTNode) -> Seq<SymbolNode>
    decreases e,
{
    match e {
        ASTNode::Expr(inner) => match *inner {
            ASTNode::BinaryOperation { left, right, operation } => expr_symbols(*left) + seq![
                SymbolNode { kind: SymbolKind::Operator, value: *operation },
            ] + expr_symbols(*right),
            lit => seq![SymbolNode { kind: literal_kind(lit), value: lit }],
        },
        _ => seq![],
    }
}

/// Pushes each symbol in turn and folds after each, as the engine does for each token.
pub open spec fn shift_all(stack: Seq<SymbolNode>, syms: Seq<SymbolNode>, line: u32) -> Result<
    Seq<SymbolNode>,
    ParseError,
>
    decreases syms.len(),
{
    if syms.len() == 0 {
        Ok(stack)
    } else {
        match cascade(stack.push(syms[0]), line) {
            Ok(s) => shift_all(s, syms.drop_first(), line),
            Err(e) => Err(e),
        }
    }
}

/// The stack does not end with an operand and an operator, which an expression pushed
/// next would combine with.
pub open spec fn open_for_expression(stack: Seq<SymbolNode>) -> bool {
    !(stack.len() >= 2 && stack.last().kind == SymbolKind::Operator && stack[stack.len()
        - 2].kind == SymbolKind::Expr)
}

proof fn lemma_shift_all_concat(
    stack: Seq<SymbolNode>,
    a: Seq<SymbolNode>,
    b: Seq<SymbolNode>,
    line: u32,
)
    ensures
        shift_all(stack, a + b, line) == match shift_all(stack, a, line) {
            Ok(s) => shift_all(s, b, line),
            Err(e) => Err(e),
        },
    decreases a.len(),
{
    if a.len() == 0 {
        assert(a + b =~= b);
    } else {
        assert((a + b).drop_first() =~= a.drop_first() + b);
        assert((a + b)[0] == a[0]);
        if let Ok(s) = cascade(stack.push(a[0]), line) {
            lemma_shift_all_concat(s, a.drop_first(), b, line);
        }
    }
}

/// With `top` pushed on a stack open for expressions, an `Expr` on top folds no further.
proof fn lemma_expr_on_top_rests(base: Seq<SymbolNode>, top: SymbolNode, line: u32)
    requires
        open_for_expression(base),
        top.kind == SymbolKind::Expr,
    ensures
        cascade(base.push(top), line) == Ok::<Seq<SymbolNode>, ParseError>(base.push(top)),
{
    let s = base.push(top);
    let cands = candidates(s);
    assert(cands == grammar_rules(SymbolKind::Expr));
    if suffix_matches(s, cands[0].1) {
        assert(s[s.len() - 3 + 1].kind == SymbolKind::Operator);
        assert(s[s.len() - 3 + 0].kind == SymbolKind::Expr);
        assert(false);
    }
    assert(first_match(s, cands, 1) is None);
    assert(reduce_step(s, line) is None);
}

/// A literal pushed on a stack folds into one `Expr` symbol that wraps it.
proof fn lemma_literal_folds(base: Seq<SymbolNode>, lit: ASTNode, line: u32)
    requires
        literal_type(lit) is Some,
    ensures
        reduce_step(base.push(SymbolNode { kind: literal_kind(lit), value: lit }), line) == Some(
            Ok::<Seq<SymbolNode>, ParseError>(
                base.push(SymbolNode { kind: SymbolKind::Expr, value: ASTNode::Expr(Box::new(lit)) }),
            ),
        ),
{
    let sym = SymbolNode { kind: literal_kind(lit), value: lit };
    let s = base.push(sym);
    let cands = candidates(s);
    assert(cands == grammar_rules(literal_kind(lit)));
    assert(cands[0].1 == seq![literal_kind(lit)]);
    assert(s[s.len() - 1 + 0].kind == literal_kind(lit));
    assert(suffix_matches(s, cands[0].1));
    assert(first_match(s, cands, 0) == Some(0int));
    assert(s.subrange(s.len() - 1, s.len() as int) =~= seq![sym]);
    assert(s.take(s.len() - 1) =~= base);
}

/// The fold sequence for an operation whose left operand has already been read back.
proof fn lemma_operation_round_trip(base: Seq<SymbolNode>, e: ASTNode, line: u32)
    requires
        printable(e),
        open_for_expression(base),
        *e->Expr_0 is BinaryOperation,
        shift_all(base, expr_symbols(*e->Expr_0->BinaryOperation_left), line) == Ok::<
            Seq<SymbolNode>,
            ParseError,
        >(
            base.push(
                SymbolNode { kind: SymbolKind::Expr, value: *e->Expr_0->BinaryOperation_left },
            ),
        ),
    ensures
        shift_all(base, expr_symbols(e), line) == Ok::<Seq<SymbolNode>, ParseError>(
            base.push(SymbolNode { kind: SymbolKind::Expr, value: e }),
        ),
{
    let inner = *e->Expr_0;
    let left = inner->BinaryOperation_left;
    let right = inner->BinaryOperation_right;
    let operation = inner->BinaryOperation_operation;
    let l = *left;
    let op = SymbolNode { kind: SymbolKind::Operator, value: *operation };
    let lit = *right->Expr_0;
    let lit_sym = SymbolNode { kind: literal_kind(lit), value: lit };
    let el = SymbolNode { kind: SymbolKind::Expr, value: l };
    assert(expr_symbols(*right) == seq![lit_sym]);
    lemma_shift_all_concat(base, expr_symbols(l), seq![op] + seq![lit_sym], line);
    assert(expr_symbols(e) == expr_symbols(l) + (seq![op] + seq![lit_sym]));
    // the operator rests on top of the left operand
    let s1 = base.push(el);
    let s2 = s1.push(op);
    assert(candidates(s2) == grammar_rules(SymbolKind::Operator));
    assert(first_match(s2, candidates(s2), 0) is None);
    assert(cascade(s2, line) == Ok::<Seq<SymbolNode>, ParseError>(s2));
    assert((seq![op] + seq![lit_sym]).drop_first() =~= seq![lit_sym]);
    assert((seq![op] + seq![lit_sym])[0] == op);
    assert(shift_all(s1, seq![op] + seq![lit_sym], line) == shift_all(
        s2,
        seq![lit_sym],
        line,
    ));
    // the literal becomes an expression
    let er = SymbolNode { kind: SymbolKind::Expr, value: *right };
    let s3 = s2.push(lit_sym);
    lemma_literal_folds(s2, lit, line);
    assert(ASTNode::Expr(Box::new(lit)) == *right);
    let s4 = s2.push(er);
    // operand, operator, operand fold into a binary operation
    let cands4 = candidates(s4);
    assert(cands4 == grammar_rules(SymbolKind::Expr));
    assert(s4[s4.len() - 3 + 0].kind == SymbolKind::Expr);
    assert(s4[s4.len() - 3 + 1].kind == SymbolKind::Operator);
    assert(s4[s4.len() - 3 + 2].kind == SymbolKind::Expr);
    assert(suffix_matches(s4, cands4[0].1));
    assert(first_match(s4, cands4, 0) == Some(0int));
    let m4 = s4.subrange(s4.len() - 3, s4.len() as int);
    assert(m4 =~= seq![el, op, er]);
    let bin = ASTNode::BinaryOperation {
        left: Box::new(l),
        right: Box::new(*right),
        operation: Box::new(*operation),
    };
    assert(bin == inner);
    let s5 = base.push(SymbolNode { kind: SymbolKind::BinaryOperation, value: bin });
    assert(s4.take(s4.len() - 3) =~= base);
    assert(reduce_step(s4, line) == Some(Ok::<Seq<SymbolNode>, ParseError>(s5)));
    // the operation becomes an expression, which rests
    let s6 = base.push(SymbolNode { kind: SymbolKind::Expr, value: e });
    let cands5 = candidates(s5);
    assert(cands5 == grammar_rules(SymbolKind::BinaryOperation));
    assert(s5[s5.len() - 1 + 0].kind == SymbolKind::BinaryOperation);
    assert(suffix_matches(s5, cands5[0].1));
    assert(first_match(s5, cands5, 0) == Some(0int));
    assert(s5.subrange(s5.len() - 1, s5.len() as int) =~= seq![
        SymbolNode { kind: SymbolKind::BinaryOperation, value: bin },
    ]);
    assert(s5.take(s5.len() - 1) =~= base);
    assert(ASTNode::Expr(Box::new(bin)) == e);
    assert(reduce_step(s5, line) == Some(Ok::<Seq<SymbolNode>, ParseError>(s6)));
    lemma_expr_on_top_rests(base, SymbolNode { kind: SymbolKind::Expr, value: e }, line);
    assert(cascade(s6, line) == Ok::<Seq<SymbolNode>, ParseError>(s6));
    assert(cascade(s5, line) == Ok::<Seq<SymbolNode>, ParseError>(s6));
    assert(cascade(s4, line) == Ok::<Seq<SymbolNode>, ParseError>(s6));
    assert(reduce_step(s3, line) == Some(Ok::<Seq<SymbolNode>, ParseError>(s4)));
    assert(cascade(s3, line) == Ok::<Seq<SymbolNode>, ParseError>(s6));
    assert(seq![lit_sym].drop_first() =~= Seq::<SymbolNode>::empty());
    assert(seq![lit_sym][0] == lit_sym);
    assert(shift_all(s6, Seq::<SymbolNode>::empty(), line) == Ok::<
        Seq<SymbolNode>,
        ParseError,
    >(s6));
    assert(shift_all(s2, seq![lit_sym], line) == Ok::<Seq<SymbolNode>, ParseError>(s6));
}

/// Writing an expression of the printable subset as its symbols and reading them back
/// onto any stack open for expressions yields exactly one new `Expr` symbol holding an
/// equal tree.
pub proof fn lemma_expression_round_trip(base: Seq<SymbolNode>, e: ASTNode, line: u32)
    requires
        printable(e),
        open_for_expression(base),
    ensures
        shift_all(base, expr_symbols(e), line) == Ok::<Seq<SymbolNode>, ParseError>(
            base.push(SymbolNode { kind: SymbolKind::Expr, value: e }),
        ),
    decreases e,
{
    let inner = *e->Expr_0;
    match inner {
        ASTNode::BinaryOperation { left, right, operation } => {
            lemma_expression_round_trip(base, *left, line);
            lemma_operation_round_trip(base, e, line);
        },
        _ => {
            let lit_sym = SymbolNode { kind: literal_kind(inner), value: inner };
            assert(expr_symbols(e) == seq![lit_sym]);
            lemma_literal_folds(base, inner, line);
            assert(ASTNode::Expr(Box::new(inner)) == e);
            let top = SymbolNode { kind: SymbolKind::Expr, value: e };
            lemma_expr_on_top_rests(base, top, line);
            assert(seq![lit_sym].drop_first() =~= Seq::<SymbolNode>::empty());
            assert(seq![lit_sym][0] == lit_sym);
            assert(cascade(base.push(lit_sym), line) == Ok::<Seq<SymbolNode>, ParseError>(
                base.push(top),
            ));
            assert(shift_all(base.push(top), Seq::<SymbolNode>::empty(), line) == Ok::<
                Seq<SymbolNode>,
                ParseError,
            >(base.push(top)));
        },
    }
}

} // verus!
