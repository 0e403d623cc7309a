use vstd::prelude::*;
use crate::types::SymbolKind;

verus! {

/// A production: `produced` may replace a stack suffix whose kinds are `required`.
#[derive(Debug)]
pub struct Rule {
    pub produced: SymbolKind,
    pub required: Vec<SymbolKind>,
}

impl View for Rule {
    type V = (SymbolKind, Seq<SymbolKind>);

    open spec fn view(&self) -> (SymbolKind, Seq<SymbolKind>) {
        (self.produced, self.required@)
    }
}

/// The rules filed under one kind.
#[derive(Debug)]
pub struct RuleSet {
    pub key: SymbolKind,
    pub rules: Vec<Rule>,
}

pub open spec fn rules_view(rules: Seq<Rule>) -> Seq<(SymbolKind, Seq<SymbolKind>)> {
    rules.map_values(|r: Rule| r@)
}

/// The language's productions, filed under the kind of each rule's last required symbol.
pub open spec fn grammar_rules(k: SymbolKind) -> Seq<(SymbolKind, Seq<SymbolKind>)> {
    match k {
        SymbolKind::Expr => seq![
            (
                SymbolKind::BinaryOperation,
                seq![SymbolKind::Expr, SymbolKind::Operator, SymbolKind::Expr],
            ),
        ],
        SymbolKind::Number => seq![(SymbolKind::Expr, seq![SymbolKind::Number])],
        SymbolKind::Bool => seq![(SymbolKind::Expr, seq![SymbolKind::Bool])],
        SymbolKind::String => seq![(SymbolKind::Expr, seq![SymbolKind::String])],
        SymbolKind::Char => seq![(SymbolKind::Expr, seq![SymbolKind::Char])],
        SymbolKind::BinaryOperation => seq![
            (SymbolKind::Expr, seq![SymbolKind::BinaryOperation]),
        ],
        SymbolKind::Punctuation => seq![
            (
                SymbolKind::DeclarationAssignment,
                seq![
                    SymbolKind::Identifier,
                    SymbolKind::Identifier,
                    SymbolKind::Operator,
                    SymbolKind::Expr,
                    SymbolKind::Punctuation,
                ],
            ),
            (
                SymbolKind::Declaration,
                seq![SymbolKind::Identifier, SymbolKind::Identifier, SymbolKind::Punctuation],
            ),
            (
                SymbolKind::Assign,
                seq![
                    SymbolKind::Identifier,
                    SymbolKind::Operator,
                    SymbolKind::Expr,
                    SymbolKind::Punctuation,
                ],
            ),
        ],
        _ => seq![],
    }
}

/// The rules of the first entry filed under `k`, or none.
pub open spec fn entries_lookup(entries: Seq<RuleSet>, k: SymbolKind) -> Seq<
    (SymbolKind, Seq<SymbolKind>),
>
    decreases entries.len(),
{
    if entries.len() == 0 {
        seq![]
    } else if entries[0].key == k {
        rules_view(entries[0].rules@)
    } else {
        entries_lookup(entries.drop_first(), k)
    }
}

/// Every rule is filed under the kind of its own rightmost required symbol.
pub proof fn lemma_rules_indexed_by_last_kind(k: SymbolKind, i: int)
    requires
        0 <= i < grammar_rules(k).len(),
    ensures
        grammar_rules(k)[i].1.len() > 0,
        grammar_rules(k)[i].1.last() == k,
{
}

/// The read-only table that maps a kind to the rules that may fire when it is on top.
pub struct GrammarTable {
    entries: Vec<RuleSet>,
}

impl GrammarTable {
    pub closed spec fn rules_for(&self, k: SymbolKind) -> Seq<(SymbolKind, Seq<SymbolKind>)> {
        entries_lookup(self.entries@, k)
    }

    /// Holds exactly the language's productions, each under its rightmost required kind.
    pub closed spec fn wf(&self) -> bool {
        forall|k: SymbolKind| #[trigger] self.rules_for(k) == grammar_rules(k)
    }

    fn rule(produced: SymbolKind, required: Vec<SymbolKind>) -> (r: Rule)
        ensures
            r@ == (produced, required@),
    {
        Rule { produced, required }
    }

    fn single(key: SymbolKind, produced: SymbolKind, required: Vec<SymbolKind>) -> (r: RuleSet)
        ensures
            r.key == key,
            rules_view(r.rules@) == seq![(produced, required@)],
    {
        let rules = vec![Self::rule(produced, required)];
        assert(rules_view(rules@) =~= seq![(produced, required@)]);
        RuleSet { key, rules }
    }

    pub fn new() -> (r: GrammarTable)
        ensures
            r.wf(),
    {
        let e0 = Self::single(
            SymbolKind::Expr,
            SymbolKind::BinaryOperation,
            vec![SymbolKind::Expr, SymbolKind::Operator, SymbolKind::Expr],
        );
        let e1 = Self::single(SymbolKind::Number, SymbolKind::Expr, vec![SymbolKind::Number]);
        let e2 = Self::single(SymbolKind::Bool, SymbolKind::Expr, vec![SymbolKind::Bool]);
        let e3 = Self::single(SymbolKind::String, SymbolKind::Expr, vec![SymbolKind::String]);
        let e4 = Self::single(SymbolKind::Char, SymbolKind::Expr, vec![SymbolKind::Char]);
        let e5 = Self::single(
            SymbolKind::BinaryOperation,
            SymbolKind::Expr,
            vec![SymbolKind::BinaryOperation],
        );
        assert(rules_view(e0.rules@) =~~= grammar_rules(SymbolKind::Expr));
        assert(rules_view(e1.rules@) =~~= grammar_rules(SymbolKind::Number));
        assert(rules_view(e2.rules@) =~~= grammar_rules(SymbolKind::Bool));
        assert(rules_view(e3.rules@) =~~= grammar_rules(SymbolKind::String));
        assert(rules_view(e4.rules@) =~~= grammar_rules(SymbolKind::Char));
        assert(rules_view(e5.rules@) =~~= grammar_rules(SymbolKind::BinaryOperation));
        let r0 = Self::rule(
            SymbolKind::DeclarationAssignment,
            vec![
                SymbolKind::Identifier,
                SymbolKind::Identifier,
                SymbolKind::Operator,
                SymbolKind::Expr,
                SymbolKind::Punctuation,
            ],
        );
        let r1 = Self::rule(
            SymbolKind::Declaration,
            vec![SymbolKind::Identifier, SymbolKind::Identifier, SymbolKind::Punctuation],
        );
        let r2 = Self::rule(
            SymbolKind::Assign,
            vec![
                SymbolKind::Identifier,
                SymbolKind::Operator,
                SymbolKind::Expr,
                SymbolKind::Punctuation,
            ],
        );
        let statements = vec![r0, r1, r2];
        assert(rules_view(statements@) =~~= grammar_rules(SymbolKind::Punctuation));
        let e6 = RuleSet { key: SymbolKind::Punctuation, rules: statements };
        let entries = vec![e0, e1, e2, e3, e4, e5, e6];
        let r = GrammarTable { entries };
        proof {
            let s0 = r.entries@;
            let s1 = s0.drop_first();
            let s2 = s1.drop_first();
            let s3 = s2.drop_first();
            let s4 = s3.drop_first();
            let s5 = s4.drop_first();
            let s6 = s5.drop_first();
            let s7 = s6.drop_first();
            assert(s1 =~= seq![e1, e2, e3, e4, e5, e6]);
            assert(s2 =~= seq![e2, e3, e4, e5, e6]);
            assert(s3 =~= seq![e3, e4, e5, e6]);
            assert(s4 =~= seq![e4, e5, e6]);
            assert(s5 =~= seq![e5, e6]);
            assert(s6 =~= seq![e6]);
            assert(s7 =~= Seq::<RuleSet>::empty());
            assert forall|k: SymbolKind| #[trigger] r.rules_for(k) == grammar_rules(k) by {
                assert(entries_lookup(s7, k) == Seq::<(SymbolKind, Seq<SymbolKind>)>::empty());
                assert(entries_lookup(s6, k) == if k == e6.key {
                    rules_view(e6.rules@)
                } else {
                    entries_lookup(s7, k)
                });
                assert(entries_lookup(s5, k) == if k == e5.key {
                    rules_view(e5.rules@)
                } else {
                    entries_lookup(s6, k)
                });
                assert(entries_lookup(s4, k) == if k == e4.key {
                    rules_view(e4.rules@)
                } else {
                    entries_lookup(s5, k)
                });
                assert(entries_lookup(s3, k) == if k == e3.key {
                    rules_view(e3.rules@)
                } else {
                    entries_lookup(s4, k)
                });
                assert(entries_lookup(s2, k) == if k == e2.key {
                    rules_view(e2.rules@)
                } else {
                    entries_lookup(s3, k)
                });
                assert(entries_lookup(s1, k) == if k == e1.key {
                    rules_view(e1.rules@)
                } else {
                    entries_lookup(s2, k)
                });
                assert(entries_lookup(s0, k) == if k == e0.key {
                    rules_view(e0.rules@)
                } else {
                    entries_lookup(s1, k)
                });
            }
        }
        r
    }

    /// The rules filed under `kind`; `None` when there are none.
    pub fn lookup(&self, kind: SymbolKind) -> (r: Option<&Vec<Rule>>)
        requires
            self.wf(),
        ensures
            r is None <==> grammar_rules(kind).len() == 0,
            r matches Some(v) ==> rules_view(v@) == grammar_rules(kind),
    {
        proof {
            assert(self.rules_for(kind) == grammar_rules(kind));
            assert(self.entries@.subrange(0, self.entries@.len() as int) =~= self.entries@);
        }
        let mut i: usize = 0;
        while i < self.entries.len()
            invariant
                i <= self.entries@.len(),
                grammar_rules(kind) == entries_lookup(
                    self.entries@.subrange(i as int, self.entries@.len() as int),
                    kind,
                ),
            decreases self.entries@.len() - i,
        {
            let ghost rest = self.entries@.subrange(i as int, self.entries@.len() as int);
            assert(rest.drop_first() =~= self.entries@.subrange(
                i + 1,
                self.entries@.len() as int,
            ));
            if self.entries[i].key == kind {
                let rules = &self.entries[i].rules;
                if rules.len() == 0 {
                    return None;
                }
                return Some(rules);
            }
            i = i + 1;
        }
        None
    }
}

} // verus!
