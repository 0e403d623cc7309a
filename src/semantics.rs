use vstd::prelude::*;
use crate::ast::{ASTNode, SymbolNode, literal_type};
use crate::types::{Type, str_is};

verus! {

/// A fatal condition met by the semantic analyzer.
#[derive(Debug, PartialEq, Eq, Copy, Clone, Structural)]
pub enum SemanticError {
    /// The name is already bound in an active scope.
    AlreadyDeclared,
    /// The assigned name is bound in no active scope.
    NotDeclared,
    /// The value's type differs from the name's declared type, or cannot be inferred.
    TypeMismatch,
    /// The node naming the variable is not an identifier.
    InvalidName,
    /// A top-level node that is not a declaration or an assignment.
    UnsupportedStatement,
}

/// The latest binding of `name` among `entries`.
pub open spec fn binding_of(entries: Seq<(String, Type)>, name: Seq<char>) -> Option<Type>
    decreases entries.len(),
{
    if entries.len() == 0 {
        None
    } else if entries.last().0@ == name {
        Some(entries.last().1)
    } else {
        binding_of(entries.drop_last(), name)
    }
}

/// The type bound to `name` in the innermost scope that binds it.
pub open spec fn find_in(scopes: Seq<Map<Seq<char>, Type>>, name: Seq<char>) -> Option<Type>
    decreases scopes.len(),
{
    if scopes.len() == 0 {
        None
    } else if scopes.last().contains_key(name) {
        Some(scopes.last()[name])
    } else {
        find_in(scopes.drop_last(), name)
    }
}

/// Binds `name` to `t` in the innermost scope.
pub open spec fn declare(scopes: Seq<Map<Seq<char>, Type>>, name: Seq<char>, t: Type) -> Seq<
    Map<Seq<char>, Type>,
> {
    scopes.update(scopes.len() - 1, scopes.last().insert(name, t))
}

/// Every literal leaf of the expression `node` has type `t`; expression wrappers and binary
/// operations are looked through.
pub open spec fn has_type(node: ASTNode, t: Type) -> bool
    decreases node,
{
    match node {
        ASTNode::Expr(inner) => has_type(*inner, t),
        ASTNode::BinaryOperation { left, right, operation: _ } => has_type(*left, t) && has_type(
            *right,
            t,
        ),
        _ => literal_type(node) == Some(t),
    }
}

/// The scopes after declaring the variable named by `name` with type `t`.
pub open spec fn declaration_outcome(
    scopes: Seq<Map<Seq<char>, Type>>,
    name: ASTNode,
    t: Type,
) -> Result<Seq<Map<Seq<char>, Type>>, SemanticError> {
    match name {
        ASTNode::Identifier(s) => if find_in(scopes, s@).is_some() {
            Err(SemanticError::AlreadyDeclared)
        } else {
            Ok(declare(scopes, s@, t))
        },
        _ => Err(SemanticError::InvalidName),
    }
}

/// Whether assigning `value` to the variable named by `name` is accepted.
pub open spec fn assignment_outcome(
    scopes: Seq<Map<Seq<char>, Type>>,
    name: ASTNode,
    value: ASTNode,
) -> Result<(), SemanticError> {
    match name {
        ASTNode::Identifier(s) => match find_in(scopes, s@) {
            None => Err(SemanticError::NotDeclared),
            Some(t) => if has_type(value, t) {
                Ok(())
            } else {
                Err(SemanticError::TypeMismatch)
            },
        },
        _ => Err(SemanticError::InvalidName),
    }
}

/// The scopes after checking one top-level statement.
pub open spec fn statement_outcome(scopes: Seq<Map<Seq<char>, Type>>, node: ASTNode) -> Result<
    Seq<Map<Seq<char>, Type>>,
    SemanticError,
> {
    match node {
        ASTNode::Declaration { typ, name } => declaration_outcome(scopes, *name, typ),
        ASTNode::Assign { name, value } => match assignment_outcome(scopes, *name, *value) {
            Ok(()) => Ok(scopes),
            Err(e) => Err(e),
        },
        ASTNode::DeclarationAssignment { typ, name, value } => match declaration_outcome(
            scopes,
            *name,
            typ,
        ) {
            Ok(s) => match assignment_outcome(s, *name, *value) {
                Ok(()) => Ok(s),
                Err(e) => Err(e),
            },
            Err(e) => Err(e),
        },
        _ => Err(SemanticError::UnsupportedStatement),
    }
}

/// One forward pass over the top-level statements; the first error halts it.
pub open spec fn analysis(scopes: Seq<Map<Seq<char>, Type>>, stmts: Seq<SymbolNode>) -> Result<
    Seq<Map<Seq<char>, Type>>,
    SemanticError,
>
    decreases stmts.len(),
{
    if stmts.len() == 0 {
        Ok(scopes)
    } else {
        match statement_outcome(scopes, stmts[0].value) {
            Ok(s) => analysis(s, stmts.drop_first()),
            Err(e) => Err(e),
        }
    }
}

proof fn lemma_found_when_bound(scopes: Seq<Map<Seq<char>, Type>>, i: int, name: Seq<char>)
    requires
        0 <= i < scopes.len(),
        scopes[i].contains_key(name),
    ensures
        find_in(scopes, name) is Some,
    decreases scopes.len(),
{
    if !scopes.last().contains_key(name) {
        lemma_found_when_bound(scopes.drop_last(), i, name);
    }
}

/// A name bound in any active scope cannot be declared again, with or without an
/// initializer, whichever scope binds it: redeclaration is refused, not only in one scope.
pub proof fn lemma_redeclaration_rejected(
    scopes: Seq<Map<Seq<char>, Type>>,
    i: int,
    name: String,
    t: Type,
    value: ASTNode,
)
    requires
        0 <= i < scopes.len(),
        scopes[i].contains_key(name@),
    ensures
        statement_outcome(
            scopes,
            ASTNode::Declaration { typ: t, name: Box::new(ASTNode::Identifier(name)) },
        ) == Err::<Seq<Map<Seq<char>, Type>>, SemanticError>(SemanticError::AlreadyDeclared),
        statement_outcome(
            scopes,
            ASTNode::DeclarationAssignment {
                typ: t,
                name: Box::new(ASTNode::Identifier(name)),
                value: Box::new(value),
            },
        ) == Err::<Seq<Map<Seq<char>, Type>>, SemanticError>(SemanticError::AlreadyDeclared),
{
    lemma_found_when_bound(scopes, i, name@);
}

proof fn lemma_not_found_when_unbound(scopes: Seq<Map<Seq<char>, Type>>, name: Seq<char>)
    requires
        forall|i: int| 0 <= i < scopes.len() ==> !(#[trigger] scopes[i]).contains_key(name),
    ensures
        find_in(scopes, name) is None,
    decreases scopes.len(),
{
    if scopes.len() > 0 {
        assert(!scopes[scopes.len() - 1].contains_key(name));
        lemma_not_found_when_unbound(scopes.drop_last(), name);
    }
}

/// Assigning to a name that no active scope binds is refused as undeclared, whatever the
/// value.
pub proof fn lemma_undeclared_assignment_rejected(
    scopes: Seq<Map<Seq<char>, Type>>,
    name: String,
    value: ASTNode,
)
    requires
        forall|i: int| 0 <= i < scopes.len() ==> !(#[trigger] scopes[i]).contains_key(name@),
    ensures
        statement_outcome(
            scopes,
            ASTNode::Assign { name: Box::new(ASTNode::Identifier(name)), value: Box::new(value) },
        ) == Err::<Seq<Map<Seq<char>, Type>>, SemanticError>(SemanticError::NotDeclared),
{
    lemma_not_found_when_unbound(scopes, name@);
}

/// The two scopes the analysis starts from: the global one and the executing one.
pub open spec fn initial_scopes() -> Seq<Map<Seq<char>, Type>> {
    seq![Map::empty(), Map::empty()]
}

/// A set of bindings, each name bound at most once in effect (a later binding replaces).
pub struct Scope {
    variables: Vec<(String, Type)>,
}

impl View for Scope {
    type V = Map<Seq<char>, Type>;

    closed spec fn view(&self) -> Map<Seq<char>, Type> {
        Map::new(
            |k: Seq<char>| binding_of(self.variables@, k).is_some(),
            |k: Seq<char>| binding_of(self.variables@, k).unwrap(),
        )
    }
}

impl Scope {
    pub fn new() -> (r: Scope)
        ensures
            r@ == Map::<Seq<char>, Type>::empty(),
    {
        let r = Scope { variables: Vec::new() };
        assert(r@ =~= Map::<Seq<char>, Type>::empty());
        r
    }

    pub fn add_variable(&mut self, name: String, typ: Type)
        ensures
            final(self)@ == old(self)@.insert(name@, typ),
    {
        let ghost before = self.variables@;
        self.variables.push((name, typ));
        assert(self.variables@.drop_last() =~= before);
        assert(self@ =~= old(self)@.insert(name@, typ));
    }

    pub fn get_variable(&self, name: &str) -> (r: Option<&Type>)
        ensures
            r is Some <==> self@.contains_key(name@),
            r matches Some(t) ==> *t == self@[name@],
    {
        let mut i = self.variables.len();
        assert(self.variables@.take(i as int) =~= self.variables@);
        while i > 0
            invariant
                i <= self.variables@.len(),
                binding_of(self.variables@, name@) == binding_of(
                    self.variables@.take(i as int),
                    name@,
                ),
            decreases i,
        {
            let ghost prefix = self.variables@.take(i as int);
            assert(prefix.drop_last() =~= self.variables@.take(i - 1));
            if str_is(self.variables[i - 1].0.as_str(), name) {
                return Some(&self.variables[i - 1].1);
            }
            i = i - 1;
        }
        None
    }

    pub fn has_variable(&self, name: &str) -> (r: bool)
        ensures
            r == self@.contains_key(name@),
    {
        self.get_variable(name).is_some()
    }
}

/// The stack of active scopes, innermost last.
pub struct VariablesTable {
    scopes: Vec<Scope>,
}

impl View for VariablesTable {
    type V = Seq<Map<Seq<char>, Type>>;

    closed spec fn view(&self) -> Seq<Map<Seq<char>, Type>> {
        self.scopes@.map_values(|s: Scope| s@)
    }
}

impl VariablesTable {
    pub fn new() -> (r: VariablesTable)
        ensures
            r@ == initial_scopes(),
    {
        let r = VariablesTable { scopes: vec![Scope::new(), Scope::new()] };
        assert(r@ =~= initial_scopes());
        r
    }

    /// Opens a new innermost scope.
    pub fn add_scope(&mut self)
        ensures
            final(self)@ == old(self)@.push(Map::empty()),
    {
        self.scopes.push(Scope::new());
        assert(self@ =~= old(self)@.push(Map::empty()));
    }

    /// Closes the innermost scope; the global and the executing scope always stay.
    pub fn remove_scope(&mut self)
        ensures
            old(self)@.len() > 2 ==> final(self)@ == old(self)@.drop_last(),
            old(self)@.len() <= 2 ==> final(self)@ == old(self)@,
    {
        if self.scopes.len() > 2 {
            self.scopes.pop();
            assert(self@ =~= old(self)@.drop_last());
        }
    }

    pub fn find_variable(&self, name: &str) -> (r: Option<&Type>)
        ensures
            r is Some <==> find_in(self@, name@) is Some,
            r matches Some(t) ==> find_in(self@, name@) == Some(*t),
    {
        let mut i = self.scopes.len();
        assert(self@.take(i as int) =~= self@);
        while i > 0
            invariant
                i <= self.scopes@.len(),
                find_in(self@, name@) == find_in(self@.take(i as int), name@),
            decreases i,
        {
            let ghost prefix = self@.take(i as int);
            assert(prefix.drop_last() =~= self@.take(i - 1));
            assert(prefix.last() == self.scopes@[i - 1]@);
            let found = self.scopes[i - 1].get_variable(name);
            if found.is_some() {
                return found;
            }
            i = i - 1;
        }
        assert(self@.take(0) =~= Seq::<Map<Seq<char>, Type>>::empty());
        None
    }

    /// Binds `name` in the innermost scope.
    pub fn add_variable(&mut self, name: String, typ: Type)
        requires
            old(self)@.len() > 0,
        ensures
            final(self)@ == declare(old(self)@, name@, typ),
    {
        let mut scope = self.scopes.pop().unwrap();
        scope.add_variable(name, typ);
        self.scopes.push(scope);
        assert(self@ =~= declare(old(self)@, name@, typ));
    }

    /// Binds `name` in the outermost (global) scope.
    pub fn add_global_variable(&mut self, name: String, typ: Type)
        requires
            old(self)@.len() > 0,
        ensures
            final(self)@ == old(self)@.update(0, old(self)@[0].insert(name@, typ)),
    {
        let mut scope = self.scopes.remove(0);
        scope.add_variable(name, typ);
        self.scopes.insert(0, scope);
        assert(self@ =~= old(self)@.update(0, old(self)@[0].insert(name@, typ)));
    }
}

/// The semantic analyzer: one forward pass over the top-level statements with a table of
/// active scopes.
pub struct Semantics<'a> {
    variables_table: VariablesTable,
    symbols: &'a [SymbolNode],
}

impl<'a> Semantics<'a> {
    /// The active scopes.
    pub closed spec fn scopes(&self) -> Seq<Map<Seq<char>, Type>> {
        self.variables_table@
    }

    /// The statements under analysis.
    pub closed spec fn statements(&self) -> Seq<SymbolNode> {
        self.symbols@
    }

    pub fn new(symbols: &'a [SymbolNode]) -> (r: Semantics<'a>)
        ensures
            r.scopes() == initial_scopes(),
            r.statements() == symbols@,
    {
        Semantics { variables_table: VariablesTable::new(), symbols }
    }

    /// Checks every statement in order; the first failure is returned. On success the
    /// scopes hold each declared name with its type.
    pub fn validate_semantics(&mut self) -> (r: Result<(), SemanticError>)
        requires
            old(self).scopes().len() > 0,
        ensures
            final(self).statements() == old(self).statements(),
            match analysis(old(self).scopes(), old(self).statements()) {
                Ok(s) => r is Ok && final(self).scopes() == s,
                Err(e) => r == Err::<(), SemanticError>(e),
            },
    {
        let symbols = self.symbols;
        let ghost start = self.variables_table@;
        let mut i: usize = 0;
        assert(symbols@.subrange(0, symbols@.len() as int) =~= symbols@);
        while i < symbols.len()
            invariant
                symbols@ == old(self).symbols@,
                self.symbols@ == symbols@,
                start == old(self).variables_table@,
                i <= symbols@.len(),
                self.variables_table@.len() == start.len(),
                start.len() > 0,
                analysis(start, symbols@) == analysis(
                    self.variables_table@,
                    symbols@.subrange(i as int, symbols@.len() as int),
                ),
            decreases symbols@.len() - i,
        {
            let ghost rest = symbols@.subrange(i as int, symbols@.len() as int);
            assert(rest.drop_first() =~= symbols@.subrange(i + 1, symbols@.len() as int));
            let r = match &symbols[i].value {
                ASTNode::Declaration { typ, name } => self.declaration(typ, name),
                ASTNode::Assign { name, value } => self.assignment(name, value),
                ASTNode::DeclarationAssignment { typ, name, value } => self.declaration_assignment(
                    typ,
                    name,
                    value,
                ),
                _ => Err(SemanticError::UnsupportedStatement),
            };
            if let Err(e) = r {
                return Err(e);
            }
            i = i + 1;
        }
        Ok(())
    }

    pub fn declaration(&mut self, typ: &Type, name_ast: &ASTNode) -> (r: Result<(), SemanticError>)
        requires
            old(self).scopes().len() > 0,
        ensures
            final(self).statements() == old(self).statements(),
            final(self).scopes().len() == old(self).scopes().len(),
            match declaration_outcome(old(self).scopes(), *name_ast, *typ) {
                Ok(s) => r is Ok && final(self).scopes() == s,
                Err(e) => r == Err::<(), SemanticError>(e) && (final(self).scopes() == old(self).scopes()),
            },
    {
        if let ASTNode::Identifier(name) = name_ast {
            if self.variables_table.find_variable(name.as_str()).is_some() {
                return Err(SemanticError::AlreadyDeclared);
            }
            self.variables_table.add_variable(name.clone(), *typ);
            Ok(())
        } else {
            Err(SemanticError::InvalidName)
        }
    }

    pub fn assignment(&mut self, name_ast: &ASTNode, value_ast: &ASTNode) -> (r: Result<
        (),
        SemanticError,
    >)
        ensures
            *final(self) == *old(self),
            match assignment_outcome(old(self).scopes(), *name_ast, *value_ast) {
                Ok(()) => r is Ok,
                Err(e) => r == Err::<(), SemanticError>(e),
            },
    {
        if let ASTNode::Identifier(name) = name_ast {
            match self.variables_table.find_variable(name.as_str()) {
                None => Err(SemanticError::NotDeclared),
                Some(t) => {
                    if Self::validate_expr_type(value_ast, t) {
                        Ok(())
                    } else {
                        Err(SemanticError::TypeMismatch)
                    }
                },
            }
        } else {
            Err(SemanticError::InvalidName)
        }
    }

    pub fn declaration_assignment(&mut self, typ: &Type, name_ast: &ASTNode, value_ast: &ASTNode) -> (r:
        Result<(), SemanticError>)
        requires
            old(self).scopes().len() > 0,
        ensures
            final(self).statements() == old(self).statements(),
            final(self).scopes().len() == old(self).scopes().len(),
            match statement_outcome(
                old(self).scopes(),
                ASTNode::DeclarationAssignment {
                    typ: *typ,
                    name: Box::new(*name_ast),
                    value: Box::new(*value_ast),
                },
            ) {
                Ok(s) => r is Ok && final(self).scopes() == s,
                Err(e) => r == Err::<(), SemanticError>(e),
            },
            declaration_outcome(old(self).scopes(), *name_ast, *typ) is Err ==> (final(self).scopes()
                == old(self).scopes()),
            declaration_outcome(old(self).scopes(), *name_ast, *typ) matches Ok(s1) ==> (final(self).scopes() == s1),
    {
        match self.declaration(typ, name_ast) {
            Ok(()) => {},
            Err(e) => {
                return Err(e);
            },
        }
        self.assignment(name_ast, value_ast)
    }

    /// Whether every literal leaf of the expression `head` has the expected type.
    pub fn validate_expr_type(head: &ASTNode, expected_type: &Type) -> (r: bool)
        ensures
            r == has_type(*head, *expected_type),
        decreases head,
    {
        match head {
            ASTNode::Expr(inner) => Self::validate_expr_type(inner, expected_type),
            ASTNode::BinaryOperation { left, right, operation: _ } => {
                Self::validate_expr_type(left, expected_type) && Self::validate_expr_type(
                    right,
                    expected_type,
                )
            },
            _ => match head.inferred_type() {
                Some(actual) => actual == *expected_type,
                None => false,
            },
        }
    }

    /// The declared type of `name` in the active scopes, for the code generator.
    pub fn variable_type(&self, name: &str) -> (r: Option<Type>)
        ensures
            r == find_in(self.scopes(), name@),
    {
        match self.variables_table.find_variable(name) {
            Some(t) => Some(*t),
            None => None,
        }
    }
}

} // verus!
