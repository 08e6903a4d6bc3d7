pub mod process_table;

use vstd::prelude::*;

use crate::error::AlthreadResult;
use crate::parse::ParseNode;

verus! {

/// A value of the language at run time.
#[derive(Debug)]
pub enum PrimaryExpr {
    Null,
    Bool(bool),
    Int(i64),
    Str(String),
}

impl PrimaryExpr {
    /// A copy of the value.
    pub fn copy_of(&self) -> (r: PrimaryExpr)
        ensures
            r == *self,
    {
        match self {
            PrimaryExpr::Null => PrimaryExpr::Null,
            PrimaryExpr::Bool(b) => PrimaryExpr::Bool(*b),
            PrimaryExpr::Int(i) => PrimaryExpr::Int(*i),
            PrimaryExpr::Str(s) => PrimaryExpr::Str(s.clone()),
        }
    }
}

/// A variable: its name, whether it can be assigned, and its value.
#[derive(Debug)]
pub struct Symbol {
    pub name: String,
    pub mutable: bool,
    pub value: PrimaryExpr,
}

impl Symbol {
    /// A copy of the variable.
    pub fn copy_of(&self) -> (r: Symbol)
        ensures
            r == *self,
    {
        Symbol { name: self.name.clone(), mutable: self.mutable, value: self.value.copy_of() }
    }
}

/// The variables of one scope, in the order of their declaration.
#[derive(Debug)]
pub struct SymbolTable {
    pub symbols: Vec<Symbol>,
}

impl SymbolTable {
    /// An empty scope.
    pub fn new() -> (t: SymbolTable)
        ensures
            t.symbols@.len() == 0,
    {
        SymbolTable { symbols: Vec::new() }
    }

    /// A copy of the scope.
    pub fn copy_of(&self) -> (r: SymbolTable)
        ensures
            r.symbols@ == self.symbols@,
    {
        let mut symbols: Vec<Symbol> = Vec::new();
        let mut i: usize = 0;
        while i < self.symbols.len()
            invariant
                i <= self.symbols@.len(),
                symbols@ == self.symbols@.take(i as int),
            decreases self.symbols@.len() - i,
        {
            symbols.push(self.symbols[i].copy_of());
            proof {
                assert(self.symbols@.take(i + 1) =~= self.symbols@.take(i as int).push(
                    self.symbols@[i as int],
                ));
            }
            i = i + 1;
        }
        assert(self.symbols@.take(self.symbols@.len() as int) =~= self.symbols@);
        SymbolTable { symbols }
    }
}

/// The scopes of a running program, innermost last.
#[derive(Debug)]
pub struct SymbolTableStack {
    pub tables: Vec<SymbolTable>,
}

impl SymbolTableStack {
    /// The scopes of a program that starts: the global scope alone.
    pub fn new(global_table: &SymbolTable) -> (s: SymbolTableStack)
        ensures
            s.tables@.len() == 1,
            s.tables@[0].symbols@ == global_table.symbols@,
    {
        let mut tables: Vec<SymbolTable> = Vec::new();
        tables.push(global_table.copy_of());
        SymbolTableStack { tables }
    }
}

/// The names of the programs that a source defines.
#[derive(Debug)]
pub struct ProcessTable {
    pub processes: Vec<String>,
}

/// The environment in which programs are started: the programs that can be
/// run and the global scope.
#[derive(Debug)]
pub struct Env {
    pub process_table: ProcessTable,
    pub global_table: SymbolTable,
}

/// The services that checking and running the statements of a program draw
/// on: its scopes, and the checkers and evaluators of expressions, calls,
/// declarations, assignments and blocks. Each service is described by a
/// spec function of the implementing type: what it answers and the
/// environment it leaves behind are a function of the environment it starts
/// from and of the statement it is handed. The checkers leave the number of
/// open scopes as it was; opening a scope adds one and closing one takes one
/// away. Each implementation defines the spec functions for itself.
pub trait Environment: Sized {
    /// The number of open scopes.
    spec fn scope_count(&self) -> nat;

    /// The environment after a new scope is opened.
    spec fn after_push(&self) -> Self;

    /// The environment after the innermost scope is closed.
    spec fn after_pop(&self) -> Self;

    /// The answer of the expression checker on `pair`, and the environment it leaves.
    spec fn expr_check(&self, pair: ParseNode) -> (AlthreadResult<()>, Self);

    /// The answer of the call checker on `pair`, and the environment it leaves.
    spec fn call_check(&self, pair: ParseNode) -> (AlthreadResult<()>, Self);

    /// The answer of the declaration checker on `pair`, and the environment it leaves.
    spec fn decl_check(&self, pair: ParseNode) -> (AlthreadResult<()>, Self);

    /// The answer of the assignment checker on `pair`, and the environment it leaves.
    spec fn assign_check(&self, pair: ParseNode) -> (AlthreadResult<()>, Self);

    /// The value of the expression `expr`, and the environment its evaluation leaves.
    spec fn expr_value(&self, expr: ParseNode) -> (AlthreadResult<PrimaryExpr>, Self);

    /// The outcome of running `block`, and the environment the run leaves.
    spec fn block_run(&self, block: ParseNode) -> (AlthreadResult<()>, Self);

    /// Opens a new scope.
    fn push_table(&mut self)
        ensures
            *final(self) == old(self).after_push(),
            final(self).scope_count() == old(self).scope_count() + 1,
    ;

    /// Closes the innermost scope.
    fn pop_table(&mut self)
        requires
            old(self).scope_count() > 0,
        ensures
            *final(self) == old(self).after_pop(),
            final(self).scope_count() + 1 == old(self).scope_count(),
    ;

    /// Checks an expression statement.
    fn check_expr(&mut self, pair: &ParseNode) -> (r: AlthreadResult<()>)
        ensures
            (r, *final(self)) == old(self).expr_check(*pair),
            final(self).scope_count() == old(self).scope_count(),
    ;

    /// Checks a call (a `print` statement).
    fn check_call(&mut self, pair: &ParseNode) -> (r: AlthreadResult<()>)
        ensures
            (r, *final(self)) == old(self).call_check(*pair),
            final(self).scope_count() == old(self).scope_count(),
    ;

    /// Checks a declaration.
    fn check_decl(&mut self, pair: &ParseNode) -> (r: AlthreadResult<()>)
        ensures
            (r, *final(self)) == old(self).decl_check(*pair),
            final(self).scope_count() == old(self).scope_count(),
    ;

    /// Checks an assignment.
    fn check_assign(&mut self, pair: &ParseNode) -> (r: AlthreadResult<()>)
        ensures
            (r, *final(self)) == old(self).assign_check(*pair),
            final(self).scope_count() == old(self).scope_count(),
    ;

    /// Evaluates an expression to a value.
    fn eval_expr(&mut self, expr: &ParseNode) -> (r: AlthreadResult<PrimaryExpr>)
        ensures
            (r, *final(self)) == old(self).expr_value(*expr),
    ;

    /// Runs a block.
    fn eval_block(&mut self, block: &ParseNode) -> (r: AlthreadResult<()>)
        ensures
            (r, *final(self)) == old(self).block_run(*block),
    ;
}

} // verus!
