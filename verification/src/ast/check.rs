use vstd::prelude::*;

use crate::ast::Ast;
use crate::env::Environment;
use crate::error::{unit_result_view, AlthreadResult, ErrorType, Pos};
use crate::parse::{no_rule, no_rule_view, ParseNode, Rule};

verus! {

/// The checkers that a statement goes to.
#[derive(Clone, Copy, Debug, PartialEq, Eq, Structural)]
pub enum CheckKind {
    Expr,
    Call,
    Decl,
    Assign,
}

/// The statements that cannot be checked yet.
pub open spec fn check_unimplemented(r: Rule) -> bool {
    r == Rule::run_stmt || r == Rule::if_stmt || r == Rule::while_stmt || r == Rule::scope
}

/// The checker that a statement of rule `r` goes to, if any.
pub open spec fn check_kind(r: Rule) -> Option<CheckKind> {
    match r {
        Rule::expr => Some(CheckKind::Expr),
        Rule::print_stmt => Some(CheckKind::Call),
        Rule::decl => Some(CheckKind::Decl),
        Rule::assignment => Some(CheckKind::Assign),
        _ => None,
    }
}

/// The checker that a statement goes to: expressions, calls (`print`),
/// declarations and assignments have one; any other statement is a syntax
/// error for its rule.
pub fn check_rule(pair: &ParseNode) -> (r: AlthreadResult<CheckKind>)
    requires
        !check_unimplemented(pair.rule),
    ensures
        r is Ok <==> check_kind(pair.rule) is Some,
        r matches Ok(k) ==> check_kind(pair.rule) == Some(k),
        r matches Err(e) ==> e@ == no_rule_view(pair),
{
    match pair.rule {
        Rule::expr => Ok(CheckKind::Expr),
        Rule::print_stmt => Ok(CheckKind::Call),
        Rule::decl => Ok(CheckKind::Decl),
        Rule::assignment => Ok(CheckKind::Assign),
        _ => Err(no_rule(pair)),
    }
}

/// No statement of the list is one that cannot be checked yet.
pub open spec fn checkable(pairs: Seq<ParseNode>) -> bool {
    forall|i: int| 0 <= i < pairs.len() ==> !check_unimplemented(#[trigger] pairs[i].rule)
}

/// What checking one statement gives, starting from `env`: the answer of the
/// statement's checker (its error taken by its view) and the environment the
/// checker leaves, or, for a statement without a checker, the syntax error
/// for its rule with `env` untouched.
pub open spec fn check_one<E: Environment>(env: E, pair: ParseNode) -> (
    Result<(), (Pos, ErrorType, Seq<char>)>,
    E,
) {
    match check_kind(pair.rule) {
        Some(CheckKind::Expr) => (unit_result_view(env.expr_check(pair).0), env.expr_check(pair).1),
        Some(CheckKind::Call) => (unit_result_view(env.call_check(pair).0), env.call_check(pair).1),
        Some(CheckKind::Decl) => (unit_result_view(env.decl_check(pair).0), env.decl_check(pair).1),
        Some(CheckKind::Assign) => (
            unit_result_view(env.assign_check(pair).0),
            env.assign_check(pair).1,
        ),
        None => (Err(no_rule_view(&pair)), env),
    }
}

/// What checking a list of statements in order gives, starting from `env`:
/// each statement is checked in the environment that the ones before it
/// left; the first error ends the check and is the answer, with the
/// environment as its checker left it; a list that passes whole answers
/// `Ok`.
pub open spec fn check_from<E: Environment>(pairs: Seq<ParseNode>, env: E) -> (
    Result<(), (Pos, ErrorType, Seq<char>)>,
    E,
)
    decreases pairs.len(),
{
    if pairs.len() == 0 {
        (Ok(()), env)
    } else {
        let (r, next) = check_one(env, pairs[0]);
        match r {
            Ok(()) => check_from(pairs.drop_first(), next),
            Err(e) => (Err(e), next),
        }
    }
}

/// What checking the programs of a tree in order gives, starting from
/// `env`: each program's statements are checked in a scope opened for it,
/// which is closed when they pass; the first error ends the check and is the
/// answer, with the failing program's scope left open.
pub open spec fn check_programs<E: Environment>(bricks: Seq<(String, Vec<ParseNode>)>, env: E) -> (
    Result<(), (Pos, ErrorType, Seq<char>)>,
    E,
)
    decreases bricks.len(),
{
    if bricks.len() == 0 {
        (Ok(()), env)
    } else {
        let (r, next) = check_from(bricks[0].1@, env.after_push());
        match r {
            Ok(()) => check_programs(bricks.drop_first(), next.after_pop()),
            Err(e) => (Err(e), next),
        }
    }
}

/// Checking a list answers what the checker of its first statement
/// answers when that fails, with the environment the checker left, and no
/// later statement is checked; when it passes, the check goes on with the
/// rest of the list in the environment the checker left. An expression goes
/// to the expression checker, a `print` to the call checker, a declaration
/// to the declaration checker and an assignment to the assignment checker.
pub proof fn lemma_first_checker_decides<E: Environment>(pairs: Seq<ParseNode>, env: E)
    requires
        pairs.len() > 0,
    ensures
        ({
            let p = pairs[0];
            let answer = if p.rule == Rule::expr {
                env.expr_check(p)
            } else if p.rule == Rule::print_stmt {
                env.call_check(p)
            } else if p.rule == Rule::decl {
                env.decl_check(p)
            } else {
                env.assign_check(p)
            };
            (p.rule == Rule::expr || p.rule == Rule::print_stmt || p.rule == Rule::decl || p.rule
                == Rule::assignment) ==> match answer.0 {
                Err(e) => check_from(pairs, env) == (
                    Err::<(), (Pos, ErrorType, Seq<char>)>(e@),
                    answer.1,
                ),
                Ok(()) => check_from(pairs, env) == check_from(pairs.drop_first(), answer.1),
            }
        }),
{
}

/// Checks the statements of a list in order, each with its checker, each in
/// the environment that the ones before it left; the first error ends the
/// check. What the answer and the environment left behind are is
/// `check_from`; in particular an empty list passes, a list with a statement
/// that has no checker fails, and the number of open scopes does not change.
pub fn check_pairs<E: Environment>(pairs: &Vec<ParseNode>, env: &mut E) -> (r: AlthreadResult<()>)
    requires
        checkable(pairs@),
    ensures
        (unit_result_view(r), *final(env)) == check_from(pairs@, *old(env)),
        final(env).scope_count() == old(env).scope_count(),
        r is Ok ==> forall|i: int| 0 <= i < pairs@.len() ==> #[trigger] check_kind(pairs@[i].rule) is Some,
        (exists|i: int| 0 <= i < pairs@.len() && #[trigger] check_kind(pairs@[i].rule) is None) ==> r is Err,
        pairs@.len() == 0 ==> r is Ok,
        pairs@.len() > 0 && check_kind(pairs@[0].rule) is None ==> (r matches Err(e) && e@
            == no_rule_view(&pairs@[0])),
{
    let mut i: usize = 0;
    assert(pairs@.skip(0) =~= pairs@);
    while i < pairs.len()
        invariant
            checkable(pairs@),
            i <= pairs@.len(),
            forall|k: int| 0 <= k < i ==> #[trigger] check_kind(pairs@[k].rule) is Some,
            check_from(pairs@.skip(i as int), *env) == check_from(pairs@, *old(env)),
            env.scope_count() == old(env).scope_count(),
        decreases pairs@.len() - i,
    {
        let pair = &pairs[i];
        proof {
            assert(pairs@.skip(i as int)[0] == pairs@[i as int]);
            assert(pairs@.skip(i as int).drop_first() =~= pairs@.skip(i + 1));
        }
        let kind = match check_rule(pair) {
            Ok(k) => k,
            Err(e) => {
                return Err(e);
            },
        };
        let answer = match kind {
            CheckKind::Expr => env.check_expr(pair),
            CheckKind::Call => env.check_call(pair),
            CheckKind::Decl => env.check_decl(pair),
            CheckKind::Assign => env.check_assign(pair),
        };
        match answer {
            Ok(()) => {},
            Err(e) => {
                return Err(e);
            },
        }
        i = i + 1;
    }
    proof {
        assert(pairs@.skip(i as int) =~= Seq::<ParseNode>::empty());
    }
    Ok(())
}

/// No program of the tree has a statement that cannot be checked yet.
pub open spec fn ast_checkable(ast: &Ast) -> bool {
    forall|i: int| 0 <= i < ast.process_bricks@.len() ==> checkable(#[trigger] ast.process_bricks@[i].1@)
}

/// The programs before the `k`-th have no statement.
pub open spec fn programs_empty_before(ast: &Ast, k: int) -> bool {
    forall|i: int| 0 <= i < k ==> #[trigger] ast.process_bricks@[i].1@.len() == 0
}

/// The first statement of the tree is in the `k`-th program and has no
/// checker.
pub open spec fn first_statement_unchecked(ast: &Ast, k: int) -> bool {
    &&& 0 <= k < ast.process_bricks@.len()
    &&& programs_empty_before(ast, k)
    &&& ast.process_bricks@[k].1@.len() > 0
    &&& check_kind(ast.process_bricks@[k].1@[0].rule) is None
}

impl Ast {
    /// Checks the statements of each program, each program in a scope of its
    /// own that is opened before its statements and closed once they pass;
    /// the first error ends the check and leaves the failing program's scope
    /// open. What the answer and the environment left behind are is
    /// `check_programs`; in particular a tree without statements passes, and
    /// a tree whose first statement has no checker fails with the syntax
    /// error for its rule before any checker runs.
    pub fn check<E: Environment>(&self, env: &mut E) -> (r: AlthreadResult<()>)
        requires
            ast_checkable(self),
        ensures
            (unit_result_view(r), *final(env)) == check_programs(self.process_bricks@, *old(env)),
            r is Ok ==> final(env).scope_count() == old(env).scope_count(),
            r is Err ==> final(env).scope_count() == old(env).scope_count() + 1,
            r is Ok ==> forall|i: int, j: int|
                0 <= i < self.process_bricks@.len() && 0 <= j < self.process_bricks@[i].1@.len()
                    ==> #[trigger] check_kind(self.process_bricks@[i].1@[j].rule) is Some,
            programs_empty_before(self, self.process_bricks@.len() as int) ==> r is Ok,
            forall|k: int| #[trigger]
                first_statement_unchecked(self, k) ==> (r matches Err(e) && e@ == no_rule_view(
                    &self.process_bricks@[k].1@[0],
                )),
    {
        let mut i: usize = 0;
        assert(self.process_bricks@.skip(0) =~= self.process_bricks@);
        while i < self.process_bricks.len()
            invariant
                ast_checkable(self),
                i <= self.process_bricks@.len(),
                forall|a: int, j: int|
                    0 <= a < i && 0 <= j < self.process_bricks@[a].1@.len()
                        ==> #[trigger] check_kind(self.process_bricks@[a].1@[j].rule) is Some,
                forall|k: int| 0 <= k < i ==> !#[trigger] first_statement_unchecked(self, k),
                check_programs(self.process_bricks@.skip(i as int), *env) == check_programs(
                    self.process_bricks@,
                    *old(env),
                ),
                env.scope_count() == old(env).scope_count(),
            decreases self.process_bricks@.len() - i,
        {
            let pairs = &self.process_bricks[i].1;
            proof {
                assert(self.process_bricks@.skip(i as int)[0] == self.process_bricks@[i as int]);
                assert(self.process_bricks@.skip(i as int).drop_first() =~= self.process_bricks@.skip(
                    i + 1,
                ));
                assert(checkable(self.process_bricks@[i as int].1@));
            }
            env.push_table();
            match check_pairs(pairs, env) {
                Ok(()) => {},
                Err(e) => {
                    proof {
                        assert forall|k: int| #[trigger]
                            first_statement_unchecked(self, k) implies e@ == no_rule_view(
                            &self.process_bricks@[k].1@[0],
                        ) by {
                            if k > i {
                                assert(self.process_bricks@[i as int].1@.len() == 0);
                            }
                        }
                    }
                    return Err(e);
                },
            }
            env.pop_table();
            i = i + 1;
        }
        proof {
            assert(self.process_bricks@.skip(i as int) =~= Seq::<(String, Vec<ParseNode>)>::empty());
        }
        Ok(())
    }
}

} // verus!
