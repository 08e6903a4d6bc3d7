use vstd::prelude::*;

use crate::env::{Environment, PrimaryExpr};
use crate::error::{error_view, AlthreadError, AlthreadResult, ErrorType};
use crate::parse::ParseNode;

verus! {

/// An `if` statement: its condition, its block, its optional `else` block,
/// and where it is written.
#[derive(Debug)]
pub struct IfStmt {
    pub condition: ParseNode,
    pub block: ParseNode,
    pub else_block: Option<ParseNode>,
    pub line: usize,
    pub column: usize,
}

/// The error for a condition whose value is no boolean.
pub open spec fn not_boolean_view(s: IfStmt) -> (crate::error::Pos, ErrorType, Seq<char>) {
    error_view(ErrorType::RuntimeError, s.line, s.column, "Condition must be a boolean"@)
}

impl IfStmt {
    /// The block that runs when the condition has the value `value`: the
    /// block when it is true, the `else` block (if any) when it is false; a
    /// value that is no boolean is a run-time error at the statement.
    pub fn branch(&self, value: &PrimaryExpr) -> (r: AlthreadResult<Option<&ParseNode>>)
        ensures
            *value == PrimaryExpr::Bool(true) ==> r == Ok::<_, AlthreadError>(Some(&self.block)),
            *value == PrimaryExpr::Bool(false) ==> (r matches Ok(b) && b == match self.else_block {
                Some(e) => Some(&e),
                None => None::<&ParseNode>,
            }),
            !(value is Bool) ==> (r matches Err(e) && e@ == not_boolean_view(*self)),
    {
        match value {
            PrimaryExpr::Bool(true) => Ok(Some(&self.block)),
            PrimaryExpr::Bool(false) => match &self.else_block {
                Some(e) => Ok(Some(e)),
                None => Ok(None),
            },
            _ => Err(
                AlthreadError::error(
                    ErrorType::RuntimeError,
                    self.line,
                    self.column,
                    String::from_str("Condition must be a boolean"),
                ),
            ),
        }
    }

    /// Runs the statement: evaluates the condition, then runs the block that
    /// `branch` picks for its value and answers what that run answers. An
    /// error of the evaluation is answered unchanged and no block runs; a
    /// value that is no boolean gives the boolean error and no block runs; a
    /// false condition without an `else` block answers `Ok` and runs nothing.
    pub fn eval<E: Environment>(&self, env: &mut E) -> (r: AlthreadResult<()>)
        ensures
            match old(env).expr_value(self.condition) {
                (Err(e), after) => r == Err::<(), AlthreadError>(e) && *final(env) == after,
                (Ok(PrimaryExpr::Bool(true)), after) => (r, *final(env)) == after.block_run(
                    self.block,
                ),
                (Ok(PrimaryExpr::Bool(false)), after) => match self.else_block {
                    Some(b) => (r, *final(env)) == after.block_run(b),
                    None => r is Ok && *final(env) == after,
                },
                (Ok(_), after) => (r matches Err(e) && e@ == not_boolean_view(*self)) && *final(env)
                    == after,
            },
    {
        let value = match env.eval_expr(&self.condition) {
            Ok(v) => v,
            Err(e) => {
                return Err(e);
            },
        };
        match self.branch(&value) {
            Ok(Some(block)) => env.eval_block(block),
            Ok(None) => Ok(()),
            Err(e) => Err(e),
        }
    }
}

} // verus!
