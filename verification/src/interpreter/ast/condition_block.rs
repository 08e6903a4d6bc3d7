use vstd::prelude::*;

use crate::error::{AlthreadResult, Pos};
use crate::interpreter::ast::block::{
    build_statements,
    statements_built,
    statements_error,
    statements_well_formed,
};
use crate::interpreter::ast::node::{pos_of, Node};
use crate::interpreter::ast::statement::Statement;
use crate::parse::ParseNode;

verus! {

/// The conditions of an `always` or `never` block, in order.
#[derive(Debug)]
pub struct ConditionBlock {
    pub children: Vec<Node<Statement>>,
}

/// `b` is the condition block built from the parse node `p`.
pub open spec fn condition_block_built(b: Node<ConditionBlock>, p: ParseNode) -> bool {
    &&& b.pos == pos_of(p)
    &&& statements_built(b.value.children@, p.children@)
}

impl Node<ConditionBlock> {
    /// Builds the condition block that the parse node `pair` stands for: one
    /// condition for each node inside it.
    pub fn build(pair: ParseNode) -> (r: AlthreadResult<Self>)
        requires
            statements_well_formed(pair.children@),
        ensures
            r is Err <==> statements_error(pair.children@) is Some,
            r matches Err(e) ==> statements_error(pair.children@) == Some(e@),
            r matches Ok(b) ==> condition_block_built(b, pair),
    {
        let pos = Pos { line: pair.line, col: pair.col };
        let children = build_statements(pair.children)?;
        Ok(Node { pos, value: ConditionBlock { children } })
    }
}

} // verus!
