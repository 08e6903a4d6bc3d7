pub mod assignment;
pub mod loop_control;

use vstd::prelude::*;

use crate::error::{AlthreadResult, Pos};
use crate::interpreter::ast::node::{pos_of, Node};
use crate::parse::{ParseNode, Rule};
use assignment::{assignment_built, assignment_error, Assignment};
use loop_control::LoopControl;

verus! {

/// A statement of a block. Assignments and loops are built here; any other
/// statement is kept as the parse node it was read from.
#[derive(Debug)]
pub enum Statement {
    Assignment(Node<Assignment>),
    LoopControl(Node<LoopControl>),
    Declaration(ParseNode),
    Other(ParseNode),
}

/// The parse node of a statement has the children that building it reads.
pub open spec fn statement_well_formed(p: ParseNode) -> bool
    decreases p,
{
    match p.rule {
        Rule::assignment => p.children.len() > 0,
        Rule::loop_stmt => p.children.len() > 0 && statement_well_formed(p.children@[0]),
        _ => true,
    }
}

/// The error that building a statement from `p` gives, if any.
pub open spec fn statement_error(p: ParseNode) -> Option<(Pos, crate::error::ErrorType, Seq<char>)>
    decreases p,
{
    match p.rule {
        Rule::assignment => assignment_error(p.children@),
        Rule::loop_stmt => if p.children.len() > 0 {
            statement_error(p.children@[0])
        } else {
            None
        },
        _ => None,
    }
}

/// `n` is the statement built from `p`.
pub open spec fn statement_built(n: Node<Statement>, p: ParseNode) -> bool
    decreases p,
{
    &&& n.pos == pos_of(p)
    &&& match p.rule {
        Rule::assignment => match n.value {
            Statement::Assignment(a) => assignment_built(a, p),
            _ => false,
        },
        Rule::loop_stmt => p.children.len() > 0 && match n.value {
            Statement::LoopControl(l) => l.pos == pos_of(p) && statement_built(
                *l.value.statement,
                p.children@[0],
            ),
            _ => false,
        },
        Rule::decl => n.value == Statement::Declaration(p),
        _ => n.value == Statement::Other(p),
    }
}

impl Node<Statement> {
    /// Builds the statement that the parse node `pair` stands for.
    pub fn build(pair: ParseNode) -> (r: AlthreadResult<Self>)
        requires
            statement_well_formed(pair),
        ensures
            r is Err <==> statement_error(pair) is Some,
            r matches Err(e) ==> statement_error(pair) == Some(e@),
            r matches Ok(n) ==> statement_built(n, pair),
        decreases pair, 3nat,
    {
        let pos = Pos { line: pair.line, col: pair.col };
        if pair.rule == Rule::assignment {
            let a = Node::<Assignment>::build(pair)?;
            Ok(Node { pos, value: Statement::Assignment(a) })
        } else if pair.rule == Rule::loop_stmt {
            let l = Node::<LoopControl>::build(pair)?;
            Ok(Node { pos, value: Statement::LoopControl(l) })
        } else if pair.rule == Rule::decl {
            Ok(Node { pos, value: Statement::Declaration(pair) })
        } else {
            Ok(Node { pos, value: Statement::Other(pair) })
        }
    }
}

} // verus!
