use vstd::prelude::*;

use crate::error::{error_view, AlthreadError, AlthreadResult, ErrorType, Pos};
use crate::interpreter::ast::node::{pos_of, Node};
use crate::parse::{no_rule, no_rule_view, ParseNode, Rule};

verus! {

/// The parts of an assignment `x = e` (or `x += e`, ...), kept as the parse
/// nodes they were read from.
#[derive(Debug)]
pub struct BinaryAssignment {
    pub parts: Vec<ParseNode>,
}

/// An assignment statement.
#[derive(Debug)]
pub enum Assignment {
    Binary(Node<BinaryAssignment>),
}

/// The error that building an assignment from the nodes `ps` gives, if any.
pub open spec fn assignment_error(ps: Seq<ParseNode>) -> Option<(Pos, ErrorType, Seq<char>)> {
    if ps.len() == 0 {
        None
    } else {
        let c = ps[0];
        match c.rule {
            Rule::binary_assignment => None,
            Rule::unary_assignment => Some(
                error_view(
                    ErrorType::SyntaxError,
                    c.line,
                    c.col,
                    "Unary assignment is not supported yet"@,
                ),
            ),
            _ => Some(no_rule_view(&c)),
        }
    }
}

/// `a` is the assignment built from the parse node `p`.
pub open spec fn assignment_built(a: Node<Assignment>, p: ParseNode) -> bool {
    &&& a.pos == pos_of(p)
    &&& p.children.len() > 0
    &&& a.value == Assignment::Binary(
        Node {
            pos: pos_of(p.children@[0]),
            value: BinaryAssignment { parts: p.children@[0].children },
        },
    )
}

impl Assignment {
    /// Builds an assignment from the nodes inside an `assignment` node: a
    /// binary assignment is accepted; a unary one is a syntax error at its
    /// place, and any other node a syntax error for its rule.
    pub fn build(pairs: Vec<ParseNode>) -> (r: AlthreadResult<Self>)
        requires
            pairs.len() > 0,
        ensures
            r is Err <==> assignment_error(pairs@) is Some,
            r matches Err(e) ==> assignment_error(pairs@) == Some(e@),
            r matches Ok(a) ==> a == Assignment::Binary(
                Node {
                    pos: pos_of(pairs@[0]),
                    value: BinaryAssignment { parts: pairs@[0].children },
                },
            ),
    {
        let mut pairs = pairs;
        let pair = pairs.remove(0);
        if pair.rule == Rule::binary_assignment {
            let pos = Pos { line: pair.line, col: pair.col };
            Ok(Assignment::Binary(Node { pos, value: BinaryAssignment { parts: pair.children } }))
        } else if pair.rule == Rule::unary_assignment {
            Err(
                AlthreadError::error(
                    ErrorType::SyntaxError,
                    pair.line,
                    pair.col,
                    String::from_str("Unary assignment is not supported yet"),
                ),
            )
        } else {
            Err(no_rule(&pair))
        }
    }
}

impl Node<Assignment> {
    /// Builds the assignment that the `assignment` node `pair` stands for.
    pub fn build(pair: ParseNode) -> (r: AlthreadResult<Self>)
        requires
            pair.children.len() > 0,
        ensures
            r is Err <==> assignment_error(pair.children@) is Some,
            r matches Err(e) ==> assignment_error(pair.children@) == Some(e@),
            r matches Ok(a) ==> assignment_built(a, pair),
    {
        let pos = Pos { line: pair.line, col: pair.col };
        let value = Assignment::build(pair.children)?;
        Ok(Node { pos, value })
    }
}

} // verus!
