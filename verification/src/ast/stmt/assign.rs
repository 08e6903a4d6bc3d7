use vstd::prelude::*;

use crate::parse::{ParseNode, Rule};

verus! {

/// An assignment statement, as the parse node of its unary (`x++`) or binary
/// (`x = e`) form.
#[derive(Debug)]
pub enum Assign {
    Unary(ParseNode),
    Binary(ParseNode),
}

impl Assign {
    /// Builds the assignment that an `assign` node stands for, from the form
    /// inside it.
    pub fn build(pair: ParseNode) -> (r: Self)
        requires
            pair.children.len() > 0,
            pair.children@[0].rule == Rule::assign_unary || pair.children@[0].rule
                == Rule::assign_binary,
        ensures
            pair.children@[0].rule == Rule::assign_unary ==> r == Assign::Unary(pair.children@[0]),
            pair.children@[0].rule == Rule::assign_binary ==> r == Assign::Binary(pair.children@[0]),
    {
        let mut children = pair.children;
        let inner = children.remove(0);
        if inner.rule == Rule::assign_unary {
            Assign::Unary(inner)
        } else {
            Assign::Binary(inner)
        }
    }
}

} // verus!
