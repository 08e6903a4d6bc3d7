use vstd::prelude::*;

use crate::error::{AlthreadResult, ErrorType, Pos};
use crate::interpreter::ast::node::{pos_of, Node};
use crate::interpreter::ast::statement::{
    statement_built,
    statement_error,
    statement_well_formed,
    Statement,
};
use crate::parse::ParseNode;

verus! {

/// A block of statements, in order.
#[derive(Debug)]
pub struct Block {
    pub children: Vec<Node<Statement>>,
}

/// Every node of a list has what building its statement reads.
pub open spec fn statements_well_formed(ps: Seq<ParseNode>) -> bool {
    forall|i: int| 0 <= i < ps.len() ==> #[trigger] statement_well_formed(ps[i])
}

/// The error of the first node of a list whose statement cannot be built.
pub open spec fn statements_error(ps: Seq<ParseNode>) -> Option<(Pos, ErrorType, Seq<char>)>
    decreases ps.len(),
{
    if ps.len() == 0 {
        None
    } else {
        match statement_error(ps[0]) {
            Some(e) => Some(e),
            None => statements_error(ps.drop_first()),
        }
    }
}

/// `ns` are the statements built from the nodes `ps`, one for one.
pub open spec fn statements_built(ns: Seq<Node<Statement>>, ps: Seq<ParseNode>) -> bool {
    &&& ns.len() == ps.len()
    &&& forall|i: int| 0 <= i < ps.len() ==> #[trigger] statement_built(ns[i], ps[i])
}

/// `b` is the block built from the parse node `p`.
pub open spec fn block_built(b: Node<Block>, p: ParseNode) -> bool {
    &&& b.pos == pos_of(p)
    &&& statements_built(b.value.children@, p.children@)
}

/// Builds the statements of a list of nodes, in order; the first that cannot
/// be built ends the work with its error.
pub fn build_statements(pairs: Vec<ParseNode>) -> (r: AlthreadResult<Vec<Node<Statement>>>)
    requires
        statements_well_formed(pairs@),
    ensures
        r is Err <==> statements_error(pairs@) is Some,
        r matches Err(e) ==> statements_error(pairs@) == Some(e@),
        r matches Ok(ns) ==> statements_built(ns@, pairs@),
{
    let ghost orig = pairs@;
    let mut rest = pairs;
    let mut out: Vec<Node<Statement>> = Vec::new();
    let n = rest.len();
    let mut i: usize = 0;
    assert(orig.skip(0) =~= orig);
    while i < n
        invariant
            n == orig.len(),
            i <= n,
            rest@ == orig.skip(i as int),
            orig == pairs@,
            statements_well_formed(orig),
            statements_error(orig) == statements_error(orig.skip(i as int)),
            out@.len() == i,
            forall|k: int| 0 <= k < i ==> #[trigger] statement_built(out@[k], orig[k]),
        decreases n - i,
    {
        let p = rest.remove(0);
        proof {
            assert(orig.skip(i as int)[0] == orig[i as int]);
            assert(orig.skip(i as int).drop_first() =~= orig.skip(i + 1));
            assert(rest@ =~= orig.skip(i + 1));
            assert(statement_well_formed(orig[i as int]));
        }
        let ghost t = orig.skip(i as int);
        let s = match Node::<Statement>::build(p) {
            Ok(s) => s,
            Err(e) => {
                assert(statements_error(t) == Some(e@));
                return Err(e);
            },
        };
        assert(statements_error(t) == statements_error(t.drop_first()));
        out.push(s);
        i = i + 1;
    }
    proof {
        assert(orig.skip(n as int).len() == 0);
    }
    Ok(out)
}

impl Node<Block> {
    /// Builds the block that the parse node `pair` stands for: one statement
    /// for each node inside it.
    pub fn build(pair: ParseNode) -> (r: AlthreadResult<Self>)
        requires
            statements_well_formed(pair.children@),
        ensures
            r is Err <==> statements_error(pair.children@) is Some,
            r matches Err(e) ==> statements_error(pair.children@) == Some(e@),
            r matches Ok(b) ==> block_built(b, pair),
    {
        let pos = Pos { line: pair.line, col: pair.col };
        let children = build_statements(pair.children)?;
        Ok(Node { pos, value: Block { children } })
    }
}

} // verus!
