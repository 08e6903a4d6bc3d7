pub mod check;
pub mod stmt;

use vstd::prelude::*;

use crate::parse::ParseNode;

verus! {

/// The programs of a source, each as the parse nodes of its statements.
#[derive(Debug)]
pub struct Ast {
    pub process_bricks: Vec<(String, Vec<ParseNode>)>,
}

} // verus!
