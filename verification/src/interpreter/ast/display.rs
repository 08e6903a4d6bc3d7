use vstd::prelude::*;

use crate::interpreter::ast::block::Block;
use crate::interpreter::ast::condition_block::ConditionBlock;
use crate::interpreter::ast::node::{ConditionKeyword, DataType, Node};
use crate::interpreter::ast::statement::assignment::{Assignment, BinaryAssignment};
use crate::interpreter::ast::statement::loop_control::LoopControl;
use crate::interpreter::ast::statement::Statement;
use crate::interpreter::ast::Ast;

verus! {

/// The parts of the tree's display that work below the tree: the prefixes
/// that mark the depth of a line (one branch deeper, switched, a leaf), the
/// lines of the nodes inside the tree, and the names of the condition
/// keywords and data types. Each is described by a spec function of the
/// implementing type over the prefix's text.
pub trait TreeDisplay: Sized {
    /// The prefix one branch deeper than `prefix`.
    spec fn branch_of(&self, prefix: Seq<char>) -> Seq<char>;

    /// The prefix `prefix` switched to its last branch.
    spec fn switched(&self, prefix: Seq<char>) -> Seq<char>;

    /// The prefix of a leaf under `prefix`.
    spec fn leaf_of(&self, prefix: Seq<char>) -> Seq<char>;

    /// The lines of a block shown under `prefix`.
    spec fn block_text(&self, block: Node<Block>, prefix: Seq<char>) -> Seq<Seq<char>>;

    /// The lines of a condition block shown under `prefix`.
    spec fn condition_block_text(&self, block: Node<ConditionBlock>, prefix: Seq<char>) -> Seq<Seq<char>>;

    /// The lines of a statement shown under `prefix`.
    spec fn statement_text(&self, node: Node<Statement>, prefix: Seq<char>) -> Seq<Seq<char>>;

    /// The lines of a binary assignment shown under `prefix`.
    spec fn binary_text(&self, node: Node<BinaryAssignment>, prefix: Seq<char>) -> Seq<Seq<char>>;

    /// The name of a condition keyword.
    spec fn keyword_text(&self, k: ConditionKeyword) -> Seq<char>;

    /// The name of a data type.
    spec fn type_text(&self, t: DataType) -> Seq<char>;

    /// Makes the prefix one branch deeper.
    fn add_branch(&self, prefix: &String) -> (r: String)
        ensures
            r@ == self.branch_of(prefix@),
    ;

    /// Switches the prefix to its last branch.
    fn switch(&self, prefix: &String) -> (r: String)
        ensures
            r@ == self.switched(prefix@),
    ;

    /// Makes the prefix of a leaf.
    fn add_leaf(&self, prefix: &String) -> (r: String)
        ensures
            r@ == self.leaf_of(prefix@),
    ;

    /// The lines of a block.
    fn block_lines(&self, block: &Node<Block>, prefix: &String) -> (r: Vec<String>)
        ensures
            lines_view(r@) == self.block_text(*block, prefix@),
    ;

    /// The lines of a condition block.
    fn condition_block_lines(&self, block: &Node<ConditionBlock>, prefix: &String) -> (r: Vec<String>)
        ensures
            lines_view(r@) == self.condition_block_text(*block, prefix@),
    ;

    /// The lines of a statement.
    fn statement_lines(&self, node: &Node<Statement>, prefix: &String) -> (r: Vec<String>)
        ensures
            lines_view(r@) == self.statement_text(*node, prefix@),
    ;

    /// The lines of a binary assignment.
    fn binary_lines(&self, node: &Node<BinaryAssignment>, prefix: &String) -> (r: Vec<String>)
        ensures
            lines_view(r@) == self.binary_text(*node, prefix@),
    ;

    /// The name of a condition keyword.
    fn keyword_name(&self, k: ConditionKeyword) -> (r: String)
        ensures
            r@ == self.keyword_text(k),
    ;

    /// The name of a data type.
    fn datatype_name(&self, t: DataType) -> (r: String)
        ensures
            r@ == self.type_text(t),
    ;
}

/// The text of each line of a list.
pub open spec fn lines_view(lines: Seq<String>) -> Seq<Seq<char>> {
    lines.map_values(|s: String| s@)
}

/// The lines of the condition blocks `cs` from the `i`-th on, under
/// `prefix`: for each, its keyword, its conditions one branch deeper, and
/// an empty line.
pub open spec fn conditions_text<D: TreeDisplay>(
    d: D,
    cs: Seq<(ConditionKeyword, Node<ConditionBlock>)>,
    i: int,
    prefix: Seq<char>,
) -> Seq<Seq<char>>
    decreases cs.len() - i,
{
    if i < 0 || i >= cs.len() {
        seq![]
    } else {
        seq![prefix + d.keyword_text(cs[i].0)] + d.condition_block_text(cs[i].1, d.branch_of(prefix))
            + seq![Seq::<char>::empty()] + conditions_text(d, cs, i + 1, prefix)
    }
}

/// The lines of the programs `ps` from the `i`-th on, under `prefix`: for
/// each, its name, its block one branch deeper, and an empty line.
pub open spec fn programs_text<D: TreeDisplay>(
    d: D,
    ps: Seq<(String, (crate::interpreter::ast::node::Node<crate::interpreter::ast::node::ArgsList>, Node<Block>))>,
    i: int,
    prefix: Seq<char>,
) -> Seq<Seq<char>>
    decreases ps.len() - i,
{
    if i < 0 || i >= ps.len() {
        seq![]
    } else {
        seq![prefix + ps[i].0@] + d.block_text(ps[i].1.1, d.branch_of(prefix)) + seq![Seq::<char>::empty()]
            + programs_text(d, ps, i + 1, prefix)
    }
}

/// The lines of the functions `fs` from the `i`-th on, under `prefix`: for
/// each, its name and return type, its block one branch deeper, and an
/// empty line.
pub open spec fn functions_text<D: TreeDisplay>(
    d: D,
    fs: Seq<(String, (crate::interpreter::ast::node::Node<crate::interpreter::ast::node::ArgsList>, DataType, Node<Block>))>,
    i: int,
    prefix: Seq<char>,
) -> Seq<Seq<char>>
    decreases fs.len() - i,
{
    if i < 0 || i >= fs.len() {
        seq![]
    } else {
        seq![prefix + fs[i].0@ + " -> "@ + d.type_text(fs[i].1.1)] + d.block_text(
            fs[i].1.2,
            d.branch_of(prefix),
        ) + seq![Seq::<char>::empty()] + functions_text(d, fs, i + 1, prefix)
    }
}

/// The lines of the tree `ast` under `prefix`: the `shared` block (if any)
/// with its statements one branch deeper, an empty line, then the condition
/// blocks, the programs and the functions.
pub open spec fn ast_text<D: TreeDisplay>(d: D, ast: &Ast, prefix: Seq<char>) -> Seq<Seq<char>> {
    (match ast.global_block {
        Some(g) => seq![prefix + "shared"@] + d.block_text(g, d.branch_of(prefix)),
        None => seq![],
    }) + seq![Seq::<char>::empty()] + conditions_text(d, ast.condition_blocks@, 0, prefix)
        + programs_text(d, ast.process_blocks@, 0, prefix) + functions_text(
        d,
        ast.function_blocks@,
        0,
        prefix,
    )
}

/// Where the lines of the `k`-th condition block start among the lines of
/// the condition blocks of `cs`: after, for each block before it, its
/// keyword line, its lines and an empty line.
pub open spec fn condition_line<D: TreeDisplay>(
    d: D,
    cs: Seq<(ConditionKeyword, Node<ConditionBlock>)>,
    prefix: Seq<char>,
    k: int,
) -> int
    decreases k,
{
    if k <= 0 {
        0
    } else {
        condition_line(d, cs, prefix, k - 1) + d.condition_block_text(
            cs[k - 1].1,
            d.branch_of(prefix),
        ).len() + 2
    }
}

/// Each condition block of `cs`, whatever its keyword, is shown in order:
/// a line with the prefix and its keyword's name, its lines one branch
/// deeper, and an empty line; nothing else is shown.
pub proof fn lemma_conditions_shown(
    d: impl TreeDisplay,
    cs: Seq<(ConditionKeyword, Node<ConditionBlock>)>,
    i: int,
    prefix: Seq<char>,
)
    requires
        0 <= i <= cs.len(),
    ensures
        conditions_text(d, cs, i, prefix).len() == condition_line(d, cs, prefix, cs.len() as int)
            - condition_line(d, cs, prefix, i),
        forall|k: int|
            i <= k < cs.len() ==> {
                let at = #[trigger] condition_line(d, cs, prefix, k) - condition_line(d, cs, prefix, i);
                let body = d.condition_block_text(cs[k].1, d.branch_of(prefix));
                &&& conditions_text(d, cs, i, prefix)[at] == prefix + d.keyword_text(cs[k].0)
                &&& conditions_text(d, cs, i, prefix).subrange(at + 1, at + 1 + body.len()) == body
                &&& conditions_text(d, cs, i, prefix)[at + 1 + body.len()] == Seq::<char>::empty()
            },
    decreases cs.len() - i,
{
    if i < cs.len() {
        lemma_conditions_shown(d, cs, i + 1, prefix);
        let body = d.condition_block_text(cs[i].1, d.branch_of(prefix));
        let head = seq![prefix + d.keyword_text(cs[i].0)] + body + seq![Seq::<char>::empty()];
        let rest = conditions_text(d, cs, i + 1, prefix);
        let all = conditions_text(d, cs, i, prefix);
        assert(all == head + rest);
        assert(condition_line(d, cs, prefix, i + 1) == condition_line(d, cs, prefix, i) + head.len());
        assert forall|k: int|
            i <= k < cs.len() implies {
                let at = #[trigger] condition_line(d, cs, prefix, k) - condition_line(d, cs, prefix, i);
                let b = d.condition_block_text(cs[k].1, d.branch_of(prefix));
                &&& all[at] == prefix + d.keyword_text(cs[k].0)
                &&& all.subrange(at + 1, at + 1 + b.len()) == b
                &&& all[at + 1 + b.len()] == Seq::<char>::empty()
            } by {
            let b = d.condition_block_text(cs[k].1, d.branch_of(prefix));
            lemma_condition_line_monotone(d, cs, prefix, k + 1, cs.len() as int);
            if k > i {
                lemma_condition_line_monotone(d, cs, prefix, i + 1, k);
            }
            assert(condition_line(d, cs, prefix, k + 1) == condition_line(d, cs, prefix, k) + b.len() + 2);
            if k == i {
                assert(all.subrange(1, 1 + b.len() as int) =~= b);
            } else {
                let at = condition_line(d, cs, prefix, k) - condition_line(d, cs, prefix, i);
                let at2 = condition_line(d, cs, prefix, k) - condition_line(d, cs, prefix, i + 1);
                assert(at == at2 + head.len());
                assert(all.subrange(at + 1, at + 1 + b.len()) =~= rest.subrange(
                    at2 + 1,
                    at2 + 1 + b.len(),
                ));
            }
        }
    }
}

/// The display of a tree shows every condition block, whatever its
/// keyword, in the order of the condition table, after the `shared` block
/// and the empty line that follows it: a line with the prefix and the
/// keyword's name, the block's lines one branch deeper, and an empty line.
pub proof fn lemma_tree_shows_condition_blocks(d: impl TreeDisplay, ast: &Ast, prefix: Seq<char>)
    ensures
        ({
            let cs = ast.condition_blocks@;
            let start = (match ast.global_block {
                Some(g) => 1 + d.block_text(g, d.branch_of(prefix)).len(),
                None => 0,
            }) + 1;
            forall|k: int|
                0 <= k < cs.len() ==> {
                    let at = start + #[trigger] condition_line(d, cs, prefix, k);
                    let body = d.condition_block_text(cs[k].1, d.branch_of(prefix));
                    &&& ast_text(d, ast, prefix)[at] == prefix + d.keyword_text(cs[k].0)
                    &&& ast_text(d, ast, prefix).subrange(at + 1, at + 1 + body.len()) == body
                    &&& ast_text(d, ast, prefix)[at + 1 + body.len()] == Seq::<char>::empty()
                }
        }),
{
    let cs = ast.condition_blocks@;
    lemma_conditions_shown(d, cs, 0, prefix);
    let head = (match ast.global_block {
        Some(g) => seq![prefix + "shared"@] + d.block_text(g, d.branch_of(prefix)),
        None => seq![],
    }) + seq![Seq::<char>::empty()];
    let ct = conditions_text(d, cs, 0, prefix);
    let all = ast_text(d, ast, prefix);
    assert(all == head + ct + programs_text(d, ast.process_blocks@, 0, prefix) + functions_text(
        d,
        ast.function_blocks@,
        0,
        prefix,
    ));
    assert forall|k: int| 0 <= k < cs.len() implies {
        let at = head.len() + #[trigger] condition_line(d, cs, prefix, k);
        let body = d.condition_block_text(cs[k].1, d.branch_of(prefix));
        &&& all[at] == prefix + d.keyword_text(cs[k].0)
        &&& all.subrange(at + 1, at + 1 + body.len()) == body
        &&& all[at + 1 + body.len()] == Seq::<char>::empty()
    } by {
        let at0 = condition_line(d, cs, prefix, k) - condition_line(d, cs, prefix, 0);
        let body = d.condition_block_text(cs[k].1, d.branch_of(prefix));
        lemma_condition_line_grows(d, cs, prefix, k);
        lemma_condition_line_monotone(d, cs, prefix, k + 1, cs.len() as int);
        assert(condition_line(d, cs, prefix, k + 1) == condition_line(d, cs, prefix, k) + body.len() + 2);
        assert(at0 + 1 + body.len() < ct.len());
        assert(all.subrange(head.len() + at0 + 1, head.len() + at0 + 1 + body.len()) =~= ct.subrange(
            at0 + 1,
            at0 + 1 + body.len(),
        ));
    }
}

/// The lines of the condition blocks start no earlier for a later block.
pub proof fn lemma_condition_line_monotone(
    d: impl TreeDisplay,
    cs: Seq<(ConditionKeyword, Node<ConditionBlock>)>,
    prefix: Seq<char>,
    a: int,
    b: int,
)
    requires
        0 <= a <= b,
    ensures
        condition_line(d, cs, prefix, a) <= condition_line(d, cs, prefix, b),
    decreases b - a,
{
    if a < b {
        lemma_condition_line_monotone(d, cs, prefix, a, b - 1);
    }
}

/// The lines of the condition blocks before the `k`-th fit before it.
pub proof fn lemma_condition_line_grows(
    d: impl TreeDisplay,
    cs: Seq<(ConditionKeyword, Node<ConditionBlock>)>,
    prefix: Seq<char>,
    k: int,
)
    ensures
        condition_line(d, cs, prefix, k) >= 0,
        k >= 0 ==> condition_line(d, cs, prefix, k + 1) >= condition_line(d, cs, prefix, k) + 2,
    decreases k,
{
    if k > 0 {
        lemma_condition_line_grows(d, cs, prefix, k - 1);
    }
}

/// Appends `more` to `out`.
fn append_lines(out: &mut Vec<String>, more: Vec<String>)
    ensures
        lines_view(final(out)@) == lines_view(old(out)@) + lines_view(more@),
{
    let mut more = more;
    let ghost a = out@;
    let ghost b = more@;
    out.append(&mut more);
    assert(lines_view(a + b) =~= lines_view(a) + lines_view(b));
}

/// Appends the line `line` to `out`.
fn push_line(out: &mut Vec<String>, line: String)
    ensures
        lines_view(final(out)@) == lines_view(old(out)@).push(line@),
{
    let ghost a = out@;
    out.push(line);
    assert(lines_view(a.push(line)) =~= lines_view(a).push(line@));
}

impl Ast {
    /// The lines that show the tree under `prefix`: see `ast_text`.
    pub fn ast_fmt<D: TreeDisplay>(&self, d: &D, prefix: &String) -> (r: Vec<String>)
        ensures
            lines_view(r@) == ast_text(*d, self, prefix@),
    {
        let mut out: Vec<String> = Vec::new();
        let branch = d.add_branch(prefix);
        match &self.global_block {
            Some(g) => {
                let mut line = prefix.clone();
                line.append("shared");
                push_line(&mut out, line);
                append_lines(&mut out, d.block_lines(g, &branch));
            },
            None => {},
        }
        push_line(&mut out, String::new());
        proof {
            reveal_strlit("shared");
            reveal_strlit(" -> ");
            assert(lines_view(out@) =~= (match self.global_block {
                Some(g) => seq![prefix@ + "shared"@] + d.block_text(g, d.branch_of(prefix@)),
                None => seq![],
            }) + seq![Seq::<char>::empty()]);
        }
        let ghost head = lines_view(out@);
        let cs = &self.condition_blocks;
        let mut i: usize = 0;
        while i < cs.len()
            invariant
                cs == &self.condition_blocks,
                i <= cs@.len(),
                branch@ == d.branch_of(prefix@),
                head + conditions_text(*d, cs@, 0, prefix@) == lines_view(out@) + conditions_text(
                    *d,
                    cs@,
                    i as int,
                    prefix@,
                ),
            decreases cs@.len() - i,
        {
            let ghost before = lines_view(out@);
            let mut line = prefix.clone();
            let k = d.keyword_name(cs[i].0);
            line.append(k.as_str());
            push_line(&mut out, line);
            append_lines(&mut out, d.condition_block_lines(&cs[i].1, &branch));
            push_line(&mut out, String::new());
            proof {
                assert(lines_view(out@) =~= before + (seq![prefix@ + d.keyword_text(cs@[i as int].0)]
                    + d.condition_block_text(cs@[i as int].1, d.branch_of(prefix@)) + seq![
                    Seq::<char>::empty(),
                ]));
            }
            i = i + 1;
        }
        let ghost head2 = lines_view(out@);
        let ps = &self.process_blocks;
        let mut i: usize = 0;
        while i < ps.len()
            invariant
                ps == &self.process_blocks,
                i <= ps@.len(),
                branch@ == d.branch_of(prefix@),
                head2 + programs_text(*d, ps@, 0, prefix@) == lines_view(out@) + programs_text(
                    *d,
                    ps@,
                    i as int,
                    prefix@,
                ),
            decreases ps@.len() - i,
        {
            let ghost before = lines_view(out@);
            let mut line = prefix.clone();
            line.append(ps[i].0.as_str());
            push_line(&mut out, line);
            append_lines(&mut out, d.block_lines(&ps[i].1.1, &branch));
            push_line(&mut out, String::new());
            proof {
                assert(lines_view(out@) =~= before + (seq![prefix@ + ps@[i as int].0@] + d.block_text(
                    ps@[i as int].1.1,
                    d.branch_of(prefix@),
                ) + seq![Seq::<char>::empty()]));
            }
            i = i + 1;
        }
        let ghost head3 = lines_view(out@);
        let fs = &self.function_blocks;
        let mut i: usize = 0;
        while i < fs.len()
            invariant
                fs == &self.function_blocks,
                i <= fs@.len(),
                branch@ == d.branch_of(prefix@),
                head3 + functions_text(*d, fs@, 0, prefix@) == lines_view(out@) + functions_text(
                    *d,
                    fs@,
                    i as int,
                    prefix@,
                ),
            decreases fs@.len() - i,
        {
            let ghost before = lines_view(out@);
            let mut line = prefix.clone();
            line.append(fs[i].0.as_str());
            line.append(" -> ");
            let t = d.datatype_name(fs[i].1.1);
            line.append(t.as_str());
            push_line(&mut out, line);
            append_lines(&mut out, d.block_lines(&fs[i].1.2, &branch));
            push_line(&mut out, String::new());
            proof {
                assert(lines_view(out@) =~= before + (seq![
                    prefix@ + fs@[i as int].0@ + " -> "@ + d.type_text(fs@[i as int].1.1),
                ] + d.block_text(fs@[i as int].1.2, d.branch_of(prefix@)) + seq![
                    Seq::<char>::empty(),
                ]));
            }
            i = i + 1;
        }
        proof {
            assert(lines_view(out@) =~= ast_text(*d, self, prefix@));
        }
        out
    }
}

impl LoopControl {
    /// The lines that show the loop under `prefix`: its name, then `do`
    /// under the switched prefix, then its statement as a leaf below.
    pub fn ast_fmt<D: TreeDisplay>(&self, d: &D, prefix: &String) -> (r: Vec<String>)
        ensures
            lines_view(r@) == seq![prefix@ + "loop_control"@, d.switched(prefix@) + "do"@] + d.statement_text(
                *self.statement,
                d.leaf_of(d.switched(prefix@)),
            ),
    {
        let mut out: Vec<String> = Vec::new();
        let mut line = prefix.clone();
        line.append("loop_control");
        push_line(&mut out, line);
        let switched = d.switch(prefix);
        let mut line = switched.clone();
        line.append("do");
        push_line(&mut out, line);
        let leaf = d.add_leaf(&switched);
        append_lines(&mut out, d.statement_lines(&self.statement, &leaf));
        proof {
            reveal_strlit("loop_control");
            reveal_strlit("do");
        }
        out
    }
}

impl Assignment {
    /// The lines that show the assignment under `prefix`: those of its
    /// binary form.
    pub fn ast_fmt<D: TreeDisplay>(&self, d: &D, prefix: &String) -> (r: Vec<String>)
        ensures
            match self {
                Assignment::Binary(node) => lines_view(r@) == d.binary_text(*node, prefix@),
            },
    {
        match self {
            Assignment::Binary(node) => d.binary_lines(node, prefix),
        }
    }
}

} // verus!
