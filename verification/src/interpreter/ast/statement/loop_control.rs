use vstd::prelude::*;

use crate::error::{AlthreadResult, Pos};
use crate::interpreter::ast::node::Node;
use crate::interpreter::ast::statement::{
    statement_built,
    statement_error,
    statement_well_formed,
    Statement,
};
use crate::entries::{entries_map, take_entry};
use crate::interpreter::compiler::{
    lemma_patch_all,
    lemma_patch_all_drops,
    lemma_patchable_skips,
    labeled,
    listed_once,
    patch_all,
    patch_jumps,
    patchable,
    Instruction,
    InstructionBuilderOk,
    InstructionType,
    JumpControl,
};
use crate::parse::ParseNode;

verus! {

/// A loop that runs its statement again and again, until a `break`.
#[derive(Debug)]
pub struct LoopControl {
    pub statement: Box<Node<Statement>>,
}

impl LoopControl {
    /// Builds a loop from the nodes inside a `loop_stmt` node: its statement
    /// is the first of them.
    pub fn build(pairs: Vec<ParseNode>) -> (r: AlthreadResult<Self>)
        requires
            pairs.len() > 0,
            statement_well_formed(pairs@[0]),
        ensures
            r is Err <==> statement_error(pairs@[0]) is Some,
            r matches Err(e) ==> statement_error(pairs@[0]) == Some(e@),
            r matches Ok(l) ==> statement_built(*l.statement, pairs@[0]),
        decreases pairs@[0], 4nat,
    {
        let mut pairs = pairs;
        let first = pairs.remove(0);
        let statement = Box::new(Node::<Statement>::build(first)?);
        Ok(Self { statement })
    }
}

/// How much a filled-in loop jump drops: an unlabeled `break` listed once
/// and not also a `continue`, or an unlabeled `continue` listed once and not
/// also a `break`, drops only what the loop pushed, that is all but
/// `stack_len` of the values that the body's jump dropped.
pub proof fn lemma_loop_drops(body: InstructionBuilderOk, pos: Pos, stack_len: usize, idx: usize)
    requires
        body.instructions@.len() < i64::MAX,
        patchable(
            loop_base(body.instructions@, pos),
            labeled(body.break_indexes@, ""@),
            body.instructions@.len() + 1 as int,
            stack_len,
            true,
        ),
        patchable(
            loop_after_breaks(body, pos, stack_len),
            labeled(body.continue_indexes@, ""@),
            body.instructions@.len() + 1 as int,
            stack_len,
            false,
        ),
        (listed_once(labeled(body.break_indexes@, ""@), idx) && !labeled(
            body.continue_indexes@,
            ""@,
        ).contains(idx)) || (listed_once(labeled(body.continue_indexes@, ""@), idx) && !labeled(
            body.break_indexes@,
            ""@,
        ).contains(idx)),
    ensures
        idx < body.instructions@.len(),
        match body.instructions@[idx as int].control {
            InstructionType::Break(b0) => match loop_code(body, pos, stack_len)[idx as int].control {
                InstructionType::Break(bc) => bc.unstack_len == b0.unstack_len - stack_len,
                _ => false,
            },
            _ => false,
        },
{
    let n = body.instructions@.len() as int;
    let base = loop_base(body.instructions@, pos);
    let breaks = labeled(body.break_indexes@, ""@);
    let continues = labeled(body.continue_indexes@, ""@);
    let mid = loop_after_breaks(body, pos, stack_len);
    let code = loop_code(body, pos, stack_len);
    lemma_patch_all(base, breaks, n + 1, stack_len, true);
    lemma_patch_all(mid, continues, n + 1, stack_len, false);
    assert(body.instructions@.len() == body.instructions.len());
    assert((n as usize) as int == n);
    lemma_patchable_skips(base, breaks, n + 1, stack_len, true, n as usize);
    assert(mid[n] == base[n]);
    lemma_patchable_skips(mid, continues, n + 1, stack_len, false, n as usize);
    if listed_once(breaks, idx) && !continues.contains(idx) {
        let k = choose|k: int|
            0 <= k < breaks.len() && #[trigger] breaks[k] == idx && (forall|m: int|
                0 <= m < breaks.len() && #[trigger] breaks[m] == idx ==> m == k);
        assert(breaks.contains(idx));
        assert(idx != n);
        lemma_patch_all_drops(base, breaks, n + 1, stack_len, true, idx);
        assert(base[idx as int] == body.instructions@[idx as int]);
        assert(code[idx as int] == mid[idx as int]);
    } else {
        let k = choose|k: int|
            0 <= k < continues.len() && #[trigger] continues[k] == idx && (forall|m: int|
                0 <= m < continues.len() && #[trigger] continues[m] == idx ==> m == k);
        assert(continues.contains(idx));
        assert(idx != n);
        assert(mid[idx as int] == base[idx as int]);
        assert(base[idx as int] == body.instructions@[idx as int]);
        lemma_patch_all_drops(mid, continues, n + 1, stack_len, false, idx);
    }
}

impl Node<LoopControl> {
    /// Builds the loop that the `loop_stmt` node `pair` stands for.
    pub fn build(pair: ParseNode) -> (r: AlthreadResult<Self>)
        requires
            pair.children.len() > 0,
            statement_well_formed(pair.children@[0]),
        ensures
            r is Err <==> statement_error(pair.children@[0]) is Some,
            r matches Err(e) ==> statement_error(pair.children@[0]) == Some(e@),
            r matches Ok(l) ==> l.pos == (Pos { line: pair.line, col: pair.col })
                && statement_built(*l.value.statement, pair.children@[0]),
        decreases pair, 2nat,
    {
        let pos = Pos { line: pair.line, col: pair.col };
        let value = LoopControl::build(pair.children)?;
        Ok(Node { pos, value })
    }
}

/// The body's code followed by the jump back to its start.
pub open spec fn loop_base(body: Seq<Instruction>, pos: Pos) -> Seq<Instruction> {
    body.push(
        Instruction {
            control: InstructionType::Jump(JumpControl { jump: (0 - body.len()) as i64 }),
            pos: Some(pos),
        },
    )
}

/// The code of the body after its `break`s are filled in.
pub open spec fn loop_after_breaks(body: InstructionBuilderOk, pos: Pos, stack_len: usize) -> Seq<
    Instruction,
> {
    let base = loop_base(body.instructions@, pos);
    patch_all(base, labeled(body.break_indexes@, ""@), base.len() as int, stack_len, true)
}

/// The code of a loop around the compiled body `body`: the body, a jump back
/// to its start, and the body's unlabeled `break`s and `continue`s filled in.
pub open spec fn loop_code(body: InstructionBuilderOk, pos: Pos, stack_len: usize) -> Seq<
    Instruction,
> {
    let base = loop_base(body.instructions@, pos);
    patch_all(
        loop_after_breaks(body, pos, stack_len),
        labeled(body.continue_indexes@, ""@),
        base.len() as int,
        stack_len,
        false,
    )
}

/// Where the jumps of a compiled loop land: the code is the body and one
/// more instruction, which jumps back to the loop's first instruction; every
/// unlabeled `continue` jumps back to the first instruction; every unlabeled
/// `break` (that is not also a `continue`) jumps to the first instruction
/// after the loop; every other instruction is the body's.
pub proof fn lemma_loop_jumps(body: InstructionBuilderOk, pos: Pos, stack_len: usize)
    requires
        body.instructions@.len() < i64::MAX,
        patchable(
            loop_base(body.instructions@, pos),
            labeled(body.break_indexes@, ""@),
            body.instructions@.len() + 1 as int,
            stack_len,
            true,
        ),
        patchable(
            loop_after_breaks(body, pos, stack_len),
            labeled(body.continue_indexes@, ""@),
            body.instructions@.len() + 1 as int,
            stack_len,
            false,
        ),
    ensures
        ({
            let code = loop_code(body, pos, stack_len);
            let n = body.instructions@.len() as int;
            let breaks = labeled(body.break_indexes@, ""@);
            let continues = labeled(body.continue_indexes@, ""@);
            &&& code.len() == n + 1
            &&& code[n].control == InstructionType::Jump(JumpControl { jump: (0 - n) as i64 })
            &&& n + (0 - n) as i64 == 0
            &&& forall|k: int|
                0 <= k < continues.len() ==> match #[trigger] code[continues[k] as int].control {
                    InstructionType::Break(bc) => continues[k] + bc.jump == 0,
                    _ => false,
                }
            &&& forall|k: int|
                0 <= k < breaks.len() && !continues.contains(breaks[k]) ==> match #[trigger] code[breaks[k] as int].control {
                    InstructionType::Break(bc) => breaks[k] + bc.jump == n + 1,
                    _ => false,
                }
            &&& forall|j: int|
                0 <= j < n && !breaks.contains(j as usize) && !continues.contains(j as usize)
                    ==> #[trigger] code[j] == body.instructions@[j]
        }),
{
    let n = body.instructions@.len() as int;
    let base = loop_base(body.instructions@, pos);
    let breaks = labeled(body.break_indexes@, ""@);
    let continues = labeled(body.continue_indexes@, ""@);
    let mid = loop_after_breaks(body, pos, stack_len);
    let code = loop_code(body, pos, stack_len);
    lemma_patch_all(base, breaks, n + 1, stack_len, true);
    lemma_patch_all(mid, continues, n + 1, stack_len, false);
    assert(body.instructions@.len() == body.instructions.len());
    assert((n as usize) as int == n);
    assert(base[n].control == InstructionType::Jump(JumpControl { jump: (0 - n) as i64 }));
    lemma_patchable_skips(base, breaks, n + 1, stack_len, true, n as usize);
    assert(mid[n] == base[n]);
    lemma_patchable_skips(mid, continues, n + 1, stack_len, false, n as usize);
    assert(code[n] == mid[n]);
    assert forall|k: int|
        0 <= k < breaks.len() && !continues.contains(breaks[k]) implies match #[trigger] code[breaks[k] as int].control {
            InstructionType::Break(bc) => breaks[k] + bc.jump == n + 1,
            _ => false,
        } by {
        assert(code[breaks[k] as int] == mid[breaks[k] as int]);
    }
    assert forall|j: int|
        0 <= j < n && !breaks.contains(j as usize) && !continues.contains(j as usize)
            implies #[trigger] code[j] == body.instructions@[j] by {
        assert(code[j] == mid[j]);
        assert(mid[j] == base[j]);
    }
}

impl Node<LoopControl> {
    /// Compiles the loop from `body`, the code compiled for its statement
    /// when the program stack held `stack_len` variables: the body is
    /// followed by a jump back to its start, its unlabeled `break`s are made
    /// to jump past the loop and its unlabeled `continue`s back to its start,
    /// each dropping what the loop pushed; then those jumps are no longer
    /// pending. Jumps with a label stay pending, for an enclosing loop.
    pub fn compile(&self, stack_len: usize, body: InstructionBuilderOk) -> (r: InstructionBuilderOk)
        requires
            body.well_formed(),
            body.instructions@.len() < i64::MAX,
            patchable(
                loop_base(body.instructions@, self.value.statement.pos),
                labeled(body.break_indexes@, ""@),
                body.instructions@.len() + 1 as int,
                stack_len,
                true,
            ),
            patchable(
                loop_after_breaks(body, self.value.statement.pos, stack_len),
                labeled(body.continue_indexes@, ""@),
                body.instructions@.len() + 1 as int,
                stack_len,
                false,
            ),
        ensures
            r.well_formed(),
            r.instructions@ == loop_code(body, self.value.statement.pos, stack_len),
            entries_map(r.break_indexes@) == entries_map(body.break_indexes@).remove(""@),
            entries_map(r.continue_indexes@) == entries_map(body.continue_indexes@).remove(""@),
            r.return_indexes == body.return_indexes,
    {
        let ghost pos = self.value.statement.pos;
        let mut builder = body;
        let len = builder.instructions.len();
        builder.instructions.push(
            Instruction {
                control: InstructionType::Jump(JumpControl { jump: -(len as i64) }),
                pos: Some(self.value.statement.pos),
            },
        );
        assert(builder.instructions@ == loop_base(body.instructions@, pos));
        if builder.contains_jump() {
            let total = builder.instructions.len();
            let label = String::new();
            proof {
                reveal_strlit("");
                assert(label@ == ""@);
            }
            let breaks = take_entry(&mut builder.break_indexes, &label);
            if let Some(idxs) = breaks {
                patch_jumps(&mut builder.instructions, &idxs, total, stack_len, true);
            } else {
                assert(labeled(body.break_indexes@, ""@) =~= Seq::<usize>::empty());
            }
            assert(builder.instructions@ == loop_after_breaks(body, pos, stack_len));
            let continues = take_entry(&mut builder.continue_indexes, &label);
            if let Some(idxs) = continues {
                patch_jumps(&mut builder.instructions, &idxs, total, stack_len, false);
            } else {
                assert(labeled(body.continue_indexes@, ""@) =~= Seq::<usize>::empty());
            }
        } else {
            proof {
                assert(entries_map(body.break_indexes@) =~= Map::empty());
                assert(entries_map(body.continue_indexes@) =~= Map::empty());
                assert(labeled(body.break_indexes@, ""@) =~= Seq::<usize>::empty());
                assert(labeled(body.continue_indexes@, ""@) =~= Seq::<usize>::empty());
                assert(entries_map(body.break_indexes@).remove(""@) =~= Map::empty());
                assert(entries_map(body.continue_indexes@).remove(""@) =~= Map::empty());
            }
        }
        builder
    }
}

} // verus!
