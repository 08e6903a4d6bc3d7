use vstd::prelude::*;

use crate::entries::{entries_map, keys_unique};
use crate::env::PrimaryExpr;
use crate::error::Pos;
use crate::interpreter::ast::node::DataType;
use crate::parse::ParseNode;

verus! {

/// A relative jump: the instruction `jump` places further on (back when negative).
#[derive(Clone, Copy, Debug, PartialEq, Eq, Structural)]
pub struct JumpControl {
    pub jump: i64,
}

/// A jump out of (or back to the start of) a loop, that first drops
/// `unstack_len` values from the program stack.
#[derive(Clone, Copy, Debug, PartialEq, Eq, Structural)]
pub struct BreakLoopControl {
    pub jump: i64,
    pub unstack_len: usize,
}

/// What an instruction of the virtual machine does.
#[derive(Debug)]
pub enum InstructionType {
    Empty,
    Jump(JumpControl),
    Break(BreakLoopControl),
    Return { has_value: bool },
    Destruct,
    EndProgram,
    Declaration { unstack_len: usize },
    GlobalReads { variables: Vec<String> },
    Expression(ParseNode),
    Push(PrimaryExpr),
}

/// An instruction and the place in the source that it comes from.
#[derive(Debug)]
pub struct Instruction {
    pub control: InstructionType,
    pub pos: Option<Pos>,
}

/// The code compiled for a statement, with the places of its `break` and
/// `continue` instructions (by loop label; the empty label is the innermost
/// loop) and of its `return` instructions, which the enclosing constructs
/// still have to fill in.
#[derive(Debug)]
pub struct InstructionBuilderOk {
    pub instructions: Vec<Instruction>,
    pub break_indexes: Vec<(String, Vec<usize>)>,
    pub continue_indexes: Vec<(String, Vec<usize>)>,
    pub return_indexes: Vec<usize>,
}

impl InstructionBuilderOk {
    /// The code has jumps that the enclosing constructs still have to fill in.
    pub open spec fn spec_contains_jump(&self) -> bool {
        self.break_indexes@.len() > 0 || self.continue_indexes@.len() > 0
            || self.return_indexes@.len() > 0
    }

    /// Whether the code has jumps that the enclosing constructs still have to
    /// fill in.
    pub fn contains_jump(&self) -> (r: bool)
        ensures
            r == self.spec_contains_jump(),
    {
        self.break_indexes.len() > 0 || self.continue_indexes.len() > 0
            || self.return_indexes.len() > 0
    }

    /// Each label has at most one list of jump places.
    pub open spec fn well_formed(&self) -> bool {
        &&& keys_unique(self.break_indexes@)
        &&& keys_unique(self.continue_indexes@)
    }
}

/// The places of the jumps for label `label`, none when it has no entry.
pub open spec fn labeled(entries: Seq<(String, Vec<usize>)>, label: Seq<char>) -> Seq<usize> {
    if entries_map(entries).contains_key(label) {
        entries_map(entries)[label]@
    } else {
        seq![]
    }
}

/// The instruction at `idx` is a loop jump that can drop `stack_len` values.
pub open spec fn break_at(instrs: Seq<Instruction>, idx: usize, stack_len: usize) -> bool {
    &&& idx < instrs.len()
    &&& match instrs[idx as int].control {
        InstructionType::Break(bc) => bc.unstack_len >= stack_len,
        _ => false,
    }
}

/// The loop jump at `idx` filled in: a `break` jumps to the instruction after
/// the loop (`total - idx` places on), a `continue` back to the start of the
/// loop (`idx` places back); both drop only what the loop pushed, i.e. all
/// but `stack_len` of the values they would drop.
pub open spec fn patch_one(
    instrs: Seq<Instruction>,
    idx: usize,
    total: int,
    stack_len: usize,
    is_break: bool,
) -> Seq<Instruction> {
    match instrs[idx as int].control {
        InstructionType::Break(bc) => instrs.update(
            idx as int,
            Instruction {
                control: InstructionType::Break(
                    BreakLoopControl {
                        jump: if is_break {
                            (total - idx) as i64
                        } else {
                            (0 - idx) as i64
                        },
                        unstack_len: (bc.unstack_len - stack_len) as usize,
                    },
                ),
                pos: instrs[idx as int].pos,
            },
        ),
        _ => instrs,
    }
}

/// The loop jumps at the places `idxs` filled in, one after the other.
pub open spec fn patch_all(
    instrs: Seq<Instruction>,
    idxs: Seq<usize>,
    total: int,
    stack_len: usize,
    is_break: bool,
) -> Seq<Instruction>
    decreases idxs.len(),
{
    if idxs.len() == 0 {
        instrs
    } else {
        patch_one(
            patch_all(instrs, idxs.drop_last(), total, stack_len, is_break),
            idxs.last(),
            total,
            stack_len,
            is_break,
        )
    }
}

/// Each place of `idxs`, when its turn comes, holds a loop jump that can drop
/// `stack_len` values.
pub open spec fn patchable(
    instrs: Seq<Instruction>,
    idxs: Seq<usize>,
    total: int,
    stack_len: usize,
    is_break: bool,
) -> bool {
    forall|k: int|
        0 <= k < idxs.len() ==> #[trigger] break_at(
            patch_all(instrs, idxs.take(k), total, stack_len, is_break),
            idxs[k],
            stack_len,
        )
}

/// The place where a filled-in loop jump at `idx` lands.
pub open spec fn jump_target(idx: usize, total: int, is_break: bool) -> int {
    if is_break {
        total
    } else {
        0
    }
}

/// Filling in loop jumps keeps the length of the code; each filled-in place
/// holds a loop jump that lands on its target, and every other place is left
/// as it was.
pub proof fn lemma_patch_all(
    instrs: Seq<Instruction>,
    idxs: Seq<usize>,
    total: int,
    stack_len: usize,
    is_break: bool,
)
    requires
        instrs.len() <= total <= i64::MAX,
        patchable(instrs, idxs, total, stack_len, is_break),
    ensures
        patch_all(instrs, idxs, total, stack_len, is_break).len() == instrs.len(),
        forall|k: int| 0 <= k < idxs.len() ==> #[trigger] idxs[k] < instrs.len(),
        forall|k: int|
            0 <= k < idxs.len() ==> match #[trigger] patch_all(
                instrs,
                idxs,
                total,
                stack_len,
                is_break,
            )[idxs[k] as int].control {
                InstructionType::Break(bc) => idxs[k] + bc.jump == jump_target(
                    idxs[k],
                    total,
                    is_break,
                ),
                _ => false,
            },
        forall|j: int|
            0 <= j < instrs.len() && !idxs.contains(j as usize) ==> #[trigger] patch_all(
                instrs,
                idxs,
                total,
                stack_len,
                is_break,
            )[j] == instrs[j],
    decreases idxs.len(),
{
    if idxs.len() > 0 {
        let front = idxs.drop_last();
        assert forall|k: int| 0 <= k < front.len() implies #[trigger] break_at(
            patch_all(instrs, front.take(k), total, stack_len, is_break),
            front[k],
            stack_len,
        ) by {
            assert(front.take(k) =~= idxs.take(k));
            assert(break_at(
                patch_all(instrs, idxs.take(k), total, stack_len, is_break),
                idxs[k],
                stack_len,
            ));
        }
        lemma_patch_all(instrs, front, total, stack_len, is_break);
        let prev = patch_all(instrs, front, total, stack_len, is_break);
        let last = idxs.last();
        assert(idxs.take(idxs.len() - 1) =~= front);
        assert(break_at(prev, last, stack_len));
        let cur = patch_all(instrs, idxs, total, stack_len, is_break);
        assert(cur == patch_one(prev, last, total, stack_len, is_break));
        assert forall|k: int| 0 <= k < idxs.len() implies #[trigger] idxs[k] < instrs.len() by {
            if k < front.len() {
                assert(front[k] == idxs[k]);
            }
        }
        assert forall|k: int| 0 <= k < idxs.len() implies match #[trigger] cur[idxs[k] as int].control {
            InstructionType::Break(bc) => idxs[k] + bc.jump == jump_target(idxs[k], total, is_break),
            _ => false,
        } by {
            if idxs[k] != last {
                assert(front[k] == idxs[k]);
                assert(cur[idxs[k] as int] == prev[front[k] as int]);
                assert(match prev[front[k] as int].control {
                    InstructionType::Break(bc) => front[k] + bc.jump == jump_target(
                        front[k],
                        total,
                        is_break,
                    ),
                    _ => false,
                });
            } else {
                assert(last < prev.len());
                let t = total - last;
                assert(0 <= t <= i64::MAX);
                assert((t as i64) as int == t);
                assert(((0 - last) as i64) as int == 0 - last);
            }
        }
        assert forall|j: int| 0 <= j < instrs.len() && !idxs.contains(j as usize) implies #[trigger] cur[j]
            == instrs[j] by {
            assert(j != last);
            if front.contains(j as usize) {
                let k = choose|k: int| 0 <= k < front.len() && front[k] == j as usize;
                assert(idxs[k] == j as usize);
            }
        }
    }
}

/// `idx` is listed exactly once among `idxs`.
pub open spec fn listed_once(idxs: Seq<usize>, idx: usize) -> bool {
    exists|k: int|
        0 <= k < idxs.len() && #[trigger] idxs[k] == idx && (forall|m: int|
            0 <= m < idxs.len() && #[trigger] idxs[m] == idx ==> m == k)
}

/// A loop jump filled in at a place that is listed once keeps all but
/// `stack_len` of the values that it dropped before: it drops only what the
/// loop pushed.
pub proof fn lemma_patch_all_drops(
    instrs: Seq<Instruction>,
    idxs: Seq<usize>,
    total: int,
    stack_len: usize,
    is_break: bool,
    idx: usize,
)
    requires
        instrs.len() <= total <= i64::MAX,
        patchable(instrs, idxs, total, stack_len, is_break),
        listed_once(idxs, idx),
    ensures
        match instrs[idx as int].control {
            InstructionType::Break(b0) => match patch_all(
                instrs,
                idxs,
                total,
                stack_len,
                is_break,
            )[idx as int].control {
                InstructionType::Break(bc) => bc.unstack_len == b0.unstack_len - stack_len,
                _ => false,
            },
            _ => false,
        },
    decreases idxs.len(),
{
    let front = idxs.drop_last();
    let last = idxs.last();
    assert forall|k: int| 0 <= k < front.len() implies #[trigger] break_at(
        patch_all(instrs, front.take(k), total, stack_len, is_break),
        front[k],
        stack_len,
    ) by {
        assert(front.take(k) =~= idxs.take(k));
        assert(break_at(
            patch_all(instrs, idxs.take(k), total, stack_len, is_break),
            idxs[k],
            stack_len,
        ));
    }
    lemma_patch_all(instrs, front, total, stack_len, is_break);
    lemma_patch_all(instrs, idxs, total, stack_len, is_break);
    let prev = patch_all(instrs, front, total, stack_len, is_break);
    let cur = patch_all(instrs, idxs, total, stack_len, is_break);
    assert(idxs.take(idxs.len() - 1) =~= front);
    assert(break_at(prev, last, stack_len));
    assert(cur == patch_one(prev, last, total, stack_len, is_break));
    let k = choose|k: int|
        0 <= k < idxs.len() && #[trigger] idxs[k] == idx && (forall|m: int|
            0 <= m < idxs.len() && #[trigger] idxs[m] == idx ==> m == k);
    assert(idx < instrs.len());
    if last == idx {
        assert(k == idxs.len() - 1);
        assert(!front.contains(idx)) by {
            if front.contains(idx) {
                let m = choose|m: int| 0 <= m < front.len() && front[m] == idx;
                assert(idxs[m] == idx);
            }
        }
        assert(prev[idx as int] == instrs[idx as int]);
    } else {
        assert(k < front.len());
        assert(front[k] == idx);
        assert forall|m: int| 0 <= m < front.len() && #[trigger] front[m] == idx implies m == k by {
            assert(idxs[m] == front[m]);
        }
        assert(listed_once(front, idx));
        lemma_patch_all_drops(instrs, front, total, stack_len, is_break, idx);
        assert(cur[idx as int] == prev[idx as int]);
    }
}

/// A place that holds no loop jump is never among the places to fill in.
pub proof fn lemma_patchable_skips(
    instrs: Seq<Instruction>,
    idxs: Seq<usize>,
    total: int,
    stack_len: usize,
    is_break: bool,
    j: usize,
)
    requires
        instrs.len() <= total <= i64::MAX,
        patchable(instrs, idxs, total, stack_len, is_break),
        j < instrs.len(),
        !(instrs[j as int].control is Break),
    ensures
        !idxs.contains(j),
{
    if idxs.contains(j) {
        let k0 = choose|k: int| 0 <= k < idxs.len() && idxs[k] == j;
        let k = choose_first(idxs, j, k0);
        let front = idxs.take(k);
        assert forall|a: int| 0 <= a < front.len() implies #[trigger] break_at(
            patch_all(instrs, front.take(a), total, stack_len, is_break),
            front[a],
            stack_len,
        ) by {
            assert(front.take(a) =~= idxs.take(a));
            assert(break_at(
                patch_all(instrs, idxs.take(a), total, stack_len, is_break),
                idxs[a],
                stack_len,
            ));
        }
        lemma_patch_all(instrs, front, total, stack_len, is_break);
        assert(!front.contains(j));
        assert(patch_all(instrs, front, total, stack_len, is_break)[j as int] == instrs[j as int]);
        assert(break_at(patch_all(instrs, idxs.take(k), total, stack_len, is_break), idxs[k], stack_len));
    }
}

/// The first place of `j` in `s`, given one place `k` of it.
proof fn choose_first(s: Seq<usize>, j: usize, k: int) -> (f: int)
    requires
        0 <= k < s.len(),
        s[k] == j,
    ensures
        0 <= f <= k,
        s[f] == j,
        !s.take(f).contains(j),
    decreases k,
{
    if s.take(k).contains(j) {
        let k2 = choose|i: int| 0 <= i < s.take(k).len() && s.take(k)[i] == j;
        choose_first(s, j, k2)
    } else {
        k
    }
}

/// Fills in the loop jumps at the places `idxs`, in order, as `patch_all` says.
pub fn patch_jumps(
    instrs: &mut Vec<Instruction>,
    idxs: &Vec<usize>,
    total: usize,
    stack_len: usize,
    is_break: bool,
)
    requires
        total <= i64::MAX,
        old(instrs)@.len() <= total,
        patchable(old(instrs)@, idxs@, total as int, stack_len, is_break),
    ensures
        final(instrs)@ == patch_all(old(instrs)@, idxs@, total as int, stack_len, is_break),
        final(instrs)@.len() == old(instrs)@.len(),
{
    let ghost orig = instrs@;
    let mut k: usize = 0;
    assert(idxs@.take(0) =~= Seq::<usize>::empty());
    while k < idxs.len()
        invariant
            k <= idxs.len(),
            total <= i64::MAX,
            orig.len() <= total,
            patchable(orig, idxs@, total as int, stack_len, is_break),
            instrs@ == patch_all(orig, idxs@.take(k as int), total as int, stack_len, is_break),
            instrs@.len() == orig.len(),
        decreases idxs.len() - k,
    {
        let idx = idxs[k];
        proof {
            assert(break_at(instrs@, idx, stack_len));
            assert(idxs@.take(k + 1).drop_last() =~= idxs@.take(k as int));
            assert(idxs@.take(k + 1).last() == idx);
        }
        let unstack = match &instrs[idx].control {
            InstructionType::Break(bc) => bc.unstack_len,
            _ => 0,
        };
        let pos = instrs[idx].pos;
        let jump = if is_break {
            (total - idx) as i64
        } else {
            -(idx as i64)
        };
        instrs.set(
            idx,
            Instruction {
                control: InstructionType::Break(
                    BreakLoopControl { jump, unstack_len: unstack - stack_len },
                ),
                pos,
            },
        );
        k = k + 1;
    }
    assert(idxs@.take(idxs@.len() as int) =~= idxs@);
}

/// The compiled code of a program: its instructions and its name.
#[derive(Debug)]
pub struct ProgramCode {
    pub instructions: Vec<Instruction>,
    pub name: String,
}

/// A variable on the compiler's stack of declared variables.
#[derive(Debug)]
pub struct Variable {
    pub name: String,
    pub depth: usize,
    pub mutable: bool,
    pub datatype: DataType,
    pub declare_pos: Option<Pos>,
}

impl Variable {
    /// A copy of the variable.
    pub fn copy_of(&self) -> (r: Variable)
        ensures
            r == *self,
    {
        Variable {
            name: self.name.clone(),
            depth: self.depth,
            mutable: self.mutable,
            datatype: self.datatype,
            declare_pos: self.declare_pos,
        }
    }
}

/// What the compiler knows while it compiles: the variables declared so far,
/// the depth of the current scope, the program being compiled, whether it is
/// in a function or in the `shared` block, the shared variables, the
/// functions and the parameter types of the programs, and the channels used
/// but not declared (with the program that uses each and where).
#[derive(Debug)]
pub struct CompilerState {
    pub program_stack: Vec<Variable>,
    pub current_stack_depth: usize,
    pub current_program_name: String,
    pub in_function: bool,
    pub is_shared: bool,
    pub global_table: Vec<(String, Variable)>,
    pub user_functions: Vec<(String, FunctionDefinition)>,
    pub program_arguments: Vec<(String, Vec<DataType>)>,
    pub undefined_channels: Vec<((String, String), Pos)>,
}

impl CompilerState {
    /// The state before anything is compiled: no variable, depth 0, no
    /// current program, outside any function and the `shared` block, and
    /// every table empty.
    pub fn new() -> (s: Self)
        ensures
            s.program_stack@.len() == 0,
            s.current_stack_depth == 0,
            s.current_program_name@ == Seq::<char>::empty(),
            !s.in_function,
            !s.is_shared,
            s.global_table@.len() == 0,
            s.user_functions@.len() == 0,
            s.program_arguments@.len() == 0,
            s.undefined_channels@.len() == 0,
    {
        CompilerState {
            program_stack: Vec::new(),
            current_stack_depth: 0,
            current_program_name: String::new(),
            in_function: false,
            is_shared: false,
            global_table: Vec::new(),
            user_functions: Vec::new(),
            program_arguments: Vec::new(),
            undefined_channels: Vec::new(),
        }
    }
}

impl CompilerState {
    /// Closes the current scope: the variables declared at the current depth
    /// on top of the stack are taken off, and the depth goes back by one.
    /// Gives the number of variables taken off.
    pub fn unstack_current_depth(&mut self) -> (r: usize)
        requires
            old(self).current_stack_depth > 0,
        ensures
            r <= old(self).program_stack@.len(),
            final(self).program_stack@ == old(self).program_stack@.take(
                old(self).program_stack@.len() - r,
            ),
            forall|j: int|
                old(self).program_stack@.len() - r <= j < old(self).program_stack@.len()
                    ==> #[trigger] old(self).program_stack@[j].depth == old(self).current_stack_depth,
            final(self).program_stack@.len() > 0 ==> final(self).program_stack@.last().depth
                != old(self).current_stack_depth,
            final(self).current_stack_depth == old(self).current_stack_depth - 1,
            final(self).current_program_name == old(self).current_program_name,
            final(self).in_function == old(self).in_function,
            final(self).is_shared == old(self).is_shared,
            final(self).global_table == old(self).global_table,
            final(self).user_functions == old(self).user_functions,
            final(self).program_arguments == old(self).program_arguments,
            final(self).undefined_channels == old(self).undefined_channels,
            final(self)@ == unstacked(old(self)@),
    {
        let ghost s0 = self.program_stack@;
        let n: usize = self.program_stack.len();
        let mut r: usize = 0;
        while self.program_stack.len() > 0 && self.program_stack[self.program_stack.len() - 1].depth
            == self.current_stack_depth
            invariant
                r <= s0.len(),
                s0.len() == n,
                self.program_stack@ == s0.take(s0.len() - r),
                trailing_at_depth(s0, old(self).current_stack_depth) == r + trailing_at_depth(
                    self.program_stack@,
                    old(self).current_stack_depth,
                ),
                self.current_stack_depth == old(self).current_stack_depth,
                forall|j: int| s0.len() - r <= j < s0.len() ==> #[trigger] s0[j].depth
                    == old(self).current_stack_depth,
                self.current_program_name == old(self).current_program_name,
                self.in_function == old(self).in_function,
                self.is_shared == old(self).is_shared,
                self.global_table == old(self).global_table,
                self.user_functions == old(self).user_functions,
                self.program_arguments == old(self).program_arguments,
                self.undefined_channels == old(self).undefined_channels,
            decreases self.program_stack@.len(),
        {
            proof {
                assert(self.program_stack@.drop_last() =~= s0.take(s0.len() - r - 1));
            }
            let _ = self.program_stack.pop();
            r = r + 1;
            proof {
                assert(self.program_stack@ =~= s0.take(s0.len() - r));
            }
        }
        self.current_stack_depth = self.current_stack_depth - 1;
        proof {
            assert(self@ =~= unstacked(old(self)@));
        }
        r
    }
}

/// A function of the program: its name, its parameters (name and type), its
/// return type, its compiled body, and where its body is written.
#[derive(Debug)]
pub struct FunctionDefinition {
    pub name: String,
    pub arguments: Vec<(String, DataType)>,
    pub return_type: DataType,
    pub body: Vec<Instruction>,
    pub pos: Pos,
}

/// What a function definition holds: its name, its parameters, its return
/// type, its body and its place.
pub type FunctionView = (Seq<char>, Seq<(String, DataType)>, DataType, Seq<Instruction>, Pos);

impl View for FunctionDefinition {
    type V = FunctionView;

    open spec fn view(&self) -> FunctionView {
        (self.name@, self.arguments@, self.return_type, self.body@, self.pos)
    }
}

/// What the compiler's state holds, with its lists taken by their contents.
#[verifier::ext_equal]
pub struct CompilerStateView {
    pub program_stack: Seq<Variable>,
    pub current_stack_depth: usize,
    pub current_program_name: Seq<char>,
    pub in_function: bool,
    pub is_shared: bool,
    pub global_table: Seq<(String, Variable)>,
    pub user_functions: Seq<(String, FunctionView)>,
    pub program_arguments: Seq<(String, Seq<DataType>)>,
    pub undefined_channels: Seq<((String, String), Pos)>,
}

/// The functions of a list of entries, each taken by its view.
pub open spec fn functions_view(s: Seq<(String, FunctionDefinition)>) -> Seq<(String, FunctionView)> {
    s.map_values(|e: (String, FunctionDefinition)| (e.0, e.1@))
}

/// The parameter types of a list of programs, each list taken by its contents.
pub open spec fn arguments_view(s: Seq<(String, Vec<DataType>)>) -> Seq<(String, Seq<DataType>)> {
    s.map_values(|e: (String, Vec<DataType>)| (e.0, e.1@))
}

impl View for CompilerState {
    type V = CompilerStateView;

    open spec fn view(&self) -> CompilerStateView {
        CompilerStateView {
            program_stack: self.program_stack@,
            current_stack_depth: self.current_stack_depth,
            current_program_name: self.current_program_name@,
            in_function: self.in_function,
            is_shared: self.is_shared,
            global_table: self.global_table@,
            user_functions: functions_view(self.user_functions@),
            program_arguments: arguments_view(self.program_arguments@),
            undefined_channels: self.undefined_channels@,
        }
    }
}

/// The number of variables at the top of `stack` declared at depth `depth`.
pub open spec fn trailing_at_depth(stack: Seq<Variable>, depth: usize) -> nat
    decreases stack.len(),
{
    if stack.len() > 0 && stack.last().depth == depth {
        1 + trailing_at_depth(stack.drop_last(), depth)
    } else {
        0
    }
}

/// The state with its current scope closed: the variables declared at the
/// current depth taken off the top of the stack, and the depth back by one.
pub open spec fn unstacked(s: CompilerStateView) -> CompilerStateView {
    CompilerStateView {
        program_stack: s.program_stack.take(
            s.program_stack.len() - trailing_at_depth(s.program_stack, s.current_stack_depth),
        ),
        current_stack_depth: (s.current_stack_depth - 1) as usize,
        ..s
    }
}

} // verus!
