use vstd::prelude::*;

use crate::entries::{entries_map, entry_set, get_entry, insert_entry, keys_unique, lemma_entries_map};
use crate::env::PrimaryExpr;
use crate::error::{pos_or_none, AlthreadError, AlthreadResult, ErrorType, Pos};
use crate::interpreter::ast::block::Block;
use crate::interpreter::ast::node::Node;
use crate::interpreter::ast::statement::Statement;
use crate::interpreter::ast::node::{ArgsList, ConditionKeyword, DataType};
use crate::interpreter::ast::condition_block::ConditionBlock;
use crate::interpreter::ast::{
    lemma_void_body_returns,
    always_condition,
    always_condition_error,
    check_undefined_channels,
    closed_body,
    function_entered,
    leave_function,
    missing_return_view,
    shared_statement_view,
    undefined_channel_view,
    AlwaysCondition,
    Ast,
};
use crate::interpreter::compiler::{
    arguments_view,
    functions_view,
    unstacked,
    CompilerState,
    CompilerStateView,
    FunctionView,
    FunctionDefinition,
    Instruction,
    InstructionBuilderOk,
    InstructionType,
    ProgramCode,
    Variable,
};
use crate::parse::ParseNode;

verus! {

/// The parts of the compiler that work inside statements and expressions:
/// compiling a statement or a block, evaluating an expression over the
/// values of the shared variables declared so far, and finding where a path
/// of a function body ends without a `return`. Each is described by a spec
/// function of the implementing type: what compiling gives, and the state it
/// leaves, is a function of the node and of the state it starts from (taken
/// by its view).
pub trait ProgramCompiler: Sized {
    /// The code of `node` compiled in `state`, and the state compiling leaves.
    spec fn statement_code(&self, node: Node<Statement>, state: CompilerStateView) -> (
        AlthreadResult<InstructionBuilderOk>,
        CompilerStateView,
    );

    /// The code of `block` compiled in `state`, and the state compiling leaves.
    spec fn block_code(&self, block: Node<Block>, state: CompilerStateView) -> (
        AlthreadResult<InstructionBuilderOk>,
        CompilerStateView,
    );

    /// The value of `expr` when the shared variables declared so far hold
    /// `memory`, or the message of the error that evaluating it gives.
    spec fn expression_value(&self, expr: ParseNode, memory: Seq<PrimaryExpr>) -> Result<
        PrimaryExpr,
        String,
    >;

    /// The first place where a path of the function body `block` ends
    /// without a `return`, if any.
    spec fn missing_return_of(&self, block: Node<Block>) -> Option<Pos>;

    /// Compiles a statement.
    fn compile_statement(&self, node: &Node<Statement>, state: &mut CompilerState) -> (r:
        AlthreadResult<InstructionBuilderOk>)
        ensures
            r == self.statement_code(*node, old(state)@).0,
            final(state)@ == self.statement_code(*node, old(state)@).1,
    ;

    /// Compiles a block.
    fn compile_block(&self, block: &Node<Block>, state: &mut CompilerState) -> (r: AlthreadResult<
        InstructionBuilderOk,
    >)
        ensures
            r == self.block_code(*block, old(state)@).0,
            final(state)@ == self.block_code(*block, old(state)@).1,
    ;

    /// Evaluates an expression over the values of the shared variables.
    fn eval_expression(&self, expr: &ParseNode, memory: &Vec<PrimaryExpr>) -> (r: Result<
        PrimaryExpr,
        String,
    >)
        ensures
            r == self.expression_value(*expr, memory@),
    ;

    /// Finds the first place where a path of a function body ends without a
    /// `return`.
    fn first_missing_return(&self, block: &Node<Block>) -> (r: Option<Pos>)
        ensures
            r == self.missing_return_of(*block),
    ;
}

/// The code of a declaration of the `shared` block has the shape that the
/// shared memory is read from: each instruction is an expression, a pushed
/// value or the declaration of one variable, and one at least is an
/// expression or a pushed value.
pub open spec fn shared_code(code: Seq<Instruction>) -> bool {
    &&& forall|i: int|
        0 <= i < code.len() ==> (#[trigger] code[i]).control is Expression || code[i].control is Push
            || code[i].control == (InstructionType::Declaration { unstack_len: 1 })
    &&& exists|i: int|
        0 <= i < code.len() && ((#[trigger] code[i]).control is Expression || code[i].control is Push)
}

/// The value that the code of a shared declaration gives, read in order
/// from `found` on: an expression is evaluated over `memory` (an error of
/// the evaluation is an expression error at the instruction's place), a
/// pushed value is taken as it is, and the last of them is the value.
pub open spec fn literal_of<C: ProgramCompiler>(
    c: C,
    code: Seq<Instruction>,
    memory: Seq<PrimaryExpr>,
    found: Option<PrimaryExpr>,
) -> Result<Option<PrimaryExpr>, (Pos, ErrorType, Seq<char>)>
    decreases code.len(),
{
    if code.len() == 0 {
        Ok(found)
    } else {
        match code[0].control {
            InstructionType::Expression(exp) => match c.expression_value(exp, memory) {
                Ok(v) => literal_of(c, code.drop_first(), memory, Some(v)),
                Err(m) => Err((pos_or_none(code[0].pos), ErrorType::ExpressionError, m@)),
            },
            InstructionType::Push(v) => literal_of(c, code.drop_first(), memory, Some(v)),
            _ => literal_of(c, code.drop_first(), memory, found),
        }
    }
}

/// Reads the value of a shared declaration from its compiled code: see
/// `literal_of`.
pub fn shared_literal<C: ProgramCompiler>(c: &C, code: &Vec<Instruction>, memory: &Vec<PrimaryExpr>) -> (r:
    AlthreadResult<PrimaryExpr>)
    requires
        shared_code(code@),
    ensures
        r is Ok <==> literal_of(*c, code@, memory@, None) is Ok,
        r matches Ok(v) ==> literal_of(*c, code@, memory@, None) == Ok::<_, (Pos, ErrorType, Seq<char>)>(Some(v)),
        r matches Err(e) ==> literal_of(*c, code@, memory@, None) == Err::<Option<PrimaryExpr>, _>(e@),
{
    let mut found: Option<PrimaryExpr> = None;
    let mut i: usize = 0;
    assert(code@.skip(0) =~= code@);
    while i < code.len()
        invariant
            i <= code@.len(),
            shared_code(code@),
            literal_of(*c, code@, memory@, None) == literal_of(*c, code@.skip(i as int), memory@, found),
            (exists|j: int| 0 <= j < i && ((#[trigger] code@[j]).control is Expression || code@[j].control is Push)) ==> found is Some,
        decreases code@.len() - i,
    {
        proof {
            assert(code@.skip(i as int)[0] == code@[i as int]);
            assert(code@.skip(i as int).drop_first() =~= code@.skip(i + 1));
        }
        match &code[i].control {
            InstructionType::Expression(exp) => {
                match c.eval_expression(exp, memory) {
                    Ok(v) => {
                        found = Some(v);
                    },
                    Err(m) => {
                        return Err(AlthreadError::new(ErrorType::ExpressionError, code[i].pos, m));
                    },
                }
            },
            InstructionType::Push(v) => {
                found = Some(v.copy_of());
            },
            _ => {},
        }
        i = i + 1;
    }
    proof {
        assert(code@.skip(i as int) =~= Seq::<Instruction>::empty());
        let j = choose|j: int| 0 <= j < code@.len() && ((#[trigger] code@[j]).control is Expression || code@[j].control is Push);
        assert(0 <= j < i);
    }
    match found {
        Some(v) => Ok(v),
        None => {
            assert(false);
            Err(AlthreadError::new(ErrorType::ExpressionError, None, String::new()))
        },
    }
}

/// Compiling statements and blocks leaves the depth of the scopes, whether
/// the compiler is in a function or in the `shared` block, and the table of
/// functions as they were.
pub open spec fn compiler_keeps<C: ProgramCompiler>(c: C) -> bool {
    &&& forall|n: Node<Statement>, s: CompilerStateView| {
        let t = (#[trigger] c.statement_code(n, s)).1;
        &&& t.current_stack_depth == s.current_stack_depth
        &&& t.is_shared == s.is_shared
        &&& t.in_function == s.in_function
        &&& t.user_functions == s.user_functions
    }
    &&& forall|b: Node<Block>, s: CompilerStateView| {
        let t = (#[trigger] c.block_code(b, s)).1;
        &&& t.current_stack_depth == s.current_stack_depth
        &&& t.is_shared == s.is_shared
        &&& t.in_function == s.in_function
        &&& t.user_functions == s.user_functions
    }
}

/// A declaration of the `shared` block compiles to code of the shape that
/// `shared_code` says, and leaves the declared variable on the stack.
pub open spec fn shared_well_compiled<C: ProgramCompiler>(c: C) -> bool {
    forall|n: Node<Statement>, s: CompilerStateView|
        s.is_shared && n.value is Declaration ==> match #[trigger] c.statement_code(n, s) {
            (Ok(b), t) => shared_code(b.instructions@) && t.program_stack.len() > 0,
            _ => true,
        }
}

/// A program block compiled outside any function has no jump left to fill
/// in.
pub open spec fn programs_without_jumps<C: ProgramCompiler>(c: C) -> bool {
    forall|b: Node<Block>, s: CompilerStateView|
        !s.in_function ==> match (#[trigger] c.block_code(b, s)).0 {
            Ok(x) => !x.spec_contains_jump(),
            _ => true,
        }
}

/// Every program declares at least as many types as parameter names.
pub open spec fn programs_typed(ast: &Ast) -> bool {
    forall|k: Seq<char>| #[trigger]
        ast.processes().contains_key(k) ==> ast.processes()[k].0.value.datatypes@.len()
            >= ast.processes()[k].0.value.identifiers@.len()
}

/// The values of the shared variables that `bindings` declares, in order: a
/// later declaration of a name replaces an earlier one.
pub open spec fn memory_map(bindings: Seq<(Variable, PrimaryExpr)>) -> Map<Seq<char>, PrimaryExpr>
    decreases bindings.len(),
{
    if bindings.len() == 0 {
        Map::empty()
    } else {
        memory_map(bindings.drop_last()).insert(bindings.last().0.name@, bindings.last().1)
    }
}

/// The table of shared variables that `bindings` declares, as the compiler
/// keeps it: a later declaration of a name replaces the entry of an earlier
/// one.
pub open spec fn table_seq(bindings: Seq<(Variable, PrimaryExpr)>) -> Seq<(String, Variable)>
    decreases bindings.len(),
{
    if bindings.len() == 0 {
        seq![]
    } else {
        entry_set(table_seq(bindings.drop_last()), bindings.last().0.name, bindings.last().0)
    }
}

/// What compiling the statements of the `shared` block from the `i`-th on
/// gives, from `state`, with the values `memory` and the declarations
/// `bindings` read so far: each statement must be a declaration; it is
/// compiled, and its value read from its code over the values before it;
/// the variable it declares (the one on top of the stack after it) is bound
/// to that value. The first error ends the block.
pub open spec fn shared_run<C: ProgramCompiler>(
    c: C,
    nodes: Seq<Node<Statement>>,
    i: int,
    state: CompilerStateView,
    memory: Seq<PrimaryExpr>,
    bindings: Seq<(Variable, PrimaryExpr)>,
) -> (Result<Seq<(Variable, PrimaryExpr)>, (Pos, ErrorType, Seq<char>)>, CompilerStateView)
    decreases nodes.len() - i,
{
    if i < 0 || i >= nodes.len() {
        (Ok(bindings), state)
    } else if !(nodes[i].value is Declaration) {
        (Err(shared_statement_view(nodes[i].pos)), state)
    } else {
        let (r, next) = c.statement_code(nodes[i], state);
        match r {
            Err(e) => (Err(e@), next),
            Ok(b) => match literal_of(c, b.instructions@, memory, None) {
                Err(e) => (Err(e), next),
                Ok(v) => shared_run(
                    c,
                    nodes,
                    i + 1,
                    next,
                    memory.push(v.unwrap()),
                    bindings.push((next.program_stack.last(), v.unwrap())),
                ),
            },
        }
    }
}

/// Compiles the statements of the `shared` block from `state`: what it
/// answers is `shared_run`'s; on success the values of the shared variables
/// are given by name, and the shared variables become the state's table of
/// globals.
pub fn compile_shared<C: ProgramCompiler>(c: &C, global: &Node<Block>, state: &mut CompilerState) -> (r:
    AlthreadResult<Vec<(String, PrimaryExpr)>>)
    requires
        compiler_keeps(*c),
        shared_well_compiled(*c),
        old(state).is_shared,
    ensures
        match shared_run(*c, global.value.children@, 0, old(state)@, seq![], seq![]) {
            (Err(v), _) => r matches Err(e) && e@ == v,
            (Ok(bindings), after) => r matches Ok(m) && keys_unique(m@) && entries_map(m@)
                == memory_map(bindings) && final(state)@ == (CompilerStateView {
                global_table: table_seq(bindings),
                ..after
            }),
        },
        final(state).current_stack_depth == old(state).current_stack_depth,
        final(state).in_function == old(state).in_function,
        r is Ok ==> final(state).user_functions@.len() == old(state).user_functions@.len(),
{
    let children = &global.value.children;
    let mut memory: Vec<PrimaryExpr> = Vec::new();
    let mut global_memory: Vec<(String, PrimaryExpr)> = Vec::new();
    let mut global_table: Vec<(String, Variable)> = Vec::new();
    let ghost mut bindings: Seq<(Variable, PrimaryExpr)> = seq![];
    let ghost start = state@;
    let ghost n_uf = state.user_functions@.len();
    let mut i: usize = 0;
    while i < children.len()
        invariant
            compiler_keeps(*c),
            shared_well_compiled(*c),
            start == old(state)@,
            start.is_shared,
            children@ == global.value.children@,
            i <= children@.len(),
            shared_run(*c, children@, 0, start, seq![], seq![]) == shared_run(
                *c,
                children@,
                i as int,
                state@,
                memory@,
                bindings,
            ),
            keys_unique(global_memory@),
            entries_map(global_memory@) == memory_map(bindings),
            keys_unique(global_table@),
            global_table@ == table_seq(bindings),
            state.current_stack_depth == old(state).current_stack_depth,
            state.in_function == old(state).in_function,
            state.is_shared,
            state@.user_functions == start.user_functions,
            n_uf == old(state).user_functions@.len(),
        decreases children@.len() - i,
    {
        let node = &children[i];
        match &node.value {
            Statement::Declaration(_) => {},
            _ => {
                return Err(
                    AlthreadError::new(
                        ErrorType::InstructionNotAllowed,
                        Some(node.pos),
                        String::from_str(
                            "The 'shared' block can only contains assignment from an expression",
                        ),
                    ),
                );
            },
        }
        let ghost before = state@;
        let compiled = match c.compile_statement(node, state) {
            Ok(b) => b,
            Err(e) => {
                return Err(e);
            },
        };
        proof {
            assert(shared_code(compiled.instructions@) && state@.program_stack.len() > 0) by {
                assert(c.statement_code(*node, before).0 == Ok::<InstructionBuilderOk, AlthreadError>(
                    compiled,
                ));
                assert(c.statement_code(*node, before).1 == state@);
            }
        }
        let v = match shared_literal(c, &compiled.instructions, &memory) {
            Ok(v) => v,
            Err(e) => {
                return Err(e);
            },
        };
        let top = state.program_stack.len() - 1;
        let var = state.program_stack[top].copy_of();
        let ghost old_bindings = bindings;
        proof {
            assert(var == state@.program_stack.last());
            bindings = bindings.push((var, v));
            assert(bindings.drop_last() =~= old_bindings);
        }
        insert_entry(&mut global_memory, var.name.clone(), v.copy_of());
        let name = var.name.clone();
        insert_entry(&mut global_table, name, var);
        memory.push(v);
        i = i + 1;
    }
    state.global_table = global_table;
    proof {
        assert(functions_view(state.user_functions@).len() == state.user_functions@.len());
        assert(functions_view(old(state).user_functions@).len() == old(state).user_functions@.len());
    }
    Ok(global_memory)
}

/// The function `f` of the functions table is of a type other than `void`
/// and its body has a path that ends without a `return`.
pub open spec fn misses_return<C: ProgramCompiler>(
    c: C,
    f: (String, (Node<ArgsList>, DataType, Node<Block>)),
) -> bool {
    f.1.1 != DataType::Void && c.missing_return_of(f.1.2) is Some
}

/// The `k`-th function of `fs` is the first that misses a `return`.
pub open spec fn first_missing_return<C: ProgramCompiler>(
    c: C,
    fs: Seq<(String, (Node<ArgsList>, DataType, Node<Block>))>,
    k: int,
) -> bool {
    &&& 0 <= k < fs.len()
    &&& misses_return(c, fs[k])
    &&& forall|j: int| 0 <= j < k ==> !#[trigger] misses_return(c, fs[j])
}

/// The error of the first function of `fs` that misses a `return`, if any.
pub open spec fn missing_return_error<C: ProgramCompiler>(
    c: C,
    fs: Seq<(String, (Node<ArgsList>, DataType, Node<Block>))>,
) -> Option<(Pos, ErrorType, Seq<char>)> {
    if exists|k: int| #[trigger] first_missing_return(c, fs, k) {
        let k = choose|k: int| #[trigger] first_missing_return(c, fs, k);
        Some(missing_return_view(fs[k].0@, c.missing_return_of(fs[k].1.2)->0))
    } else {
        None
    }
}

/// When a function misses a `return`, some function is the first to.
pub proof fn lemma_first_missing_return<C: ProgramCompiler>(
    c: C,
    fs: Seq<(String, (Node<ArgsList>, DataType, Node<Block>))>,
    j: int,
)
    requires
        0 <= j < fs.len(),
        misses_return(c, fs[j]),
    ensures
        exists|k: int| #[trigger] first_missing_return(c, fs, k),
    decreases j,
{
    if forall|i: int| 0 <= i < j ==> !#[trigger] misses_return(c, fs[i]) {
        assert(first_missing_return(c, fs, j));
    } else {
        let i = choose|i: int| 0 <= i < j && #[trigger] misses_return(c, fs[i]);
        lemma_first_missing_return(c, fs, i);
    }
}

/// The number of parameters of a function: as many as it has both names and
/// types for.
pub open spec fn parameter_count(args: Node<ArgsList>) -> nat {
    if args.value.identifiers@.len() <= args.value.datatypes@.len() {
        args.value.identifiers@.len()
    } else {
        args.value.datatypes@.len()
    }
}

/// The parameters of a function, pairs of a name and a type.
pub open spec fn parameters(args: Node<ArgsList>) -> Seq<(String, DataType)> {
    Seq::new(
        parameter_count(args),
        |i: int| (args.value.identifiers@[i].value.value, args.value.datatypes@[i].value),
    )
}

/// The first `n` parameters of `args` as variables declared at depth `depth`.
pub open spec fn parameter_variables(args: Node<ArgsList>, depth: usize, n: nat) -> Seq<Variable> {
    Seq::new(
        n,
        |i: int|
            Variable {
                name: args.value.identifiers@[i].value.value,
                depth,
                mutable: true,
                datatype: args.value.datatypes@[i].value,
                declare_pos: Some(args.value.identifiers@[i].pos),
            },
    )
}

/// The definition of the function `name` of the table entry `entry` with the
/// code `body`.
pub open spec fn definition_view(
    name: Seq<char>,
    entry: (Node<ArgsList>, DataType, Node<Block>),
    body: Seq<Instruction>,
) -> FunctionView {
    (name, parameters(entry.0), entry.1, body, entry.2.pos)
}

/// The prototypes of the functions `fs`: each with an empty body.
pub open spec fn prototypes(fs: Seq<(String, (Node<ArgsList>, DataType, Node<Block>))>) -> Seq<
    (String, FunctionView),
> {
    Seq::new(fs.len(), |i: int| (fs[i].0, definition_view(fs[i].0@, fs[i].1, seq![])))
}

/// The state after entering a function with parameters `args`: one depth
/// further, in a function, the parameters declared at that depth.
pub open spec fn entered(s: CompilerStateView, args: Node<ArgsList>) -> CompilerStateView {
    let d = (s.current_stack_depth + 1) as usize;
    CompilerStateView {
        program_stack: s.program_stack + parameter_variables(args, d, parameter_count(args)),
        current_stack_depth: d,
        in_function: true,
        ..s
    }
}

/// The state after leaving a function whose stack had length `n` before:
/// the stack cut back to `n`, one depth less, out of the function.
pub open spec fn left(s: CompilerStateView, n: int) -> CompilerStateView {
    CompilerStateView {
        program_stack: if n <= s.program_stack.len() {
            s.program_stack.subrange(0, n)
        } else {
            s.program_stack
        },
        current_stack_depth: (s.current_stack_depth - 1) as usize,
        in_function: false,
        ..s
    }
}

/// What compiling the bodies of the functions from the `i`-th on gives, from
/// `s`: the function is entered, its block compiled, the function left, and
/// its definition with the closed body replaces its entry in the table of
/// functions. The first error ends the stage.
pub open spec fn bodies_run<C: ProgramCompiler>(
    c: C,
    fs: Seq<(String, (Node<ArgsList>, DataType, Node<Block>))>,
    i: int,
    s: CompilerStateView,
) -> (Result<(), (Pos, ErrorType, Seq<char>)>, CompilerStateView)
    decreases fs.len() - i,
{
    if i < 0 || i >= fs.len() {
        (Ok(()), s)
    } else {
        let e = fs[i];
        let (r, compiled) = c.block_code(e.1.2, entered(s, e.1.0));
        match r {
            Err(x) => (Err(x@), compiled),
            Ok(b) => {
                let out = left(compiled, s.program_stack.len() as int);
                bodies_run(
                    c,
                    fs,
                    i + 1,
                    CompilerStateView {
                        user_functions: entry_set(
                            out.user_functions,
                            e.0,
                            definition_view(
                                e.0@,
                                e.1,
                                closed_body(b.instructions@, e.1.1, e.1.2.pos),
                            ),
                        ),
                        ..out
                    },
                )
            },
        }
    }
}

/// Taking definitions by their views keeps the keys.
pub proof fn lemma_functions_view_keys(s: Seq<(String, FunctionDefinition)>)
    ensures
        functions_view(s).len() == s.len(),
        forall|i: int| 0 <= i < s.len() ==> #[trigger] functions_view(s)[i] == (s[i].0, s[i].1@),
        keys_unique(s) <==> keys_unique(functions_view(s)),
{
    let t = functions_view(s);
    if keys_unique(s) {
        assert forall|i: int, j: int| 0 <= i < j < t.len() implies t[i].0@ != t[j].0@ by {
            assert(s[i].0@ != s[j].0@);
        }
    }
    if keys_unique(t) {
        assert forall|i: int, j: int| 0 <= i < j < s.len() implies s[i].0@ != s[j].0@ by {
            assert(t[i].0@ != t[j].0@);
        }
    }
}

/// Binding a key in a list of definitions and then taking their views is
/// binding it among the views.
pub proof fn lemma_functions_view_set(s: Seq<(String, FunctionDefinition)>, k: String, f: FunctionDefinition)
    requires
        keys_unique(s),
    ensures
        functions_view(entry_set(s, k, f)) == entry_set(functions_view(s), k, f@),
{
    lemma_functions_view_keys(s);
    let t = functions_view(s);
    if exists|i: int| 0 <= i < s.len() && #[trigger] s[i].0@ == k@ {
        let i = choose|i: int| 0 <= i < s.len() && #[trigger] s[i].0@ == k@;
        assert(t[i].0@ == k@);
        let j = choose|j: int| 0 <= j < t.len() && #[trigger] t[j].0@ == k@;
        if i != j {
            if i < j {
                assert(s[i].0@ != s[j].0@);
            } else {
                assert(s[j].0@ != s[i].0@);
            }
        }
        assert(functions_view(s.update(i, (k, f))) =~= t.update(i, (k, f@)));
    } else {
        assert(!exists|j: int| 0 <= j < t.len() && #[trigger] t[j].0@ == k@) by {
            if exists|j: int| 0 <= j < t.len() && #[trigger] t[j].0@ == k@ {
                let j = choose|j: int| 0 <= j < t.len() && #[trigger] t[j].0@ == k@;
                assert(s[j].0@ == k@);
            }
        }
        assert(functions_view(s.push((k, f))) =~= t.push((k, f@)));
    }
}

/// The state after the program with parameters `args` is made the current
/// program `name`: its parameters are declared on the stack at the current
/// depth.
pub open spec fn declared(s: CompilerStateView, name: Seq<char>, args: Node<ArgsList>) -> CompilerStateView {
    CompilerStateView {
        current_program_name: name,
        program_stack: s.program_stack + parameter_variables(
            args,
            s.current_stack_depth,
            args.value.identifiers@.len(),
        ),
        ..s
    }
}

/// The code of the program with table entry `entry` (parameters and block)
/// around `code`, the code of its block: a program with parameters first
/// takes them apart, and the code ends the program.
pub open spec fn program_instructions(entry: (Node<ArgsList>, Node<Block>), code: Seq<Instruction>) -> Seq<
    Instruction,
> {
    (if entry.0.value.identifiers@.len() > 0 {
        seq![Instruction { control: InstructionType::Destruct, pos: Some(entry.0.pos) }]
    } else {
        seq![]
    }) + code + seq![Instruction { control: InstructionType::EndProgram, pos: Some(entry.1.pos) }]
}

/// What compiling the program `name` with table entry `entry` gives, from
/// `s`: its parameters declared, its block compiled, its code assembled.
pub open spec fn one_program<C: ProgramCompiler>(
    c: C,
    name: Seq<char>,
    entry: (Node<ArgsList>, Node<Block>),
    s: CompilerStateView,
) -> (Result<Seq<Instruction>, (Pos, ErrorType, Seq<char>)>, CompilerStateView) {
    let (r, after) = c.block_code(entry.1, declared(s, name, entry.0));
    match r {
        Err(e) => (Err(e@), after),
        Ok(b) => (Ok(program_instructions(entry, b.instructions@)), after),
    }
}

/// What compiling the programs of `ps` from the `i`-th on, `main` left out,
/// gives, from `s`, with the codes `acc` made so far. The first error ends
/// the stage.
pub open spec fn programs_run<C: ProgramCompiler>(
    c: C,
    ps: Seq<(String, (Node<ArgsList>, Node<Block>))>,
    i: int,
    s: CompilerStateView,
    acc: Map<Seq<char>, Seq<Instruction>>,
) -> (Result<Map<Seq<char>, Seq<Instruction>>, (Pos, ErrorType, Seq<char>)>, CompilerStateView)
    decreases ps.len() - i,
{
    if i < 0 || i >= ps.len() {
        (Ok(acc), s)
    } else if ps[i].0@ == "main"@ {
        programs_run(c, ps, i + 1, s, acc)
    } else {
        let (r, after) = one_program(c, ps[i].0@, ps[i].1, s);
        match r {
            Err(e) => (Err(e), after),
            Ok(code) => programs_run(c, ps, i + 1, after, acc.insert(ps[i].0@, code)),
        }
    }
}

/// The parameter types of the programs of `ps`, in order.
pub open spec fn program_types(ps: Seq<(String, (Node<ArgsList>, Node<Block>))>) -> Seq<(String, Seq<DataType>)> {
    Seq::new(
        ps.len(),
        |i: int| (ps[i].0, ps[i].1.0.value.datatypes@.map_values(|d: Node<DataType>| d.value)),
    )
}

/// The codes of a list of programs by name.
pub open spec fn programs_view(ps: Seq<(String, ProgramCode)>) -> Map<Seq<char>, Seq<Instruction>> {
    entries_map(ps).map_values(|p: ProgramCode| p.instructions@)
}

/// What an `always` condition holds: the shared variables it reads, its
/// expression and its place.
pub open spec fn condition_of(a: AlwaysCondition) -> (Seq<String>, ParseNode, Pos) {
    (a.variables@, a.expression, a.pos)
}

/// The conditions of a list, each by what it holds.
pub open spec fn conditions_view(v: Seq<AlwaysCondition>) -> Seq<(Seq<String>, ParseNode, Pos)> {
    v.map_values(|a: AlwaysCondition| condition_of(a))
}

/// The condition that the code `code` of a condition at `pos` stands for:
/// the variables its first instruction reads and the expression of its
/// second.
pub open spec fn condition_view(code: Seq<Instruction>, pos: Pos) -> (Seq<String>, ParseNode, Pos) {
    (
        match code[0].control {
            InstructionType::GlobalReads { variables } => variables@,
            _ => seq![],
        },
        code[1].control->Expression_0,
        pos,
    )
}

/// What compiling the conditions `ch` of an `always` block from the `j`-th
/// on gives, from `s`, with the conditions `acc` made so far: each must
/// compile to a read of shared variables followed by one expression. The
/// first error ends the stage.
pub open spec fn children_run<C: ProgramCompiler>(
    c: C,
    ch: Seq<Node<Statement>>,
    j: int,
    s: CompilerStateView,
    acc: Seq<(Seq<String>, ParseNode, Pos)>,
) -> (Result<Seq<(Seq<String>, ParseNode, Pos)>, (Pos, ErrorType, Seq<char>)>, CompilerStateView)
    decreases ch.len() - j,
{
    if j < 0 || j >= ch.len() {
        (Ok(acc), s)
    } else {
        let (r, after) = c.statement_code(ch[j], s);
        match r {
            Err(e) => (Err(e@), after),
            Ok(b) => match always_condition_error(b.instructions@, ch[j].pos) {
                Some(e) => (Err(e), after),
                None => children_run(
                    c,
                    ch,
                    j + 1,
                    after,
                    acc.push(condition_view(b.instructions@, ch[j].pos)),
                ),
            },
        }
    }
}

/// What compiling the condition blocks `cs` from the `i`-th on gives, from
/// `s`, with the conditions `acc` made so far: an `always` block's
/// conditions are compiled, a `never` block adds none.
pub open spec fn conditions_run<C: ProgramCompiler>(
    c: C,
    cs: Seq<(ConditionKeyword, Node<ConditionBlock>)>,
    i: int,
    s: CompilerStateView,
    acc: Seq<(Seq<String>, ParseNode, Pos)>,
) -> (Result<Seq<(Seq<String>, ParseNode, Pos)>, (Pos, ErrorType, Seq<char>)>, CompilerStateView)
    decreases cs.len() - i,
{
    if i < 0 || i >= cs.len() {
        (Ok(acc), s)
    } else {
        match cs[i].0 {
            ConditionKeyword::Always => {
                let (r, after) = children_run(c, cs[i].1.value.children@, 0, s, acc);
                match r {
                    Err(e) => (Err(e), after),
                    Ok(a) => conditions_run(c, cs, i + 1, after, a),
                }
            },
            ConditionKeyword::Never => conditions_run(c, cs, i + 1, s, acc),
        }
    }
}

/// A whole program compiled: the values of the shared variables by name,
/// the functions by name, the code of each program by name, and the
/// conditions that must hold in every state.
#[derive(Debug)]
pub struct CompiledProject {
    pub global_memory: Vec<(String, PrimaryExpr)>,
    pub user_functions: Vec<(String, FunctionDefinition)>,
    pub programs_code: Vec<(String, ProgramCode)>,
    pub always_conditions: Vec<AlwaysCondition>,
}

/// What a compiled project holds, its lists taken by their contents.
#[verifier::ext_equal]
pub struct ProjectView {
    pub global_memory: Map<Seq<char>, PrimaryExpr>,
    pub user_functions: Seq<(String, FunctionView)>,
    pub programs_code: Map<Seq<char>, Seq<Instruction>>,
    pub always_conditions: Seq<(Seq<String>, ParseNode, Pos)>,
}

impl View for CompiledProject {
    type V = ProjectView;

    open spec fn view(&self) -> ProjectView {
        ProjectView {
            global_memory: entries_map(self.global_memory@),
            user_functions: functions_view(self.user_functions@),
            programs_code: programs_view(self.programs_code@),
            always_conditions: conditions_view(self.always_conditions@),
        }
    }
}

/// The state in which the `shared` block is compiled: no variable, depth 1,
/// in the `shared` block, outside any function, and every table empty.
pub open spec fn shared_start() -> CompilerStateView {
    CompilerStateView {
        program_stack: seq![],
        current_stack_depth: 1,
        current_program_name: seq![],
        in_function: false,
        is_shared: true,
        global_table: seq![],
        user_functions: seq![],
        program_arguments: seq![],
        undefined_channels: seq![],
    }
}

/// What the `shared` stage of compiling `ast` gives: without a `shared`
/// block no declaration and the start state; with one, `shared_run` from the
/// start state.
pub open spec fn shared_outcome<C: ProgramCompiler>(c: C, ast: &Ast) -> (
    Result<Seq<(Variable, PrimaryExpr)>, (Pos, ErrorType, Seq<char>)>,
    CompilerStateView,
) {
    match ast.global_block {
        Some(g) => shared_run(c, g.value.children@, 0, shared_start(), seq![], seq![]),
        None => (Ok(seq![]), shared_start()),
    }
}

/// What compiling `ast` with the compiler `c` gives, stage by stage, each
/// from the state the one before left: the `shared` block from the start
/// state (its variables then become the table of globals and its scope is
/// closed); the prototypes of the functions (the first function that misses
/// a `return` is an error); the bodies of the functions; the parameter types
/// of the programs and the end of the `shared` mode; `main`, then the other
/// programs; the channels used but not declared (the first is an error);
/// the conditions of the `always` block. The first error is the answer.
pub open spec fn compile_spec<C: ProgramCompiler>(c: C, ast: &Ast) -> Result<
    ProjectView,
    (Pos, ErrorType, Seq<char>),
> {
    let (shared, s_shared) = shared_outcome(c, ast);
    match shared {
        Err(e) => Err(e),
        Ok(bindings) => {
            let s1 = unstacked(
                CompilerStateView { global_table: table_seq(bindings), ..s_shared },
            );
            let fs = ast.function_blocks@;
            match missing_return_error(c, fs) {
                Some(e) => Err(e),
                None => {
                    let s2 = CompilerStateView {
                        user_functions: s1.user_functions + prototypes(fs),
                        ..s1
                    };
                    match bodies_run(c, fs, 0, s2) {
                        (Err(e), _) => Err(e),
                        (Ok(()), s3) => {
                            let s4 = CompilerStateView {
                                program_arguments: program_types(ast.process_blocks@),
                                is_shared: false,
                                ..s3
                            };
                            match one_program(c, "main"@, ast.processes()["main"@], s4) {
                                (Err(e), _) => Err(e),
                                (Ok(main_code), s5) => match programs_run(
                                    c,
                                    ast.process_blocks@,
                                    0,
                                    s5,
                                    Map::empty().insert("main"@, main_code),
                                ) {
                                    (Err(e), _) => Err(e),
                                    (Ok(programs), s6) => if s6.undefined_channels.len() > 0 {
                                        let ch = s6.undefined_channels[0];
                                        Err(undefined_channel_view(ch.0.0@, ch.0.1@, ch.1))
                                    } else {
                                        match conditions_run(
                                            c,
                                            ast.condition_blocks@,
                                            0,
                                            s6,
                                            seq![],
                                        ) {
                                            (Err(e), _) => Err(e),
                                            (Ok(conditions), s7) => Ok(
                                                ProjectView {
                                                    global_memory: memory_map(bindings),
                                                    user_functions: s7.user_functions,
                                                    programs_code: programs,
                                                    always_conditions: conditions,
                                                },
                                            ),
                                        }
                                    },
                                },
                            }
                        },
                    }
                },
            }
        },
    }
}

/// Compiling the `shared` block leaves the table of functions as it was.
pub proof fn lemma_shared_run_keeps_functions<C: ProgramCompiler>(
    c: C,
    nodes: Seq<Node<Statement>>,
    i: int,
    s: CompilerStateView,
    memory: Seq<PrimaryExpr>,
    bindings: Seq<(Variable, PrimaryExpr)>,
)
    requires
        compiler_keeps(c),
    ensures
        shared_run(c, nodes, i, s, memory, bindings).1.user_functions == s.user_functions,
    decreases nodes.len() - i,
{
    if 0 <= i < nodes.len() && nodes[i].value is Declaration {
        let (r, next) = c.statement_code(nodes[i], s);
        if let Ok(b) = r {
            if let Ok(v) = literal_of(c, b.instructions@, memory, None) {
                lemma_shared_run_keeps_functions(
                    c,
                    nodes,
                    i + 1,
                    next,
                    memory.push(v.unwrap()),
                    bindings.push((next.program_stack.last(), v.unwrap())),
                );
            }
        }
    }
}

/// Compiling programs leaves the table of functions as it was.
pub proof fn lemma_programs_run_keeps_functions<C: ProgramCompiler>(
    c: C,
    ps: Seq<(String, (Node<ArgsList>, Node<Block>))>,
    i: int,
    s: CompilerStateView,
    acc: Map<Seq<char>, Seq<Instruction>>,
)
    requires
        compiler_keeps(c),
    ensures
        programs_run(c, ps, i, s, acc).1.user_functions == s.user_functions,
    decreases ps.len() - i,
{
    if 0 <= i < ps.len() {
        if ps[i].0@ == "main"@ {
            lemma_programs_run_keeps_functions(c, ps, i + 1, s, acc);
        } else {
            let (r, after) = one_program(c, ps[i].0@, ps[i].1, s);
            assert(c.block_code(ps[i].1.1, declared(s, ps[i].0@, ps[i].1.0)).1 == after);
            if let Ok(code) = r {
                lemma_programs_run_keeps_functions(c, ps, i + 1, after, acc.insert(ps[i].0@, code));
            }
        }
    }
}

/// Compiling the conditions of an `always` block leaves the table of
/// functions as it was.
pub proof fn lemma_children_run_keeps_functions<C: ProgramCompiler>(
    c: C,
    ch: Seq<Node<Statement>>,
    j: int,
    s: CompilerStateView,
    acc: Seq<(Seq<String>, ParseNode, Pos)>,
)
    requires
        compiler_keeps(c),
    ensures
        children_run(c, ch, j, s, acc).1.user_functions == s.user_functions,
    decreases ch.len() - j,
{
    if 0 <= j < ch.len() {
        let (r, after) = c.statement_code(ch[j], s);
        if let Ok(b) = r {
            if always_condition_error(b.instructions@, ch[j].pos) is None {
                lemma_children_run_keeps_functions(
                    c,
                    ch,
                    j + 1,
                    after,
                    acc.push(condition_view(b.instructions@, ch[j].pos)),
                );
            }
        }
    }
}

/// Compiling the condition blocks leaves the table of functions as it was.
pub proof fn lemma_conditions_run_keeps_functions<C: ProgramCompiler>(
    c: C,
    cs: Seq<(ConditionKeyword, Node<ConditionBlock>)>,
    i: int,
    s: CompilerStateView,
    acc: Seq<(Seq<String>, ParseNode, Pos)>,
)
    requires
        compiler_keeps(c),
    ensures
        conditions_run(c, cs, i, s, acc).1.user_functions == s.user_functions,
    decreases cs.len() - i,
{
    if 0 <= i < cs.len() {
        match cs[i].0 {
            ConditionKeyword::Always => {
                let (r, after) = children_run(c, cs[i].1.value.children@, 0, s, acc);
                lemma_children_run_keeps_functions(c, cs[i].1.value.children@, 0, s, acc);
                if let Ok(a) = r {
                    lemma_conditions_run_keeps_functions(c, cs, i + 1, after, a);
                }
            },
            ConditionKeyword::Never => {
                lemma_conditions_run_keeps_functions(c, cs, i + 1, s, acc);
            },
        }
    }
}

/// The table of functions `uf` has one entry per function of `fs`, in
/// order, and the first `i` of them are definitions whose bodies are
/// compiled code closed as `closed_body` says.
pub open spec fn definitions_from(
    fs: Seq<(String, (Node<ArgsList>, DataType, Node<Block>))>,
    uf: Seq<(String, FunctionView)>,
    i: int,
) -> bool {
    &&& uf.len() == fs.len()
    &&& forall|m: int| 0 <= m < fs.len() ==> #[trigger] uf[m].0 == fs[m].0
    &&& forall|m: int| 0 <= m < i ==> #[trigger] defined_at(fs, uf, m)
}

/// The `m`-th entry of `uf` is the definition of the `m`-th function of `fs`
/// with a body that is compiled code closed as `closed_body` says.
pub open spec fn defined_at(
    fs: Seq<(String, (Node<ArgsList>, DataType, Node<Block>))>,
    uf: Seq<(String, FunctionView)>,
    m: int,
) -> bool {
    exists|code: Seq<Instruction>|
        uf[m].1 == definition_view(
            fs[m].0@,
            fs[m].1,
            #[trigger] closed_body(code, fs[m].1.1, fs[m].1.2.pos),
        )
}

/// Compiling the bodies of the functions from the `i`-th on replaces each
/// one's prototype by its definition.
pub proof fn lemma_bodies_run_defines<C: ProgramCompiler>(
    c: C,
    fs: Seq<(String, (Node<ArgsList>, DataType, Node<Block>))>,
    i: int,
    s: CompilerStateView,
)
    requires
        compiler_keeps(c),
        keys_unique(fs),
        0 <= i <= fs.len(),
        definitions_from(fs, s.user_functions, i),
        bodies_run(c, fs, i, s).0 is Ok,
    ensures
        definitions_from(fs, bodies_run(c, fs, i, s).1.user_functions, fs.len() as int),
    decreases fs.len() - i,
{
    if i < fs.len() {
        let e = fs[i];
        let (r, compiled) = c.block_code(e.1.2, entered(s, e.1.0));
        let b = r->Ok_0;
        let out = left(compiled, s.program_stack.len() as int);
        let def = definition_view(e.0@, e.1, closed_body(b.instructions@, e.1.1, e.1.2.pos));
        let uf = out.user_functions;
        assert(uf == s.user_functions);
        assert(uf[i].0@ == e.0@);
        let j = choose|j: int| 0 <= j < uf.len() && #[trigger] uf[j].0@ == e.0@;
        if j != i {
            assert(uf[j].0 == fs[j].0);
            if j < i {
                assert(fs[j].0@ != fs[i].0@);
            } else {
                assert(fs[i].0@ != fs[j].0@);
            }
        }
        let next = entry_set(uf, e.0, def);
        assert(next == uf.update(i, (e.0, def)));
            assert forall|m: int| 0 <= m < fs.len() implies #[trigger] next[m].0 == fs[m].0 by {
                if m != i {
                    assert(next[m] == uf[m]);
                }
            }
            assert forall|m: int| 0 <= m < i + 1 implies #[trigger] defined_at(fs, next, m) by {
                if m == i {
                    assert(next[m].1 == definition_view(
                        fs[m].0@,
                        fs[m].1,
                        closed_body(b.instructions@, fs[m].1.1, fs[m].1.2.pos),
                    ));
                } else {
                    assert(next[m] == uf[m]);
                    assert(defined_at(fs, uf, m));
                    let code = choose|code: Seq<Instruction>|
                        uf[m].1 == definition_view(
                            fs[m].0@,
                            fs[m].1,
                            #[trigger] closed_body(code, fs[m].1.1, fs[m].1.2.pos),
                        );
                    assert(next[m].1 == definition_view(
                        fs[m].0@,
                        fs[m].1,
                        closed_body(code, fs[m].1.1, fs[m].1.2.pos),
                    ));
                }
            }
                assert(next.len() == fs.len());
        assert(definitions_from(fs, next, i + 1));
        lemma_bodies_run_defines(
            c,
            fs,
            i + 1,
            CompilerStateView { user_functions: next, ..out },
        );
    }
}

/// When the `shared` stage passes and a function of a type other than
/// `void` has a path without `return`, compiling fails with the error for a
/// missing `return`.
pub proof fn lemma_missing_return_fails<C: ProgramCompiler>(c: C, ast: &Ast, j: int)
    requires
        shared_outcome(c, ast).0 is Ok,
        0 <= j < ast.function_blocks@.len(),
        misses_return(c, ast.function_blocks@[j]),
    ensures
        compile_spec(c, ast) matches Err(e) && e.1 == ErrorType::FunctionMissingReturnStatement,
{
    lemma_first_missing_return(c, ast.function_blocks@, j);
}

/// Each function of a compiled project is, in the order of the functions
/// table, the definition of that function whose body is the code of its
/// block closed as `closed_body` says; so the body of a `void` function
/// always ends with a `return` without value, and a final one is not
/// doubled.
pub proof fn lemma_compiled_functions<C: ProgramCompiler>(c: C, ast: &Ast)
    requires
        ast.well_formed(),
        compiler_keeps(c),
        compile_spec(c, ast) is Ok,
    ensures
        ({
            let fs = ast.function_blocks@;
            let uf = (compile_spec(c, ast)->Ok_0).user_functions;
            &&& definitions_from(fs, uf, fs.len() as int)
            &&& forall|m: int|
                0 <= m < fs.len() && fs[m].1.1 == DataType::Void ==> (#[trigger] uf[m]).1.3.len() > 0
                    && uf[m].1.3.last().control == InstructionType::Return { has_value: false }
        }),
{
    let fs = ast.function_blocks@;
    let (shared, s_shared) = shared_outcome(c, ast);
    let bindings = shared->Ok_0;
    if let Some(g) = ast.global_block {
        lemma_shared_run_keeps_functions(c, g.value.children@, 0, shared_start(), seq![], seq![]);
    }
    let s1 = unstacked(CompilerStateView { global_table: table_seq(bindings), ..s_shared });
    assert(s1.user_functions == Seq::<(String, FunctionView)>::empty());
    let s2 = CompilerStateView { user_functions: s1.user_functions + prototypes(fs), ..s1 };
    assert(s2.user_functions =~= prototypes(fs));
    lemma_bodies_run_defines(c, fs, 0, s2);
    let s3 = bodies_run(c, fs, 0, s2).1;
    let s4 = CompilerStateView {
        program_arguments: program_types(ast.process_blocks@),
        is_shared: false,
        ..s3
    };
    let (rm, s5) = one_program(c, "main"@, ast.processes()["main"@], s4);
    assert(c.block_code(
        ast.processes()["main"@].1,
        declared(s4, "main"@, ast.processes()["main"@].0),
    ).1 == s5);
    let (rp, s6) = programs_run(c, ast.process_blocks@, 0, s5, Map::empty().insert("main"@, rm->Ok_0));
    lemma_programs_run_keeps_functions(c, ast.process_blocks@, 0, s5, Map::empty().insert("main"@, rm->Ok_0));
    lemma_conditions_run_keeps_functions(c, ast.condition_blocks@, 0, s6, seq![]);
    let uf = (compile_spec(c, ast)->Ok_0).user_functions;
    assert(uf == s3.user_functions);
    assert forall|m: int|
        0 <= m < fs.len() && fs[m].1.1 == DataType::Void implies (#[trigger] uf[m]).1.3.len() > 0
            && uf[m].1.3.last().control == InstructionType::Return { has_value: false } by {
        assert(defined_at(fs, uf, m));
        let code = choose|code: Seq<Instruction>|
            uf[m].1 == definition_view(
                fs[m].0@,
                fs[m].1,
                #[trigger] closed_body(code, fs[m].1.1, fs[m].1.2.pos),
            );
        lemma_void_body_returns(code, fs[m].1.2.pos);
    }
}

/// The number of conditions in the `always` blocks of `cs` from the `i`-th
/// entry on.
pub open spec fn always_count(cs: Seq<(ConditionKeyword, Node<ConditionBlock>)>, i: int) -> nat
    decreases cs.len() - i,
{
    if i < 0 || i >= cs.len() {
        0
    } else {
        (if cs[i].0 == ConditionKeyword::Always {
            cs[i].1.value.children@.len()
        } else {
            0
        }) + always_count(cs, i + 1)
    }
}

/// Compiling the conditions `ch` from the `j`-th on adds one condition per
/// condition, each at its condition's place.
pub proof fn lemma_children_run_adds_each<C: ProgramCompiler>(
    c: C,
    ch: Seq<Node<Statement>>,
    j: int,
    s: CompilerStateView,
    acc: Seq<(Seq<String>, ParseNode, Pos)>,
)
    requires
        0 <= j <= ch.len(),
        children_run(c, ch, j, s, acc).0 is Ok,
    ensures
        ({
            let a = children_run(c, ch, j, s, acc).0->Ok_0;
            &&& a.len() == acc.len() + ch.len() - j
            &&& a.subrange(0, acc.len() as int) == acc
            &&& forall|k: int| j <= k < ch.len() ==> #[trigger] a[acc.len() + k - j].2 == ch[k].pos
        }),
    decreases ch.len() - j,
{
    if j < ch.len() {
        let (r, after) = c.statement_code(ch[j], s);
        let b = r->Ok_0;
        let acc2 = acc.push(condition_view(b.instructions@, ch[j].pos));
        lemma_children_run_adds_each(c, ch, j + 1, after, acc2);
        let a = children_run(c, ch, j, s, acc).0->Ok_0;
        assert(a.subrange(0, acc2.len() as int) == acc2);
        assert(a.subrange(0, acc.len() as int) =~= acc) by {
            assert forall|k: int| 0 <= k < acc.len() implies a[k] == acc[k] by {
                assert(a.subrange(0, acc2.len() as int)[k] == acc2[k]);
            }
        }
        assert(a[acc.len() as int].2 == ch[j].pos) by {
            assert(a.subrange(0, acc2.len() as int)[acc.len() as int] == acc2[acc.len() as int]);
        }
        assert forall|k: int| j <= k < ch.len() implies #[trigger] a[acc.len() + k - j].2 == ch[k].pos by {
            if k > j {
                assert(a[acc2.len() + k - (j + 1)].2 == ch[k].pos);
            }
        }
    } else {
        assert(children_run(c, ch, j, s, acc).0->Ok_0.subrange(0, acc.len() as int) =~= acc);
    }
}

/// Compiling the condition blocks of `cs` from the `i`-th on adds exactly
/// the conditions of the `always` blocks: a `never` block adds none.
pub proof fn lemma_conditions_run_counts<C: ProgramCompiler>(
    c: C,
    cs: Seq<(ConditionKeyword, Node<ConditionBlock>)>,
    i: int,
    s: CompilerStateView,
    acc: Seq<(Seq<String>, ParseNode, Pos)>,
)
    requires
        0 <= i <= cs.len(),
        conditions_run(c, cs, i, s, acc).0 is Ok,
    ensures
        (conditions_run(c, cs, i, s, acc).0->Ok_0).len() == acc.len() + always_count(cs, i),
    decreases cs.len() - i,
{
    if i < cs.len() {
        match cs[i].0 {
            ConditionKeyword::Always => {
                let (r, after) = children_run(c, cs[i].1.value.children@, 0, s, acc);
                lemma_children_run_adds_each(c, cs[i].1.value.children@, 0, s, acc);
                lemma_conditions_run_counts(c, cs, i + 1, after, r->Ok_0);
            },
            ConditionKeyword::Never => {
                lemma_conditions_run_counts(c, cs, i + 1, s, acc);
            },
        }
    }
}

/// The always conditions of a compiled project are exactly the conditions of
/// its `always` block, one for each: a `never` block gives none, so a tree
/// without an `always` block compiles to no always condition.
pub proof fn lemma_always_conditions_from_always_block<C: ProgramCompiler>(c: C, ast: &Ast)
    requires
        compile_spec(c, ast) is Ok,
    ensures
        (compile_spec(c, ast)->Ok_0).always_conditions.len() == always_count(ast.condition_blocks@, 0),
        (forall|j: int|
            0 <= j < ast.condition_blocks@.len() ==> #[trigger] ast.condition_blocks@[j].0
                != ConditionKeyword::Always) ==> (compile_spec(c, ast)->Ok_0).always_conditions.len()
            == 0,
{
    let (shared, s_shared) = shared_outcome(c, ast);
    let bindings = shared->Ok_0;
    let fs = ast.function_blocks@;
    let s1 = unstacked(CompilerStateView { global_table: table_seq(bindings), ..s_shared });
    let s2 = CompilerStateView { user_functions: s1.user_functions + prototypes(fs), ..s1 };
    let s3 = bodies_run(c, fs, 0, s2).1;
    let s4 = CompilerStateView {
        program_arguments: program_types(ast.process_blocks@),
        is_shared: false,
        ..s3
    };
    let (rm, s5) = one_program(c, "main"@, ast.processes()["main"@], s4);
    let (rp, s6) = programs_run(c, ast.process_blocks@, 0, s5, Map::empty().insert("main"@, rm->Ok_0));
    lemma_conditions_run_counts(c, ast.condition_blocks@, 0, s6, seq![]);
    lemma_always_count_zero(ast.condition_blocks@, 0);
}

/// Without an `always` block there is no always condition to count.
pub proof fn lemma_always_count_zero(cs: Seq<(ConditionKeyword, Node<ConditionBlock>)>, i: int)
    ensures
        (forall|j: int| 0 <= j < cs.len() ==> #[trigger] cs[j].0 != ConditionKeyword::Always)
            ==> always_count(cs, i) == 0,
    decreases cs.len() - i,
{
    if 0 <= i < cs.len() {
        lemma_always_count_zero(cs, i + 1);
    }
}

/// A function body is compiled in the state that entering the function
/// makes: the stack before, followed by the function's parameters as
/// mutable variables at one depth further, in order; in a function; every
/// other part of the state as it was. So when the compiler fails on the body
/// in that state, compiling the bodies fails with that error.
pub proof fn lemma_body_compiled_with_parameters<C: ProgramCompiler>(
    c: C,
    fs: Seq<(String, (Node<ArgsList>, DataType, Node<Block>))>,
    i: int,
    s: CompilerStateView,
    t: CompilerStateView,
)
    requires
        0 <= i < fs.len(),
        ({
            let args = fs[i].1.0;
            let n = s.program_stack.len();
            let count = if args.value.identifiers@.len() <= args.value.datatypes@.len() {
                args.value.identifiers@.len()
            } else {
                args.value.datatypes@.len()
            };
            &&& t.program_stack.len() == n + count
            &&& forall|k: int| 0 <= k < n ==> #[trigger] t.program_stack[k] == s.program_stack[k]
            &&& forall|k: int|
                0 <= k < count ==> #[trigger] t.program_stack[n + k] == (Variable {
                    name: args.value.identifiers@[k].value.value,
                    depth: (s.current_stack_depth + 1) as usize,
                    mutable: true,
                    datatype: args.value.datatypes@[k].value,
                    declare_pos: Some(args.value.identifiers@[k].pos),
                })
            &&& t.current_stack_depth == s.current_stack_depth + 1
            &&& t.in_function
            &&& t.current_program_name == s.current_program_name
            &&& t.is_shared == s.is_shared
            &&& t.global_table == s.global_table
            &&& t.user_functions == s.user_functions
            &&& t.program_arguments == s.program_arguments
            &&& t.undefined_channels == s.undefined_channels
        }),
    ensures
        c.block_code(fs[i].1.2, t).0 matches Err(e) ==> bodies_run(c, fs, i, s) == (
            Err::<(), (Pos, ErrorType, Seq<char>)>(e@),
            c.block_code(fs[i].1.2, t).1,
        ),
{
    let args = fs[i].1.0;
    let n = s.program_stack.len();
    let want = entered(s, args);
    assert(t.program_stack =~= want.program_stack) by {
        assert forall|k: int| 0 <= k < t.program_stack.len() implies t.program_stack[k]
            == want.program_stack[k] by {
            if k >= n {
                assert(t.program_stack[n + (k - n)] == t.program_stack[k]);
            }
        }
    }
    assert(t =~= want);
}

impl Ast {
    /// Makes the prototype of each function, in the order of the functions
    /// table, into the state's table of functions, so that bodies can call
    /// any function; a function of a type other than `void` whose body has a
    /// path without `return` is an error, the first such function's.
    fn declare_functions<C: ProgramCompiler>(&self, c: &C, state: &mut CompilerState) -> (r:
        AlthreadResult<()>)
        requires
            self.well_formed(),
        ensures
            match missing_return_error(*c, self.function_blocks@) {
                Some(v) => r matches Err(e) && e@ == v,
                None => r is Ok && final(state)@ == (CompilerStateView {
                    user_functions: old(state)@.user_functions + prototypes(self.function_blocks@),
                    ..old(state)@
                }),
            },
            r is Ok ==> final(state).user_functions@ == old(state).user_functions@ + final(state).user_functions@.subrange(
                old(state).user_functions@.len() as int,
                final(state).user_functions@.len() as int,
            ),
            r is Ok ==> final(state).user_functions@.len() == old(state).user_functions@.len()
                + self.function_blocks@.len(),
            r is Ok ==> forall|i: int|
                0 <= i < self.function_blocks@.len() ==> #[trigger] final(state).user_functions@[old(state).user_functions@.len() + i].0 == self.function_blocks@[i].0,
    {
        let fs = &self.function_blocks;
        proof {
            lemma_entries_map(fs@);
        }
        let ghost u0 = state.user_functions@;
        let mut i: usize = 0;
        while i < fs.len()
            invariant
                fs == &self.function_blocks,
                self.well_formed(),
                i <= fs@.len(),
                u0 == old(state).user_functions@,
                forall|j: int| 0 <= j < i ==> !#[trigger] misses_return(*c, fs@[j]),
                forall|j: int| 0 <= j < fs@.len() ==> #[trigger] self.functions()[fs@[j].0@] == fs@[j].1,
                forall|k: Seq<char>| #[trigger]
                    self.functions().contains_key(k) <==> exists|j: int|
                        0 <= j < fs@.len() && fs@[j].0@ == k,
                state.user_functions@.len() == u0.len() + i,
                forall|j: int| 0 <= j < u0.len() ==> #[trigger] state.user_functions@[j] == u0[j],
                forall|j: int|
                    0 <= j < i ==> #[trigger] state.user_functions@[u0.len() + j].0 == fs@[j].0,
                state@ == (CompilerStateView {
                    user_functions: old(state)@.user_functions + prototypes(fs@).take(i as int),
                    ..old(state)@
                }),
            decreases fs@.len() - i,
        {
            let name = &fs[i].0;
            let return_type = fs[i].1.1;
            let missing = if return_type != DataType::Void {
                c.first_missing_return(&fs[i].1.2)
            } else {
                None
            };
            proof {
                assert(self.functions().contains_key(name@));
                assert(self.functions()[name@] == fs@[i as int].1);
            }
            let proto = match self.function_prototype(name, missing) {
                Ok(f) => f,
                Err(e) => {
                    proof {
                        assert(first_missing_return(*c, fs@, i as int));
                        let k = choose|k: int| #[trigger] first_missing_return(*c, fs@, k);
                        if k < i {
                            assert(!misses_return(*c, fs@[k]));
                        } else if k > i {
                            assert(!misses_return(*c, fs@[i as int]));
                        }
                    }
                    return Err(e);
                },
            };
            let ghost before = state.user_functions@;
            proof {
                assert(proto@ == definition_view(name@, fs@[i as int].1, seq![])) by {
                    assert(proto.arguments@ =~= parameters(fs@[i as int].1.0));
                    assert(proto.body@ =~= Seq::<Instruction>::empty());
                }
            }
            state.user_functions.push((name.clone(), proto));
            proof {
                lemma_functions_view_keys(before);
                lemma_functions_view_keys(state.user_functions@);
                assert(functions_view(state.user_functions@) =~= functions_view(before).push(
                    (fs@[i as int].0, proto@),
                ));
                assert(prototypes(fs@).take(i + 1) =~= prototypes(fs@).take(i as int).push(
                    prototypes(fs@)[i as int],
                ));
                assert(state@ =~= (CompilerStateView {
                    user_functions: old(state)@.user_functions + prototypes(fs@).take(i + 1),
                    ..old(state)@
                }));
            }
            i = i + 1;
        }
        proof {
            assert(prototypes(fs@).take(i as int) =~= prototypes(fs@));
            assert(!exists|k: int| #[trigger] first_missing_return(*c, fs@, k)) by {
                if exists|k: int| #[trigger] first_missing_return(*c, fs@, k) {
                    let k = choose|k: int| #[trigger] first_missing_return(*c, fs@, k);
                    assert(!misses_return(*c, fs@[k]));
                }
            }
            assert(state.user_functions@ =~= old(state).user_functions@ + state.user_functions@.subrange(
                old(state).user_functions@.len() as int,
                state.user_functions@.len() as int,
            ));
        }
        Ok(())
    }

    /// Compiles the body of each function, in the order of the functions
    /// table: what it answers, and the state it leaves, is `bodies_run`'s.
    fn define_functions<C: ProgramCompiler>(&self, c: &C, state: &mut CompilerState) -> (r:
        AlthreadResult<()>)
        requires
            self.well_formed(),
            compiler_keeps(*c),
            old(state).current_stack_depth < usize::MAX,
            keys_unique(old(state).user_functions@),
            !old(state).in_function,
        ensures
            match bodies_run(*c, self.function_blocks@, 0, old(state)@) {
                (Err(v), _) => r matches Err(e) && e@ == v,
                (Ok(()), after) => r is Ok && final(state)@ == after,
            },
            r is Ok ==> !final(state).in_function,
    {
        let fs = &self.function_blocks;
        proof {
            lemma_entries_map(fs@);
        }
        let mut i: usize = 0;
        while i < fs.len()
            invariant
                fs == &self.function_blocks,
                self.well_formed(),
                compiler_keeps(*c),
                i <= fs@.len(),
                state.current_stack_depth == old(state).current_stack_depth,
                old(state).current_stack_depth < usize::MAX,
                !state.in_function,
                keys_unique(state.user_functions@),
                forall|j: int| 0 <= j < fs@.len() ==> #[trigger] self.functions()[fs@[j].0@] == fs@[j].1,
                forall|k: Seq<char>| #[trigger]
                    self.functions().contains_key(k) <==> exists|j: int|
                        0 <= j < fs@.len() && fs@[j].0@ == k,
                bodies_run(*c, fs@, 0, old(state)@) == bodies_run(*c, fs@, i as int, state@),
            decreases fs@.len() - i,
        {
            let name = &fs[i].0;
            proof {
                assert(self.functions().contains_key(name@));
                assert(self.functions()[name@] == fs@[i as int].1);
            }
            let ghost s0 = state@;
            let ghost s0_exec = *state;
            let initial = self.enter_function(name, state);
            proof {
                let args = fs@[i as int].1.0;
                let n = s0.program_stack.len();
                let want = s0.program_stack + parameter_variables(
                    args,
                    (s0.current_stack_depth + 1) as usize,
                    parameter_count(args),
                );
                assert forall|k: int| 0 <= k < want.len() implies #[trigger] state.program_stack@[k]
                    == want[k] by {
                    if k >= n {
                        let j = k - n;
                        assert(state.program_stack@[n + j] == state.program_stack@[k]);
                    }
                }
                assert(state.program_stack@ =~= want);
                assert(state@ =~= entered(s0, args));
            }
            let ghost s1 = state@;
            let ghost u1 = state.user_functions@;
            let answer = c.compile_block(&fs[i].1.2, state);
            proof {
                assert(keys_unique(u1));
            }
            let compiled = match answer {
                Ok(b) => b,
                Err(e) => {
                    return Err(e);
                },
            };
            let ghost s2 = state@;
            proof {
                assert(c.block_code(fs@[i as int].1.2, s1).1 == s2);
                lemma_functions_view_keys(u1);
                lemma_functions_view_keys(state.user_functions@);
            }
            leave_function(state, initial);
            proof {
                assert(state@ =~= left(s2, s0.program_stack.len() as int));
            }
            let def = self.function_definition(name, compiled.instructions);
            proof {
                assert(def@ == definition_view(
                    name@,
                    fs@[i as int].1,
                    closed_body(compiled.instructions@, fs@[i as int].1.1, fs@[i as int].1.2.pos),
                )) by {
                    assert(def.arguments@ =~= parameters(fs@[i as int].1.0));
                }
            }
            let ghost before = state.user_functions@;
            let ghost s3 = state@;
            proof {
                lemma_functions_view_set(before, *name, def);
            }
            insert_entry(&mut state.user_functions, name.clone(), def);
            proof {
                assert(state@ =~= (CompilerStateView {
                    user_functions: entry_set(s3.user_functions, fs@[i as int].0, def@),
                    ..s3
                }));
            }
            i = i + 1;
        }
        Ok(())
    }

    /// Compiles the program `name`: what it answers, and the state it leaves,
    /// is `one_program`'s.
    fn compile_one_program<C: ProgramCompiler>(
        &self,
        c: &C,
        name: &String,
        state: &mut CompilerState,
    ) -> (r: AlthreadResult<ProgramCode>)
        requires
            self.well_formed(),
            self.processes().contains_key(name@),
            programs_typed(self),
            programs_without_jumps(*c),
            !old(state).in_function,
        ensures
            match one_program(*c, name@, self.processes()[name@], old(state)@) {
                (Err(v), _) => r matches Err(e) && e@ == v,
                (Ok(code), after) => r matches Ok(p) && p.instructions@ == code && p.name@ == name@
                    && final(state)@ == after,
            },
    {
        let ghost s0 = state@;
        self.declare_program_arguments(name, state);
        proof {
            let args = self.processes()[name@].0;
            let n = s0.program_stack.len();
            let want = s0.program_stack + parameter_variables(
                args,
                s0.current_stack_depth,
                args.value.identifiers@.len(),
            );
            assert forall|k: int| 0 <= k < want.len() implies #[trigger] state.program_stack@[k]
                == want[k] by {
                if k >= n {
                    let j = k - n;
                    assert(state.program_stack@[n + j] == state.program_stack@[k]);
                }
            }
            assert(state.program_stack@ =~= want);
            assert(state@ =~= declared(s0, name@, args));
        }
        let ghost s1 = state@;
        let entry = get_entry(&self.process_blocks, name);
        let block = match entry {
            Some(e) => &e.1,
            None => {
                assert(false);
                return Err(AlthreadError::new(ErrorType::SyntaxError, None, String::new()));
            },
        };
        let answer = c.compile_block(block, state);
        let compiled = match answer {
            Ok(b) => b,
            Err(e) => {
                return Err(e);
            },
        };
        proof {
            assert(c.block_code(*block, s1).0 == Ok::<InstructionBuilderOk, AlthreadError>(compiled));
        }
        let p = self.compile_program(name, compiled);
        Ok(p)
    }

    /// Compiles every program, `main` first and then the others in the
    /// order of the programs table: what it answers, and the state it
    /// leaves, is `one_program`'s for `main` followed by `programs_run`'s.
    fn compile_programs<C: ProgramCompiler>(&self, c: &C, state: &mut CompilerState) -> (r:
        AlthreadResult<Vec<(String, ProgramCode)>>)
        requires
            self.well_formed(),
            self.processes().contains_key("main"@),
            programs_typed(self),
            compiler_keeps(*c),
            programs_without_jumps(*c),
            !old(state).in_function,
        ensures
            match one_program(*c, "main"@, self.processes()["main"@], old(state)@) {
                (Err(v), _) => r matches Err(e) && e@ == v,
                (Ok(code), s1) => match programs_run(
                    *c,
                    self.process_blocks@,
                    0,
                    s1,
                    Map::empty().insert("main"@, code),
                ) {
                    (Err(v), _) => r matches Err(e) && e@ == v,
                    (Ok(m), after) => r matches Ok(ps) && keys_unique(ps@) && programs_view(ps@) == m
                        && (forall|k: Seq<char>| #[trigger]
                        entries_map(ps@).contains_key(k) ==> entries_map(ps@)[k].name@ == k)
                        && final(state)@ == after,
                },
            },
    {
        let ps = &self.process_blocks;
        let main = String::from_str("main");
        proof {
            reveal_strlit("main");
            lemma_entries_map(ps@);
        }
        let mut programs: Vec<(String, ProgramCode)> = Vec::new();
        let code = match self.compile_one_program(c, &main, state) {
            Ok(p) => p,
            Err(e) => {
                return Err(e);
            },
        };
        let ghost main_code = code.instructions@;
        insert_entry(&mut programs, main.clone(), code);
        proof {
            assert(programs_view(programs@) =~= Map::empty().insert("main"@, main_code));
        }
        let mut i: usize = 0;
        while i < ps.len()
            invariant
                ps == &self.process_blocks,
                self.well_formed(),
                self.processes().contains_key("main"@),
                main@ == "main"@,
                programs_typed(self),
                compiler_keeps(*c),
                programs_without_jumps(*c),
                i <= ps@.len(),
                !state.in_function,
                one_program(*c, "main"@, self.processes()["main"@], old(state)@).0 is Ok,
                keys_unique(programs@),
                forall|k: Seq<char>| #[trigger]
                    entries_map(programs@).contains_key(k) ==> entries_map(programs@)[k].name@ == k,
                forall|j: int| 0 <= j < ps@.len() ==> #[trigger] self.processes()[ps@[j].0@] == ps@[j].1,
                forall|k: Seq<char>| #[trigger]
                    self.processes().contains_key(k) <==> exists|j: int|
                        0 <= j < ps@.len() && ps@[j].0@ == k,
                ({
                    let s1 = one_program(*c, "main"@, self.processes()["main"@], old(state)@).1;
                    let m0 = Map::empty().insert("main"@, one_program(*c, "main"@, self.processes()["main"@], old(state)@).0->Ok_0);
                    programs_run(*c, ps@, 0, s1, m0) == programs_run(
                        *c,
                        ps@,
                        i as int,
                        state@,
                        programs_view(programs@),
                    )
                }),
            decreases ps@.len() - i,
        {
            let name = &ps[i].0;
            if *name != main {
                proof {
                    assert(ps@[i as int].0@ != "main"@);
                    assert(self.processes().contains_key(name@));
                    assert(self.processes()[name@] == ps@[i as int].1);
                }
                let ghost s0 = state@;
                let code = match self.compile_one_program(c, name, state) {
                    Ok(p) => p,
                    Err(e) => {
                        return Err(e);
                    },
                };
                proof {
                    assert(!state.in_function) by {
                        let d = declared(s0, name@, ps@[i as int].1.0);
                        assert(c.block_code(ps@[i as int].1.1, d).1 == state@);
                    }
                }
                let ghost before = programs@;
                let ghost code_view = code.instructions@;
                insert_entry(&mut programs, name.clone(), code);
                proof {
                    assert(programs_view(programs@) =~= programs_view(before).insert(name@, code_view));
                }
            }
            i = i + 1;
        }
        Ok(programs)
    }

    /// Compiles the conditions of the `always` block, in order, each into an
    /// `AlwaysCondition`; a `never` block adds none. What it answers, and the
    /// state it leaves, is `conditions_run`'s.
    fn compile_conditions<C: ProgramCompiler>(&self, c: &C, state: &mut CompilerState) -> (r:
        AlthreadResult<Vec<AlwaysCondition>>)
        ensures
            match conditions_run(*c, self.condition_blocks@, 0, old(state)@, seq![]) {
                (Err(v), _) => r matches Err(e) && e@ == v,
                (Ok(a), after) => r matches Ok(v) && conditions_view(v@) == a && final(state)@ == after,
            },
    {
        let cs = &self.condition_blocks;
        let mut v: Vec<AlwaysCondition> = Vec::new();
        let mut i: usize = 0;
        proof {
            assert(conditions_view(v@) =~= seq![]);
        }
        while i < cs.len()
            invariant
                cs == &self.condition_blocks,
                i <= cs@.len(),
                conditions_run(*c, cs@, 0, old(state)@, seq![]) == conditions_run(
                    *c,
                    cs@,
                    i as int,
                    state@,
                    conditions_view(v@),
                ),
            decreases cs@.len() - i,
        {
            match cs[i].0 {
                ConditionKeyword::Always => {
                    let children = &cs[i].1.value.children;
                    let ghost so = state@;
                    let ghost acc0 = conditions_view(v@);
                    let mut k: usize = 0;
                    while k < children.len()
                        invariant
                            cs == &self.condition_blocks,
                            i < cs@.len(),
                            cs@[i as int].0 == ConditionKeyword::Always,
                            conditions_run(*c, cs@, 0, old(state)@, seq![]) == conditions_run(
                                *c,
                                cs@,
                                i as int,
                                so,
                                acc0,
                            ),
                            children@ == cs@[i as int].1.value.children@,
                            k <= children@.len(),
                            children_run(*c, children@, 0, so, acc0) == children_run(
                                *c,
                                children@,
                                k as int,
                                state@,
                                conditions_view(v@),
                            ),
                        decreases children@.len() - k,
                    {
                        let child = &children[k];
                        let ghost s = state@;
                        let answer = c.compile_statement(child, state);
                        let compiled = match answer {
                            Ok(b) => b,
                            Err(e) => {
                                return Err(e);
                            },
                        };
                        let ghost code = compiled.instructions@;
                        let cond = match always_condition(compiled.instructions, child.pos) {
                            Ok(x) => x,
                            Err(e) => {
                                return Err(e);
                            },
                        };
                        let ghost before = v@;
                        proof {
                            assert(condition_of(cond) == condition_view(code, child.pos));
                        }
                        v.push(cond);
                        proof {
                            assert(conditions_view(v@) =~= conditions_view(before).push(condition_of(cond)));
                        }
                        k = k + 1;
                    }
                },
                ConditionKeyword::Never => {},
            }
            i = i + 1;
        }
        Ok(v)
    }

    /// Compiles the whole program with the compiler `c`: what it answers is
    /// `compile_spec`'s. On success the project holds the values of the
    /// shared variables, the functions, the code of each program (each named
    /// by its program) and the conditions of the `always` block.
    pub fn compile<C: ProgramCompiler>(&self, c: &C) -> (r: AlthreadResult<CompiledProject>)
        requires
            self.well_formed(),
            self.processes().contains_key("main"@),
            programs_typed(self),
            compiler_keeps(*c),
            shared_well_compiled(*c),
            programs_without_jumps(*c),
        ensures
            match compile_spec(*c, self) {
                Err(v) => r matches Err(e) && e@ == v,
                Ok(pv) => r matches Ok(p) && p@ == pv && keys_unique(p.global_memory@) && keys_unique(
                    p.programs_code@,
                ) && (forall|k: Seq<char>| #[trigger]
                    entries_map(p.programs_code@).contains_key(k) ==> entries_map(
                        p.programs_code@,
                    )[k].name@ == k),
            },
    {
        let mut state = CompilerState::new();
        state.current_stack_depth = 1;
        state.is_shared = true;
        proof {
            assert(state@ =~= shared_start());
        }
        let global_memory = match &self.global_block {
            Some(g) => match compile_shared(c, g, &mut state) {
                Ok(m) => m,
                Err(e) => {
                    return Err(e);
                },
            },
            None => {
                proof {
                    assert(shared_start() =~= (CompilerStateView {
                        global_table: table_seq(seq![]),
                        ..shared_start()
                    }));
                }
                Vec::new()
            },
        };
        proof {
            if self.global_block is None {
                assert(entries_map(global_memory@) =~= memory_map(seq![]));
            }
        }
        let ghost before_unstack = state@;
        state.unstack_current_depth();
        match self.declare_functions(c, &mut state) {
            Ok(()) => {},
            Err(e) => {
                return Err(e);
            },
        }
        proof {
            let fs = self.function_blocks@;
            assert(state.user_functions@.len() == fs.len());
            assert forall|i: int, j: int|
                0 <= i < j < state.user_functions@.len() implies state.user_functions@[i].0@
                != state.user_functions@[j].0@ by {
                assert(state.user_functions@[0 + i].0 == fs[i].0);
                assert(state.user_functions@[0 + j].0 == fs[j].0);
            }
        }
        match self.define_functions(c, &mut state) {
            Ok(()) => {},
            Err(e) => {
                return Err(e);
            },
        }
        let ghost s3 = state@;
        let arguments = self.program_arguments();
        proof {
            assert(arguments_view(arguments@) =~= program_types(self.process_blocks@)) by {
                assert forall|i: int| 0 <= i < arguments@.len() implies #[trigger] arguments@[i].1@
                    =~= self.process_blocks@[i].1.0.value.datatypes@.map_values(
                    |d: Node<DataType>| d.value,
                ) by {}
            }
        }
        state.program_arguments = arguments;
        state.is_shared = false;
        proof {
            assert(state@ =~= (CompilerStateView {
                program_arguments: program_types(self.process_blocks@),
                is_shared: false,
                ..s3
            }));
        }
        let programs_code = match self.compile_programs(c, &mut state) {
            Ok(ps) => ps,
            Err(e) => {
                return Err(e);
            },
        };
        match check_undefined_channels(&state.undefined_channels) {
            Ok(()) => {},
            Err(e) => {
                return Err(e);
            },
        }
        let always_conditions = match self.compile_conditions(c, &mut state) {
            Ok(v) => v,
            Err(e) => {
                return Err(e);
            },
        };
        let mut user_functions: Vec<(String, FunctionDefinition)> = Vec::new();
        std::mem::swap(&mut user_functions, &mut state.user_functions);
        let p = CompiledProject { global_memory, user_functions, programs_code, always_conditions };
        proof {
            assert(p@ =~= compile_spec(*c, self)->Ok_0);
        }
        Ok(p)
    }
}

} // verus!
