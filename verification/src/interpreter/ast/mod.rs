pub mod block;
pub mod condition_block;
pub mod display;
pub mod node;
pub mod project;
pub mod statement;

use vstd::prelude::*;

use crate::entries::{entries_map, get_entry, has_entry, insert_entry, keys_unique};
use crate::interpreter::compiler::{
    CompilerState,
    FunctionDefinition,
    Instruction,
    InstructionBuilderOk,
    InstructionType,
    ProgramCode,
    Variable,
};
use crate::error::{AlthreadError, AlthreadResult, ErrorType, Pos};
use crate::parse::{no_rule_in, no_rule_in_view, ParseNode, Rule};
use crate::text::{decimal, usize_to_string};
use block::{block_built, statements_error, statements_well_formed, Block};
use statement::Statement;
use condition_block::{condition_block_built, ConditionBlock};
use node::{args_built, datatype_of, pos_of, ArgsList, ConditionKeyword, DataType, Node};

verus! {

/// The syntax tree of a program: its programs (with `main`), its `always`
/// and `never` condition blocks, its `shared` block, and its functions. Each
/// table holds at most one entry for a name or keyword.
#[derive(Debug)]
pub struct Ast {
    pub process_blocks: Vec<(String, (Node<ArgsList>, Node<Block>))>,
    pub condition_blocks: Vec<(ConditionKeyword, Node<ConditionBlock>)>,
    pub global_block: Option<Node<Block>>,
    pub function_blocks: Vec<(String, (Node<ArgsList>, DataType, Node<Block>))>,
}

/// The error for a function that is defined twice.
pub open spec fn function_defined_view(name: Seq<char>, pos: Pos) -> (Pos, ErrorType, Seq<char>) {
    (pos, ErrorType::FunctionAlreadyDefined, "Function '"@ + name + "' is already defined"@)
}

/// The error for a function that does not return a value on every path.
pub open spec fn missing_return_view(name: Seq<char>, pos: Pos) -> (Pos, ErrorType, Seq<char>) {
    (
        pos,
        ErrorType::FunctionMissingReturnStatement,
        "Function '"@ + name
            + "' does not return a value on all code paths. Problem detected in construct starting at line "@
            + decimal(pos.line as nat) + "."@,
    )
}

/// Checks that a function returns a value on every path: a function of type
/// `void` needs none; for any other, `missing_return` is the first place
/// where a path of its body ends without a `return`, as the analysis of the
/// body's control flow found it, and such a place is an error.
pub fn check_function_returns(
    func_name: &str,
    return_type: &DataType,
    missing_return: Option<Pos>,
) -> (r: AlthreadResult<()>)
    ensures
        r is Err <==> (*return_type != DataType::Void && missing_return is Some),
        r matches Err(e) ==> e@ == missing_return_view(func_name@, missing_return->0),
{
    if *return_type == DataType::Void {
        return Ok(());
    }
    if let Some(missing_return_pos) = missing_return {
        let mut m = String::from_str("Function '");
        m.append(func_name);
        m.append(
            "' does not return a value on all code paths. Problem detected in construct starting at line ",
        );
        let line = usize_to_string(missing_return_pos.line);
        m.append(line.as_str());
        m.append(".");
        return Err(
            AlthreadError::new(
                ErrorType::FunctionMissingReturnStatement,
                Some(missing_return_pos),
                m,
            ),
        );
    }
    Ok(())
}

/// The code of a function body, closed: a `void` function whose code does not
/// already end with a `return` without value gets one, placed at `pos`.
pub open spec fn closed_body(body: Seq<Instruction>, return_type: DataType, pos: Pos) -> Seq<
    Instruction,
> {
    if return_type == DataType::Void && !(body.len() > 0 && body.last().control
        == InstructionType::Return { has_value: false }) {
        body.push(Instruction { control: InstructionType::Return { has_value: false }, pos: Some(pos) })
    } else {
        body
    }
}

/// The closed body of a `void` function always ends with a `return` without
/// value; it is the compiled body itself when that already ends with one,
/// and otherwise the compiled body followed by one such `return` placed at
/// `pos`.
pub proof fn lemma_void_body_returns(body: Seq<Instruction>, pos: Pos)
    ensures
        ({
            let closed = closed_body(body, DataType::Void, pos);
            &&& closed.len() > 0
            &&& closed.last().control == InstructionType::Return { has_value: false }
            &&& closed.subrange(0, body.len() as int) == body
            &&& (body.len() > 0 && body.last().control == InstructionType::Return {
                has_value: false,
            }) ==> closed == body
            &&& !(body.len() > 0 && body.last().control == InstructionType::Return {
                has_value: false,
            }) ==> closed.len() == body.len() + 1 && closed.last().pos == Some(pos)
        }),
{
    let closed = closed_body(body, DataType::Void, pos);
    assert(closed.subrange(0, body.len() as int) =~= body);
}

/// Closing a function body a second time changes nothing.
pub proof fn lemma_close_body_idempotent(body: Seq<Instruction>, return_type: DataType, pos: Pos)
    ensures
        closed_body(closed_body(body, return_type, pos), return_type, pos) == closed_body(
            body,
            return_type,
            pos,
        ),
{
    let c = closed_body(body, return_type, pos);
    if c != body {
        assert(c.last().control == InstructionType::Return { has_value: false });
    }
}

/// Closes the compiled body of a function: a `void` function whose code does
/// not already end with a `return` without value gets one, at the place of
/// the function's body.
pub fn close_function_body(body: Vec<Instruction>, return_type: DataType, pos: Pos) -> (r: Vec<
    Instruction,
>)
    ensures
        r@ == closed_body(body@, return_type, pos),
{
    let mut body = body;
    if return_type == DataType::Void {
        let mut has_return = false;
        let n = body.len();
        if n > 0 {
            if let InstructionType::Return { has_value: false } = &body[n - 1].control {
                has_return = true;
            }
        }
        if !has_return {
            body.push(
                Instruction { control: InstructionType::Return { has_value: false }, pos: Some(pos) },
            );
        }
    }
    body
}

/// A condition that must hold in every state: the shared variables it reads,
/// the expression, and where it is written.
#[derive(Debug)]
pub struct AlwaysCondition {
    pub variables: Vec<String>,
    pub expression: ParseNode,
    pub pos: Pos,
}

/// The error for a condition that reads no shared variable.
pub open spec fn not_shared_view(pos: Pos) -> (Pos, ErrorType, Seq<char>) {
    (pos, ErrorType::InstructionNotAllowed, "The condition must depend on shared variable(s)"@)
}

/// The error for a condition that is more than one expression.
pub open spec fn not_single_view(pos: Pos) -> (Pos, ErrorType, Seq<char>) {
    (pos, ErrorType::InstructionNotAllowed, "The condition must be a single expression"@)
}

/// The error that the compiled code of an `always` condition gives, if any:
/// it must be exactly a read of shared variables followed by an expression.
pub open spec fn always_condition_error(code: Seq<Instruction>, pos: Pos) -> Option<
    (Pos, ErrorType, Seq<char>),
> {
    if code.len() == 1 {
        Some(not_shared_view(pos))
    } else if code.len() != 2 {
        Some(not_single_view(pos))
    } else if !(code[0].control is GlobalReads) {
        Some(not_shared_view(pos))
    } else if !(code[1].control is Expression) {
        Some(not_single_view(pos))
    } else {
        None
    }
}

/// Reads the compiled code of a condition of an `always` block, written at
/// `pos`: a single instruction means that it reads no shared variable; it
/// must be exactly two, a read of shared variables and an expression.
pub fn always_condition(compiled: Vec<Instruction>, pos: Pos) -> (r: AlthreadResult<
    AlwaysCondition,
>)
    ensures
        r is Err <==> always_condition_error(compiled@, pos) is Some,
        r matches Err(e) ==> always_condition_error(compiled@, pos) == Some(e@),
        r matches Ok(c) ==> {
            &&& compiled@[0].control == (InstructionType::GlobalReads { variables: c.variables })
            &&& compiled@[1].control == InstructionType::Expression(c.expression)
            &&& c.pos == pos
        },
{
    let ghost code = compiled@;
    if compiled.len() == 1 {
        return Err(
            AlthreadError::new(
                ErrorType::InstructionNotAllowed,
                Some(pos),
                String::from_str("The condition must depend on shared variable(s)"),
            ),
        );
    }
    if compiled.len() != 2 {
        return Err(
            AlthreadError::new(
                ErrorType::InstructionNotAllowed,
                Some(pos),
                String::from_str("The condition must be a single expression"),
            ),
        );
    }
    let mut compiled = compiled;
    let second = compiled.remove(1);
    let first = compiled.remove(0);
    proof {
        assert(first == code[0]);
        assert(second == code[1]);
    }
    match first.control {
        InstructionType::GlobalReads { variables } => match second.control {
            InstructionType::Expression(expression) => Ok(
                AlwaysCondition { variables, expression, pos },
            ),
            _ => Err(
                AlthreadError::new(
                    ErrorType::InstructionNotAllowed,
                    Some(pos),
                    String::from_str("The condition must be a single expression"),
                ),
            ),
        },
        _ => Err(
            AlthreadError::new(
                ErrorType::InstructionNotAllowed,
                Some(pos),
                String::from_str("The condition must depend on shared variable(s)"),
            ),
        ),
    }
}

/// The error for a statement of the `shared` block that is no declaration.
pub open spec fn shared_statement_view(pos: Pos) -> (Pos, ErrorType, Seq<char>) {
    (
        pos,
        ErrorType::InstructionNotAllowed,
        "The 'shared' block can only contains assignment from an expression"@,
    )
}

/// The error for a channel that a program uses but no program declares.
pub open spec fn undefined_channel_view(program: Seq<char>, channel: Seq<char>, pos: Pos) -> (
    Pos,
    ErrorType,
    Seq<char>,
) {
    (
        pos,
        ErrorType::UndefinedChannel,
        "Channel '"@ + channel + "' used in program '"@ + program + "' at line "@ + decimal(
            pos.line as nat,
        ) + " has not been declared"@,
    )
}

/// Checks that no channel is used without being declared: `channels` holds,
/// for each channel used but not declared, the program that uses it, its
/// name and where it is used; the first of them is an error.
pub fn check_undefined_channels(channels: &Vec<((String, String), Pos)>) -> (r: AlthreadResult<()>)
    ensures
        r is Ok <==> channels@.len() == 0,
        r matches Err(e) ==> e@ == undefined_channel_view(
            channels@[0].0.0@,
            channels@[0].0.1@,
            channels@[0].1,
        ),
{
    if channels.len() == 0 {
        return Ok(());
    }
    let entry = &channels[0];
    let mut m = String::from_str("Channel '");
    m.append(entry.0.1.as_str());
    m.append("' used in program '");
    m.append(entry.0.0.as_str());
    m.append("' at line ");
    let line = usize_to_string(entry.1.line);
    m.append(line.as_str());
    m.append(" has not been declared");
    Err(AlthreadError::new(ErrorType::UndefinedChannel, Some(entry.1), m))
}

/// `s1` is `s0` after entering a function with parameters `args`, and
/// `r` the length of the stack before: the compiler is in a function, one
/// depth further, and the parameters (pairs of a name and a type) are on the
/// stack, in order, at that depth, as mutable variables.
pub open spec fn function_entered(s0: CompilerState, s1: CompilerState, args: Node<ArgsList>, r: usize) -> bool {
    let n = s0.program_stack@.len();
    let count = if args.value.identifiers@.len() <= args.value.datatypes@.len() {
        args.value.identifiers@.len()
    } else {
        args.value.datatypes@.len()
    };
    &&& r == n
    &&& s1.in_function
    &&& s1.current_stack_depth == s0.current_stack_depth + 1
    &&& s1.current_program_name == s0.current_program_name
    &&& s1.program_stack@.len() == n + count
    &&& forall|j: int| 0 <= j < n ==> s1.program_stack@[j] == s0.program_stack@[j]
    &&& forall|i: int|
        0 <= i < count ==> {
            let v = #[trigger] s1.program_stack@[n + i];
            &&& v.name == args.value.identifiers@[i].value.value
            &&& v.depth == s1.current_stack_depth
            &&& v.mutable
            &&& v.datatype == args.value.datatypes@[i].value
            &&& v.declare_pos == Some(args.value.identifiers@[i].pos)
        }
}

/// `s1` is `s0` after leaving a function whose stack had length `initial`
/// before: the stack cut back to that length, one depth less, out of the
/// function.
pub open spec fn function_left(s0: CompilerState, s1: CompilerState, initial: usize) -> bool {
    &&& s1.program_stack@ == if initial <= s0.program_stack@.len() {
        s0.program_stack@.subrange(0, initial as int)
    } else {
        s0.program_stack@
    }
    &&& s1.current_stack_depth == s0.current_stack_depth - 1
    &&& !s1.in_function
    &&& s1.current_program_name == s0.current_program_name
}

/// Leaving a function undoes entering it: the stack, the depth and the
/// current program are as they were before, and the compiler is no longer in
/// a function.
pub proof fn lemma_leave_undoes_enter(
    s0: CompilerState,
    s1: CompilerState,
    s2: CompilerState,
    args: Node<ArgsList>,
    r: usize,
)
    requires
        function_entered(s0, s1, args, r),
        function_left(s1, s2, r),
    ensures
        s2.program_stack@ == s0.program_stack@,
        s2.current_stack_depth == s0.current_stack_depth,
        s2.current_program_name == s0.current_program_name,
        !s2.in_function,
{
    assert(s2.program_stack@ =~= s0.program_stack@);
}

/// Leaves the body of a function: the stack is brought back to the length
/// it had before `enter_function`, the depth back by one, and the compiler
/// is no longer in a function.
pub fn leave_function(state: &mut CompilerState, initial_stack_len: usize)
    requires
        old(state).current_stack_depth > 0,
    ensures
        function_left(*old(state), *final(state), initial_stack_len),
        final(state).global_table == old(state).global_table,
        final(state).program_arguments == old(state).program_arguments,
        final(state).is_shared == old(state).is_shared,
        final(state).user_functions == old(state).user_functions,
        final(state).undefined_channels == old(state).undefined_channels,
{
    state.program_stack.truncate(initial_stack_len);
    state.current_stack_depth = state.current_stack_depth - 1;
    state.in_function = false;
}

/// The places in a tree's tables: for each program name, keyword and function
/// name, the index of the top-level node that defined it last; and the index
/// of the node that defined the `shared` block, if any.
pub type AstSources = (Map<Seq<char>, int>, Map<ConditionKeyword, int>, Option<int>, Map<Seq<char>, int>);

/// A top-level node has the children that building it reads.
pub open spec fn top_well_formed(p: ParseNode) -> bool {
    match p.rule {
        Rule::main_block => p.children.len() >= 1 && statements_well_formed(
            p.children@[0].children@,
        ),
        Rule::global_block => p.children.len() >= 1 && statements_well_formed(
            p.children@[0].children@,
        ),
        Rule::condition_block => p.children.len() >= 2 && statements_well_formed(
            p.children@[1].children@,
        ),
        Rule::program_block => p.children.len() >= 3 && statements_well_formed(
            p.children@[2].children@,
        ),
        Rule::function_block => p.children.len() >= 5 && statements_well_formed(
            p.children@[4].children@,
        ),
        _ => true,
    }
}

/// The keyword that a keyword rule stands for.
pub open spec fn keyword_of(r: Rule) -> ConditionKeyword {
    if r == Rule::ALWAYS_KW {
        ConditionKeyword::Always
    } else {
        ConditionKeyword::Never
    }
}

/// The error that reading a `condition_block` node gives, if any: a keyword
/// other than `always` and `never` is one; then the conditions must build.
pub open spec fn condition_error(p: ParseNode) -> Option<(Pos, ErrorType, Seq<char>)> {
    let kw = p.children@[0];
    if kw.rule == Rule::ALWAYS_KW || kw.rule == Rule::NEVER_KW {
        statements_error(p.children@[1].children@)
    } else {
        Some(no_rule_in_view(&kw, "condition keyword"@))
    }
}

/// What reading the top-level node `p`, at index `i`, does to the tables, or
/// the error it gives.
pub open spec fn build_step(m: AstSources, p: ParseNode, i: int) -> Result<
    AstSources,
    (Pos, ErrorType, Seq<char>),
> {
    match p.rule {
        Rule::main_block => match statements_error(p.children@[0].children@) {
            Some(e) => Err(e),
            None => Ok((m.0.insert("main"@, i), m.1, m.2, m.3)),
        },
        Rule::global_block => match statements_error(p.children@[0].children@) {
            Some(e) => Err(e),
            None => Ok((m.0, m.1, Some(i), m.3)),
        },
        Rule::condition_block => match condition_error(p) {
            Some(e) => Err(e),
            None => Ok((m.0, m.1.insert(keyword_of(p.children@[0].rule), i), m.2, m.3)),
        },
        Rule::program_block => match statements_error(p.children@[2].children@) {
            Some(e) => Err(e),
            None => Ok((m.0.insert(p.children@[0].text@, i), m.1, m.2, m.3)),
        },
        Rule::function_block => match statements_error(p.children@[4].children@) {
            Some(e) => Err(e),
            None => {
                let name = p.children@[0].text@;
                if m.3.contains_key(name) {
                    Err(function_defined_view(name, pos_of(p.children@[4])))
                } else {
                    Ok((m.0, m.1, m.2, m.3.insert(name, i)))
                }
            },
        },
        Rule::EOI => Ok(m),
        _ => Err(no_rule_in_view(&p, "root ast"@)),
    }
}

/// Reading the top-level nodes `ps` in order: the places of the tables, or
/// the error of the first node that cannot be read.
pub open spec fn build_sources(ps: Seq<ParseNode>) -> Result<AstSources, (Pos, ErrorType, Seq<char>)>
    decreases ps.len(),
{
    if ps.len() == 0 {
        Ok((Map::empty(), Map::empty(), None, Map::empty()))
    } else {
        match build_sources(ps.drop_last()) {
            Err(e) => Err(e),
            Ok(m) => build_step(m, ps.last(), ps.len() - 1),
        }
    }
}

/// The index of the child that holds the block of a program node.
pub open spec fn process_block_index(p: ParseNode) -> int {
    if p.rule == Rule::main_block {
        0
    } else {
        2
    }
}

/// The name of the program that a program node defines.
pub open spec fn process_name(p: ParseNode) -> Seq<char> {
    if p.rule == Rule::main_block {
        "main"@
    } else {
        p.children@[0].text@
    }
}

/// Once reading a prefix of the top-level nodes fails, reading all of them
/// fails with the same error.
pub proof fn lemma_build_sources_error_stays(ps: Seq<ParseNode>, k: int)
    requires
        0 <= k <= ps.len(),
        build_sources(ps.take(k)) is Err,
    ensures
        build_sources(ps) == build_sources(ps.take(k)),
    decreases ps.len() - k,
{
    if k < ps.len() {
        assert(ps.take(k + 1).drop_last() =~= ps.take(k));
        lemma_build_sources_error_stays(ps, k + 1);
    } else {
        assert(ps.take(k) =~= ps);
    }
}

/// The node `p` defines the program `k`.
pub open spec fn defines_process(p: ParseNode, k: Seq<char>) -> bool {
    (p.rule == Rule::main_block || p.rule == Rule::program_block) && process_name(p) == k
}

/// The node `p` defines the condition block of keyword `k`.
pub open spec fn defines_condition(p: ParseNode, k: ConditionKeyword) -> bool {
    &&& p.rule == Rule::condition_block
    &&& (p.children@[0].rule == Rule::ALWAYS_KW || p.children@[0].rule == Rule::NEVER_KW)
    &&& keyword_of(p.children@[0].rule) == k
}

/// The node `p` defines the function `k`.
pub open spec fn defines_function(p: ParseNode, k: Seq<char>) -> bool {
    p.rule == Rule::function_block && p.children@[0].text@ == k
}

/// What the tables of a tree hold, when its top-level nodes are read
/// without error: the programs table holds exactly the names that some node
/// defines, each from the last node that defines it, and likewise the
/// condition table with keywords and the `shared` block; no two nodes define
/// the same function, and each function comes from the node that defines it.
pub proof fn lemma_build_sources(ps: Seq<ParseNode>)
    requires
        build_sources(ps) is Ok,
    ensures
        ({
            let m = build_sources(ps)->Ok_0;
            &&& forall|k: Seq<char>| #[trigger]
                m.0.contains_key(k) <==> exists|i: int| 0 <= i < ps.len() && defines_process(ps[i], k)
            &&& forall|k: Seq<char>| #[trigger]
                m.0.contains_key(k) ==> 0 <= m.0[k] < ps.len() && defines_process(ps[m.0[k]], k)
                    && forall|j: int| m.0[k] < j < ps.len() ==> !defines_process(ps[j], k)
            &&& forall|k: ConditionKeyword| #[trigger]
                m.1.contains_key(k) <==> exists|i: int| 0 <= i < ps.len() && defines_condition(ps[i], k)
            &&& forall|k: ConditionKeyword| #[trigger]
                m.1.contains_key(k) ==> 0 <= m.1[k] < ps.len() && defines_condition(ps[m.1[k]], k)
                    && forall|j: int| m.1[k] < j < ps.len() ==> !defines_condition(ps[j], k)
            &&& (m.2 is None <==> forall|i: int| 0 <= i < ps.len() ==> ps[i].rule != Rule::global_block)
            &&& (m.2 matches Some(g) ==> 0 <= g < ps.len() && ps[g].rule == Rule::global_block
                && forall|j: int| g < j < ps.len() ==> ps[j].rule != Rule::global_block)
            &&& forall|k: Seq<char>| #[trigger]
                m.3.contains_key(k) <==> exists|i: int| 0 <= i < ps.len() && defines_function(ps[i], k)
            &&& forall|k: Seq<char>| #[trigger]
                m.3.contains_key(k) ==> 0 <= m.3[k] < ps.len() && defines_function(ps[m.3[k]], k)
            &&& forall|i: int, j: int, k: Seq<char>|
                0 <= i < j < ps.len() && #[trigger] defines_function(ps[i], k) ==> !#[trigger] defines_function(ps[j], k)
        }),
    decreases ps.len(),
{
    if ps.len() > 0 {
        let front = ps.drop_last();
        let last = ps.last();
        let n = ps.len() - 1;
        assert(build_sources(front) is Ok);
        lemma_build_sources(front);
        let m0 = build_sources(front)->Ok_0;
        let m = build_sources(ps)->Ok_0;
        assert(m == build_step(m0, last, n)->Ok_0);
        assert forall|i: int| 0 <= i < front.len() implies #[trigger] front[i] == ps[i] by {}
        assert forall|k: Seq<char>| #[trigger]
            m.0.contains_key(k) <==> exists|i: int| 0 <= i < ps.len() && defines_process(ps[i], k) by {
            if m0.0.contains_key(k) {
                let i = choose|i: int| 0 <= i < front.len() && defines_process(front[i], k);
                assert(defines_process(ps[i], k));
            }
            if exists|i: int| 0 <= i < ps.len() && defines_process(ps[i], k) {
                let i = choose|i: int| 0 <= i < ps.len() && defines_process(ps[i], k);
                if i < n {
                    assert(defines_process(front[i], k));
                }
            }
        }
        assert forall|k: Seq<char>| #[trigger] m.0.contains_key(k) implies 0 <= m.0[k] < ps.len()
            && defines_process(ps[m.0[k]], k) && forall|j: int|
            m.0[k] < j < ps.len() ==> !defines_process(ps[j], k) by {
            if !defines_process(last, k) {
                assert(m0.0.contains_key(k));
                assert forall|j: int| m.0[k] < j < ps.len() implies !defines_process(ps[j], k) by {
                    if j < n {
                        assert(front[j] == ps[j]);
                    }
                }
            }
        }
        assert forall|k: ConditionKeyword| #[trigger]
            m.1.contains_key(k) <==> exists|i: int| 0 <= i < ps.len() && defines_condition(ps[i], k) by {
            if m0.1.contains_key(k) {
                let i = choose|i: int| 0 <= i < front.len() && defines_condition(front[i], k);
                assert(defines_condition(ps[i], k));
            }
            if exists|i: int| 0 <= i < ps.len() && defines_condition(ps[i], k) {
                let i = choose|i: int| 0 <= i < ps.len() && defines_condition(ps[i], k);
                if i < n {
                    assert(defines_condition(front[i], k));
                }
            }
        }
        assert forall|k: ConditionKeyword| #[trigger] m.1.contains_key(k) implies 0 <= m.1[k] < ps.len()
            && defines_condition(ps[m.1[k]], k) && forall|j: int|
            m.1[k] < j < ps.len() ==> !defines_condition(ps[j], k) by {
            if !defines_condition(last, k) {
                assert(m0.1.contains_key(k));
                assert forall|j: int| m.1[k] < j < ps.len() implies !defines_condition(ps[j], k) by {
                    if j < n {
                        assert(front[j] == ps[j]);
                    }
                }
            }
        }
        assert(m.2 is None <==> forall|i: int| 0 <= i < ps.len() ==> ps[i].rule != Rule::global_block) by {
            if m.2 is None {
                assert forall|i: int| 0 <= i < ps.len() implies ps[i].rule != Rule::global_block by {
                    if i < n {
                        assert(front[i] == ps[i]);
                    }
                }
            }
        }
        assert(m.2 matches Some(g) ==> 0 <= g < ps.len() && ps[g].rule == Rule::global_block
            && forall|j: int| g < j < ps.len() ==> ps[j].rule != Rule::global_block) by {
            if last.rule != Rule::global_block && m.2 is Some {
                let g = m.2->0;
                assert(front[g] == ps[g]);
                assert forall|j: int| g < j < ps.len() implies ps[j].rule != Rule::global_block by {
                    if j < n {
                        assert(front[j] == ps[j]);
                    }
                }
            }
        }
        assert forall|k: Seq<char>| #[trigger]
            m.3.contains_key(k) <==> exists|i: int| 0 <= i < ps.len() && defines_function(ps[i], k) by {
            if m0.3.contains_key(k) {
                let i = choose|i: int| 0 <= i < front.len() && defines_function(front[i], k);
                assert(defines_function(ps[i], k));
            }
            if exists|i: int| 0 <= i < ps.len() && defines_function(ps[i], k) {
                let i = choose|i: int| 0 <= i < ps.len() && defines_function(ps[i], k);
                if i < n {
                    assert(defines_function(front[i], k));
                }
            }
        }
        assert forall|k: Seq<char>| #[trigger] m.3.contains_key(k) implies 0 <= m.3[k] < ps.len()
            && defines_function(ps[m.3[k]], k) by {
            if !defines_function(last, k) {
                assert(m0.3.contains_key(k));
            }
        }
        assert forall|i: int, j: int, k: Seq<char>|
            0 <= i < j < ps.len() && #[trigger] defines_function(ps[i], k) implies !#[trigger] defines_function(ps[j], k) by {
            if j < n {
                assert(front[i] == ps[i]);
                assert(front[j] == ps[j]);
                assert(defines_function(front[i], k));
            } else if defines_function(ps[j], k) {
                assert(front[i] == ps[i]);
                assert(defines_function(front[i], k));
                assert(m0.3.contains_key(k));
            }
        }
    }
}

/// `v` is the program entry built from the node `p`: `main` has no
/// parameters and its block is the first child; a named program has its
/// parameters and block as second and third children.
pub open spec fn process_built(v: (Node<ArgsList>, Node<Block>), p: ParseNode) -> bool {
    if p.rule == Rule::main_block {
        &&& v.0.pos == (Pos { line: 0, col: 0 })
        &&& v.0.value.identifiers@.len() == 0
        &&& v.0.value.datatypes@.len() == 0
        &&& block_built(v.1, p.children@[0])
    } else {
        &&& args_built(v.0, p.children@[1])
        &&& block_built(v.1, p.children@[2])
    }
}

/// `v` is the function entry built from the node `p`: parameters, return
/// type (the fourth child names it) and body.
pub open spec fn function_built(v: (Node<ArgsList>, DataType, Node<Block>), p: ParseNode) -> bool {
    &&& args_built(v.0, p.children@[1])
    &&& v.1 == datatype_of(p.children@[3].text@)
    &&& block_built(v.2, p.children@[4])
}

impl Ast {
    /// Each table of the tree holds at most one entry for a key.
    pub open spec fn well_formed(&self) -> bool {
        &&& keys_unique(self.process_blocks@)
        &&& keys_unique(self.condition_blocks@)
        &&& keys_unique(self.function_blocks@)
    }

    /// The programs of the tree, by name.
    pub open spec fn processes(&self) -> Map<Seq<char>, (Node<ArgsList>, Node<Block>)> {
        entries_map(self.process_blocks@)
    }

    /// The condition blocks of the tree, by keyword.
    pub open spec fn conditions(&self) -> Map<ConditionKeyword, Node<ConditionBlock>> {
        entries_map(self.condition_blocks@)
    }

    /// The functions of the tree, by name.
    pub open spec fn functions(&self) -> Map<Seq<char>, (Node<ArgsList>, DataType, Node<Block>)> {
        entries_map(self.function_blocks@)
    }

    /// The tree is the one that the top-level nodes `ps` give, with its
    /// tables placed as `m` says.
    pub open spec fn built_from(&self, ps: Seq<ParseNode>, m: AstSources) -> bool {
        &&& self.well_formed()
        &&& self.processes().dom() == m.0.dom()
        &&& forall|k: Seq<char>| #[trigger]
            m.0.contains_key(k) ==> 0 <= m.0[k] < ps.len() && process_built(
                self.processes()[k],
                ps[m.0[k]],
            )
        &&& self.conditions().dom() == m.1.dom()
        &&& forall|k: ConditionKeyword| #[trigger]
            m.1.contains_key(k) ==> 0 <= m.1[k] < ps.len() && condition_block_built(
                self.conditions()[k],
                ps[m.1[k]].children@[1],
            )
        &&& match m.2 {
            None => self.global_block is None,
            Some(i) => 0 <= i < ps.len() && match self.global_block {
                Some(b) => block_built(b, ps[i].children@[0]),
                None => false,
            },
        }
        &&& self.functions().dom() == m.3.dom()
        &&& forall|k: Seq<char>| #[trigger]
            m.3.contains_key(k) ==> 0 <= m.3[k] < ps.len() && function_built(
                self.functions()[k],
                ps[m.3[k]],
            )
    }

    /// An empty tree.
    pub fn new() -> (a: Self)
        ensures
            a.well_formed(),
            a.processes().is_empty(),
            a.conditions().is_empty(),
            a.global_block is None,
            a.functions().is_empty(),
    {
        let a = Self {
            process_blocks: Vec::new(),
            condition_blocks: Vec::new(),
            global_block: None,
            function_blocks: Vec::new(),
        };
        assert(a.processes() =~= Map::empty());
        assert(a.conditions() =~= Map::empty());
        assert(a.functions() =~= Map::empty());
        a
    }

    /// Builds the syntax tree of a program from its top-level parse nodes, in
    /// order: `main` and named programs go to the programs table, `always`
    /// and `never` blocks to the condition table, the `shared` block to its
    /// place, functions to the function table; a later definition of a
    /// program or condition replaces an earlier one, a second definition of a
    /// function is an error; the end of input is skipped and any other node is
    /// an error. The first node that cannot be read ends the work with its
    /// error.
    pub fn build(pairs: Vec<ParseNode>) -> (r: AlthreadResult<Self>)
        requires
            forall|i: int| 0 <= i < pairs.len() ==> #[trigger] top_well_formed(pairs@[i]),
        ensures
            r is Err <==> build_sources(pairs@) is Err,
            r matches Err(e) ==> build_sources(pairs@) == Err::<AstSources, _>(e@),
            r matches Ok(a) ==> (build_sources(pairs@) matches Ok(m) && a.built_from(pairs@, m)),
    {
        let ghost orig = pairs@;
        let mut rest = pairs;
        let mut ast = Self::new();
        let ghost mut m: AstSources = (Map::empty(), Map::empty(), None, Map::empty());
        let n = rest.len();
        let mut i: usize = 0;
        assert(orig.skip(0) =~= orig);
        assert(orig.take(0) =~= Seq::<ParseNode>::empty());
        while i < n
            invariant
                n == orig.len(),
                i <= n,
                orig == pairs@,
                rest@ == orig.skip(i as int),
                forall|k: int| 0 <= k < orig.len() ==> #[trigger] top_well_formed(orig[k]),
                build_sources(orig.take(i as int)) == Ok::<AstSources, (Pos, ErrorType, Seq<char>)>(m),
                ast.built_from(orig, m),
                forall|k: Seq<char>| #[trigger] m.0.contains_key(k) ==> m.0[k] < i,
                forall|k: ConditionKeyword| #[trigger] m.1.contains_key(k) ==> m.1[k] < i,
                forall|k: Seq<char>| #[trigger] m.3.contains_key(k) ==> m.3[k] < i,
            decreases n - i,
        {
            let pair = rest.remove(0);
            let ghost p = orig[i as int];
            proof {
                assert(orig.take(i + 1).drop_last() =~= orig.take(i as int));
                assert(orig.take(i + 1).last() == p);
                assert(rest@ =~= orig.skip(i + 1));
                assert(pair == p);
                assert(top_well_formed(p));
            }
            let rule = pair.rule;
            let step = if rule == Rule::main_block || rule == Rule::program_block {
                ast.add_process(pair)
            } else if rule == Rule::global_block {
                ast.set_global(pair)
            } else if rule == Rule::condition_block {
                ast.add_condition(pair)
            } else if rule == Rule::function_block {
                ast.add_function(pair)
            } else if rule == Rule::EOI {
                Ok(())
            } else {
                Err(no_rule_in(&pair, "root ast"))
            };
            match step {
                Err(e) => {
                    proof {
                        assert(build_sources(orig.take(i + 1)) == Err::<AstSources, _>(e@));
                        lemma_build_sources_error_stays(orig, i + 1);
                    }
                    return Err(e);
                },
                Ok(()) => {},
            }
            proof {
                let m2 = build_step(m, p, i as int)->Ok_0;
                assert(build_sources(orig.take(i + 1)) == Ok::<AstSources, (Pos, ErrorType, Seq<char>)>(m2));
                m = m2;
            }
            i = i + 1;
        }
        assert(orig.take(n as int) =~= orig);
        Ok(ast)
    }

    /// Makes ready to compile the program `name`: it becomes the current
    /// program, and its parameters are declared on the stack, in order, as
    /// mutable variables of the current depth, with their types and places.
    pub fn declare_program_arguments(&self, name: &String, state: &mut CompilerState)
        requires
            self.well_formed(),
            self.processes().contains_key(name@),
            self.processes()[name@].0.value.datatypes@.len()
                >= self.processes()[name@].0.value.identifiers@.len(),
        ensures
            final(state).current_program_name@ == name@,
            final(state).current_stack_depth == old(state).current_stack_depth,
            final(state).in_function == old(state).in_function,
            final(state).is_shared == old(state).is_shared,
            final(state).user_functions == old(state).user_functions,
            final(state).undefined_channels == old(state).undefined_channels,
            final(state).global_table == old(state).global_table,
            final(state).program_arguments == old(state).program_arguments,
            ({
                let args = self.processes()[name@].0.value;
                let n = old(state).program_stack@.len();
                &&& final(state).program_stack@.len() == n + args.identifiers@.len()
                &&& forall|j: int| 0 <= j < n ==> final(state).program_stack@[j] == old(state).program_stack@[j]
                &&& forall|i: int|
                    0 <= i < args.identifiers@.len() ==> {
                        let v = #[trigger] final(state).program_stack@[n + i];
                        &&& v.name == args.identifiers@[i].value.value
                        &&& v.depth == old(state).current_stack_depth
                        &&& v.mutable
                        &&& v.datatype == args.datatypes@[i].value
                        &&& v.declare_pos == Some(args.identifiers@[i].pos)
                    }
            }),
    {
        let entry = get_entry(&self.process_blocks, name);
        let (args, _prog) = match entry {
            Some(e) => e,
            None => {
                return;
            },
        };
        state.current_program_name = name.clone();
        let ghost n = state.program_stack@.len();
        let mut i: usize = 0;
        while i < args.value.identifiers.len()
            invariant
                args == self.processes()[name@].0,
                args.value.datatypes@.len() >= args.value.identifiers@.len(),
                i <= args.value.identifiers@.len(),
                state.current_program_name@ == name@,
                state.current_stack_depth == old(state).current_stack_depth,
                state.in_function == old(state).in_function,
                state.is_shared == old(state).is_shared,
                state.user_functions == old(state).user_functions,
                state.undefined_channels == old(state).undefined_channels,
                state.global_table == old(state).global_table,
                state.program_arguments == old(state).program_arguments,
                n == old(state).program_stack@.len(),
                state.program_stack@.len() == n + i,
                forall|j: int| 0 <= j < n ==> state.program_stack@[j] == old(state).program_stack@[j],
                forall|k: int|
                    0 <= k < i ==> {
                        let v = #[trigger] state.program_stack@[n + k];
                        &&& v.name == args.value.identifiers@[k].value.value
                        &&& v.depth == old(state).current_stack_depth
                        &&& v.mutable
                        &&& v.datatype == args.value.datatypes@[k].value
                        &&& v.declare_pos == Some(args.value.identifiers@[k].pos)
                    },
            decreases args.value.identifiers@.len() - i,
        {
            let var = &args.value.identifiers[i];
            let v = Variable {
                name: var.value.value.clone(),
                depth: state.current_stack_depth,
                mutable: true,
                datatype: args.value.datatypes[i].value,
                declare_pos: Some(var.pos),
            };
            state.program_stack.push(v);
            i = i + 1;
        }
    }

    /// Assembles the code of the program `name` from `compiled`, the code
    /// compiled for its block after `declare_program_arguments`: a program
    /// with parameters first takes them apart; the code ends the program.
    pub fn compile_program(&self, name: &String, compiled: InstructionBuilderOk) -> (r: ProgramCode)
        requires
            self.well_formed(),
            self.processes().contains_key(name@),
            !compiled.spec_contains_jump(),
        ensures
            r.name@ == name@,
            ({
                let (args, prog) = self.processes()[name@];
                r.instructions@ == (if args.value.identifiers@.len() > 0 {
                    seq![Instruction { control: InstructionType::Destruct, pos: Some(args.pos) }]
                } else {
                    seq![]
                }) + compiled.instructions@ + seq![
                    Instruction { control: InstructionType::EndProgram, pos: Some(prog.pos) },
                ]
            }),
    {
        let mut instructions: Vec<Instruction> = Vec::new();
        let entry = get_entry(&self.process_blocks, name);
        let (args, prog) = match entry {
            Some(e) => e,
            None => {
                return ProgramCode { instructions, name: name.clone() };
            },
        };
        if args.value.identifiers.len() > 0 {
            instructions.push(Instruction { control: InstructionType::Destruct, pos: Some(args.pos) });
        }
        let ghost head = instructions@;
        let mut body = compiled.instructions;
        instructions.append(&mut body);
        instructions.push(Instruction { control: InstructionType::EndProgram, pos: Some(prog.pos) });
        proof {
            assert(instructions@ =~= head + compiled.instructions@ + seq![
                Instruction { control: InstructionType::EndProgram, pos: Some(prog.pos) },
            ]);
        }
        ProgramCode { instructions, name: name.clone() }
    }

    /// The parameter types of each program, one entry per program of the
    /// programs table, in its order.
    pub fn program_arguments(&self) -> (r: Vec<(String, Vec<DataType>)>)
        ensures
            r@.len() == self.process_blocks@.len(),
            forall|i: int|
                0 <= i < r@.len() ==> {
                    let e = #[trigger] self.process_blocks@[i];
                    &&& r@[i].0 == e.0
                    &&& r@[i].1@.len() == e.1.0.value.datatypes@.len()
                    &&& forall|k: int|
                        0 <= k < r@[i].1@.len() ==> r@[i].1@[k] == e.1.0.value.datatypes@[k].value
                },
    {
        let mut r: Vec<(String, Vec<DataType>)> = Vec::new();
        let mut i: usize = 0;
        while i < self.process_blocks.len()
            invariant
                i <= self.process_blocks@.len(),
                r@.len() == i,
                forall|j: int|
                    0 <= j < i ==> {
                        let e = #[trigger] self.process_blocks@[j];
                        &&& r@[j].0 == e.0
                        &&& r@[j].1@.len() == e.1.0.value.datatypes@.len()
                        &&& forall|k: int|
                            0 <= k < r@[j].1@.len() ==> r@[j].1@[k]
                                == e.1.0.value.datatypes@[k].value
                    },
            decreases self.process_blocks@.len() - i,
        {
            let e = &self.process_blocks[i];
            let types = e.1.0.value.datatype_list();
            r.push((e.0.clone(), types));
            i = i + 1;
        }
        r
    }

    /// The prototype of the function `name`, made before any body is
    /// compiled (so that functions can call each other in any order): its
    /// parameters, return type and place, with an empty body. A function of a
    /// type other than `void` must return a value on every path:
    /// `missing_return` is the first place where a path of its body ends
    /// without one, as the analysis of its control flow found it.
    pub fn function_prototype(&self, name: &String, missing_return: Option<Pos>) -> (r: AlthreadResult<
        FunctionDefinition,
    >)
        requires
            self.well_formed(),
            self.functions().contains_key(name@),
        ensures
            ({
                let (args, return_type, block) = self.functions()[name@];
                &&& r is Err <==> (return_type != DataType::Void && missing_return is Some)
                &&& r matches Err(e) ==> e@ == missing_return_view(name@, missing_return->0)
                &&& r matches Ok(f) ==> {
                    &&& f.name@ == name@
                    &&& f.arguments@.len() == if args.value.identifiers@.len()
                        <= args.value.datatypes@.len() {
                        args.value.identifiers@.len()
                    } else {
                        args.value.datatypes@.len()
                    }
                    &&& forall|i: int|
                        0 <= i < f.arguments@.len() ==> #[trigger] f.arguments@[i] == (
                            args.value.identifiers@[i].value.value,
                            args.value.datatypes@[i].value,
                        )
                    &&& f.return_type == return_type
                    &&& f.body@.len() == 0
                    &&& f.pos == block.pos
                }
            }),
    {
        let entry = get_entry(&self.function_blocks, name);
        let (args_list, return_datatype, func_block) = match entry {
            Some(e) => e,
            None => {
                return Ok(
                    FunctionDefinition {
                        name: name.clone(),
                        arguments: Vec::new(),
                        return_type: DataType::Void,
                        body: Vec::new(),
                        pos: Pos { line: 0, col: 0 },
                    },
                );
            },
        };
        check_function_returns(name.as_str(), return_datatype, missing_return)?;
        let arguments = args_list.value.arguments();
        Ok(
            FunctionDefinition {
                name: name.clone(),
                arguments,
                return_type: *return_datatype,
                body: Vec::new(),
                pos: func_block.pos,
            },
        )
    }

    /// Makes ready to compile the body of the function `name`: the compiler
    /// enters a function and a new depth, and the parameters (pairs of a name
    /// and a type) are declared on the stack at that depth. Gives the length
    /// of the stack before, to which `leave_function` brings it back.
    pub fn enter_function(&self, name: &String, state: &mut CompilerState) -> (r: usize)
        requires
            self.well_formed(),
            self.functions().contains_key(name@),
            old(state).current_stack_depth < usize::MAX,
        ensures
            function_entered(*old(state), *final(state), self.functions()[name@].0, r),
            final(state).global_table == old(state).global_table,
            final(state).program_arguments == old(state).program_arguments,
            final(state).is_shared == old(state).is_shared,
            final(state).user_functions == old(state).user_functions,
            final(state).undefined_channels == old(state).undefined_channels,
    {
        let initial_stack_len = state.program_stack.len();
        state.in_function = true;
        state.current_stack_depth = state.current_stack_depth + 1;
        let entry = get_entry(&self.function_blocks, name);
        let args = match entry {
            Some(e) => &e.0,
            None => {
                return initial_stack_len;
            },
        };
        let ghost n = state.program_stack@.len();
        let mut i: usize = 0;
        while i < args.value.identifiers.len() && i < args.value.datatypes.len()
            invariant
                args == self.functions()[name@].0,
                i <= args.value.identifiers@.len(),
                i <= args.value.datatypes@.len(),
                state.in_function,
                state.global_table == old(state).global_table,
                state.program_arguments == old(state).program_arguments,
                state.is_shared == old(state).is_shared,
                state.user_functions == old(state).user_functions,
                state.undefined_channels == old(state).undefined_channels,
                state.current_stack_depth == old(state).current_stack_depth + 1,
                state.current_program_name == old(state).current_program_name,
                n == old(state).program_stack@.len(),
                state.program_stack@.len() == n + i,
                forall|j: int| 0 <= j < n ==> state.program_stack@[j] == old(state).program_stack@[j],
                forall|k: int|
                    0 <= k < i ==> {
                        let v = #[trigger] state.program_stack@[n + k];
                        &&& v.name == args.value.identifiers@[k].value.value
                        &&& v.depth == state.current_stack_depth
                        &&& v.mutable
                        &&& v.datatype == args.value.datatypes@[k].value
                        &&& v.declare_pos == Some(args.value.identifiers@[k].pos)
                    },
            decreases args.value.identifiers@.len() - i,
        {
            let id = &args.value.identifiers[i];
            let v = Variable {
                name: id.value.value.clone(),
                depth: state.current_stack_depth,
                mutable: true,
                datatype: args.value.datatypes[i].value,
                declare_pos: Some(id.pos),
            };
            state.program_stack.push(v);
            i = i + 1;
        }
        initial_stack_len
    }

    /// The definition of the function `name` with `body`, the code compiled
    /// for its block after `enter_function`: its parameters, return type and
    /// place, and the body closed by `close_function_body`.
    pub fn function_definition(&self, name: &String, body: Vec<Instruction>) -> (r:
        FunctionDefinition)
        requires
            self.well_formed(),
            self.functions().contains_key(name@),
        ensures
            ({
                let (args, return_type, block) = self.functions()[name@];
                &&& r.name@ == name@
                &&& r.arguments@.len() == if args.value.identifiers@.len()
                    <= args.value.datatypes@.len() {
                    args.value.identifiers@.len()
                } else {
                    args.value.datatypes@.len()
                }
                &&& forall|i: int|
                    0 <= i < r.arguments@.len() ==> #[trigger] r.arguments@[i] == (
                        args.value.identifiers@[i].value.value,
                        args.value.datatypes@[i].value,
                    )
                &&& r.return_type == return_type
                &&& r.body@ == closed_body(body@, return_type, block.pos)
                &&& r.pos == block.pos
            }),
    {
        let entry = get_entry(&self.function_blocks, name);
        let (args_list, return_datatype, func_block) = match entry {
            Some(e) => e,
            None => {
                return FunctionDefinition {
                    name: name.clone(),
                    arguments: Vec::new(),
                    return_type: DataType::Void,
                    body,
                    pos: Pos { line: 0, col: 0 },
                };
            },
        };
        let arguments = args_list.value.arguments();
        let closed = close_function_body(body, *return_datatype, func_block.pos);
        FunctionDefinition {
            name: name.clone(),
            arguments,
            return_type: *return_datatype,
            body: closed,
            pos: func_block.pos,
        }
    }

    /// Reads a `main_block` or `program_block` node into the programs table.
    fn add_process(&mut self, pair: ParseNode) -> (r: AlthreadResult<()>)
        requires
            old(self).well_formed(),
            pair.rule == Rule::main_block || pair.rule == Rule::program_block,
            top_well_formed(pair),
        ensures
            r is Err <==> statements_error(pair.children@[process_block_index(pair)].children@) is Some,
            r matches Err(e) ==> statements_error(
                pair.children@[process_block_index(pair)].children@,
            ) == Some(e@),
            r is Ok ==> {
                &&& final(self).well_formed()
                &&& final(self).processes() == old(self).processes().insert(
                    process_name(pair),
                    final(self).processes()[process_name(pair)],
                )
                &&& process_built(final(self).processes()[process_name(pair)], pair)
                &&& final(self).condition_blocks == old(self).condition_blocks
                &&& final(self).global_block == old(self).global_block
                &&& final(self).function_blocks == old(self).function_blocks
            },
    {
        let ghost pc = pair.children@;
        let is_main = pair.rule == Rule::main_block;
        let mut cs = pair.children;
        if is_main {
            let b = cs.remove(0);
            let block = Node::<Block>::build(b)?;
            let args = Node::<ArgsList>::new();
            let name = String::from_str("main");
            insert_entry(&mut self.process_blocks, name, (args, block));
        } else {
            let name_node = cs.remove(0);
            let args_node = cs.remove(0);
            let block_node = cs.remove(0);
            proof {
                assert(name_node == pc[0]);
                assert(args_node == pc[1]);
                assert(block_node == pc[2]);
            }
            let args = Node::<ArgsList>::build(args_node);
            let block = Node::<Block>::build(block_node)?;
            insert_entry(&mut self.process_blocks, name_node.text, (args, block));
        }
        Ok(())
    }

    /// Reads a `condition_block` node into the condition table.
    fn add_condition(&mut self, pair: ParseNode) -> (r: AlthreadResult<()>)
        requires
            old(self).well_formed(),
            pair.rule == Rule::condition_block,
            top_well_formed(pair),
        ensures
            r is Err <==> condition_error(pair) is Some,
            r matches Err(e) ==> condition_error(pair) == Some(e@),
            r is Ok ==> {
                let k = keyword_of(pair.children@[0].rule);
                &&& final(self).well_formed()
                &&& final(self).conditions() == old(self).conditions().insert(
                    k,
                    final(self).conditions()[k],
                )
                &&& condition_block_built(final(self).conditions()[k], pair.children@[1])
                &&& final(self).process_blocks == old(self).process_blocks
                &&& final(self).global_block == old(self).global_block
                &&& final(self).function_blocks == old(self).function_blocks
            },
    {
        let ghost pc = pair.children@;
        let mut cs = pair.children;
        let keyword_pair = cs.remove(0);
        let condition_keyword = if keyword_pair.rule == Rule::ALWAYS_KW {
            ConditionKeyword::Always
        } else if keyword_pair.rule == Rule::NEVER_KW {
            ConditionKeyword::Never
        } else {
            return Err(no_rule_in(&keyword_pair, "condition keyword"));
        };
        let block_node = cs.remove(0);
        proof {
            assert(block_node == pc[1]);
        }
        let condition_block = Node::<ConditionBlock>::build(block_node)?;
        insert_entry(&mut self.condition_blocks, condition_keyword, condition_block);
        Ok(())
    }

    /// Reads a `global_block` node as the `shared` block.
    fn set_global(&mut self, pair: ParseNode) -> (r: AlthreadResult<()>)
        requires
            pair.rule == Rule::global_block,
            top_well_formed(pair),
        ensures
            r is Err <==> statements_error(pair.children@[0].children@) is Some,
            r matches Err(e) ==> statements_error(pair.children@[0].children@) == Some(e@),
            r is Ok ==> {
                &&& final(self).global_block matches Some(b) && block_built(b, pair.children@[0])
                &&& final(self).process_blocks == old(self).process_blocks
                &&& final(self).condition_blocks == old(self).condition_blocks
                &&& final(self).function_blocks == old(self).function_blocks
            },
    {
        let mut cs = pair.children;
        let b = cs.remove(0);
        let global_block = Node::<Block>::build(b)?;
        self.global_block = Some(global_block);
        Ok(())
    }

    /// Reads a `function_block` node into the function table; a function that
    /// is already there is an error at the place of the new body.
    fn add_function(&mut self, pair: ParseNode) -> (r: AlthreadResult<()>)
        requires
            old(self).well_formed(),
            pair.rule == Rule::function_block,
            top_well_formed(pair),
        ensures
            r is Err <==> (statements_error(pair.children@[4].children@) is Some
                || old(self).functions().contains_key(pair.children@[0].text@)),
            r matches Err(e) ==> match statements_error(pair.children@[4].children@) {
                Some(b) => e@ == b,
                None => e@ == function_defined_view(
                    pair.children@[0].text@,
                    pos_of(pair.children@[4]),
                ),
            },
            r is Ok ==> {
                let k = pair.children@[0].text@;
                &&& final(self).well_formed()
                &&& final(self).functions() == old(self).functions().insert(
                    k,
                    final(self).functions()[k],
                )
                &&& function_built(final(self).functions()[k], pair)
                &&& final(self).process_blocks == old(self).process_blocks
                &&& final(self).condition_blocks == old(self).condition_blocks
                &&& final(self).global_block == old(self).global_block
            },
    {
        let ghost pc = pair.children@;
        let mut cs = pair.children;
        let name_node = cs.remove(0);
        let args_node = cs.remove(0);
        let _arrow = cs.remove(0);
        let datatype_node = cs.remove(0);
        let body_node = cs.remove(0);
        proof {
            assert(name_node == pc[0]);
            assert(args_node == pc[1]);
            assert(datatype_node == pc[3]);
            assert(body_node == pc[4]);
        }
        let function_identifier = name_node.text;
        let args_list = Node::<ArgsList>::build(args_node);
        let return_datatype = DataType::from_str(&datatype_node.text);
        let function_block = Node::<Block>::build(body_node)?;
        if has_entry(&self.function_blocks, &function_identifier) {
            let mut m = String::from_str("Function '");
            m.append(function_identifier.as_str());
            m.append("' is already defined");
            return Err(
                AlthreadError::new(
                    ErrorType::FunctionAlreadyDefined,
                    Some(function_block.pos),
                    m,
                ),
            );
        }
        insert_entry(
            &mut self.function_blocks,
            function_identifier,
            (args_list, return_datatype, function_block),
        );
        Ok(())
    }
}

} // verus!
