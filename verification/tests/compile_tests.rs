use althread::error::{ErrorType, Pos};
use althread::interpreter::ast::block::Block;
use althread::interpreter::ast::node::{ArgsList, DataType, Identifier, Node};
use althread::interpreter::ast::statement::loop_control::LoopControl;
use althread::interpreter::ast::statement::Statement;
use althread::interpreter::ast::{
    always_condition, check_undefined_channels, close_function_body, leave_function, Ast,
};
use althread::interpreter::compiler::{
    BreakLoopControl, CompilerState, Instruction, InstructionBuilderOk, InstructionType, JumpControl,
};
use althread::parse::{ParseNode, Rule};

fn p(line: usize) -> Option<Pos> {
    Some(Pos { line, col: 1 })
}

fn instr(control: InstructionType, line: usize) -> Instruction {
    Instruction { control, pos: p(line) }
}

fn brk(unstack_len: usize, line: usize) -> Instruction {
    instr(InstructionType::Break(BreakLoopControl { jump: 0, unstack_len }), line)
}

fn leaf(rule: Rule, text: &str) -> ParseNode {
    ParseNode { rule, text: text.to_string(), line: 1, col: 1, children: Vec::new() }
}

fn loop_node(line: usize) -> Node<LoopControl> {
    Node {
        pos: Pos { line, col: 1 },
        value: LoopControl {
            statement: Box::new(Node { pos: Pos { line: line + 1, col: 3 }, value: Statement::Other(leaf(Rule::expr, "e")) }),
        },
    }
}

fn state() -> CompilerState {
    CompilerState::new()
}

fn args(names: &[&str], types: &[DataType]) -> Node<ArgsList> {
    Node {
        pos: Pos { line: 7, col: 2 },
        value: ArgsList {
            identifiers: names
                .iter()
                .enumerate()
                .map(|(i, n)| Node { pos: Pos { line: 7, col: 3 + i }, value: Identifier { value: n.to_string() } })
                .collect(),
            datatypes: types.iter().map(|t| Node { pos: Pos { line: 7, col: 9 }, value: *t }).collect(),
        },
    }
}

fn empty_block(line: usize) -> Node<Block> {
    Node { pos: Pos { line, col: 1 }, value: Block { children: Vec::new() } }
}

#[test]
fn a_loop_jumps_back_and_fills_in_its_breaks_and_continues() {
    let body = InstructionBuilderOk {
        instructions: vec![instr(InstructionType::Empty, 1), brk(5, 2), brk(4, 3)],
        break_indexes: vec![(String::new(), vec![1]), ("outer".to_string(), vec![0])],
        continue_indexes: vec![(String::new(), vec![2])],
        return_indexes: vec![],
    };
    let r = loop_node(1).compile(2, body);
    assert_eq!(r.instructions.len(), 4);
    assert!(matches!(r.instructions[0].control, InstructionType::Empty));
    match &r.instructions[1].control {
        InstructionType::Break(bc) => assert_eq!(*bc, BreakLoopControl { jump: 3, unstack_len: 3 }),
        _ => panic!(),
    }
    match &r.instructions[2].control {
        InstructionType::Break(bc) => assert_eq!(*bc, BreakLoopControl { jump: -2, unstack_len: 2 }),
        _ => panic!(),
    }
    match &r.instructions[3].control {
        InstructionType::Jump(j) => assert_eq!(*j, JumpControl { jump: -3 }),
        _ => panic!(),
    }
    assert_eq!(r.instructions[3].pos, Some(Pos { line: 2, col: 3 }));
    assert_eq!(r.break_indexes.len(), 1);
    assert_eq!(r.break_indexes[0].0, "outer");
    assert!(r.continue_indexes.is_empty());
}

#[test]
fn a_loop_without_jumps_only_gets_its_jump_back() {
    let body = InstructionBuilderOk {
        instructions: vec![instr(InstructionType::Empty, 1), instr(InstructionType::Empty, 1)],
        break_indexes: vec![],
        continue_indexes: vec![],
        return_indexes: vec![],
    };
    assert!(!body.contains_jump());
    let r = loop_node(4).compile(0, body);
    assert_eq!(r.instructions.len(), 3);
    match &r.instructions[2].control {
        InstructionType::Jump(j) => assert_eq!(j.jump, -2),
        _ => panic!(),
    }
}

#[test]
fn a_void_function_body_gets_a_return() {
    let pos = Pos { line: 9, col: 1 };
    let body = close_function_body(vec![instr(InstructionType::Empty, 1)], DataType::Void, pos);
    assert_eq!(body.len(), 2);
    assert!(matches!(body[1].control, InstructionType::Return { has_value: false }));
    assert_eq!(body[1].pos, Some(pos));
    let again = close_function_body(body, DataType::Void, pos);
    assert_eq!(again.len(), 2);
    let body = close_function_body(vec![], DataType::Int, pos);
    assert!(body.is_empty());
    let body = close_function_body(vec![instr(InstructionType::Return { has_value: true }, 2)], DataType::Void, pos);
    assert_eq!(body.len(), 2);
}

#[test]
fn always_conditions_must_read_shared_variables_in_one_expression() {
    let pos = Pos { line: 4, col: 5 };
    let reads = || instr(InstructionType::GlobalReads { variables: vec!["X".to_string()] }, 4);
    let expr = || instr(InstructionType::Expression(leaf(Rule::expr, "X == 1")), 4);
    let c = always_condition(vec![reads(), expr()], pos).unwrap();
    assert_eq!(c.variables, vec!["X".to_string()]);
    assert_eq!(c.expression.text, "X == 1");
    assert_eq!(c.pos, pos);

    let e = always_condition(vec![expr()], pos).unwrap_err();
    assert_eq!(e.error_type(), ErrorType::InstructionNotAllowed);
    assert_eq!(e.pos(), pos);
    assert_eq!(e.message(), "The condition must depend on shared variable(s)");
    let e = always_condition(vec![reads(), expr(), expr()], pos).unwrap_err();
    assert_eq!(e.message(), "The condition must be a single expression");
    let e = always_condition(vec![], pos).unwrap_err();
    assert_eq!(e.message(), "The condition must be a single expression");
    let e = always_condition(vec![reads(), reads()], pos).unwrap_err();
    assert_eq!(e.message(), "The condition must be a single expression");
    let e = always_condition(vec![expr(), expr()], pos).unwrap_err();
    assert_eq!(e.message(), "The condition must depend on shared variable(s)");
}

#[test]
fn undefined_channels_are_errors() {
    assert!(check_undefined_channels(&vec![]).is_ok());
    let e = check_undefined_channels(&vec![(("A".to_string(), "ch".to_string()), Pos { line: 14, col: 3 })])
        .unwrap_err();
    assert_eq!(e.error_type(), ErrorType::UndefinedChannel);
    assert_eq!(e.pos(), Pos { line: 14, col: 3 });
    assert_eq!(e.message(), "Channel 'ch' used in program 'A' at line 14 has not been declared");
}

fn sample_ast() -> Ast {
    let mut a = Ast::new();
    a.process_blocks.push(("A".to_string(), (args(&["x", "y"], &[DataType::Int, DataType::Bool]), empty_block(6))));
    a.process_blocks.push(("main".to_string(), (args(&[], &[]), empty_block(1))));
    a.process_blocks.push(("B".to_string(), (args(&[], &[]), empty_block(12))));
    a.function_blocks.push((
        "f".to_string(),
        (args(&["n"], &[DataType::Int]), DataType::Int, empty_block(20)),
    ));
    a.function_blocks.push(("g".to_string(), (args(&[], &[]), DataType::Void, empty_block(30))));
    a
}

#[test]
fn program_arguments_follow_the_programs_table() {
    let a = sample_ast();
    let pa = a.program_arguments();
    assert_eq!(pa.len(), 3);
    assert_eq!(pa[0], ("A".to_string(), vec![DataType::Int, DataType::Bool]));
    assert_eq!(pa[1], ("main".to_string(), vec![]));
}

#[test]
fn program_arguments_are_declared_then_taken_apart() {
    let a = sample_ast();
    let mut st = state();
    st.current_stack_depth = 1;
    let name = "A".to_string();
    a.declare_program_arguments(&name, &mut st);
    assert_eq!(st.current_program_name, "A");
    assert_eq!(st.program_stack.len(), 2);
    assert_eq!(st.program_stack[0].name, "x");
    assert_eq!(st.program_stack[0].depth, 1);
    assert!(st.program_stack[0].mutable);
    assert_eq!(st.program_stack[1].datatype, DataType::Bool);
    assert_eq!(st.program_stack[1].declare_pos, Some(Pos { line: 7, col: 4 }));

    let body = InstructionBuilderOk {
        instructions: vec![instr(InstructionType::Empty, 8)],
        break_indexes: vec![],
        continue_indexes: vec![],
        return_indexes: vec![],
    };
    let code = a.compile_program(&name, body);
    assert_eq!(code.name, "A");
    assert_eq!(code.instructions.len(), 3);
    assert!(matches!(code.instructions[0].control, InstructionType::Destruct));
    assert_eq!(code.instructions[0].pos, Some(Pos { line: 7, col: 2 }));
    assert!(matches!(code.instructions[1].control, InstructionType::Empty));
    assert!(matches!(code.instructions[2].control, InstructionType::EndProgram));
    assert_eq!(code.instructions[2].pos, Some(Pos { line: 6, col: 1 }));

    let main = "main".to_string();
    let body = InstructionBuilderOk { instructions: vec![], break_indexes: vec![], continue_indexes: vec![], return_indexes: vec![] };
    let code = a.compile_program(&main, body);
    assert_eq!(code.instructions.len(), 1);
    assert!(matches!(code.instructions[0].control, InstructionType::EndProgram));
}

#[test]
fn function_prototypes_and_definitions() {
    let a = sample_ast();
    let f = "f".to_string();
    let proto = a.function_prototype(&f, None).unwrap();
    assert_eq!(proto.name, "f");
    assert_eq!(proto.arguments, vec![("n".to_string(), DataType::Int)]);
    assert_eq!(proto.return_type, DataType::Int);
    assert!(proto.body.is_empty());
    assert_eq!(proto.pos, Pos { line: 20, col: 1 });
    let e = a.function_prototype(&f, Some(Pos { line: 22, col: 3 })).unwrap_err();
    assert_eq!(e.error_type(), ErrorType::FunctionMissingReturnStatement);
    let g = "g".to_string();
    assert!(a.function_prototype(&g, Some(Pos { line: 31, col: 1 })).is_ok());

    let mut st = state();
    st.program_stack.push(althread::interpreter::compiler::Variable {
        name: "outer".to_string(),
        depth: 0,
        mutable: false,
        datatype: DataType::Int,
        declare_pos: None,
    });
    let initial = a.enter_function(&f, &mut st);
    assert_eq!(initial, 1);
    assert!(st.in_function);
    assert_eq!(st.current_stack_depth, 1);
    assert_eq!(st.program_stack.len(), 2);
    assert_eq!(st.program_stack[1].name, "n");
    assert_eq!(st.program_stack[1].depth, 1);
    leave_function(&mut st, initial);
    assert!(!st.in_function);
    assert_eq!(st.current_stack_depth, 0);
    assert_eq!(st.program_stack.len(), 1);

    let def = a.function_definition(&g, vec![]);
    assert_eq!(def.body.len(), 1);
    assert!(matches!(def.body[0].control, InstructionType::Return { has_value: false }));
    assert_eq!(def.body[0].pos, Some(Pos { line: 30, col: 1 }));
    let def = a.function_definition(&f, vec![instr(InstructionType::Empty, 21)]);
    assert_eq!(def.body.len(), 1);
    assert_eq!(def.arguments.len(), 1);
}

#[test]
fn arguments_pair_names_with_types() {
    let a = args(&["x", "y"], &[DataType::Int]);
    assert_eq!(a.value.arguments(), vec![("x".to_string(), DataType::Int)]);
    assert_eq!(a.value.datatype_list(), vec![DataType::Int]);
}
