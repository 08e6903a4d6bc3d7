use althread::env::PrimaryExpr;
use althread::error::{AlthreadError, AlthreadResult, ErrorType, Pos};
use althread::interpreter::ast::block::Block;
use althread::interpreter::ast::condition_block::ConditionBlock;
use althread::interpreter::ast::node::{ArgsList, ConditionKeyword, DataType, Identifier, Node};
use althread::interpreter::ast::project::{CompiledProject, ProgramCompiler};
use althread::interpreter::ast::statement::Statement;
use althread::interpreter::ast::Ast;
use althread::interpreter::compiler::{CompilerState, CompilerStateView, Instruction, InstructionBuilderOk, InstructionType, Variable};
use althread::parse::{ParseNode, Rule};

fn at(line: usize) -> Pos {
    Pos { line, col: 1 }
}

fn node(rule: Rule, text: &str, line: usize) -> ParseNode {
    ParseNode { rule, text: text.to_string(), line, col: 1, children: Vec::new() }
}

fn decl(text: &str, line: usize) -> Node<Statement> {
    Node { pos: at(line), value: Statement::Declaration(node(Rule::decl, text, line)) }
}

fn other(text: &str, line: usize) -> Node<Statement> {
    Node { pos: at(line), value: Statement::Other(node(Rule::expr, text, line)) }
}

fn copy(p: &ParseNode) -> ParseNode {
    ParseNode { rule: p.rule, text: p.text.clone(), line: p.line, col: p.col, children: Vec::new() }
}

fn block(children: Vec<Node<Statement>>, line: usize) -> Node<Block> {
    Node { pos: at(line), value: Block { children } }
}

fn no_args() -> Node<ArgsList> {
    Node { pos: at(0), value: ArgsList { identifiers: Vec::new(), datatypes: Vec::new() } }
}

fn one_arg(name: &str, line: usize) -> Node<ArgsList> {
    Node {
        pos: at(line),
        value: ArgsList {
            identifiers: vec![Node { pos: at(line), value: Identifier { value: name.to_string() } }],
            datatypes: vec![Node { pos: at(line), value: DataType::Int }],
        },
    }
}

fn builder(instructions: Vec<Instruction>) -> InstructionBuilderOk {
    InstructionBuilderOk {
        instructions,
        break_indexes: Vec::new(),
        continue_indexes: Vec::new(),
        return_indexes: Vec::new(),
    }
}

/// A small compiler: a declaration `NAME=VALUE` declares `NAME` and pushes
/// an integer or boolean literal, or evaluates `mK` (the K-th shared value)
/// or `mK+1`; a condition reads the variable it names, or, written
/// `const`, nothing; a block gives one empty instruction per statement,
/// fails on `fail`, and records an undeclared channel on `chan`; a body
/// misses a `return` where it says `noreturn`.
struct Toy;

impl ProgramCompiler for Toy {
    // The spec functions describe the compiler for the verifier only; they are never run.
    fn statement_code(&self, _node: Node<Statement>, _state: CompilerStateView) -> (AlthreadResult<InstructionBuilderOk>, CompilerStateView) {
        unreachable!()
    }
    fn block_code(&self, _block: Node<Block>, _state: CompilerStateView) -> (AlthreadResult<InstructionBuilderOk>, CompilerStateView) {
        unreachable!()
    }
    fn expression_value(&self, _expr: ParseNode, _memory: vstd::prelude::Seq<PrimaryExpr>) -> Result<PrimaryExpr, String> {
        unreachable!()
    }
    fn missing_return_of(&self, _block: Node<Block>) -> Option<Pos> {
        unreachable!()
    }

    fn compile_statement(&self, node: &Node<Statement>, state: &mut CompilerState) -> AlthreadResult<InstructionBuilderOk> {
        match &node.value {
            Statement::Declaration(p) => {
                let (name, value) = p.text.split_once('=').unwrap();
                if value == "!" {
                    return Err(AlthreadError::error(ErrorType::TypeError, p.line, p.col, "bad declaration".to_string()));
                }
                state.program_stack.push(Variable {
                    name: name.to_string(),
                    depth: state.current_stack_depth,
                    mutable: true,
                    datatype: DataType::Int,
                    declare_pos: Some(node.pos),
                });
                let first = if let Ok(i) = value.parse::<i64>() {
                    InstructionType::Push(PrimaryExpr::Int(i))
                } else if let Ok(b) = value.parse::<bool>() {
                    InstructionType::Push(PrimaryExpr::Bool(b))
                } else {
                    InstructionType::Expression(ParseNode {
                        rule: Rule::expr,
                        text: value.to_string(),
                        line: p.line,
                        col: p.col,
                        children: Vec::new(),
                    })
                };
                Ok(builder(vec![
                    Instruction { control: first, pos: Some(node.pos) },
                    Instruction { control: InstructionType::Declaration { unstack_len: 1 }, pos: Some(node.pos) },
                ]))
            }
            Statement::Other(p) if p.text == "const" => {
                Ok(builder(vec![Instruction { control: InstructionType::Expression(copy(p)), pos: Some(node.pos) }]))
            }
            Statement::Other(p) => Ok(builder(vec![
                Instruction { control: InstructionType::GlobalReads { variables: vec![p.text.clone()] }, pos: Some(node.pos) },
                Instruction { control: InstructionType::Expression(copy(p)), pos: Some(node.pos) },
            ])),
            _ => Ok(builder(Vec::new())),
        }
    }

    fn compile_block(&self, block: &Node<Block>, state: &mut CompilerState) -> AlthreadResult<InstructionBuilderOk> {
        let mut instructions = Vec::new();
        for child in &block.value.children {
            if let Statement::Other(p) = &child.value {
                if p.text == "fail" {
                    return Err(AlthreadError::error(ErrorType::TypeError, p.line, p.col, "cannot compile".to_string()));
                }
                if let Some(name) = p.text.strip_prefix("needs ") {
                    if !state.program_stack.iter().any(|v| v.name == name) {
                        return Err(AlthreadError::error(ErrorType::VariableError, p.line, p.col, "unknown variable".to_string()));
                    }
                }
                if p.text == "chan" {
                    state
                        .undefined_channels
                        .push(((state.current_program_name.clone(), "c".to_string()), child.pos));
                }
            }
            instructions.push(Instruction { control: InstructionType::Empty, pos: Some(child.pos) });
        }
        Ok(builder(instructions))
    }

    fn eval_expression(&self, expr: &ParseNode, memory: &Vec<PrimaryExpr>) -> Result<PrimaryExpr, String> {
        let (index, plus) = match expr.text.strip_suffix("+1") {
            Some(rest) => (rest, 1),
            None => (expr.text.as_str(), 0),
        };
        let k: usize = index.strip_prefix('m').and_then(|k| k.parse().ok()).ok_or("cannot evaluate".to_string())?;
        match memory.get(k) {
            Some(PrimaryExpr::Int(i)) => Ok(PrimaryExpr::Int(i + plus)),
            Some(PrimaryExpr::Bool(b)) if plus == 0 => Ok(PrimaryExpr::Bool(*b)),
            _ => Err("cannot evaluate".to_string()),
        }
    }

    fn first_missing_return(&self, block: &Node<Block>) -> Option<Pos> {
        block.value.children.iter().find(|c| matches!(&c.value, Statement::Other(p) if p.text == "noreturn")).map(|c| c.pos)
    }
}

fn ast(
    shared: Option<Vec<Node<Statement>>>,
    programs: Vec<(&str, Node<ArgsList>, Vec<Node<Statement>>)>,
    functions: Vec<(&str, DataType, Vec<Node<Statement>>)>,
    always: Option<Vec<Node<Statement>>>,
) -> Ast {
    Ast {
        process_blocks: programs
            .into_iter()
            .enumerate()
            .map(|(i, (name, args, body))| (name.to_string(), (args, block(body, 100 + i))))
            .collect(),
        condition_blocks: match always {
            Some(children) => vec![
                (ConditionKeyword::Never, Node { pos: at(90), value: ConditionBlock { children: Vec::new() } }),
                (ConditionKeyword::Always, Node { pos: at(91), value: ConditionBlock { children } }),
            ],
            None => Vec::new(),
        },
        global_block: shared.map(|children| block(children, 1)),
        function_blocks: functions
            .into_iter()
            .enumerate()
            .map(|(i, (name, rt, body))| (name.to_string(), (no_args(), rt, block(body, 200 + i))))
            .collect(),
    }
}

fn shared_value<'a>(p: &'a CompiledProject, name: &str) -> &'a PrimaryExpr {
    &p.global_memory.iter().find(|(n, _)| n == name).unwrap().1
}

fn program<'a>(p: &'a CompiledProject, name: &str) -> &'a Vec<Instruction> {
    &p.programs_code.iter().find(|(n, _)| n == name).unwrap().1.instructions
}

#[test]
fn compiles_a_program_with_shared_values_and_an_always_condition() {
    let a = ast(
        Some(vec![decl("A_TURN=1", 2), decl("B_TURN=2", 3), decl("X=false", 4), decl("T=m1", 5), decl("N=m0+1", 6)]),
        vec![
            ("A", no_args(), vec![other("x", 10), other("y", 11)]),
            ("main", no_args(), vec![other("run A", 20)]),
            ("B", one_arg("n", 30), vec![other("z", 31)]),
        ],
        vec![],
        Some(vec![other("N", 40)]),
    );
    let p = a.compile(&Toy).unwrap();
    assert_eq!(p.global_memory.len(), 5);
    assert!(matches!(shared_value(&p, "A_TURN"), PrimaryExpr::Int(1)));
    assert!(matches!(shared_value(&p, "X"), PrimaryExpr::Bool(false)));
    assert!(matches!(shared_value(&p, "T"), PrimaryExpr::Int(2)));
    assert!(matches!(shared_value(&p, "N"), PrimaryExpr::Int(2)));
    let mut names: Vec<&str> = p.programs_code.iter().map(|(n, _)| n.as_str()).collect();
    names.sort();
    assert_eq!(names, vec!["A", "B", "main"]);
    let main = program(&p, "main");
    assert_eq!(main.len(), 2);
    assert!(matches!(main[0].control, InstructionType::Empty));
    assert!(matches!(main[1].control, InstructionType::EndProgram));
    assert_eq!(main[1].pos, Some(at(101)));
    let b = program(&p, "B");
    assert_eq!(b.len(), 3);
    assert!(matches!(b[0].control, InstructionType::Destruct));
    assert_eq!(b[0].pos, Some(at(30)));
    assert!(matches!(b[2].control, InstructionType::EndProgram));
    assert_eq!(p.always_conditions.len(), 1);
    assert_eq!(p.always_conditions[0].variables, vec!["N".to_string()]);
    assert_eq!(p.always_conditions[0].expression.text, "N");
    assert_eq!(p.always_conditions[0].pos, at(40));
    assert!(p.user_functions.is_empty());
}

#[test]
fn a_later_shared_declaration_replaces_an_earlier_one() {
    let a = ast(Some(vec![decl("X=1", 2), decl("X=m0+1", 3)]), vec![("main", no_args(), vec![])], vec![], None);
    let p = a.compile(&Toy).unwrap();
    assert_eq!(p.global_memory.len(), 1);
    assert!(matches!(shared_value(&p, "X"), PrimaryExpr::Int(2)));
    assert!(p.always_conditions.is_empty());
}

#[test]
fn shared_block_holds_only_declarations() {
    let a = ast(Some(vec![decl("X=1", 2), other("x", 3), decl("Y=!", 4)]), vec![("main", no_args(), vec![])], vec![], None);
    let e = a.compile(&Toy).unwrap_err();
    assert_eq!(e.error_type(), ErrorType::InstructionNotAllowed);
    assert_eq!(e.pos(), at(3));
    assert_eq!(e.message(), "The 'shared' block can only contains assignment from an expression");

    let a = ast(Some(vec![decl("Y=!", 2), other("x", 3)]), vec![("main", no_args(), vec![])], vec![], None);
    assert_eq!(a.compile(&Toy).unwrap_err().message(), "bad declaration");
}

#[test]
fn a_shared_value_that_cannot_be_evaluated_is_an_expression_error() {
    let a = ast(Some(vec![decl("X=m5", 2)]), vec![("main", no_args(), vec![])], vec![], None);
    let e = a.compile(&Toy).unwrap_err();
    assert_eq!(e.error_type(), ErrorType::ExpressionError);
    assert_eq!(e.pos(), at(2));
    assert_eq!(e.message(), "cannot evaluate");
}

#[test]
fn a_missing_return_is_found_before_any_body_is_compiled() {
    let a = ast(
        None,
        vec![("main", no_args(), vec![])],
        vec![("f", DataType::Void, vec![other("fail", 5)]), ("g", DataType::Int, vec![other("noreturn", 7)])],
        None,
    );
    let e = a.compile(&Toy).unwrap_err();
    assert_eq!(e.error_type(), ErrorType::FunctionMissingReturnStatement);
    assert_eq!(e.pos(), at(7));
    assert_eq!(
        e.message(),
        "Function 'g' does not return a value on all code paths. Problem detected in construct starting at line 7."
    );

    let a = ast(
        None,
        vec![("main", no_args(), vec![other("fail", 9)])],
        vec![("f", DataType::Void, vec![other("noreturn", 5), other("fail", 6)])],
        None,
    );
    let e = a.compile(&Toy).unwrap_err();
    assert_eq!(e.message(), "cannot compile");
    assert_eq!(e.pos(), at(6));
}

#[test]
fn a_void_function_body_ends_with_a_return() {
    let a = ast(
        None,
        vec![("main", no_args(), vec![])],
        vec![("f", DataType::Void, vec![other("x", 5), other("y", 6)]), ("g", DataType::Int, vec![other("x", 8)])],
        None,
    );
    let p = a.compile(&Toy).unwrap();
    assert_eq!(p.user_functions.len(), 2);
    let f = &p.user_functions.iter().find(|(n, _)| n == "f").unwrap().1;
    assert_eq!(f.body.len(), 3);
    assert!(matches!(f.body[2].control, InstructionType::Return { has_value: false }));
    assert_eq!(f.body[2].pos, Some(at(200)));
    assert_eq!(f.return_type, DataType::Void);
    let g = &p.user_functions.iter().find(|(n, _)| n == "g").unwrap().1;
    assert_eq!(g.body.len(), 1);
    assert_eq!(g.pos, at(201));
}

#[test]
fn main_is_compiled_first_and_a_program_error_ends_the_compilation() {
    let a = ast(
        None,
        vec![("A", no_args(), vec![other("fail", 3)]), ("main", no_args(), vec![other("fail", 8)])],
        vec![],
        None,
    );
    assert_eq!(a.compile(&Toy).unwrap_err().pos(), at(8));
}

#[test]
fn an_undeclared_channel_is_reported_after_the_programs() {
    let a = ast(
        None,
        vec![("main", no_args(), vec![]), ("A", no_args(), vec![other("x", 4), other("chan", 5)])],
        vec![],
        Some(vec![other("const", 40)]),
    );
    let e = a.compile(&Toy).unwrap_err();
    assert_eq!(e.error_type(), ErrorType::UndefinedChannel);
    assert_eq!(e.pos(), at(5));
    assert_eq!(e.message(), "Channel 'c' used in program 'A' at line 5 has not been declared");
}

#[test]
fn an_always_condition_must_read_shared_variables() {
    let a = ast(None, vec![("main", no_args(), vec![])], vec![], Some(vec![other("N", 40), other("const", 41)]));
    let e = a.compile(&Toy).unwrap_err();
    assert_eq!(e.error_type(), ErrorType::InstructionNotAllowed);
    assert_eq!(e.pos(), at(41));
    assert_eq!(e.message(), "The condition must depend on shared variable(s)");
}

#[test]
fn a_program_block_sees_its_parameters() {
    let a = ast(None, vec![("main", no_args(), vec![]), ("B", one_arg("n", 30), vec![other("needs n", 31)])], vec![], None);
    let p = a.compile(&Toy).unwrap();
    assert_eq!(program(&p, "B").len(), 3);

    let a = ast(None, vec![("main", no_args(), vec![other("needs n", 3)])], vec![], None);
    assert_eq!(a.compile(&Toy).unwrap_err().message(), "unknown variable");
}

#[test]
fn a_simple_tree_compiles() {
    let a = ast(None, vec![("main", no_args(), vec![])], vec![("f", DataType::Void, vec![])], None);
    let p = a.compile(&Toy).unwrap();
    assert!(p.global_memory.is_empty());
    assert!(p.always_conditions.is_empty());
    let f = &p.user_functions.iter().find(|(n, _)| n == "f").unwrap().1;
    assert_eq!(f.body.len(), 1);
    assert!(matches!(f.body[0].control, InstructionType::Return { has_value: false }));
    assert_eq!(f.body[0].pos, Some(at(200)));
    let main = program(&p, "main");
    assert_eq!(main.len(), 1);
    assert!(matches!(main[0].control, InstructionType::EndProgram));
    assert_eq!(main[0].pos, Some(at(100)));
}
