use althread::error::{ErrorType, Pos};
use althread::interpreter::ast::node::{ConditionKeyword, DataType, Node};
use althread::interpreter::ast::statement::assignment::Assignment;
use althread::interpreter::ast::statement::Statement;
use althread::interpreter::ast::{check_function_returns, Ast};
use althread::parse::{ParseNode, Rule};

fn node(rule: Rule, text: &str, line: usize, col: usize, children: Vec<ParseNode>) -> ParseNode {
    ParseNode { rule, text: text.to_string(), line, col, children }
}

fn leaf(rule: Rule, text: &str, line: usize, col: usize) -> ParseNode {
    node(rule, text, line, col, Vec::new())
}

fn block(line: usize, stmts: Vec<ParseNode>) -> ParseNode {
    node(Rule::code_block, "{...}", line, 1, stmts)
}

fn binary_assignment(line: usize) -> ParseNode {
    node(
        Rule::assignment,
        "x = 1",
        line,
        5,
        vec![node(
            Rule::binary_assignment,
            "x = 1",
            line,
            5,
            vec![leaf(Rule::identifier, "x", line, 5), leaf(Rule::expr, "1", line, 9)],
        )],
    )
}

fn main_block(line: usize, stmts: Vec<ParseNode>) -> ParseNode {
    node(Rule::main_block, "main {...}", line, 1, vec![block(line, stmts)])
}

fn program_block(name: &str, line: usize, args: Vec<ParseNode>, stmts: Vec<ParseNode>) -> ParseNode {
    node(
        Rule::program_block,
        "program",
        line,
        1,
        vec![
            leaf(Rule::identifier, name, line, 9),
            node(Rule::args_list, "(...)", line, 10, args),
            block(line, stmts),
        ],
    )
}

fn function_block(name: &str, line: usize, ret: &str, stmts: Vec<ParseNode>) -> ParseNode {
    node(
        Rule::function_block,
        "fn",
        line,
        1,
        vec![
            leaf(Rule::identifier, name, line, 4),
            node(
                Rule::args_list,
                "(a: int)",
                line,
                5,
                vec![leaf(Rule::identifier, "a", line, 6), leaf(Rule::datatype, "int", line, 9)],
            ),
            leaf(Rule::expr, "->", line, 14),
            leaf(Rule::datatype, ret, line, 17),
            block(line, stmts),
        ],
    )
}

fn process<'a>(ast: &'a Ast, name: &str) -> Option<&'a (Node<althread::interpreter::ast::node::ArgsList>, Node<althread::interpreter::ast::block::Block>)> {
    ast.process_blocks.iter().find(|e| e.0 == name).map(|e| &e.1)
}

#[test]
fn new_ast_is_empty() {
    let a = Ast::new();
    assert!(a.process_blocks.is_empty());
    assert!(a.condition_blocks.is_empty());
    assert!(a.global_block.is_none());
    assert!(a.function_blocks.is_empty());
}

#[test]
fn build_reads_main_programs_and_end_of_input() {
    let pairs = vec![
        main_block(10, vec![binary_assignment(11)]),
        program_block(
            "A",
            2,
            vec![leaf(Rule::identifier, "x", 2, 11), leaf(Rule::datatype, "int", 2, 14)],
            vec![],
        ),
        leaf(Rule::EOI, "", 20, 1),
    ];
    let ast = Ast::build(pairs).unwrap();
    assert_eq!(ast.process_blocks.len(), 2);
    let (args, main) = process(&ast, "main").unwrap();
    assert!(args.value.identifiers.is_empty());
    assert_eq!(args.pos, Pos { line: 0, col: 0 });
    assert_eq!(main.pos, Pos { line: 10, col: 1 });
    assert_eq!(main.value.children.len(), 1);
    match &main.value.children[0].value {
        Statement::Assignment(a) => {
            assert_eq!(a.pos, Pos { line: 11, col: 5 });
            match &a.value {
                Assignment::Binary(b) => assert_eq!(b.value.parts.len(), 2),
            }
        }
        _ => panic!("expected an assignment"),
    }
    let (args, _) = process(&ast, "A").unwrap();
    assert_eq!(args.value.identifiers.len(), 1);
    assert_eq!(args.value.identifiers[0].value.value, "x");
    assert_eq!(args.value.identifiers[0].pos, Pos { line: 2, col: 11 });
    assert_eq!(args.value.datatypes[0].value, DataType::Int);
}

#[test]
fn a_later_program_replaces_an_earlier_one() {
    let pairs = vec![
        program_block("A", 1, vec![], vec![]),
        program_block("A", 5, vec![], vec![binary_assignment(6)]),
    ];
    let ast = Ast::build(pairs).unwrap();
    assert_eq!(ast.process_blocks.len(), 1);
    let (_, b) = process(&ast, "A").unwrap();
    assert_eq!(b.pos, Pos { line: 5, col: 1 });
    assert_eq!(b.value.children.len(), 1);
}

#[test]
fn shared_and_condition_blocks() {
    let pairs = vec![
        node(Rule::global_block, "shared", 1, 1, vec![block(1, vec![leaf(Rule::decl, "let x = 1", 2, 5)])]),
        node(
            Rule::condition_block,
            "always",
            4,
            1,
            vec![leaf(Rule::ALWAYS_KW, "always", 4, 1), block(4, vec![leaf(Rule::expr, "x == 1", 5, 5)])],
        ),
        node(
            Rule::condition_block,
            "never",
            7,
            1,
            vec![leaf(Rule::NEVER_KW, "never", 7, 1), block(7, vec![])],
        ),
    ];
    let ast = Ast::build(pairs).unwrap();
    let g = ast.global_block.as_ref().unwrap();
    assert_eq!(g.value.children.len(), 1);
    assert!(matches!(g.value.children[0].value, Statement::Declaration(_)));
    assert_eq!(ast.condition_blocks.len(), 2);
    assert!(ast.condition_blocks.iter().any(|e| e.0 == ConditionKeyword::Always && e.1.value.children.len() == 1));
    assert!(ast.condition_blocks.iter().any(|e| e.0 == ConditionKeyword::Never && e.1.value.children.is_empty()));
}

#[test]
fn functions_are_read_with_their_return_type() {
    let pairs = vec![function_block("f", 3, "int", vec![]), function_block("g", 8, "void", vec![])];
    let ast = Ast::build(pairs).unwrap();
    assert_eq!(ast.function_blocks.len(), 2);
    let f = ast.function_blocks.iter().find(|e| e.0 == "f").unwrap();
    assert_eq!(f.1 .1, DataType::Int);
    assert_eq!(f.1 .0.value.identifiers[0].value.value, "a");
    assert_eq!(f.1 .0.value.datatypes[0].value, DataType::Int);
    let g = ast.function_blocks.iter().find(|e| e.0 == "g").unwrap();
    assert_eq!(g.1 .1, DataType::Void);
}

#[test]
fn a_function_defined_twice_is_an_error() {
    let pairs = vec![function_block("f", 3, "int", vec![]), function_block("f", 8, "void", vec![])];
    let e = Ast::build(pairs).unwrap_err();
    assert_eq!(e.error_type(), ErrorType::FunctionAlreadyDefined);
    assert_eq!(e.pos(), Pos { line: 8, col: 1 });
    assert_eq!(e.message(), "Function 'f' is already defined");
}

#[test]
fn an_unknown_top_level_node_is_an_error() {
    let pairs = vec![main_block(1, vec![]), leaf(Rule::expr, "1 + 1", 3, 2)];
    let e = Ast::build(pairs).unwrap_err();
    assert_eq!(e.error_type(), ErrorType::SyntaxError);
    assert_eq!(e.pos(), Pos { line: 3, col: 2 });
    assert_eq!(e.message(), "Unexpected rule expr in root ast");
}

#[test]
fn a_bad_condition_keyword_is_an_error() {
    let pairs = vec![node(
        Rule::condition_block,
        "sometimes",
        2,
        1,
        vec![leaf(Rule::identifier, "sometimes", 2, 1), block(2, vec![])],
    )];
    let e = Ast::build(pairs).unwrap_err();
    assert_eq!(e.pos(), Pos { line: 2, col: 1 });
    assert_eq!(e.message(), "Unexpected rule identifier in condition keyword");
}

#[test]
fn a_unary_assignment_is_not_supported() {
    let stmt = node(
        Rule::assignment,
        "x++",
        4,
        3,
        vec![leaf(Rule::unary_assignment, "x++", 4, 3)],
    );
    let e = Ast::build(vec![main_block(1, vec![stmt])]).unwrap_err();
    assert_eq!(e.error_type(), ErrorType::SyntaxError);
    assert_eq!(e.pos(), Pos { line: 4, col: 3 });
    assert_eq!(e.message(), "Unary assignment is not supported yet");
}

#[test]
fn an_assignment_of_another_form_is_an_error() {
    let stmt = node(Rule::assignment, "x", 4, 3, vec![leaf(Rule::expr, "x", 4, 6)]);
    let e = Ast::build(vec![main_block(1, vec![stmt])]).unwrap_err();
    assert_eq!(e.pos(), Pos { line: 4, col: 6 });
    assert_eq!(e.message(), "Unexpected rule expr");
}

#[test]
fn the_first_error_wins() {
    let bad = node(Rule::assignment, "x++", 2, 3, vec![leaf(Rule::unary_assignment, "x++", 2, 3)]);
    let pairs = vec![main_block(1, vec![bad]), leaf(Rule::expr, "oops", 9, 1)];
    let e = Ast::build(pairs).unwrap_err();
    assert_eq!(e.pos(), Pos { line: 2, col: 3 });
}

#[test]
fn loops_hold_their_statement() {
    let inner = binary_assignment(3);
    let lp = node(Rule::loop_stmt, "loop x = 1", 3, 1, vec![inner]);
    let ast = Ast::build(vec![main_block(1, vec![lp])]).unwrap();
    let (_, b) = process(&ast, "main").unwrap();
    match &b.value.children[0].value {
        Statement::LoopControl(l) => {
            assert_eq!(l.pos, Pos { line: 3, col: 1 });
            assert!(matches!(l.value.statement.value, Statement::Assignment(_)));
        }
        _ => panic!("expected a loop"),
    }
    let bad_inner = node(Rule::assignment, "x--", 5, 7, vec![leaf(Rule::unary_assignment, "x--", 5, 7)]);
    let lp = node(Rule::loop_stmt, "loop x--", 5, 1, vec![bad_inner]);
    let e = Ast::build(vec![main_block(1, vec![lp])]).unwrap_err();
    assert_eq!(e.pos(), Pos { line: 5, col: 7 });
}

#[test]
fn datatype_names() {
    assert_eq!(DataType::from_str(&"void".to_string()), DataType::Void);
    assert_eq!(DataType::from_str(&"bool".to_string()), DataType::Bool);
    assert_eq!(DataType::from_str(&"int".to_string()), DataType::Int);
    assert_eq!(DataType::from_str(&"string".to_string()), DataType::Str);
    assert_eq!(DataType::from_str(&"proc".to_string()), DataType::Unknown);
}

#[test]
fn function_returns_are_checked_unless_void() {
    assert!(check_function_returns("f", &DataType::Void, Some(Pos { line: 3, col: 1 })).is_ok());
    assert!(check_function_returns("f", &DataType::Int, None).is_ok());
    let e = check_function_returns("f", &DataType::Int, Some(Pos { line: 12, col: 5 })).unwrap_err();
    assert_eq!(e.error_type(), ErrorType::FunctionMissingReturnStatement);
    assert_eq!(e.pos(), Pos { line: 12, col: 5 });
    assert_eq!(
        e.message(),
        "Function 'f' does not return a value on all code paths. Problem detected in construct starting at line 12."
    );
}
