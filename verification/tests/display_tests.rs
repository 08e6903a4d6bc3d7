use althread::interpreter::ast::block::Block;
use althread::interpreter::ast::condition_block::ConditionBlock;
use althread::interpreter::ast::display::TreeDisplay;
use althread::interpreter::ast::node::{ArgsList, ConditionKeyword, DataType, Node};
use althread::interpreter::ast::statement::assignment::{Assignment, BinaryAssignment};
use althread::interpreter::ast::statement::loop_control::LoopControl;
use althread::interpreter::ast::statement::Statement;
use althread::interpreter::ast::Ast;
use althread::error::Pos;
use althread::parse::{ParseNode, Rule};

fn at(line: usize) -> Pos {
    Pos { line, col: 1 }
}

fn other(text: &str) -> Node<Statement> {
    Node {
        pos: at(1),
        value: Statement::Other(ParseNode { rule: Rule::expr, text: text.to_string(), line: 1, col: 1, children: Vec::new() }),
    }
}

fn block(children: Vec<Node<Statement>>) -> Node<Block> {
    Node { pos: at(1), value: Block { children } }
}

fn no_args() -> Node<ArgsList> {
    Node { pos: at(0), value: ArgsList { identifiers: Vec::new(), datatypes: Vec::new() } }
}

/// A display that indents branches by two spaces and shows each statement
/// by its text.
struct Plain;

impl Plain {
    fn text(node: &Node<Statement>) -> String {
        match &node.value {
            Statement::Other(p) | Statement::Declaration(p) => p.text.clone(),
            _ => "statement".to_string(),
        }
    }
}

impl TreeDisplay for Plain {
    // The spec functions describe the display for the verifier only; they are never run.
    fn branch_of(&self, _prefix: vstd::prelude::Seq<char>) -> vstd::prelude::Seq<char> {
        unreachable!()
    }
    fn switched(&self, _prefix: vstd::prelude::Seq<char>) -> vstd::prelude::Seq<char> {
        unreachable!()
    }
    fn leaf_of(&self, _prefix: vstd::prelude::Seq<char>) -> vstd::prelude::Seq<char> {
        unreachable!()
    }
    fn block_text(&self, _block: Node<Block>, _prefix: vstd::prelude::Seq<char>) -> vstd::prelude::Seq<vstd::prelude::Seq<char>> {
        unreachable!()
    }
    fn condition_block_text(&self, _block: Node<ConditionBlock>, _prefix: vstd::prelude::Seq<char>) -> vstd::prelude::Seq<vstd::prelude::Seq<char>> {
        unreachable!()
    }
    fn statement_text(&self, _node: Node<Statement>, _prefix: vstd::prelude::Seq<char>) -> vstd::prelude::Seq<vstd::prelude::Seq<char>> {
        unreachable!()
    }
    fn binary_text(&self, _node: Node<BinaryAssignment>, _prefix: vstd::prelude::Seq<char>) -> vstd::prelude::Seq<vstd::prelude::Seq<char>> {
        unreachable!()
    }
    fn keyword_text(&self, _k: ConditionKeyword) -> vstd::prelude::Seq<char> {
        unreachable!()
    }
    fn type_text(&self, _t: DataType) -> vstd::prelude::Seq<char> {
        unreachable!()
    }

    fn add_branch(&self, prefix: &String) -> String {
        format!("{}  ", prefix)
    }
    fn switch(&self, prefix: &String) -> String {
        format!("{}| ", prefix)
    }
    fn add_leaf(&self, prefix: &String) -> String {
        format!("{}- ", prefix)
    }
    fn block_lines(&self, block: &Node<Block>, prefix: &String) -> Vec<String> {
        block.value.children.iter().map(|c| format!("{}{}", prefix, Plain::text(c))).collect()
    }
    fn condition_block_lines(&self, block: &Node<ConditionBlock>, prefix: &String) -> Vec<String> {
        block.value.children.iter().map(|c| format!("{}{}", prefix, Plain::text(c))).collect()
    }
    fn statement_lines(&self, node: &Node<Statement>, prefix: &String) -> Vec<String> {
        vec![format!("{}{}", prefix, Plain::text(node))]
    }
    fn binary_lines(&self, node: &Node<BinaryAssignment>, prefix: &String) -> Vec<String> {
        vec![format!("{}binary {}", prefix, node.value.parts.len())]
    }
    fn keyword_name(&self, k: ConditionKeyword) -> String {
        match k {
            ConditionKeyword::Always => "always".to_string(),
            ConditionKeyword::Never => "never".to_string(),
        }
    }
    fn datatype_name(&self, t: DataType) -> String {
        format!("{:?}", t).to_lowercase()
    }
}

#[test]
fn the_tree_shows_each_part_in_order() {
    let a = Ast {
        process_blocks: vec![("main".to_string(), (no_args(), block(vec![other("run A")])))],
        condition_blocks: vec![(ConditionKeyword::Always, Node { pos: at(2), value: ConditionBlock { children: vec![other("x == 1")] } })],
        global_block: Some(block(vec![other("let x = 1")])),
        function_blocks: vec![("f".to_string(), (no_args(), DataType::Int, block(vec![other("return 1")])))],
    };
    let lines = a.ast_fmt(&Plain, &"> ".to_string());
    assert_eq!(
        lines,
        vec![
            "> shared", ">   let x = 1", "", "> always", ">   x == 1", "", "> main", ">   run A", "", "> f -> int",
            ">   return 1", "",
        ]
    );
}

#[test]
fn a_tree_without_shared_block_starts_with_an_empty_line() {
    let a = Ast { process_blocks: vec![], condition_blocks: vec![], global_block: None, function_blocks: vec![] };
    assert_eq!(a.ast_fmt(&Plain, &String::new()), vec![""]);
}

#[test]
fn a_loop_shows_its_statement_as_a_leaf() {
    let l = LoopControl { statement: Box::new(other("x = x + 1")) };
    assert_eq!(l.ast_fmt(&Plain, &"".to_string()), vec!["loop_control", "| do", "| - x = x + 1"]);
    let b = Assignment::Binary(Node { pos: at(1), value: BinaryAssignment { parts: Vec::new() } });
    assert_eq!(b.ast_fmt(&Plain, &"  ".to_string()), vec!["  binary 0"]);
}
