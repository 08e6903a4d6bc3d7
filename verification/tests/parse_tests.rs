use althread::error::{ErrorType, Pos};
use althread::parse::{no_rule, no_rule_in, ParseNode, Rule};

fn leaf(rule: Rule, text: &str, line: usize, col: usize) -> ParseNode {
    ParseNode { rule, text: text.to_string(), line, col, children: Vec::new() }
}

#[test]
fn node_place_follows_pest_line_and_column() {
    let input = "ab\ncd";
    let n = ParseNode::new(Rule::identifier, input, 4, 5, Vec::new());
    assert_eq!(n.text, "d");
    assert_eq!((n.line, n.col), (2, 2));
    let n = ParseNode::new(Rule::identifier, input, 0, 2, Vec::new());
    assert_eq!(n.text, "ab");
    assert_eq!((n.line, n.col), (1, 1));
    let n = ParseNode::new(Rule::identifier, input, 3, 3, Vec::new());
    assert_eq!(n.text, "");
    assert_eq!((n.line, n.col), (2, 1));
}

#[test]
fn node_place_counts_characters_not_bytes() {
    let input = "é\nxé y";
    // 'é' takes two bytes; "xé y" starts at byte 3, 'y' at byte 7
    let n = ParseNode::new(Rule::identifier, input, 7, 8, Vec::new());
    assert_eq!(n.text, "y");
    assert_eq!((n.line, n.col), (2, 4));
    let n = ParseNode::new(Rule::expr, input, 3, 8, Vec::new());
    assert_eq!(n.text, "xé y");
    assert_eq!((n.line, n.col), (2, 1));
}

#[test]
fn node_place_after_crlf() {
    let input = "a\r\nbc";
    let n = ParseNode::new(Rule::identifier, input, 4, 5, Vec::new());
    assert_eq!((n.line, n.col), (2, 2));
    let n = ParseNode::new(Rule::identifier, input, 1, 1, Vec::new());
    assert_eq!((n.line, n.col), (1, 2));
}

#[test]
fn node_keeps_its_children() {
    let input = "x = 1";
    let child = ParseNode::new(Rule::identifier, input, 0, 1, Vec::new());
    let n = ParseNode::new(Rule::assignment, input, 0, 5, vec![child]);
    assert_eq!(n.rule, Rule::assignment);
    assert_eq!(n.children.len(), 1);
    assert_eq!(n.children[0].text, "x");
}

#[test]
fn rule_names() {
    assert_eq!(Rule::EOI.name(), "EOI");
    assert_eq!(Rule::main_block.name(), "main_block");
    assert_eq!(Rule::ALWAYS_KW.name(), "ALWAYS_KW");
    assert_eq!(Rule::loop_stmt.name(), "loop_stmt");
}

#[test]
fn no_rule_errors() {
    let n = leaf(Rule::expr, "1 + 2", 4, 9);
    let e = no_rule(&n);
    assert_eq!(e.error_type(), ErrorType::SyntaxError);
    assert_eq!(e.pos(), Pos { line: 4, col: 9 });
    assert_eq!(e.message(), "Unexpected rule expr");
    let e = no_rule_in(&n, "root ast");
    assert_eq!(e.message(), "Unexpected rule expr in root ast");
    assert_eq!(e.pos(), Pos { line: 4, col: 9 });
}
