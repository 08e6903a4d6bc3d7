use vstd::prelude::*;
use vstd::string::StringSliceAdditionalSpecFns;
use vstd::utf8::{decode_utf8, encode_utf8, is_char_boundary};

use crate::error::{error_view, AlthreadError, ErrorType};

verus! {

/// The grammar rules of the language that the library tells apart.
#[allow(non_camel_case_types)]
#[derive(Clone, Copy, Debug, PartialEq, Eq, Structural)]
pub enum Rule {
    EOI,
    main_block,
    global_block,
    condition_block,
    program_block,
    function_block,
    ALWAYS_KW,
    NEVER_KW,
    identifier,
    args_list,
    datatype,
    code_block,
    assignment,
    binary_assignment,
    unary_assignment,
    assign_unary,
    assign_binary,
    decl,
    expr,
    print_stmt,
    run_stmt,
    if_stmt,
    while_stmt,
    loop_stmt,
    scope,
}

/// The name of a rule, as the grammar writes it.
pub open spec fn rule_name(r: Rule) -> Seq<char> {
    match r {
        Rule::EOI => "EOI"@,
        Rule::main_block => "main_block"@,
        Rule::global_block => "global_block"@,
        Rule::condition_block => "condition_block"@,
        Rule::program_block => "program_block"@,
        Rule::function_block => "function_block"@,
        Rule::ALWAYS_KW => "ALWAYS_KW"@,
        Rule::NEVER_KW => "NEVER_KW"@,
        Rule::identifier => "identifier"@,
        Rule::args_list => "args_list"@,
        Rule::datatype => "datatype"@,
        Rule::code_block => "code_block"@,
        Rule::assignment => "assignment"@,
        Rule::binary_assignment => "binary_assignment"@,
        Rule::unary_assignment => "unary_assignment"@,
        Rule::assign_unary => "assign_unary"@,
        Rule::assign_binary => "assign_binary"@,
        Rule::decl => "decl"@,
        Rule::expr => "expr"@,
        Rule::print_stmt => "print_stmt"@,
        Rule::run_stmt => "run_stmt"@,
        Rule::if_stmt => "if_stmt"@,
        Rule::while_stmt => "while_stmt"@,
        Rule::loop_stmt => "loop_stmt"@,
        Rule::scope => "scope"@,
    }
}

impl Rule {
    /// The name of the rule, as the grammar writes it.
    pub fn name(&self) -> (s: String)
        ensures
            s@ == rule_name(*self),
    {
        match self {
            Rule::EOI => String::from_str("EOI"),
            Rule::main_block => String::from_str("main_block"),
            Rule::global_block => String::from_str("global_block"),
            Rule::condition_block => String::from_str("condition_block"),
            Rule::program_block => String::from_str("program_block"),
            Rule::function_block => String::from_str("function_block"),
            Rule::ALWAYS_KW => String::from_str("ALWAYS_KW"),
            Rule::NEVER_KW => String::from_str("NEVER_KW"),
            Rule::identifier => String::from_str("identifier"),
            Rule::args_list => String::from_str("args_list"),
            Rule::datatype => String::from_str("datatype"),
            Rule::code_block => String::from_str("code_block"),
            Rule::assignment => String::from_str("assignment"),
            Rule::binary_assignment => String::from_str("binary_assignment"),
            Rule::unary_assignment => String::from_str("unary_assignment"),
            Rule::assign_unary => String::from_str("assign_unary"),
            Rule::assign_binary => String::from_str("assign_binary"),
            Rule::decl => String::from_str("decl"),
            Rule::expr => String::from_str("expr"),
            Rule::print_stmt => String::from_str("print_stmt"),
            Rule::run_stmt => String::from_str("run_stmt"),
            Rule::if_stmt => String::from_str("if_stmt"),
            Rule::while_stmt => String::from_str("while_stmt"),
            Rule::loop_stmt => String::from_str("loop_stmt"),
            Rule::scope => String::from_str("scope"),
        }
    }
}

/// A node of the parse tree of a program: the rule that matched, the text it
/// matched, where that text starts, and the nodes matched inside it.
#[derive(Debug)]
pub struct ParseNode {
    pub rule: Rule,
    pub text: String,
    pub line: usize,
    pub col: usize,
    pub children: Vec<ParseNode>,
}

/// The number of line feeds in a text.
pub open spec fn newline_count(p: Seq<char>) -> nat
    decreases p.len(),
{
    if p.len() == 0 {
        0
    } else {
        newline_count(p.drop_last()) + if p.last() == '\n' {
            1nat
        } else {
            0nat
        }
    }
}

/// The number of characters after the last line feed of a text (all of them
/// when it has none).
pub open spec fn last_line_len(p: Seq<char>) -> nat
    decreases p.len(),
{
    if p.len() == 0 {
        0
    } else if p.last() == '\n' {
        0
    } else {
        last_line_len(p.drop_last()) + 1
    }
}

/// The text of `input` that precedes byte offset `pos`.
pub open spec fn text_before(input: Seq<char>, pos: int) -> Seq<char> {
    decode_utf8(encode_utf8(input).subrange(0, pos))
}

/// pest's `Position::line_col`: the line (one more than the line feeds before
/// `pos`) and the column (one more than the characters since the last line
/// feed) of byte offset `pos` in `input`. `Position::new` accepts exactly the
/// offsets that are character boundaries, which `requires` asks for.
#[verifier::external_body]
fn pest_line_col(input: &str, pos: usize) -> (lc: (usize, usize))
    requires
        is_char_boundary(input.spec_bytes(), pos as int),
    ensures
        lc.0 == 1 + newline_count(text_before(input@, pos as int)),
        lc.1 == 1 + last_line_len(text_before(input@, pos as int)),
{
    pest::Position::new(input, pos).unwrap().line_col()
}

impl ParseNode {
    /// The node for rule `rule` that matched the bytes `start..end` of
    /// `input`, with the nodes matched inside it. Its place is the line and
    /// column of `start`, as pest counts them.
    pub fn new(rule: Rule, input: &str, start: usize, end: usize, children: Vec<ParseNode>) -> (n:
        ParseNode)
        requires
            start <= end,
            is_char_boundary(input.spec_bytes(), start as int),
            is_char_boundary(input.spec_bytes(), end as int),
        ensures
            n.rule == rule,
            n.children == children,
            encode_utf8(n.text@) == input.spec_bytes().subrange(start as int, end as int),
            n.line == 1 + newline_count(text_before(input@, start as int)),
            n.col == 1 + last_line_len(text_before(input@, start as int)),
    {
        proof {
            vstd::utf8::encode_utf8_valid_utf8(input@);
        }
        let (line, col) = pest_line_col(input, start);
        let (head, _) = input.split_at(end);
        proof {
            lemma_boundary_in_prefix(input.spec_bytes(), start as int, end as int);
        }
        let (_, piece) = head.split_at(start);
        ParseNode { rule, text: String::from_str(piece), line, col, children }
    }
}

/// A character boundary before the end of a prefix that ends on a boundary is
/// a boundary of the prefix too.
proof fn lemma_boundary_in_prefix(bytes: Seq<u8>, i: int, j: int)
    requires
        vstd::utf8::valid_utf8(bytes),
        0 <= i <= j,
        is_char_boundary(bytes, i),
        is_char_boundary(bytes, j),
    ensures
        is_char_boundary(bytes.subrange(0, j), i),
{
    let p = bytes.subrange(0, j);
    vstd::utf8::valid_utf8_split(bytes, j);
    if i == j {
        vstd::utf8::is_char_boundary_start_end_of_seq(p);
        assert(p.len() == j);
    } else {
        vstd::utf8::is_char_boundary_iff_not_is_continuation_byte(bytes, i);
        vstd::utf8::is_char_boundary_iff_not_is_continuation_byte(p, i);
    }
}

/// The error for a node whose rule has no place where it stands.
pub open spec fn no_rule_view(n: &ParseNode) -> (crate::error::Pos, ErrorType, Seq<char>) {
    error_view(ErrorType::SyntaxError, n.line, n.col, "Unexpected rule "@ + rule_name(n.rule))
}

/// The error for a node whose rule has no place in `context`.
pub open spec fn no_rule_in_view(n: &ParseNode, context: Seq<char>) -> (
    crate::error::Pos,
    ErrorType,
    Seq<char>,
) {
    error_view(
        ErrorType::SyntaxError,
        n.line,
        n.col,
        "Unexpected rule "@ + rule_name(n.rule) + " in "@ + context,
    )
}

/// The syntax error for a node whose rule has no place where it stands.
pub fn no_rule(n: &ParseNode) -> (e: AlthreadError)
    ensures
        e@ == no_rule_view(n),
{
    let mut m = String::from_str("Unexpected rule ");
    let name = n.rule.name();
    m.append(name.as_str());
    AlthreadError::error(ErrorType::SyntaxError, n.line, n.col, m)
}

/// The syntax error for a node whose rule has no place in `context`.
pub fn no_rule_in(n: &ParseNode, context: &str) -> (e: AlthreadError)
    ensures
        e@ == no_rule_in_view(n, context@),
{
    let mut m = String::from_str("Unexpected rule ");
    let name = n.rule.name();
    m.append(name.as_str());
    m.append(" in ");
    m.append(context);
    AlthreadError::error(ErrorType::SyntaxError, n.line, n.col, m)
}

} // verus!
