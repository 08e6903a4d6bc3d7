use althread::ast::check::{check_pairs, check_rule, CheckKind};
use althread::ast::stmt::assign::Assign;
use althread::ast::Ast;
use althread::env::process_table::running_process::{ProcessEnv, RunningProcess, RunningProcesses};
use althread::env::{Env, Environment, PrimaryExpr, ProcessTable, Symbol, SymbolTable, SymbolTableStack};
use althread::error::{AlthreadError, AlthreadResult, ErrorType, Pos};
use althread::parse::{ParseNode, Rule};
use althread::runtime::if_stmt::IfStmt;

fn leaf(rule: Rule, text: &str, line: usize) -> ParseNode {
    ParseNode { rule, text: text.to_string(), line, col: 1, children: Vec::new() }
}

/// An environment that records what it is asked and answers as told.
struct Recorder {
    log: Vec<String>,
    fail_on: Option<String>,
    value: Option<PrimaryExpr>,
}

impl Recorder {
    fn new() -> Self {
        Recorder { log: Vec::new(), fail_on: None, value: None }
    }
    fn answer(&mut self, what: &str, pair: &ParseNode) -> AlthreadResult<()> {
        self.log.push(format!("{} {}", what, pair.text));
        if self.fail_on.as_deref() == Some(pair.text.as_str()) {
            return Err(AlthreadError::error(ErrorType::TypeError, pair.line, pair.col, "bad".to_string()));
        }
        Ok(())
    }
}

impl Environment for Recorder {
    // The spec functions describe the recorder for the verifier only; they are never run.
    fn scope_count(&self) -> vstd::prelude::nat {
        unreachable!()
    }
    fn after_push(&self) -> Self {
        unreachable!()
    }
    fn after_pop(&self) -> Self {
        unreachable!()
    }
    fn expr_check(&self, _pair: ParseNode) -> (AlthreadResult<()>, Self) {
        unreachable!()
    }
    fn call_check(&self, _pair: ParseNode) -> (AlthreadResult<()>, Self) {
        unreachable!()
    }
    fn decl_check(&self, _pair: ParseNode) -> (AlthreadResult<()>, Self) {
        unreachable!()
    }
    fn assign_check(&self, _pair: ParseNode) -> (AlthreadResult<()>, Self) {
        unreachable!()
    }
    fn expr_value(&self, _expr: ParseNode) -> (AlthreadResult<PrimaryExpr>, Self) {
        unreachable!()
    }
    fn block_run(&self, _block: ParseNode) -> (AlthreadResult<()>, Self) {
        unreachable!()
    }
    fn push_table(&mut self) {
        self.log.push("push".to_string());
    }
    fn pop_table(&mut self) {
        self.log.push("pop".to_string());
    }
    fn check_expr(&mut self, pair: &ParseNode) -> AlthreadResult<()> {
        self.answer("expr", pair)
    }
    fn check_call(&mut self, pair: &ParseNode) -> AlthreadResult<()> {
        self.answer("call", pair)
    }
    fn check_decl(&mut self, pair: &ParseNode) -> AlthreadResult<()> {
        self.answer("decl", pair)
    }
    fn check_assign(&mut self, pair: &ParseNode) -> AlthreadResult<()> {
        self.answer("assign", pair)
    }
    fn eval_expr(&mut self, expr: &ParseNode) -> AlthreadResult<PrimaryExpr> {
        self.log.push(format!("eval {}", expr.text));
        match self.value.take() {
            Some(v) => Ok(v),
            None => Err(AlthreadError::error(ErrorType::RuntimeError, 0, 0, "no value".to_string())),
        }
    }
    fn eval_block(&mut self, block: &ParseNode) -> AlthreadResult<()> {
        self.log.push(format!("run {}", block.text));
        if self.fail_on.as_deref() == Some(block.text.as_str()) {
            return Err(AlthreadError::error(ErrorType::RuntimeError, block.line, block.col, "block failed".to_string()));
        }
        Ok(())
    }
}

#[test]
fn statements_go_to_their_checkers() {
    assert_eq!(check_rule(&leaf(Rule::expr, "e", 1)).unwrap(), CheckKind::Expr);
    assert_eq!(check_rule(&leaf(Rule::print_stmt, "p", 1)).unwrap(), CheckKind::Call);
    assert_eq!(check_rule(&leaf(Rule::decl, "d", 1)).unwrap(), CheckKind::Decl);
    assert_eq!(check_rule(&leaf(Rule::assignment, "a", 1)).unwrap(), CheckKind::Assign);
    let e = check_rule(&leaf(Rule::EOI, "", 5)).unwrap_err();
    assert_eq!(e.error_type(), ErrorType::SyntaxError);
    assert_eq!(e.pos(), Pos { line: 5, col: 1 });
    assert_eq!(e.message(), "Unexpected rule EOI");
}

#[test]
fn each_program_is_checked_in_its_own_scope() {
    let ast = Ast {
        process_bricks: vec![
            ("A".to_string(), vec![leaf(Rule::decl, "let x", 1), leaf(Rule::assignment, "x = 1", 2)]),
            ("B".to_string(), vec![leaf(Rule::print_stmt, "print(x)", 3), leaf(Rule::expr, "x + 1", 4)]),
        ],
    };
    let mut env = Recorder::new();
    assert!(ast.check(&mut env).is_ok());
    assert_eq!(
        env.log,
        vec!["push", "decl let x", "assign x = 1", "pop", "push", "call print(x)", "expr x + 1", "pop"]
    );
}

#[test]
fn checking_stops_at_the_first_error() {
    let ast = Ast {
        process_bricks: vec![(
            "A".to_string(),
            vec![leaf(Rule::decl, "let x", 1), leaf(Rule::EOI, "", 2), leaf(Rule::expr, "never", 3)],
        )],
    };
    let mut env = Recorder::new();
    let e = ast.check(&mut env).unwrap_err();
    assert_eq!(e.message(), "Unexpected rule EOI");
    assert_eq!(env.log, vec!["push", "decl let x"]);

    let mut env = Recorder::new();
    env.fail_on = Some("let x".to_string());
    let pairs = vec![leaf(Rule::decl, "let x", 7), leaf(Rule::expr, "e", 8)];
    let e = check_pairs(&pairs, &mut env).unwrap_err();
    assert_eq!(e.error_type(), ErrorType::TypeError);
    assert_eq!(env.log, vec!["decl let x"]);
}

#[test]
fn assign_takes_its_form() {
    let unary = ParseNode {
        rule: Rule::assignment,
        text: "x++".to_string(),
        line: 1,
        col: 1,
        children: vec![leaf(Rule::assign_unary, "x++", 1)],
    };
    assert!(matches!(Assign::build(unary), Assign::Unary(n) if n.text == "x++"));
    let binary = ParseNode {
        rule: Rule::assignment,
        text: "x = 2".to_string(),
        line: 1,
        col: 1,
        children: vec![leaf(Rule::assign_binary, "x = 2", 1)],
    };
    assert!(matches!(Assign::build(binary), Assign::Binary(n) if n.text == "x = 2"));
}

fn env_with(names: &[&str]) -> Env {
    Env {
        process_table: ProcessTable { processes: names.iter().map(|s| s.to_string()).collect() },
        global_table: SymbolTable {
            symbols: vec![Symbol { name: "X".to_string(), mutable: true, value: PrimaryExpr::Int(3) }],
        },
    }
}

#[test]
fn running_a_declared_program() {
    let env = env_with(&["A", "B"]);
    let mut running = RunningProcesses::new();
    assert!(running.processes.is_empty());
    running.insert("B".to_string(), &env).unwrap();
    assert_eq!(running.processes.len(), 1);
    assert_eq!(running.processes[0].name, "B");
    let tables = &running.processes[0].process.symbol_table.tables;
    assert_eq!(tables.len(), 1);
    assert_eq!(tables[0].symbols.len(), 1);
    assert_eq!(tables[0].symbols[0].name, "X");
    assert!(matches!(tables[0].symbols[0].value, PrimaryExpr::Int(3)));
}

#[test]
fn running_an_unknown_program_is_an_error() {
    let env = env_with(&["A"]);
    let mut running = RunningProcesses::new();
    let e = running.insert("C".to_string(), &env).unwrap_err();
    assert_eq!(e, "Process C not found");
    assert!(running.processes.is_empty());
}

#[test]
fn running_process_keeps_name_and_env() {
    let global = SymbolTable::new();
    let p = RunningProcess::new("P".to_string(), ProcessEnv { symbol_table: SymbolTableStack::new(&global) });
    assert_eq!(p.name, "P");
    assert_eq!(p.process.symbol_table.tables.len(), 1);
}

fn if_stmt(with_else: bool) -> IfStmt {
    IfStmt {
        condition: leaf(Rule::expr, "c", 3),
        block: leaf(Rule::code_block, "then", 3),
        else_block: if with_else { Some(leaf(Rule::code_block, "else", 5)) } else { None },
        line: 3,
        column: 2,
    }
}

#[test]
fn if_picks_its_branch() {
    let s = if_stmt(true);
    assert_eq!(s.branch(&PrimaryExpr::Bool(true)).unwrap().unwrap().text, "then");
    assert_eq!(s.branch(&PrimaryExpr::Bool(false)).unwrap().unwrap().text, "else");
    let s = if_stmt(false);
    assert!(s.branch(&PrimaryExpr::Bool(false)).unwrap().is_none());
    let e = s.branch(&PrimaryExpr::Int(1)).unwrap_err();
    assert_eq!(e.error_type(), ErrorType::RuntimeError);
    assert_eq!(e.pos(), Pos { line: 3, col: 2 });
    assert_eq!(e.message(), "Condition must be a boolean");
    assert!(s.branch(&PrimaryExpr::Null).is_err());
    assert!(s.branch(&PrimaryExpr::Str("true".to_string())).is_err());
}

#[test]
fn if_runs_its_branch() {
    let s = if_stmt(true);
    let mut env = Recorder::new();
    env.value = Some(PrimaryExpr::Bool(false));
    assert!(s.eval(&mut env).is_ok());
    assert_eq!(env.log, vec!["eval c", "run else"]);
    let mut env = Recorder::new();
    env.value = Some(PrimaryExpr::Int(0));
    assert_eq!(s.eval(&mut env).unwrap_err().message(), "Condition must be a boolean");
    assert_eq!(env.log, vec!["eval c"]);
    let mut env = Recorder::new();
    assert_eq!(s.eval(&mut env).unwrap_err().message(), "no value");
}

#[test]
fn empty_programs_pass_and_a_first_unchecked_statement_fails_at_once() {
    let mut env = Recorder::new();
    assert!(check_pairs(&vec![], &mut env).is_ok());
    let ast = Ast { process_bricks: vec![("A".to_string(), vec![]), ("B".to_string(), vec![])] };
    let mut env = Recorder::new();
    assert!(ast.check(&mut env).is_ok());
    assert_eq!(env.log, vec!["push", "pop", "push", "pop"]);
    let ast = Ast {
        process_bricks: vec![
            ("A".to_string(), vec![]),
            ("B".to_string(), vec![leaf(Rule::EOI, "", 6), leaf(Rule::expr, "e", 7)]),
        ],
    };
    let mut env = Recorder::new();
    let e = ast.check(&mut env).unwrap_err();
    assert_eq!(e.pos(), Pos { line: 6, col: 1 });
    assert_eq!(e.message(), "Unexpected rule EOI");
    assert_eq!(env.log, vec!["push", "pop", "push"]);
}

#[test]
fn if_answers_what_its_block_answers() {
    let s = if_stmt(true);
    let mut env = Recorder::new();
    env.value = Some(PrimaryExpr::Bool(true));
    assert!(s.eval(&mut env).is_ok());
    assert_eq!(env.log, vec!["eval c", "run then"]);

    let mut env = Recorder::new();
    env.value = Some(PrimaryExpr::Bool(true));
    env.fail_on = Some("then".to_string());
    let e = s.eval(&mut env).unwrap_err();
    assert_eq!(e.message(), "block failed");
    assert_eq!(e.pos(), Pos { line: 3, col: 1 });
    assert_eq!(env.log, vec!["eval c", "run then"]);

    let s = if_stmt(false);
    let mut env = Recorder::new();
    env.value = Some(PrimaryExpr::Bool(false));
    assert!(s.eval(&mut env).is_ok());
    assert_eq!(env.log, vec!["eval c"]);

    let mut env = Recorder::new();
    let e = s.eval(&mut env).unwrap_err();
    assert_eq!(e.error_type(), ErrorType::RuntimeError);
    assert_eq!(e.pos(), Pos { line: 0, col: 0 });
    assert_eq!(env.log, vec!["eval c"]);
}

#[test]
fn a_failing_checker_ends_the_check_with_its_scope_open() {
    let ast = Ast {
        process_bricks: vec![
            ("A".to_string(), vec![leaf(Rule::decl, "let x", 1)]),
            ("B".to_string(), vec![leaf(Rule::assignment, "y = 2", 2), leaf(Rule::expr, "later", 3)]),
            ("C".to_string(), vec![leaf(Rule::expr, "never", 4)]),
        ],
    };
    let mut env = Recorder::new();
    env.fail_on = Some("y = 2".to_string());
    let e = ast.check(&mut env).unwrap_err();
    assert_eq!(e.error_type(), ErrorType::TypeError);
    assert_eq!(e.pos(), Pos { line: 2, col: 1 });
    assert_eq!(env.log, vec!["push", "decl let x", "pop", "push", "assign y = 2"]);
}
