use althread::error::{AlthreadError, ErrorType, Pos};
use althread::text::{nth_line, space_string, usize_to_string};

#[test]
fn error_type_names() {
    assert_eq!(ErrorType::SyntaxError.name(), "Syntax Error");
    assert_eq!(ErrorType::TypeError.name(), "Type Error");
    assert_eq!(ErrorType::VariableError.name(), "Variable Error");
    assert_eq!(ErrorType::RuntimeError.name(), "Runtime Error");
    assert_eq!(ErrorType::FunctionAlreadyDefined.name(), "Function Already Defined");
    assert_eq!(
        ErrorType::FunctionMissingReturnStatement.name(),
        "Function Missing Return Statement"
    );
    assert_eq!(ErrorType::InstructionNotAllowed.name(), "Instruction Not Allowed");
    assert_eq!(ErrorType::UndefinedChannel.name(), "Undefined Channel");
    assert_eq!(ErrorType::ExpressionError.name(), "Expression Error");
}

#[test]
fn error_keeps_what_it_is_given() {
    let e = AlthreadError::error(ErrorType::TypeError, 3, 7, "bad type".to_string());
    assert_eq!(e.pos(), Pos { line: 3, col: 7 });
    assert_eq!(e.error_type(), ErrorType::TypeError);
    assert_eq!(e.message(), "bad type");
}

#[test]
fn new_error_without_position_is_at_line_zero() {
    let e = AlthreadError::new(ErrorType::SyntaxError, None, "x".to_string());
    assert_eq!(e.pos(), Pos { line: 0, col: 0 });
    let e = AlthreadError::new(ErrorType::SyntaxError, Some(Pos { line: 2, col: 5 }), "x".to_string());
    assert_eq!(e.pos(), Pos { line: 2, col: 5 });
}

#[test]
fn err_line_shows_the_line_with_a_caret() {
    let input = "let a = 1;\nlet b = 2;\n";
    let e = AlthreadError::error(ErrorType::RuntimeError, 2, 4, "oops".to_string());
    assert_eq!(
        e.err_line_text(input),
        vec!["  |".to_string(), "2 | let b = 2;".to_string(), "  |    ^---".to_string(), "  |".to_string()]
    );
}

#[test]
fn err_line_with_a_two_digit_line_number() {
    let mut input = String::new();
    for i in 0..12 {
        input.push_str(&format!("line{}\n", i));
    }
    let e = AlthreadError::error(ErrorType::RuntimeError, 12, 1, "oops".to_string());
    assert_eq!(
        e.err_line_text(&input),
        vec!["   |".to_string(), "12 | line11".to_string(), "   | ^---".to_string(), "   |".to_string()]
    );
}

#[test]
fn err_line_is_empty_at_line_zero_or_past_the_end() {
    let input = "a\nb";
    let e = AlthreadError::error(ErrorType::RuntimeError, 0, 1, "m".to_string());
    assert!(e.err_line_text(input).is_empty());
    let e = AlthreadError::error(ErrorType::RuntimeError, 3, 1, "m".to_string());
    assert!(e.err_line_text(input).is_empty());
    let e = AlthreadError::new(ErrorType::RuntimeError, None, "m".to_string());
    assert!(e.err_line_text(input).is_empty());
}

#[test]
fn report_lists_place_line_and_message() {
    let input = "x = 1\r\ny = 2";
    let e = AlthreadError::error(ErrorType::VariableError, 1, 0, "unknown".to_string());
    assert_eq!(
        e.report_text(input),
        vec![
            "Error at 1:0".to_string(),
            "  |".to_string(),
            "1 | x = 1".to_string(),
            "  |^---".to_string(),
            "  |".to_string(),
            "Variable Error: unknown".to_string(),
        ]
    );
}

#[test]
fn report_of_an_unplaced_error_has_two_lines() {
    let e = AlthreadError::new(ErrorType::UndefinedChannel, None, "c".to_string());
    assert_eq!(
        e.report_text("whatever"),
        vec!["Error at 0:0".to_string(), "Undefined Channel: c".to_string()]
    );
}

#[test]
fn decimal_numbers() {
    assert_eq!(usize_to_string(0), "0");
    assert_eq!(usize_to_string(7), "7");
    assert_eq!(usize_to_string(10), "10");
    assert_eq!(usize_to_string(1234567890), "1234567890");
}

#[test]
fn spaces() {
    assert_eq!(space_string(0), "");
    assert_eq!(space_string(3), "   ");
}

#[test]
fn lines_as_std_splits_them() {
    let cases = ["", "a", "a\n", "a\n\nb", "a\r\nb\r\n", "a\rb", "x\r", "\n", "\n\n", "héllo\nwörld"];
    for input in cases.iter() {
        let expected: Vec<&str> = input.lines().collect();
        for n in 0..expected.len() + 2 {
            let got = nth_line(input, n);
            match expected.get(n) {
                Some(l) => assert_eq!(got.as_deref(), Some(*l), "{:?} line {}", input, n),
                None => assert_eq!(got, None, "{:?} line {}", input, n),
            }
        }
    }
}
