use vstd::prelude::*;

use crate::text::{decimal, lines, nth_line, space_string, spaces, usize_to_string};

verus! {

/// A place in the source text: a line and a column, both counted from 1.
/// Line 0 stands for "no place in the source".
#[derive(Clone, Copy, Debug, PartialEq, Eq, Structural)]
pub struct Pos {
    pub line: usize,
    pub col: usize,
}

/// The kinds of error that the language reports.
#[derive(Clone, Copy, Debug, PartialEq, Eq, Structural)]
pub enum ErrorType {
    SyntaxError,
    TypeError,
    VariableError,
    RuntimeError,
    ExpressionError,
    FunctionAlreadyDefined,
    FunctionMissingReturnStatement,
    InstructionNotAllowed,
    UndefinedChannel,
}

/// The name under which an error kind is reported.
pub open spec fn error_type_name(t: ErrorType) -> Seq<char> {
    match t {
        ErrorType::SyntaxError => "Syntax Error"@,
        ErrorType::TypeError => "Type Error"@,
        ErrorType::VariableError => "Variable Error"@,
        ErrorType::RuntimeError => "Runtime Error"@,
        ErrorType::ExpressionError => "Expression Error"@,
        ErrorType::FunctionAlreadyDefined => "Function Already Defined"@,
        ErrorType::FunctionMissingReturnStatement => "Function Missing Return Statement"@,
        ErrorType::InstructionNotAllowed => "Instruction Not Allowed"@,
        ErrorType::UndefinedChannel => "Undefined Channel"@,
    }
}

impl ErrorType {
    /// The name under which this kind of error is reported (its display text).
    pub fn name(&self) -> (s: String)
        ensures
            s@ == error_type_name(*self),
    {
        match self {
            ErrorType::SyntaxError => String::from_str("Syntax Error"),
            ErrorType::TypeError => String::from_str("Type Error"),
            ErrorType::VariableError => String::from_str("Variable Error"),
            ErrorType::RuntimeError => String::from_str("Runtime Error"),
            ErrorType::ExpressionError => String::from_str("Expression Error"),
            ErrorType::FunctionAlreadyDefined => String::from_str("Function Already Defined"),
            ErrorType::FunctionMissingReturnStatement => String::from_str(
                "Function Missing Return Statement",
            ),
            ErrorType::InstructionNotAllowed => String::from_str("Instruction Not Allowed"),
            ErrorType::UndefinedChannel => String::from_str("Undefined Channel"),
        }
    }
}

/// An error of the language: where it happened, what happened, and its kind.
#[derive(Debug)]
pub struct AlthreadError {
    pos: Pos,
    message: String,
    error_type: ErrorType,
}

/// The result type of the language's operations.
pub type AlthreadResult<T> = Result<T, AlthreadError>;

impl View for AlthreadError {
    type V = (Pos, ErrorType, Seq<char>);

    closed spec fn view(&self) -> (Pos, ErrorType, Seq<char>) {
        (self.pos, self.error_type, self.message@)
    }
}

/// The view of an error of kind `t` at line `line`, column `col`, with message `m`.
pub open spec fn error_view(t: ErrorType, line: usize, col: usize, m: Seq<char>) -> (
    Pos,
    ErrorType,
    Seq<char>,
) {
    (Pos { line, col }, t, m)
}

/// A result that carries nothing on success, with its error taken by its view.
pub open spec fn unit_result_view(r: AlthreadResult<()>) -> Result<(), (Pos, ErrorType, Seq<char>)> {
    match r {
        Ok(()) => Ok(()),
        Err(e) => Err(e@),
    }
}

/// The place that an optional position stands for: no position is line 0, column 0.
pub open spec fn pos_or_none(pos: Option<Pos>) -> Pos {
    match pos {
        Some(p) => p,
        None => Pos { line: 0, col: 0 },
    }
}

/// The lines that show the source line of an error: none when the error has
/// no line or the line is not in the text; otherwise the line with its number,
/// framed by a gutter, and a caret under the column.
pub open spec fn err_line_spec(line: nat, col: nat, input: Seq<char>) -> Seq<Seq<char>> {
    if line == 0 || line > lines(input).len() {
        seq![]
    } else {
        let indent = spaces(decimal(line).len());
        seq![
            indent + " |"@,
            decimal(line) + " | "@ + lines(input)[line - 1],
            indent + " |"@ + spaces(col) + "^---"@,
            indent + " |"@,
        ]
    }
}

/// The full report of an error: where it is, the source line, and what it is.
pub open spec fn report_spec(e: (Pos, ErrorType, Seq<char>), input: Seq<char>) -> Seq<Seq<char>> {
    seq!["Error at "@ + decimal(e.0.line as nat) + ":"@ + decimal(e.0.col as nat)]
        + err_line_spec(e.0.line as nat, e.0.col as nat, input)
        + seq![error_type_name(e.1) + ": "@ + e.2]
}

/// An error at line 0 (such as one made without a position) shows no source
/// line: its report is the place and the kind with the message, nothing more.
pub proof fn lemma_unplaced_error_report(e: (Pos, ErrorType, Seq<char>), input: Seq<char>)
    requires
        e.0.line == 0,
    ensures
        err_line_spec(e.0.line as nat, e.0.col as nat, input) == Seq::<Seq<char>>::empty(),
        report_spec(e, input) == seq![
            "Error at "@ + decimal(0) + ":"@ + decimal(e.0.col as nat),
            error_type_name(e.1) + ": "@ + e.2,
        ],
{
    assert(report_spec(e, input) =~= seq![
        "Error at "@ + decimal(0) + ":"@ + decimal(e.0.col as nat),
        error_type_name(e.1) + ": "@ + e.2,
    ]);
}

impl AlthreadError {
    /// Makes an error of a kind, at a line and column, with a message.
    pub fn error(error_type: ErrorType, line: usize, col: usize, message: String) -> (e: Self)
        ensures
            e@ == error_view(error_type, line, col, message@),
    {
        Self { pos: Pos { line, col }, message, error_type }
    }

    /// Makes an error of a kind, at an optional position, with a message.
    /// An error without a position is placed at line 0, which no report shows.
    pub fn new(error_type: ErrorType, pos: Option<Pos>, message: String) -> (e: Self)
        ensures
            e@ == (pos_or_none(pos), error_type, message@),
    {
        let pos = match pos {
            Some(p) => p,
            None => Pos { line: 0, col: 0 },
        };
        Self { pos, message, error_type }
    }

    /// Where the error happened.
    pub fn pos(&self) -> (p: Pos)
        ensures
            p == self@.0,
    {
        self.pos
    }

    /// The kind of the error.
    pub fn error_type(&self) -> (t: ErrorType)
        ensures
            t == self@.1,
    {
        self.error_type
    }

    /// What happened.
    pub fn message(&self) -> (m: &String)
        ensures
            m@ == self@.2,
    {
        &self.message
    }

    /// The lines that show where in `input` the error is.
    pub fn err_line_text(&self, input: &str) -> (r: Vec<String>)
        ensures
            r@.map_values(|s: String| s@) =~= err_line_spec(
                self@.0.line as nat,
                self@.0.col as nat,
                input@,
            ),
    {
        let mut r: Vec<String> = Vec::new();
        if self.pos.line == 0 {
            return r;
        }
        let line = match nth_line(input, self.pos.line - 1) {
            Some(line) => line,
            None => {
                return r;
            },
        };
        let num = usize_to_string(self.pos.line);
        let indent = space_string(num.as_str().unicode_len());
        let mut l1 = indent.clone();
        l1.append(" |");
        let mut l2 = num.clone();
        l2.append(" | ");
        l2.append(line.as_str());
        let mut l3 = indent.clone();
        l3.append(" |");
        let caret_pad = space_string(self.pos.col);
        l3.append(caret_pad.as_str());
        l3.append("^---");
        let mut l4 = indent.clone();
        l4.append(" |");
        r.push(l1);
        r.push(l2);
        r.push(l3);
        r.push(l4);
        r
    }

    /// The lines of the full report of the error against the source `input`.
    pub fn report_text(&self, input: &str) -> (r: Vec<String>)
        ensures
            r@.map_values(|s: String| s@) =~= report_spec(self@, input@),
    {
        let mut head = String::from_str("Error at ");
        let line = usize_to_string(self.pos.line);
        head.append(line.as_str());
        head.append(":");
        let col = usize_to_string(self.pos.col);
        head.append(col.as_str());
        let mut r: Vec<String> = Vec::new();
        r.push(head);
        let body = self.err_line_text(input);
        let mut i: usize = 0;
        while i < body.len()
            invariant
                i <= body.len(),
                r@.len() == 1 + i,
                r@[0]@ == "Error at "@ + decimal(self@.0.line as nat) + ":"@ + decimal(
                    self@.0.col as nat,
                ),
                forall|k: int| 0 <= k < i ==> r@[1 + k]@ == body@[k]@,
            decreases body.len() - i,
        {
            r.push(body[i].clone());
            i = i + 1;
        }
        let mut tail = self.error_type.name();
        tail.append(": ");
        tail.append(self.message.as_str());
        r.push(tail);
        r
    }
}

} // verus!
