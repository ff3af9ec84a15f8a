//! The faults of tokenizing, parsing and evaluating.

use crate::lisp_expr::Kind;
use crate::semantics::Form;
use crate::text::{digits_text, push_digits};
use vstd::prelude::*;

verus! {

/// Why a token sequence is not a program.
#[derive(Debug, PartialEq, Eq, Structural, Clone, Copy)]
pub enum ParseError {
    /// There is no token at all.
    EmptyTokens,
    /// The first token is not a left parenthesis.
    MissingLeadingParen,
    /// The tokens end before the parenthesis that closes the form.
    UnclosedParen,
}

/// A fault that ends the evaluation of a line.
#[derive(Debug, PartialEq)]
pub enum LispError {
    /// The text holds no token.
    EmptyInput,
    /// The tokens are not a program.
    Parse(ParseError),
    /// No scope binds the symbol.
    UnboundSymbol { name: String },
    /// A form with the wrong number of operands: `expected` and `actual` count
    /// the members of the form after its head.
    Arity { form: Form, expected: usize, actual: usize },
    /// A value of the wrong shape.
    Type { expected_kind: Kind, got: Kind },
    /// The head symbol of a call is bound to something that is no lambda.
    NotAFunction { name: String },
    /// A `define` whose value is `Void`.
    InvalidDefine,
    /// An operator form whose head is none of the binary operators.
    InvalidOperator,
    /// A division whose divisor is zero.
    DivisionByZero,
    /// An arithmetic result outside the 64-bit signed range.
    Overflow,
    /// The evaluation nests deeper than the depth it was given.
    DepthExceeded,
}

/// The mathematical value of a [`LispError`].
pub enum Fault {
    EmptyInput,
    Parse(ParseError),
    UnboundSymbol { name: Seq<char> },
    Arity { form: Form, expected: int, actual: int },
    Type { expected_kind: Kind, got: Kind },
    NotAFunction { name: Seq<char> },
    InvalidDefine,
    InvalidOperator,
    DivisionByZero,
    Overflow,
    DepthExceeded,
}

impl View for LispError {
    type V = Fault;

    open spec fn view(&self) -> Fault {
        match self {
            LispError::EmptyInput => Fault::EmptyInput,
            LispError::Parse(e) => Fault::Parse(*e),
            LispError::UnboundSymbol { name } => Fault::UnboundSymbol { name: name@ },
            LispError::Arity { form, expected, actual } => Fault::Arity {
                form: *form,
                expected: *expected as int,
                actual: *actual as int,
            },
            LispError::Type { expected_kind, got } => Fault::Type {
                expected_kind: *expected_kind,
                got: *got,
            },
            LispError::NotAFunction { name } => Fault::NotAFunction { name: name@ },
            LispError::InvalidDefine => Fault::InvalidDefine,
            LispError::InvalidOperator => Fault::InvalidOperator,
            LispError::DivisionByZero => Fault::DivisionByZero,
            LispError::Overflow => Fault::Overflow,
            LispError::DepthExceeded => Fault::DepthExceeded,
        }
    }
}

impl Fault {
    /// Whether this is a fault of the machine rather than of the program
    /// text: arithmetic that the integers cannot carry out, or an
    /// evaluation that has run out of depth.
    pub open spec fn is_fatal(self) -> bool {
        self is DivisionByZero || self is Overflow || self is DepthExceeded
    }
}

/// The name of a shape, as a fault report spells it.
pub open spec fn kind_text(kind: Kind) -> Seq<char> {
    match kind {
        Kind::Void => "Void"@,
        Kind::Integer => "Integer"@,
        Kind::Bool => "Bool"@,
        Kind::Symbol => "Symbol"@,
        Kind::Lambda => "Lambda"@,
        Kind::List => "List"@,
    }
}

/// The name of a form, as a fault report spells it.
pub open spec fn form_text(form: Form) -> Seq<char> {
    match form {
        Form::Operator => "binary operator"@,
        Form::If => "if"@,
        Form::Define => "define"@,
        Form::Lambda => "lambda"@,
        Form::Call => "function call"@,
    }
}

/// The report of a parse fault.
pub open spec fn parse_error_text(error: ParseError) -> Seq<char> {
    match error {
        ParseError::EmptyTokens => "Empty tokens"@,
        ParseError::MissingLeadingParen => "Expression must start with left parenthesis"@,
        ParseError::UnclosedParen => "Right parenthesis is missing"@,
    }
}

/// The report of a fault, one line of text.
pub open spec fn fault_text(fault: Fault) -> Seq<char> {
    match fault {
        Fault::EmptyInput => "Empty input"@,
        Fault::Parse(error) => parse_error_text(error),
        Fault::UnboundSymbol { name } => "Unbound symbol: "@ + name,
        Fault::Arity { form, expected, actual } => "Invalid number of arguments for "@ + form_text(
            form,
        ) + ": expected "@ + digits_text(expected) + ", got "@ + digits_text(actual),
        Fault::Type { expected_kind, got } => "Expected "@ + kind_text(expected_kind) + ", got "@
            + kind_text(got),
        Fault::NotAFunction { name } => "Not a lambda: "@ + name,
        Fault::InvalidDefine => "Unable to assign Void to a variable"@,
        Fault::InvalidOperator => "Invalid operator"@,
        Fault::DivisionByZero => "Division by zero"@,
        Fault::Overflow => "Integer overflow"@,
        Fault::DepthExceeded => "Evaluation nests too deep"@,
    }
}

/// The name of a shape.
fn kind_name(kind: Kind) -> (text: &'static str)
    ensures
        text@ == kind_text(kind),
{
    match kind {
        Kind::Void => "Void",
        Kind::Integer => "Integer",
        Kind::Bool => "Bool",
        Kind::Symbol => "Symbol",
        Kind::Lambda => "Lambda",
        Kind::List => "List",
    }
}

/// The name of a form.
fn form_name(form: Form) -> (text: &'static str)
    ensures
        text@ == form_text(form),
{
    match form {
        Form::Operator => "binary operator",
        Form::If => "if",
        Form::Define => "define",
        Form::Lambda => "lambda",
        Form::Call => "function call",
    }
}

impl ParseError {
    /// The report of this fault.
    pub fn to_string(&self) -> (text: String)
        ensures
            text@ == parse_error_text(*self),
    {
        match self {
            ParseError::EmptyTokens => "Empty tokens".to_owned(),
            ParseError::MissingLeadingParen => "Expression must start with left parenthesis"
                .to_owned(),
            ParseError::UnclosedParen => "Right parenthesis is missing".to_owned(),
        }
    }
}

impl LispError {
    /// Whether this is a fault of the machine rather than of the program
    /// text.
    pub fn is_fatal(&self) -> (fatal: bool)
        ensures
            fatal == self@.is_fatal(),
    {
        match self {
            LispError::DivisionByZero => true,
            LispError::Overflow => true,
            LispError::DepthExceeded => true,
            _ => false,
        }
    }

    /// The report of this fault, one line of text.
    pub fn to_string(&self) -> (text: String)
        ensures
            text@ == fault_text(self@),
    {
        match self {
            LispError::EmptyInput => "Empty input".to_owned(),
            LispError::Parse(error) => error.to_string(),
            LispError::UnboundSymbol { name } => {
                let mut text = "Unbound symbol: ".to_owned();
                text.append(name.as_str());
                text
            },
            LispError::Arity { form, expected, actual } => {
                let mut text = "Invalid number of arguments for ".to_owned();
                text.append(form_name(*form));
                text.append(": expected ");
                push_digits(&mut text, *expected as u64);
                text.append(", got ");
                push_digits(&mut text, *actual as u64);
                text
            },
            LispError::Type { expected_kind, got } => {
                let mut text = "Expected ".to_owned();
                text.append(kind_name(*expected_kind));
                text.append(", got ");
                text.append(kind_name(*got));
                text
            },
            LispError::NotAFunction { name } => {
                let mut text = "Not a lambda: ".to_owned();
                text.append(name.as_str());
                text
            },
            LispError::InvalidDefine => "Unable to assign Void to a variable".to_owned(),
            LispError::InvalidOperator => "Invalid operator".to_owned(),
            LispError::DivisionByZero => "Division by zero".to_owned(),
            LispError::Overflow => "Integer overflow".to_owned(),
            LispError::DepthExceeded => "Evaluation nests too deep".to_owned(),
        }
    }
}

} // verus!
