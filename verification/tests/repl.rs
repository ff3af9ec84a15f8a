use lisp_rs::env::Env;
use lisp_rs::error::{LispError, ParseError};
use lisp_rs::lisp_expr::{Kind, LispExpr};
use lisp_rs::repl::{is_blank_line, respond, Reply};
use lisp_rs::semantics::Form;

#[test]
fn blank_lines_are_ignored() {
    let mut env = Env::new();
    assert_eq!(respond("", &mut env), Reply::Ignore);
    assert_eq!(respond("   \t", &mut env), Reply::Ignore);
    assert!(is_blank_line(""));
    assert!(is_blank_line(" \n "));
    assert!(!is_blank_line(" x "));
    assert!(!is_blank_line("()"));
}

#[test]
fn exit_ends_the_session() {
    let mut env = Env::new();
    assert_eq!(respond("exit", &mut env), Reply::Quit);
    assert_eq!(respond("  exit \n", &mut env), Reply::Quit);
    assert_eq!(
        respond("exit exit", &mut env),
        Reply::Report(LispError::Parse(ParseError::MissingLeadingParen))
    );
    assert_eq!(
        respond("(exit)", &mut env),
        Reply::Report(LispError::UnboundSymbol { name: "exit".to_string() })
    );
    assert_eq!(
        respond("quit", &mut env),
        Reply::Report(LispError::Parse(ParseError::MissingLeadingParen))
    );
}

#[test]
fn a_session_keeps_its_definitions() {
    let mut env = Env::new();
    assert_eq!(respond("(define r 10)", &mut env), Reply::Silent);
    assert_eq!(respond("(define pi 314)", &mut env), Reply::Silent);
    assert_eq!(respond("(* pi (* r r))", &mut env), Reply::Print("31400".to_string()));
    assert_eq!(respond("(< r pi)", &mut env), Reply::Print("true".to_string()));
    assert_eq!(respond("(0 r pi (0 -1))", &mut env), Reply::Print("(0 10 314 (0 -1))".to_string()));
    assert_eq!(
        respond("(lambda (x) (x))", &mut env),
        Reply::Print("(lambda (x) (x))".to_string())
    );
    assert_eq!(env.get("r"), Some(LispExpr::Integer(10)));
}

#[test]
fn faults_of_the_text_are_reported_and_the_session_goes_on() {
    let mut env = Env::new();
    assert_eq!(
        respond("(+ 1", &mut env),
        Reply::Report(LispError::Parse(ParseError::UnclosedParen))
    );
    assert_eq!(
        respond("(foo)", &mut env),
        Reply::Report(LispError::UnboundSymbol { name: "foo".to_string() })
    );
    assert_eq!(
        respond("(+ 1)", &mut env),
        Reply::Report(LispError::Arity { form: Form::Operator, expected: 2, actual: 1 })
    );
    assert_eq!(respond("(+ 1 1)", &mut env), Reply::Print("2".to_string()));
}

#[test]
fn faults_of_the_machine_end_the_session() {
    let mut env = Env::new();
    assert_eq!(respond("(/ 1 0)", &mut env), Reply::Abort(LispError::DivisionByZero));
    assert_eq!(
        respond("(* 9223372036854775807 2)", &mut env),
        Reply::Abort(LispError::Overflow)
    );
    assert_eq!(respond("(define f (lambda () ((f))))", &mut env), Reply::Silent);
    assert_eq!(respond("(f)", &mut env), Reply::Abort(LispError::DepthExceeded));
    assert!(LispError::DivisionByZero.is_fatal());
    assert!(LispError::Overflow.is_fatal());
    assert!(LispError::DepthExceeded.is_fatal());
    assert!(!LispError::EmptyInput.is_fatal());
    assert!(!LispError::InvalidDefine.is_fatal());
    assert!(!LispError::Parse(ParseError::EmptyTokens).is_fatal());
}

#[test]
fn fault_reports() {
    assert_eq!(LispError::EmptyInput.to_string(), "Empty input");
    assert_eq!(LispError::Parse(ParseError::EmptyTokens).to_string(), "Empty tokens");
    assert_eq!(
        LispError::Parse(ParseError::MissingLeadingParen).to_string(),
        "Expression must start with left parenthesis"
    );
    assert_eq!(ParseError::UnclosedParen.to_string(), "Right parenthesis is missing");
    assert_eq!(
        LispError::UnboundSymbol { name: "foo".to_string() }.to_string(),
        "Unbound symbol: foo"
    );
    assert_eq!(
        LispError::Arity { form: Form::Operator, expected: 2, actual: 1 }.to_string(),
        "Invalid number of arguments for binary operator: expected 2, got 1"
    );
    assert_eq!(
        LispError::Arity { form: Form::If, expected: 3, actual: 12 }.to_string(),
        "Invalid number of arguments for if: expected 3, got 12"
    );
    assert_eq!(
        LispError::Arity { form: Form::Define, expected: 2, actual: 0 }.to_string(),
        "Invalid number of arguments for define: expected 2, got 0"
    );
    assert_eq!(
        LispError::Arity { form: Form::Lambda, expected: 2, actual: 3 }.to_string(),
        "Invalid number of arguments for lambda: expected 2, got 3"
    );
    assert_eq!(
        LispError::Arity { form: Form::Call, expected: 100, actual: 99 }.to_string(),
        "Invalid number of arguments for function call: expected 100, got 99"
    );
    assert_eq!(
        LispError::Type { expected_kind: Kind::Integer, got: Kind::Bool }.to_string(),
        "Expected Integer, got Bool"
    );
    assert_eq!(
        LispError::Type { expected_kind: Kind::Symbol, got: Kind::List }.to_string(),
        "Expected Symbol, got List"
    );
    assert_eq!(
        LispError::Type { expected_kind: Kind::Lambda, got: Kind::Void }.to_string(),
        "Expected Lambda, got Void"
    );
    assert_eq!(
        LispError::NotAFunction { name: "five".to_string() }.to_string(),
        "Not a lambda: five"
    );
    assert_eq!(LispError::InvalidDefine.to_string(), "Unable to assign Void to a variable");
    assert_eq!(LispError::InvalidOperator.to_string(), "Invalid operator");
    assert_eq!(LispError::DivisionByZero.to_string(), "Division by zero");
    assert_eq!(LispError::Overflow.to_string(), "Integer overflow");
    assert_eq!(LispError::DepthExceeded.to_string(), "Evaluation nests too deep");
}
