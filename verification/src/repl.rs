//! What a read-eval-print loop does with one line. Reading the line and
//! printing the answer are left to the caller.

use crate::env::{Env, Scope};
use crate::error::{Fault, LispError};
use crate::eval::{eval_lispexpr, run, DEFAULT_DEPTH};
use crate::lexer::{is_blank, is_space, is_whitespace, lex, tokenize, tokens_view};
use crate::lisp_expr::{render, Expr, LispExpr};
use crate::parser::parse;
use crate::text::text_eq;
use crate::token::{Lexeme, Token};
use vstd::prelude::*;

verus! {

/// What the loop is to do after a line.
#[derive(Debug, PartialEq)]
pub enum Reply {
    /// The line was blank: nothing happens.
    Ignore,
    /// The line was the word `exit`: the session ends.
    Quit,
    /// The line was evaluated and has no value to show.
    Silent,
    /// The line was evaluated; this is the text of its value.
    Print(String),
    /// The line met this fault; the session goes on.
    Report(LispError),
    /// The line met this fault of the machine; the session cannot go on.
    Abort(LispError),
}

/// The mathematical value of a [`Reply`].
pub enum Answer {
    Ignore,
    Quit,
    Silent,
    Print(Seq<char>),
    Report(Fault),
    Abort(Fault),
}

impl View for Reply {
    type V = Answer;

    open spec fn view(&self) -> Answer {
        match self {
            Reply::Ignore => Answer::Ignore,
            Reply::Quit => Answer::Quit,
            Reply::Silent => Answer::Silent,
            Reply::Print(text) => Answer::Print(text@),
            Reply::Report(error) => Answer::Report(error@),
            Reply::Abort(error) => Answer::Abort(error@),
        }
    }
}

/// Whether `line` asks to end the session: its only word is `exit`.
pub open spec fn is_exit(line: Seq<char>) -> bool {
    lex(line) == seq![Lexeme::Symbol("exit"@)]
}

/// The answer to `line` in the chain `env`, and the chain afterwards. A
/// blank line and `exit` change nothing; any other line is run, and what it
/// defined stays, also where it ended in a fault. A fault of the program
/// text is reported and the session goes on; a fault of the machine ends it.
pub open spec fn respond_spec(line: Seq<char>, env: Seq<Scope>) -> (Answer, Seq<Scope>) {
    if is_blank(line) {
        (Answer::Ignore, env)
    } else if is_exit(line) {
        (Answer::Quit, env)
    } else {
        let out = run(line, env, DEFAULT_DEPTH as nat);
        (
            match out.result {
                Ok(Expr::Void) => Answer::Silent,
                Ok(value) => Answer::Print(render(value)),
                Err(fault) => if fault.is_fatal() {
                    Answer::Abort(fault)
                } else {
                    Answer::Report(fault)
                },
            },
            out.env,
        )
    }
}

/// Whether `line` holds nothing but white space. Such a line is neither
/// evaluated nor worth remembering.
pub fn is_blank_line(line: &str) -> (blank: bool)
    ensures
        blank == is_blank(line@),
{
    for c in it: line.chars()
        invariant
            it.seq() == line@,
            forall|i: int| 0 <= i < it.index() ==> is_space(#[trigger] line@[i]),
    {
        if !is_whitespace(c) {
            assert(!is_space(line@[it.index() as int]));
            return false;
        }
    }
    true
}

/// Answers one line of a session whose definitions live in `env`.
pub fn respond(line: &str, env: &mut Env) -> (reply: Reply)
    ensures
        (reply@, final(env)@) == respond_spec(line@, old(env)@),
{
    let tokens = match tokenize(line) {
        Ok(tokens) => tokens,
        Err(_) => {
            return Reply::Ignore;
        },
    };
    if tokens.len() == 1 {
        let exit = match &tokens[0] {
            Token::Symbol(word) => text_eq(word.as_str(), "exit"),
            _ => false,
        };
        proof {
            assert(tokens_view(tokens@)[0] == tokens@[0]@);
            if exit {
                assert(tokens_view(tokens@) =~= seq![Lexeme::Symbol("exit"@)]);
            }
        }
        if exit {
            return Reply::Quit;
        }
    }
    let lisp_expr = match parse(tokens) {
        Ok(lisp_expr) => lisp_expr,
        Err(error) => {
            return Reply::Report(LispError::Parse(error));
        },
    };
    match eval_lispexpr(&lisp_expr, env, DEFAULT_DEPTH) {
        Ok(LispExpr::Void) => Reply::Silent,
        Ok(value) => Reply::Print(value.to_string()),
        Err(error) => {
            if error.is_fatal() {
                Reply::Abort(error)
            } else {
                Reply::Report(error)
            }
        },
    }
}

} // verus!
