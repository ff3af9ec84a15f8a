//! The evaluator: a recursive walk over the syntax tree.
//!
//! The walk uses the call stack of the machine: one frame or a few for every
//! list that is entered. Every entry point therefore takes a depth, the
//! number of lists that may be entered one inside the other, and gives the
//! fault [`LispError::DepthExceeded`] where that is not enough. A depth that
//! the call stack cannot carry is beyond what this module can promise.

use crate::env::{Env, Scope};
use crate::error::{Fault, LispError};
use crate::lexer::{tokenize, tokenize_spec};
use crate::lisp_expr::{clone_exprs, exprs_view, names_view, Expr, Kind, LispExpr};
use crate::lisp_expr::{lemma_exprs_view_push, lemma_names_view_push};
use crate::parser::{parse, parse_spec};
use crate::semantics;
use crate::semantics::{Form, Operator, Outcome, Outcomes};
use crate::text::text_eq;
use vstd::prelude::*;

verus! {

/// What a call of the evaluator left behind, as the semantics speaks of it.
pub open spec fn outcome(result: Result<LispExpr, LispError>, env: Env) -> Outcome {
    Outcome {
        result: match result {
            Ok(value) => Ok(value@),
            Err(error) => Err(error@),
        },
        env: env@,
    }
}

/// What the evaluation of several expressions left behind.
pub open spec fn outcomes(result: Result<Vec<LispExpr>, LispError>, env: Env) -> Outcomes {
    Outcomes {
        result: match result {
            Ok(values) => Ok(exprs_view(values@)),
            Err(error) => Err(error@),
        },
        env: env@,
    }
}

/// The value or fault of a result, without a scope chain.
pub open spec fn result_view(result: Result<LispExpr, LispError>) -> Result<
    Expr,
    Fault,
> {
    match result {
        Ok(value) => Ok(value@),
        Err(error) => Err(error@),
    }
}

/// How many lists [`eval_str`] lets an evaluation enter one inside the
/// other. Native recursion carries the evaluator, so the bound keeps it
/// clear of the end of the call stack.
pub const DEFAULT_DEPTH: usize = 1000;

/// What a line of text means in a chain of scopes: it is split into tokens,
/// its first form is parsed, and that form is evaluated. A fault of either
/// of the first two steps leaves the chain as it is.
pub open spec fn run(text: Seq<char>, env: Seq<Scope>, depth: nat) -> Outcome {
    match tokenize_spec(text) {
        Err(fault) => Outcome { result: Err(fault), env },
        Ok(tokens) => match parse_spec(tokens) {
            Err(error) => Outcome { result: Err(Fault::Parse(error)), env },
            Ok(expr) => semantics::eval(expr, env, depth),
        },
    }
}

/// Tokenizes, parses and evaluates one line in `env`, which keeps what the
/// line defines. The evaluation may enter [`DEFAULT_DEPTH`] lists one inside
/// the other.
pub fn eval_str(expr_str: &str, env: &mut Env) -> (res: Result<LispExpr, LispError>)
    ensures
        outcome(res, *final(env)) == run(expr_str@, old(env)@, DEFAULT_DEPTH as nat),
{
    eval_str_within(expr_str, env, DEFAULT_DEPTH)
}

/// Tokenizes, parses and evaluates one line in `env`, entering at most
/// `depth` lists one inside the other.
pub fn eval_str_within(expr_str: &str, env: &mut Env, depth: usize) -> (res: Result<
    LispExpr,
    LispError,
>)
    ensures
        outcome(res, *final(env)) == run(expr_str@, old(env)@, depth as nat),
{
    let tokens = match tokenize(expr_str) {
        Ok(tokens) => tokens,
        Err(error) => {
            return Err(error);
        },
    };
    let lisp_expr = match parse(tokens) {
        Ok(lisp_expr) => lisp_expr,
        Err(error) => {
            return Err(LispError::Parse(error));
        },
    };
    eval_lispexpr(&lisp_expr, env, depth)
}

/// The operator that `symbol` names, if it names one.
pub fn parse_operator(symbol: &str) -> (op: Option<Operator>)
    ensures
        op == semantics::operator_of(symbol@),
{
    if text_eq(symbol, "+") {
        Some(Operator::Add)
    } else if text_eq(symbol, "-") {
        Some(Operator::Sub)
    } else if text_eq(symbol, "*") {
        Some(Operator::Mul)
    } else if text_eq(symbol, "/") {
        Some(Operator::Div)
    } else if text_eq(symbol, "<") {
        Some(Operator::Less)
    } else if text_eq(symbol, ">") {
        Some(Operator::Greater)
    } else if text_eq(symbol, "=") {
        Some(Operator::Equal)
    } else if text_eq(symbol, "!=") {
        Some(Operator::NotEqual)
    } else {
        None
    }
}

/// An arithmetic result that may have left the 64-bit range.
fn integer_or_overflow(checked: Option<i64>) -> (res: Result<LispExpr, LispError>)
    ensures
        match checked {
            Some(n) => res matches Ok(v) && v@ == Expr::Integer(n as int),
            None => res matches Err(e) && e@ == Fault::Overflow,
        },
{
    match checked {
        Some(n) => Ok(LispExpr::Integer(n)),
        None => Err(LispError::Overflow),
    }
}

/// Applies `op` to two integers. Sums, differences, products and quotients
/// that leave the 64-bit range, and division by zero, are faults.
pub fn apply_operator(op: Operator, left: i64, right: i64) -> (res: Result<LispExpr, LispError>)
    ensures
        result_view(res) == semantics::apply(op, left as int, right as int),
{
    match op {
        Operator::Add => {
            let r = integer_or_overflow(left.checked_add(right));
            assert(result_view(r) == semantics::apply(op, left as int, right as int));
            r
        },
        Operator::Sub => {
            let r = integer_or_overflow(left.checked_sub(right));
            assert(result_view(r) == semantics::apply(op, left as int, right as int));
            r
        },
        Operator::Mul => {
            let r = integer_or_overflow(left.checked_mul(right));
            assert(result_view(r) == semantics::apply(op, left as int, right as int));
            r
        },
        Operator::Div => {
            if right == 0 {
                Err(LispError::DivisionByZero)
            } else {
                let r = integer_or_overflow(left.checked_div(right));
                assert(result_view(r) == semantics::apply(op, left as int, right as int));
                r
            }
        },
        Operator::Less => Ok(LispExpr::Bool(left < right)),
        Operator::Greater => Ok(LispExpr::Bool(left > right)),
        Operator::Equal => Ok(LispExpr::Bool(left == right)),
        Operator::NotEqual => Ok(LispExpr::Bool(left != right)),
    }
}

/// `values` without its `Void` members, in the same order.
pub fn drop_void(values: Vec<LispExpr>) -> (kept: Vec<LispExpr>)
    ensures
        exprs_view(kept@) == semantics::non_void(exprs_view(values@)),
{
    let ghost all = values@;
    let mut kept: Vec<LispExpr> = Vec::new();
    proof {
        assert(exprs_view(kept@) =~= Seq::<Expr>::empty());
        assert(exprs_view(all.take(0)) =~= Seq::<Expr>::empty());
    }
    for value in it: values
        invariant
            it.seq() == all,
            exprs_view(kept@) == semantics::non_void(exprs_view(all.take(it.index() as int))),
    {
        proof {
            let seen = it.index() as int;
            assert(all.take(seen + 1).drop_last() =~= all.take(seen));
            assert(exprs_view(all.take(seen + 1)).drop_last() =~= exprs_view(all.take(seen)));
            assert(exprs_view(all.take(seen + 1)).last() == value@);
            lemma_exprs_view_push(kept@, value);
        }
        match value {
            LispExpr::Void => {},
            _ => {
                kept.push(value);
            },
        }
    }
    proof {
        assert(all.take(all.len() as int) =~= all);
    }
    kept
}

/// The number of members of a form after its head.
pub fn operand_count(items: &Vec<LispExpr>) -> (n: usize)
    ensures
        n == semantics::operands(exprs_view(items@)).len(),
{
    if items.len() == 0 {
        0
    } else {
        items.len() - 1
    }
}

/// Resolves `symbol` in `env`; a symbol that no scope binds is a fault.
pub fn eval_symbol(symbol: &str, env: &Env) -> (res: Result<LispExpr, LispError>)
    ensures
        result_view(res) == semantics::eval_symbol(symbol@, env@),
{
    match env.get(symbol) {
        Some(value) => Ok(value),
        None => Err(LispError::UnboundSymbol { name: symbol.to_owned() }),
    }
}

/// Builds the closure that a `lambda` form writes down: `lambda`, a list
/// of parameter symbols, a list of body forms. Nothing is evaluated.
pub fn eval_function_definition(lisp_exprs: &Vec<LispExpr>) -> (res: Result<LispExpr, LispError>)
    ensures
        result_view(res) == semantics::eval_function_definition(exprs_view(lisp_exprs@)),
{
    if lisp_exprs.len() != 3 {
        return Err(
            LispError::Arity {
                form: Form::Lambda,
                expected: 2,
                actual: operand_count(lisp_exprs),
            },
        );
    }
    let params = match &lisp_exprs[1] {
        LispExpr::List(list) => {
            let mut params: Vec<String> = Vec::new();
            let mut i: usize = 0;
            proof {
                assert(names_view(params@) =~= Seq::<Seq<char>>::empty());
                assert(exprs_view(list@).take(0).len() == 0);
            }
            while i < list.len()
                invariant
                    i <= list.len(),
                    lisp_exprs.len() == 3,
                    lisp_exprs@[1] == LispExpr::List(*list),
                    semantics::parameter_names(exprs_view(list@).take(i as int)) == Ok::<
                        Seq<Seq<char>>,
                        Fault,
                    >(names_view(params@)),
                decreases list.len() - i,
            {
                proof {
                    assert(exprs_view(list@).take(i + 1).drop_last() =~= exprs_view(list@).take(
                        i as int,
                    ));
                    assert(exprs_view(list@).take(i + 1).last() == list@[i as int]@);
                }
                match &list[i] {
                    LispExpr::Symbol(s) => {
                        proof {
                            lemma_names_view_push(params@, *s);
                        }
                        params.push(s.clone());
                    },
                    other => {
                        proof {
                            semantics::lemma_parameter_names_fault(exprs_view(list@), i + 1);
                        }
                        return Err(
                            LispError::Type { expected_kind: Kind::Symbol, got: other.kind() },
                        );
                    },
                }
                i += 1;
            }
            proof {
                assert(exprs_view(list@).take(i as int) =~= exprs_view(list@));
            }
            params
        },
        other => {
            return Err(LispError::Type { expected_kind: Kind::List, got: other.kind() });
        },
    };
    match &lisp_exprs[2] {
        LispExpr::List(list) => Ok(LispExpr::Lambda(params, clone_exprs(list))),
        other => Err(LispError::Type { expected_kind: Kind::List, got: other.kind() }),
    }
}

/// Evaluates one expression in `env`, entering at most `depth` lists one
/// inside the other.
pub fn eval_lispexpr(lisp_expr: &LispExpr, env: &mut Env, depth: usize) -> (res: Result<
    LispExpr,
    LispError,
>)
    ensures
        outcome(res, *final(env)) == semantics::eval(lisp_expr@, old(env)@, depth as nat),
    decreases depth, 0nat,
{
    match lisp_expr {
        LispExpr::Void => Ok(LispExpr::Void),
        LispExpr::Lambda(_, _) => Ok(LispExpr::Void),
        LispExpr::Integer(n) => Ok(LispExpr::Integer(*n)),
        LispExpr::Bool(b) => Ok(LispExpr::Bool(*b)),
        LispExpr::Symbol(s) => eval_symbol(s.as_str(), env),
        LispExpr::List(list) => {
            if depth == 0 {
                Err(LispError::DepthExceeded)
            } else {
                eval_list(list, env, depth - 1)
            }
        },
    }
}

/// Evaluates the members of `items` from position `start` on, one after
/// the other, and returns all their values.
pub fn eval_each(items: &Vec<LispExpr>, start: usize, env: &mut Env, depth: usize) -> (res: Result<
    Vec<LispExpr>,
    LispError,
>)
    requires
        start <= items.len(),
    ensures
        outcomes(res, *final(env)) == semantics::eval_each(
            exprs_view(items@).skip(start as int),
            old(env)@,
            depth as nat,
        ),
    decreases depth, 1nat,
{
    let ghost all = exprs_view(items@).skip(start as int);
    let ghost env0 = env@;
    let mut values: Vec<LispExpr> = Vec::new();
    let mut i: usize = start;
    proof {
        assert(exprs_view(values@) =~= Seq::<Expr>::empty());
        assert(all.take(0).len() == 0);
    }
    while i < items.len()
        invariant
            start <= i <= items.len(),
            all == exprs_view(items@).skip(start as int),
            env0 == old(env)@,
            semantics::eval_each(all.take(i - start), env0, depth as nat) == (Outcomes {
                result: Ok(exprs_view(values@)),
                env: env@,
            }),
        decreases items.len() - i,
    {
        proof {
            assert(all.take(i - start + 1).drop_last() =~= all.take(i - start));
            assert(all.take(i - start + 1).last() == items@[i as int]@);
        }
        match eval_lispexpr(&items[i], env, depth) {
            Ok(value) => {
                proof {
                    lemma_exprs_view_push(values@, value);
                }
                values.push(value);
            },
            Err(error) => {
                proof {
                    assert(semantics::eval_each(
                        all.take(i - start + 1),
                        env0,
                        depth as nat,
                    ) == (Outcomes { result: Err(error@), env: env@ }));
                    semantics::lemma_eval_each_fault(all, i - start + 1, env0, depth as nat);
                }
                return Err(error);
            },
        }
        i += 1;
    }
    proof {
        assert(all.take(i - start) =~= all);
    }
    Ok(values)
}

/// Evaluates `items` as a sequence: every member in order, and the values
/// that are not `Void` make up the resulting list.
pub fn eval_sequence(items: &Vec<LispExpr>, env: &mut Env, depth: usize) -> (res: Result<
    LispExpr,
    LispError,
>)
    ensures
        outcome(res, *final(env)) == semantics::eval_sequence(
            exprs_view(items@),
            old(env)@,
            depth as nat,
        ),
    decreases depth, 2nat,
{
    proof {
        assert(exprs_view(items@).skip(0) =~= exprs_view(items@));
    }
    match eval_each(items, 0, env, depth) {
        Ok(values) => Ok(LispExpr::List(drop_void(values))),
        Err(error) => Err(error),
    }
}

/// Evaluates a binary operator form: the operator and its two operands,
/// which are evaluated left to right and must each give an integer.
pub fn eval_binary_operator(lisp_exprs: &Vec<LispExpr>, env: &mut Env, depth: usize) -> (res:
    Result<LispExpr, LispError>)
    ensures
        outcome(res, *final(env)) == semantics::eval_binary_operator(
            exprs_view(lisp_exprs@),
            old(env)@,
            depth as nat,
        ),
    decreases depth, 2nat,
{
    if lisp_exprs.len() != 3 {
        return Err(
            LispError::Arity {
                form: Form::Operator,
                expected: 2,
                actual: operand_count(lisp_exprs),
            },
        );
    }
    let left = match eval_lispexpr(&lisp_exprs[1], env, depth) {
        Err(error) => {
            return Err(error);
        },
        Ok(LispExpr::Integer(n)) => n,
        Ok(other) => {
            return Err(LispError::Type { expected_kind: Kind::Integer, got: other.kind() });
        },
    };
    let right = match eval_lispexpr(&lisp_exprs[2], env, depth) {
        Err(error) => {
            return Err(error);
        },
        Ok(LispExpr::Integer(n)) => n,
        Ok(other) => {
            return Err(LispError::Type { expected_kind: Kind::Integer, got: other.kind() });
        },
    };
    match &lisp_exprs[0] {
        LispExpr::Symbol(operator) => match parse_operator(operator.as_str()) {
            Some(op) => apply_operator(op, left, right),
            None => Err(LispError::InvalidOperator),
        },
        _ => Err(LispError::InvalidOperator),
    }
}

/// Evaluates a `define` form: binds the name to the value of the
/// expression, in the innermost scope of `env`, and gives `Void`.
pub fn eval_define(lisp_exprs: &Vec<LispExpr>, env: &mut Env, depth: usize) -> (res: Result<
    LispExpr,
    LispError,
>)
    ensures
        outcome(res, *final(env)) == semantics::eval_define(
            exprs_view(lisp_exprs@),
            old(env)@,
            depth as nat,
        ),
    decreases depth, 2nat,
{
    if lisp_exprs.len() != 3 {
        return Err(
            LispError::Arity {
                form: Form::Define,
                expected: 2,
                actual: operand_count(lisp_exprs),
            },
        );
    }
    match &lisp_exprs[1] {
        LispExpr::Symbol(name) => {
            match eval_lispexpr(&lisp_exprs[2], env, depth) {
                Err(error) => Err(error),
                Ok(LispExpr::Void) => Err(LispError::InvalidDefine),
                Ok(value) => {
                    env.set(name.as_str(), value);
                    Ok(LispExpr::Void)
                },
            }
        },
        other => Err(LispError::Type { expected_kind: Kind::Symbol, got: other.kind() }),
    }
}

/// Evaluates an `if` form: the condition, then only the branch that it
/// selects.
pub fn eval_if(lisp_exprs: &Vec<LispExpr>, env: &mut Env, depth: usize) -> (res: Result<
    LispExpr,
    LispError,
>)
    ensures
        outcome(res, *final(env)) == semantics::eval_if(
            exprs_view(lisp_exprs@),
            old(env)@,
            depth as nat,
        ),
    decreases depth, 2nat,
{
    if lisp_exprs.len() != 4 {
        return Err(
            LispError::Arity { form: Form::If, expected: 3, actual: operand_count(lisp_exprs) },
        );
    }
    match eval_lispexpr(&lisp_exprs[1], env, depth) {
        Err(error) => Err(error),
        Ok(LispExpr::Bool(condition)) => {
            if condition {
                eval_lispexpr(&lisp_exprs[2], env, depth)
            } else {
                eval_lispexpr(&lisp_exprs[3], env, depth)
            }
        },
        Ok(other) => Err(LispError::Type { expected_kind: Kind::Bool, got: other.kind() }),
    }
}

/// Evaluates a list: an operator form, `define`, `if`, `lambda` or a call
/// where it starts with a symbol, a sequence otherwise.
pub fn eval_list(lisp_exprs: &Vec<LispExpr>, env: &mut Env, depth: usize) -> (res: Result<
    LispExpr,
    LispError,
>)
    ensures
        outcome(res, *final(env)) == semantics::eval_list(
            exprs_view(lisp_exprs@),
            old(env)@,
            depth as nat,
        ),
    decreases depth, 3nat,
{
    if lisp_exprs.len() == 0 {
        return eval_sequence(lisp_exprs, env, depth);
    }
    match &lisp_exprs[0] {
        LispExpr::Symbol(s) => {
            if parse_operator(s.as_str()).is_some() {
                eval_binary_operator(lisp_exprs, env, depth)
            } else if text_eq(s.as_str(), "define") {
                eval_define(lisp_exprs, env, depth)
            } else if text_eq(s.as_str(), "if") {
                eval_if(lisp_exprs, env, depth)
            } else if text_eq(s.as_str(), "lambda") {
                eval_function_definition(lisp_exprs)
            } else {
                eval_function_call(s.as_str(), lisp_exprs, env, depth)
            }
        },
        _ => eval_sequence(lisp_exprs, env, depth),
    }
}

/// Calls the function bound to `symbol`; `lisp_exprs` is the whole form,
/// its head included. The arguments are evaluated in `env`; the body runs in
/// a new scope in front of `env` that is given up when the call returns.
pub fn eval_function_call(
    symbol: &str,
    lisp_exprs: &Vec<LispExpr>,
    env: &mut Env,
    depth: usize,
) -> (res: Result<LispExpr, LispError>)
    ensures
        outcome(res, *final(env)) == semantics::eval_function_call(
            symbol@,
            exprs_view(lisp_exprs@),
            old(env)@,
            depth as nat,
        ),
    decreases depth, 2nat,
{
    let (params, body) = match env.get(symbol) {
        None => {
            return Err(LispError::UnboundSymbol { name: symbol.to_owned() });
        },
        Some(LispExpr::Lambda(params, body)) => (params, body),
        Some(_) => {
            return Err(LispError::NotAFunction { name: symbol.to_owned() });
        },
    };
    let start: usize = if lisp_exprs.len() == 0 {
        0
    } else {
        1
    };
    proof {
        assert(exprs_view(lisp_exprs@).skip(0) =~= exprs_view(lisp_exprs@));
    }
    let values = match eval_each(lisp_exprs, start, env, depth) {
        Err(error) => {
            return Err(error);
        },
        Ok(values) => values,
    };
    if values.len() != params.len() {
        return Err(
            LispError::Arity { form: Form::Call, expected: params.len(), actual: values.len() },
        );
    }
    if depth == 0 {
        return Err(LispError::DepthExceeded);
    }
    let ghost caller = env@;
    proof {
        env.lemma_nonempty();
    }
    let mut parent = Env::new();
    std::mem::swap(env, &mut parent);
    let mut scope = Env::extend(parent);
    let ghost fresh = scope@;
    let ghost arguments = values@;
    let mut i: usize = 0;
    for value in it: values
        invariant
            it.seq() == arguments,
            i == it.index(),
            arguments.len() == params.len(),
            scope@ == semantics::bind_all(
                fresh,
                names_view(params@).take(i as int),
                exprs_view(arguments).take(i as int),
            ),
    {
        proof {
            assert(names_view(params@).take(i + 1).drop_last() =~= names_view(params@).take(
                i as int,
            ));
            assert(exprs_view(arguments).take(i + 1).drop_last() =~= exprs_view(arguments).take(
                i as int,
            ));
            assert(exprs_view(arguments).take(i + 1).last() == value@);
        }
        scope.set(params[i].as_str(), value);
        i += 1;
    }
    proof {
        assert(names_view(params@).take(i as int) =~= names_view(params@));
        assert(exprs_view(arguments).take(i as int) =~= exprs_view(arguments));
        semantics::lemma_bind_all_same_outer(fresh, names_view(params@), exprs_view(arguments));
        semantics::lemma_eval_list_same_outer(exprs_view(body@), scope@, (depth - 1) as nat);
    }
    let res = eval_sequence(&body, &mut scope, depth - 1);
    match scope.into_parent() {
        Some(parent) => {
            proof {
                assert(parent@ =~= caller);
            }
            *env = parent;
        },
        None => {
            // A scope that was made by `extend` has a parent.
            assert(false);
        },
    }
    res
}

} // verus!
