//! What evaluation means, as mathematical functions on values and scope
//! chains. The executable evaluator is proved to compute exactly these.

use crate::env::{bind, lookup, Scope};
use crate::error::Fault;
use crate::lisp_expr::{Expr, Kind};
use vstd::prelude::*;

verus! {

/// The eight binary operators.
#[derive(Debug, PartialEq, Eq, Structural, Clone, Copy)]
pub enum Operator {
    Add,
    Sub,
    Mul,
    Div,
    Less,
    Greater,
    Equal,
    NotEqual,
}

/// The forms that demand a fixed number of operands.
#[derive(Debug, PartialEq, Eq, Structural, Clone, Copy)]
pub enum Form {
    Operator,
    If,
    Define,
    Lambda,
    Call,
}

/// What an evaluation leaves behind: its value or fault, and the scope
/// chain as it stands afterwards. A fault keeps the bindings made before it.
pub struct Outcome {
    pub result: Result<Expr, Fault>,
    pub env: Seq<Scope>,
}

/// What the evaluation of several expressions in a row leaves behind: all
/// their values in order, or the first fault.
pub struct Outcomes {
    pub result: Result<Seq<Expr>, Fault>,
    pub env: Seq<Scope>,
}

/// The operator that a symbol names, if it names one.
pub open spec fn operator_of(symbol: Seq<char>) -> Option<Operator> {
    if symbol == "+"@ {
        Some(Operator::Add)
    } else if symbol == "-"@ {
        Some(Operator::Sub)
    } else if symbol == "*"@ {
        Some(Operator::Mul)
    } else if symbol == "/"@ {
        Some(Operator::Div)
    } else if symbol == "<"@ {
        Some(Operator::Less)
    } else if symbol == ">"@ {
        Some(Operator::Greater)
    } else if symbol == "="@ {
        Some(Operator::Equal)
    } else if symbol == "!="@ {
        Some(Operator::NotEqual)
    } else {
        None
    }
}

/// Whether `n` is a 64-bit signed integer.
pub open spec fn in_range(n: int) -> bool {
    i64::MIN <= n <= i64::MAX
}

/// The quotient of `a` by a nonzero `b`, rounded toward zero.
pub open spec fn quotient(a: int, b: int) -> int {
    if (a >= 0) == (b > 0) {
        abs(a) / abs(b)
    } else {
        -(abs(a) / abs(b))
    }
}

/// The absolute value.
pub open spec fn abs(n: int) -> int {
    if n < 0 {
        -n
    } else {
        n
    }
}

/// An arithmetic result as a value, or the overflow fault where it does not
/// fit 64 bits.
pub open spec fn integer_or_overflow(n: int) -> Result<Expr, Fault> {
    if in_range(n) {
        Ok(Expr::Integer(n))
    } else {
        Err(Fault::Overflow)
    }
}

/// `op` applied to two integers.
pub open spec fn apply(op: Operator, left: int, right: int) -> Result<Expr, Fault> {
    match op {
        Operator::Add => integer_or_overflow(left + right),
        Operator::Sub => integer_or_overflow(left - right),
        Operator::Mul => integer_or_overflow(left * right),
        Operator::Div => if right == 0 {
            Err(Fault::DivisionByZero)
        } else {
            integer_or_overflow(quotient(left, right))
        },
        Operator::Less => Ok(Expr::Bool(left < right)),
        Operator::Greater => Ok(Expr::Bool(left > right)),
        Operator::Equal => Ok(Expr::Bool(left == right)),
        Operator::NotEqual => Ok(Expr::Bool(left != right)),
    }
}

/// The members of a form after its head.
pub open spec fn operands(items: Seq<Expr>) -> Seq<Expr> {
    if items.len() == 0 {
        items
    } else {
        items.skip(1)
    }
}

/// `values` without its `Void` members, in the same order.
pub open spec fn non_void(values: Seq<Expr>) -> Seq<Expr>
    decreases values.len(),
{
    if values.len() == 0 {
        values
    } else if values.last() is Void {
        non_void(values.drop_last())
    } else {
        non_void(values.drop_last()).push(values.last())
    }
}

/// The chain with each of `names` bound in turn, in its innermost scope, to
/// the value at the same position; a name that occurs twice keeps the later
/// value.
pub open spec fn bind_all(scopes: Seq<Scope>, names: Seq<Seq<char>>, values: Seq<Expr>) -> Seq<
    Scope,
>
    decreases names.len(),
{
    if names.len() == 0 || values.len() == 0 {
        scopes
    } else {
        bind(
            bind_all(scopes, names.drop_last(), values.drop_last()),
            names.last(),
            values.last(),
        )
    }
}

/// The parameter names of a lambda form's parameter list, or the fault for
/// its first member that is no symbol.
pub open spec fn parameter_names(params: Seq<Expr>) -> Result<Seq<Seq<char>>, Fault>
    decreases params.len(),
{
    if params.len() == 0 {
        Ok(Seq::empty())
    } else {
        match parameter_names(params.drop_last()) {
            Err(fault) => Err(fault),
            Ok(names) => match params.last() {
                Expr::Symbol(name) => Ok(names.push(name)),
                other => Err(Fault::Type { expected_kind: Kind::Symbol, got: other.kind() }),
            },
        }
    }
}

/// The value of a `lambda` form: the closure it writes down. Nothing is
/// evaluated.
pub open spec fn eval_function_definition(items: Seq<Expr>) -> Result<Expr, Fault> {
    if items.len() != 3 {
        Err(Fault::Arity { form: Form::Lambda, expected: 2, actual: operands(items).len() as int })
    } else {
        match items[1] {
            Expr::List(params) => match parameter_names(params) {
                Err(fault) => Err(fault),
                Ok(names) => match items[2] {
                    Expr::List(body) => Ok(Expr::Lambda(names, body)),
                    other => Err(Fault::Type { expected_kind: Kind::List, got: other.kind() }),
                },
            },
            other => Err(Fault::Type { expected_kind: Kind::List, got: other.kind() }),
        }
    }
}

/// The value of a symbol: what the nearest scope binds it to.
pub open spec fn eval_symbol(symbol: Seq<char>, env: Seq<Scope>) -> Result<Expr, Fault> {
    match lookup(env, symbol) {
        Some(value) => Ok(value),
        None => Err(Fault::UnboundSymbol { name: symbol }),
    }
}

/// The evaluation of one expression. `depth` is how many lists may be
/// entered one inside the other, bodies of called lambdas included.
pub open spec fn eval(expr: Expr, env: Seq<Scope>, depth: nat) -> Outcome
    decreases depth, 0nat, 0nat,
{
    match expr {
        Expr::Void => Outcome { result: Ok(Expr::Void), env },
        Expr::Lambda(_, _) => Outcome { result: Ok(Expr::Void), env },
        Expr::Integer(n) => Outcome { result: Ok(Expr::Integer(n)), env },
        Expr::Bool(b) => Outcome { result: Ok(Expr::Bool(b)), env },
        Expr::Symbol(symbol) => Outcome { result: eval_symbol(symbol, env), env },
        Expr::List(items) => if depth == 0 {
            Outcome { result: Err(Fault::DepthExceeded), env }
        } else {
            eval_list(items, env, (depth - 1) as nat)
        },
    }
}

/// The evaluation of `items` one after the other, each in the chain that the
/// one before it left. It stops at the first fault.
pub open spec fn eval_each(items: Seq<Expr>, env: Seq<Scope>, depth: nat) -> Outcomes
    decreases depth, 1nat, items.len(),
{
    if items.len() == 0 {
        Outcomes { result: Ok(Seq::empty()), env }
    } else {
        let before = eval_each(items.drop_last(), env, depth);
        match before.result {
            Err(_) => before,
            Ok(values) => {
                let last = eval(items.last(), before.env, depth);
                match last.result {
                    Err(fault) => Outcomes { result: Err(fault), env: last.env },
                    Ok(value) => Outcomes { result: Ok(values.push(value)), env: last.env },
                }
            },
        }
    }
}

/// The evaluation of `items` as a sequence: every member is evaluated in
/// order and the values that are not `Void` make up the resulting list.
pub open spec fn eval_sequence(items: Seq<Expr>, env: Seq<Scope>, depth: nat) -> Outcome
    decreases depth, 2nat, 0nat,
{
    let each = eval_each(items, env, depth);
    match each.result {
        Err(fault) => Outcome { result: Err(fault), env: each.env },
        Ok(values) => Outcome { result: Ok(Expr::List(non_void(values))), env: each.env },
    }
}

/// The evaluation of a binary operator form: operator, left operand, right
/// operand. The operands are evaluated left to right and each must give an
/// integer.
pub open spec fn eval_binary_operator(items: Seq<Expr>, env: Seq<Scope>, depth: nat) -> Outcome
    decreases depth, 2nat, 0nat,
{
    if items.len() != 3 {
        Outcome {
            result: Err(
                Fault::Arity {
                    form: Form::Operator,
                    expected: 2,
                    actual: operands(items).len() as int,
                },
            ),
            env,
        }
    } else {
        let left = eval(items[1], env, depth);
        match left.result {
            Err(_) => left,
            Ok(Expr::Integer(a)) => {
                let right = eval(items[2], left.env, depth);
                match right.result {
                    Err(_) => right,
                    Ok(Expr::Integer(b)) => Outcome {
                        result: match items[0] {
                            Expr::Symbol(symbol) => match operator_of(symbol) {
                                Some(op) => apply(op, a, b),
                                None => Err(Fault::InvalidOperator),
                            },
                            _ => Err(Fault::InvalidOperator),
                        },
                        env: right.env,
                    },
                    Ok(other) => Outcome {
                        result: Err(Fault::Type { expected_kind: Kind::Integer, got: other.kind() }),
                        env: right.env,
                    },
                }
            },
            Ok(other) => Outcome {
                result: Err(Fault::Type { expected_kind: Kind::Integer, got: other.kind() }),
                env: left.env,
            },
        }
    }
}

/// The evaluation of an `if` form: `if`, condition, then-branch,
/// else-branch. Only the branch that the condition selects is evaluated.
pub open spec fn eval_if(items: Seq<Expr>, env: Seq<Scope>, depth: nat) -> Outcome
    decreases depth, 2nat, 0nat,
{
    if items.len() != 4 {
        Outcome {
            result: Err(
                Fault::Arity { form: Form::If, expected: 3, actual: operands(items).len() as int },
            ),
            env,
        }
    } else {
        let condition = eval(items[1], env, depth);
        match condition.result {
            Err(_) => condition,
            Ok(Expr::Bool(b)) => if b {
                eval(items[2], condition.env, depth)
            } else {
                eval(items[3], condition.env, depth)
            },
            Ok(other) => Outcome {
                result: Err(Fault::Type { expected_kind: Kind::Bool, got: other.kind() }),
                env: condition.env,
            },
        }
    }
}

/// The evaluation of a `define` form: `define`, name, value expression. The
/// name is bound in the innermost scope of the current chain and the form
/// itself gives `Void`.
pub open spec fn eval_define(items: Seq<Expr>, env: Seq<Scope>, depth: nat) -> Outcome
    decreases depth, 2nat, 0nat,
{
    if items.len() != 3 {
        Outcome {
            result: Err(
                Fault::Arity {
                    form: Form::Define,
                    expected: 2,
                    actual: operands(items).len() as int,
                },
            ),
            env,
        }
    } else {
        match items[1] {
            Expr::Symbol(name) => {
                let value = eval(items[2], env, depth);
                match value.result {
                    Err(_) => value,
                    Ok(Expr::Void) => Outcome { result: Err(Fault::InvalidDefine), env: value.env },
                    Ok(v) => Outcome { result: Ok(Expr::Void), env: bind(value.env, name, v) },
                }
            },
            other => Outcome {
                result: Err(Fault::Type { expected_kind: Kind::Symbol, got: other.kind() }),
                env,
            },
        }
    }
}

/// The evaluation of a call of the function bound to `symbol`; `items` is
/// the whole form, its head included.
///
/// The arguments are evaluated in the caller's chain. The body runs as a
/// sequence in a new scope in front of that chain, with the parameters bound
/// to the arguments; that scope is gone when the call returns, so the chain
/// is left as the arguments left it.
pub open spec fn eval_function_call(
    symbol: Seq<char>,
    items: Seq<Expr>,
    env: Seq<Scope>,
    depth: nat,
) -> Outcome
    decreases depth, 2nat, 0nat,
{
    match lookup(env, symbol) {
        None => Outcome { result: Err(Fault::UnboundSymbol { name: symbol }), env },
        Some(Expr::Lambda(params, body)) => {
            let args = eval_each(operands(items), env, depth);
            match args.result {
                Err(fault) => Outcome { result: Err(fault), env: args.env },
                Ok(values) => if values.len() != params.len() {
                    Outcome {
                        result: Err(
                            Fault::Arity {
                                form: Form::Call,
                                expected: params.len() as int,
                                actual: values.len() as int,
                            },
                        ),
                        env: args.env,
                    }
                } else if depth == 0 {
                    Outcome { result: Err(Fault::DepthExceeded), env: args.env }
                } else {
                    let scope = bind_all(seq![Map::empty()] + args.env, params, values);
                    Outcome {
                        result: eval_sequence(body, scope, (depth - 1) as nat).result,
                        env: args.env,
                    }
                },
            }
        },
        Some(_) => Outcome { result: Err(Fault::NotAFunction { name: symbol }), env },
    }
}

/// The evaluation of a list. One that starts with a symbol is an operator
/// form, `define`, `if`, `lambda` or a call; any other list is a sequence.
pub open spec fn eval_list(items: Seq<Expr>, env: Seq<Scope>, depth: nat) -> Outcome
    decreases depth, 3nat, 0nat,
{
    if items.len() > 0 && items[0] is Symbol {
        let symbol = items[0]->Symbol_0;
        if operator_of(symbol) is Some {
            eval_binary_operator(items, env, depth)
        } else if symbol == "define"@ {
            eval_define(items, env, depth)
        } else if symbol == "if"@ {
            eval_if(items, env, depth)
        } else if symbol == "lambda"@ {
            Outcome { result: eval_function_definition(items), env }
        } else {
            eval_function_call(symbol, items, env, depth)
        }
    } else {
        eval_sequence(items, env, depth)
    }
}

/// Once a prefix of `items` has met a fault, that is the fault of the whole.
pub proof fn lemma_eval_each_fault(items: Seq<Expr>, k: int, env: Seq<Scope>, depth: nat)
    requires
        0 <= k <= items.len(),
        eval_each(items.take(k), env, depth).result is Err,
    ensures
        eval_each(items, env, depth) == eval_each(items.take(k), env, depth),
    decreases items.len() - k,
{
    if k < items.len() {
        assert(items.take(k + 1).drop_last() =~= items.take(k));
        lemma_eval_each_fault(items, k + 1, env, depth);
    } else {
        assert(items.take(k) =~= items);
    }
}

/// Once a prefix of a parameter list holds something that is no symbol,
/// that is the fault of the whole list.
pub proof fn lemma_parameter_names_fault(params: Seq<Expr>, k: int)
    requires
        0 <= k <= params.len(),
        parameter_names(params.take(k)) is Err,
    ensures
        parameter_names(params) == parameter_names(params.take(k)),
    decreases params.len() - k,
{
    if k < params.len() {
        assert(params.take(k + 1).drop_last() =~= params.take(k));
        lemma_parameter_names_fault(params, k + 1);
    } else {
        assert(params.take(k) =~= params);
    }
}

/// `after` differs from `before` in its innermost scope at most.
pub open spec fn same_outer(before: Seq<Scope>, after: Seq<Scope>) -> bool {
    &&& after.len() == before.len()
    &&& forall|i: int| 1 <= i < before.len() ==> after[i] == before[i]
}

/// Binding a name touches the innermost scope only.
pub proof fn lemma_bind_same_outer(scopes: Seq<Scope>, name: Seq<char>, value: Expr)
    ensures
        same_outer(scopes, bind(scopes, name, value)),
{
}

/// Binding several names touches the innermost scope only.
pub proof fn lemma_bind_all_same_outer(
    scopes: Seq<Scope>,
    names: Seq<Seq<char>>,
    values: Seq<Expr>,
)
    ensures
        same_outer(scopes, bind_all(scopes, names, values)),
    decreases names.len(),
{
    if names.len() != 0 && values.len() != 0 {
        lemma_bind_all_same_outer(scopes, names.drop_last(), values.drop_last());
    }
}

/// Evaluation never writes to an enclosing scope: whatever an expression
/// defines, it defines in the innermost scope of the chain it is evaluated
/// in, and the chain keeps its length.
pub proof fn lemma_eval_same_outer(expr: Expr, env: Seq<Scope>, depth: nat)
    ensures
        same_outer(env, eval(expr, env, depth).env),
    decreases depth, 0nat, 0nat,
{
    match expr {
        Expr::List(items) => {
            if depth > 0 {
                lemma_eval_list_same_outer(items, env, (depth - 1) as nat);
            }
        },
        _ => {},
    }
}

/// Evaluating expressions in a row never writes to an enclosing scope.
pub proof fn lemma_eval_each_same_outer(items: Seq<Expr>, env: Seq<Scope>, depth: nat)
    ensures
        same_outer(env, eval_each(items, env, depth).env),
    decreases depth, 1nat, items.len(),
{
    if items.len() > 0 {
        lemma_eval_each_same_outer(items.drop_last(), env, depth);
        let before = eval_each(items.drop_last(), env, depth);
        if before.result is Ok {
            lemma_eval_same_outer(items.last(), before.env, depth);
        }
    }
}

/// Evaluating a list never writes to an enclosing scope.
pub proof fn lemma_eval_list_same_outer(items: Seq<Expr>, env: Seq<Scope>, depth: nat)
    ensures
        same_outer(env, eval_list(items, env, depth).env),
        same_outer(env, eval_binary_operator(items, env, depth).env),
        same_outer(env, eval_if(items, env, depth).env),
        same_outer(env, eval_define(items, env, depth).env),
        same_outer(env, eval_sequence(items, env, depth).env),
        forall|symbol: Seq<char>|
            same_outer(env, #[trigger] eval_function_call(symbol, items, env, depth).env),
    decreases depth, 2nat, 0nat,
{
    lemma_eval_each_same_outer(items, env, depth);
    lemma_eval_each_same_outer(operands(items), env, depth);
    if items.len() >= 3 {
        lemma_eval_same_outer(items[2], env, depth);
    }
    if items.len() >= 2 {
        lemma_eval_same_outer(items[1], env, depth);
        let first = eval(items[1], env, depth);
        if items.len() >= 3 {
            lemma_eval_same_outer(items[2], first.env, depth);
            lemma_bind_same_outer(
                eval(items[2], env, depth).env,
                items[1]->Symbol_0,
                eval(items[2], env, depth).result->Ok_0,
            );
        }
        if items.len() >= 4 {
            lemma_eval_same_outer(items[3], first.env, depth);
        }
    }
}

} // verus!
