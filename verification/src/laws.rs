//! Laws of evaluation, proved from its definition.

use crate::env::{lookup, Scope};
use crate::error::Fault;
use crate::lisp_expr::Expr;
use crate::semantics::{
    bind_all, eval, eval_define, eval_each, eval_if, eval_list, lemma_eval_same_outer, operands,
    operator_of,
};
use vstd::prelude::*;

verus! {

/// Whether `items` is a `define` form: a list that starts with that symbol.
pub open spec fn is_define_form(items: Seq<Expr>) -> bool {
    items.len() > 0 && items[0] == Expr::Symbol("define"@)
}

/// Whether `expr` holds no `define` form, however deep.
pub open spec fn define_free(expr: Expr) -> bool
    decreases expr,
{
    match expr {
        Expr::List(items) => !is_define_form(items) && forall|i: int|
            0 <= i < items.len() ==> define_free(#[trigger] items[i]),
        _ => true,
    }
}

/// Whether none of `items` holds a `define` form.
pub open spec fn all_define_free(items: Seq<Expr>) -> bool {
    forall|i: int| 0 <= i < items.len() ==> define_free(#[trigger] items[i])
}

/// The names of the operators and of the other special forms are eleven
/// different texts.
pub proof fn lemma_special_names()
    ensures
        operator_of("define"@) is None,
        operator_of("if"@) is None,
        operator_of("lambda"@) is None,
        "define"@ != "if"@,
        "define"@ != "lambda"@,
        "if"@ != "lambda"@,
{
    reveal_strlit("+");
    reveal_strlit("-");
    reveal_strlit("*");
    reveal_strlit("/");
    reveal_strlit("<");
    reveal_strlit(">");
    reveal_strlit("=");
    reveal_strlit("!=");
    reveal_strlit("define");
    reveal_strlit("if");
    reveal_strlit("lambda");
    assert("define"@.len() == 6 && "lambda"@.len() == 6 && "if"@.len() == 2);
    assert("define"@[0] == 'd' && "lambda"@[0] == 'l' && "if"@[0] == 'i');
    assert("+"@.len() == 1 && "-"@.len() == 1 && "*"@.len() == 1 && "/"@.len() == 1);
    assert("<"@.len() == 1 && ">"@.len() == 1 && "="@.len() == 1);
    assert("!="@.len() == 2 && "!="@[0] == '!');
}

/// An expression without a `define` form leaves the scope chain as it was,
/// whatever it evaluates to and whatever the functions it calls define for
/// themselves.
pub proof fn lemma_define_free_keeps_env(expr: Expr, env: Seq<Scope>, depth: nat)
    requires
        define_free(expr),
    ensures
        eval(expr, env, depth).env == env,
    decreases depth, 0nat, 0nat,
{
    match expr {
        Expr::List(items) => {
            if depth > 0 {
                lemma_define_free_list_keeps_env(items, env, (depth - 1) as nat);
            }
        },
        _ => {},
    }
}

/// Expressions without a `define` form, evaluated in a row, leave the scope
/// chain as it was.
pub proof fn lemma_define_free_each_keeps_env(items: Seq<Expr>, env: Seq<Scope>, depth: nat)
    requires
        all_define_free(items),
    ensures
        eval_each(items, env, depth).env == env,
    decreases depth, 1nat, items.len(),
{
    if items.len() > 0 {
        let init = items.drop_last();
        assert forall|i: int| 0 <= i < init.len() implies define_free(#[trigger] init[i]) by {
            assert(define_free(items[i]));
        }
        lemma_define_free_each_keeps_env(init, env, depth);
        assert(define_free(items[items.len() - 1]));
        lemma_define_free_keeps_env(items.last(), env, depth);
    }
}

/// A list without a `define` form leaves the scope chain as it was.
pub proof fn lemma_define_free_list_keeps_env(items: Seq<Expr>, env: Seq<Scope>, depth: nat)
    requires
        !is_define_form(items),
        all_define_free(items),
    ensures
        eval_list(items, env, depth).env == env,
    decreases depth, 2nat, 0nat,
{
    lemma_special_names();
    lemma_define_free_each_keeps_env(items, env, depth);
    if items.len() > 0 {
        let args = operands(items);
        assert forall|i: int| 0 <= i < args.len() implies define_free(#[trigger] args[i]) by {
            assert(define_free(items[i + 1]));
        }
        lemma_define_free_each_keeps_env(args, env, depth);
    }
    if items.len() >= 2 {
        assert(define_free(items[1]));
        lemma_define_free_keeps_env(items[1], env, depth);
    }
    if items.len() >= 3 {
        assert(define_free(items[2]));
        lemma_define_free_keeps_env(items[2], env, depth);
    }
    if items.len() >= 4 {
        assert(define_free(items[3]));
        lemma_define_free_keeps_env(items[3], env, depth);
    }
}

/// Evaluating an expression without a `define` form a second time, in the
/// chain that the first evaluation left, gives the same value or fault
/// again: such an expression can be evaluated any number of times.
pub proof fn lemma_evaluating_again_gives_the_same(expr: Expr, env: Seq<Scope>, depth: nat)
    requires
        define_free(expr),
    ensures
        eval(expr, eval(expr, env, depth).env, depth) == eval(expr, env, depth),
{
    lemma_define_free_keeps_env(expr, env, depth);
}

/// An `if` form never evaluates the branch that its condition does not
/// select: put anything in that branch's place and the outcome is the same.
pub proof fn lemma_if_skips_the_other_branch(
    items: Seq<Expr>,
    other: Expr,
    env: Seq<Scope>,
    depth: nat,
)
    requires
        items.len() == 4,
    ensures
        eval(items[1], env, depth).result == Ok::<Expr, Fault>(Expr::Bool(true)) ==> eval_if(
            items.update(3, other),
            env,
            depth,
        ) == eval_if(items, env, depth),
        eval(items[1], env, depth).result == Ok::<Expr, Fault>(Expr::Bool(false)) ==> eval_if(
            items.update(2, other),
            env,
            depth,
        ) == eval_if(items, env, depth),
{
}

/// After a `define` form has succeeded, its name resolves to the value of
/// its expression: in the chain that the form left, the symbol evaluates to
/// that value, at any depth.
pub proof fn lemma_define_then_lookup(items: Seq<Expr>, env: Seq<Scope>, depth: nat, later: nat)
    requires
        env.len() > 0,
        eval_define(items, env, depth).result is Ok,
    ensures
        items.len() == 3,
        items[1] is Symbol,
        eval(items[2], env, depth).result is Ok,
        eval_define(items, env, depth).result == Ok::<Expr, Fault>(Expr::Void),
        eval(items[1], eval_define(items, env, depth).env, later).result == eval(
            items[2],
            env,
            depth,
        ).result,
{
    lemma_eval_same_outer(items[2], env, depth);
}

/// More depth changes nothing: an evaluation that does not run out of
/// depth has the same outcome at every greater depth.
pub proof fn lemma_depth_is_only_a_bound(expr: Expr, env: Seq<Scope>, depth: nat, more: nat)
    requires
        depth <= more,
        eval(expr, env, depth).result != Err::<Expr, Fault>(Fault::DepthExceeded),
    ensures
        eval(expr, env, more) == eval(expr, env, depth),
    decreases depth, 0nat, 0nat,
{
    match expr {
        Expr::List(items) => {
            lemma_depth_is_only_a_bound_list(items, env, (depth - 1) as nat, (more - 1) as nat);
        },
        _ => {},
    }
}

/// More depth changes nothing for expressions evaluated in a row.
pub proof fn lemma_depth_is_only_a_bound_each(
    items: Seq<Expr>,
    env: Seq<Scope>,
    depth: nat,
    more: nat,
)
    requires
        depth <= more,
        eval_each(items, env, depth).result != Err::<Seq<Expr>, Fault>(Fault::DepthExceeded),
    ensures
        eval_each(items, env, more) == eval_each(items, env, depth),
    decreases depth, 1nat, items.len(),
{
    if items.len() > 0 {
        lemma_depth_is_only_a_bound_each(items.drop_last(), env, depth, more);
        let before = eval_each(items.drop_last(), env, depth);
        if before.result is Ok {
            lemma_depth_is_only_a_bound(items.last(), before.env, depth, more);
        }
    }
}

/// More depth changes nothing for the evaluation of a list, whichever form
/// it is.
pub proof fn lemma_depth_is_only_a_bound_list(
    items: Seq<Expr>,
    env: Seq<Scope>,
    depth: nat,
    more: nat,
)
    requires
        depth <= more,
        eval_list(items, env, depth).result != Err::<Expr, Fault>(Fault::DepthExceeded),
    ensures
        eval_list(items, env, more) == eval_list(items, env, depth),
    decreases depth, 2nat, 0nat,
{
    if items.len() > 0 && items[0] is Symbol {
        let symbol = items[0]->Symbol_0;
        if operator_of(symbol) is Some {
            if items.len() == 3 {
                lemma_depth_is_only_a_bound(items[1], env, depth, more);
                let left = eval(items[1], env, depth);
                if left.result matches Ok(Expr::Integer(_)) {
                    lemma_depth_is_only_a_bound(items[2], left.env, depth, more);
                }
            }
        } else if symbol == "define"@ {
            if items.len() == 3 && items[1] is Symbol {
                lemma_depth_is_only_a_bound(items[2], env, depth, more);
            }
        } else if symbol == "if"@ {
            if items.len() == 4 {
                lemma_depth_is_only_a_bound(items[1], env, depth, more);
                let condition = eval(items[1], env, depth);
                if condition.result == Ok::<Expr, Fault>(Expr::Bool(true)) {
                    lemma_depth_is_only_a_bound(items[2], condition.env, depth, more);
                } else if condition.result == Ok::<Expr, Fault>(Expr::Bool(false)) {
                    lemma_depth_is_only_a_bound(items[3], condition.env, depth, more);
                }
            }
        } else if symbol == "lambda"@ {
        } else {
            match lookup(env, symbol) {
                Some(Expr::Lambda(params, body)) => {
                    lemma_depth_is_only_a_bound_each(operands(items), env, depth, more);
                    let args = eval_each(operands(items), env, depth);
                    match args.result {
                        Ok(values) => {
                            if values.len() == params.len() {
                                let scope = bind_all(
                                    seq![Map::empty()] + args.env,
                                    params,
                                    values,
                                );
                                lemma_depth_is_only_a_bound_each(
                                    body,
                                    scope,
                                    (depth - 1) as nat,
                                    (more - 1) as nat,
                                );
                            }
                        },
                        Err(_) => {},
                    }
                },
                _ => {},
            }
        }
    } else {
        lemma_depth_is_only_a_bound_each(items, env, depth, more);
    }
}

} // verus!
