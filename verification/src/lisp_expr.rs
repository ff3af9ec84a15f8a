//! Expressions: the nodes of the syntax tree, which are the runtime values too.

use crate::text::{decimal_text, push_decimal};
use vstd::prelude::*;

verus! {

/// A node of the syntax tree, which is also the shape of every runtime value.
///
/// A `Lambda` holds parameter names and body forms only; it carries no
/// environment of its own.
#[derive(Debug, PartialEq)]
pub enum LispExpr {
    Void,
    Integer(i64),
    Bool(bool),
    Symbol(String),
    Lambda(Vec<String>, Vec<LispExpr>),
    List(Vec<LispExpr>),
}

/// The mathematical value of a [`LispExpr`]: text is a sequence of
/// characters and a list is a sequence of values.
pub enum Expr {
    Void,
    Integer(int),
    Bool(bool),
    Symbol(Seq<char>),
    Lambda(Seq<Seq<char>>, Seq<Expr>),
    List(Seq<Expr>),
}

/// The six shapes a value can have, without its contents.
#[derive(Debug, PartialEq, Eq, Structural, Clone, Copy)]
pub enum Kind {
    Void,
    Integer,
    Bool,
    Symbol,
    Lambda,
    List,
}

/// The values of a sequence of expressions, element by element.
pub open spec fn exprs_view(items: Seq<LispExpr>) -> Seq<Expr>
    decreases items,
{
    Seq::new(
        items.len(),
        |i: int|
            if 0 <= i < items.len() {
                items[i]@
            } else {
                Expr::Void
            },
    )
}

/// The texts of a sequence of strings, element by element.
pub open spec fn names_view(names: Seq<String>) -> Seq<Seq<char>> {
    Seq::new(names.len(), |i: int| names[i]@)
}

impl View for LispExpr {
    type V = Expr;

    open spec fn view(&self) -> Expr
        decreases self,
    {
        match self {
            LispExpr::Void => Expr::Void,
            LispExpr::Integer(n) => Expr::Integer(*n as int),
            LispExpr::Bool(b) => Expr::Bool(*b),
            LispExpr::Symbol(s) => Expr::Symbol(s@),
            LispExpr::Lambda(params, body) => Expr::Lambda(names_view(params@), exprs_view(body@)),
            LispExpr::List(items) => Expr::List(exprs_view(items@)),
        }
    }
}

impl Expr {
    /// The shape of this value.
    pub open spec fn kind(self) -> Kind {
        match self {
            Expr::Void => Kind::Void,
            Expr::Integer(_) => Kind::Integer,
            Expr::Bool(_) => Kind::Bool,
            Expr::Symbol(_) => Kind::Symbol,
            Expr::Lambda(_, _) => Kind::Lambda,
            Expr::List(_) => Kind::List,
        }
    }
}

/// Pushing one more expression pushes its value onto the values.
pub proof fn lemma_exprs_view_push(items: Seq<LispExpr>, last: LispExpr)
    ensures
        exprs_view(items.push(last)) == exprs_view(items).push(last@),
{
    assert(exprs_view(items.push(last)) =~= exprs_view(items).push(last@));
}

/// Pushing one more string pushes its text onto the texts.
pub proof fn lemma_names_view_push(names: Seq<String>, last: String)
    ensures
        names_view(names.push(last)) == names_view(names).push(last@),
{
    assert(names_view(names.push(last)) =~= names_view(names).push(last@));
}

/// A copy of `names` with the same texts.
pub fn clone_names(names: &Vec<String>) -> (res: Vec<String>)
    ensures
        names_view(res@) == names_view(names@),
{
    let mut res: Vec<String> = Vec::new();
    let mut i: usize = 0;
    while i < names.len()
        invariant
            i <= names.len(),
            res.len() == i,
            forall|j: int| 0 <= j < i ==> res@[j]@ == names@[j]@,
        decreases names.len() - i,
    {
        res.push(names[i].clone());
        i += 1;
    }
    assert(names_view(res@) =~= names_view(names@));
    res
}

/// A deep copy of `items` with the same values.
pub fn clone_exprs(items: &Vec<LispExpr>) -> (res: Vec<LispExpr>)
    ensures
        exprs_view(res@) == exprs_view(items@),
    decreases items,
{
    let mut res: Vec<LispExpr> = Vec::new();
    let mut i: usize = 0;
    while i < items.len()
        invariant
            i <= items.len(),
            res.len() == i,
            forall|j: int| 0 <= j < i ==> res@[j]@ == items@[j]@,
        decreases items.len() - i,
    {
        res.push(items[i].clone());
        i += 1;
    }
    assert(exprs_view(res@) =~= exprs_view(items@));
    res
}

impl Clone for LispExpr {
    /// A deep copy with the same value.
    fn clone(&self) -> (res: Self)
        ensures
            res@ == self@,
        decreases self,
    {
        match self {
            LispExpr::Void => LispExpr::Void,
            LispExpr::Integer(n) => LispExpr::Integer(*n),
            LispExpr::Bool(b) => LispExpr::Bool(*b),
            LispExpr::Symbol(s) => LispExpr::Symbol(s.clone()),
            LispExpr::Lambda(params, body) => LispExpr::Lambda(
                clone_names(params),
                clone_exprs(body),
            ),
            LispExpr::List(items) => LispExpr::List(clone_exprs(items)),
        }
    }
}

/// The first `n` of `names`, with one space between neighbours.
pub open spec fn join_names(names: Seq<Seq<char>>, n: int) -> Seq<char>
    decreases n,
{
    if n <= 0 {
        Seq::empty()
    } else if n == 1 {
        names[0]
    } else {
        join_names(names, n - 1) + seq![' '] + names[n - 1]
    }
}

/// The text of the first `n` of `items`, with one space between neighbours.
pub open spec fn render_items(items: Seq<Expr>, n: int) -> Seq<char>
    decreases items, n,
{
    if n <= 0 || n > items.len() {
        Seq::empty()
    } else if n == 1 {
        render(items[0])
    } else {
        render_items(items, n - 1) + seq![' '] + render(items[n - 1])
    }
}

/// The text of a value: an integer in decimal, a boolean as `true` or
/// `false`, a symbol as its name, a list as its members in parentheses, a
/// lambda as the form that would write it down, and `Void` as nothing.
pub open spec fn render(expr: Expr) -> Seq<char>
    decreases expr, 0int,
{
    match expr {
        Expr::Void => Seq::empty(),
        Expr::Integer(n) => decimal_text(n),
        Expr::Bool(b) => if b {
            "true"@
        } else {
            "false"@
        },
        Expr::Symbol(name) => name,
        Expr::Lambda(params, body) => "(lambda ("@ + join_names(params, params.len() as int)
            + ") ("@ + render_items(body, body.len() as int) + "))"@,
        Expr::List(items) => "("@ + render_items(items, items.len() as int) + ")"@,
    }
}

/// Appends the text of `items`, with one space between neighbours.
fn write_items(items: &Vec<LispExpr>, out: &mut String)
    ensures
        final(out)@ == old(out)@ + render_items(exprs_view(items@), items.len() as int),
    decreases items,
{
    let ghost views = exprs_view(items@);
    let mut i: usize = 0;
    proof {
        assert(out@ =~= old(out)@ + render_items(views, 0));
    }
    while i < items.len()
        invariant
            i <= items.len(),
            views == exprs_view(items@),
            out@ == old(out)@ + render_items(views, i as int),
        decreases items.len() - i,
    {
        if i > 0 {
            proof {
                reveal_strlit(" ");
            }
            out.append(" ");
        }
        items[i].write_to(out);
        proof {
            assert(views[i as int] == items@[i as int]@);
            assert(out@ =~= old(out)@ + render_items(views, i + 1));
        }
        i += 1;
    }
}

/// Appends `names`, with one space between neighbours.
fn write_names(names: &Vec<String>, out: &mut String)
    ensures
        final(out)@ == old(out)@ + join_names(names_view(names@), names.len() as int),
{
    let ghost views = names_view(names@);
    let mut i: usize = 0;
    proof {
        assert(out@ =~= old(out)@ + join_names(views, 0));
    }
    while i < names.len()
        invariant
            i <= names.len(),
            views == names_view(names@),
            out@ == old(out)@ + join_names(views, i as int),
        decreases names.len() - i,
    {
        if i > 0 {
            proof {
                reveal_strlit(" ");
            }
            out.append(" ");
        }
        out.append(names[i].as_str());
        proof {
            assert(views[i as int] == names@[i as int]@);
            assert(out@ =~= old(out)@ + join_names(views, i + 1));
        }
        i += 1;
    }
}

impl LispExpr {
    /// Appends the text of this value to `out`.
    pub fn write_to(&self, out: &mut String)
        ensures
            final(out)@ == old(out)@ + render(self@),
        decreases self,
    {
        match self {
            LispExpr::Void => {
                assert(out@ =~= old(out)@ + render(self@));
            },
            LispExpr::Integer(n) => {
                push_decimal(out, *n);
            },
            LispExpr::Bool(b) => {
                if *b {
                    out.append("true");
                } else {
                    out.append("false");
                }
            },
            LispExpr::Symbol(name) => {
                out.append(name.as_str());
            },
            LispExpr::Lambda(params, body) => {
                out.append("(lambda (");
                write_names(params, out);
                out.append(") (");
                write_items(body, out);
                out.append("))");
                assert(out@ =~= old(out)@ + render(self@));
            },
            LispExpr::List(items) => {
                out.append("(");
                write_items(items, out);
                out.append(")");
                assert(out@ =~= old(out)@ + render(self@));
            },
        }
    }

    /// The text of this value.
    pub fn to_string(&self) -> (text: String)
        ensures
            text@ == render(self@),
    {
        let mut text = String::new();
        self.write_to(&mut text);
        assert(text@ =~= render(self@));
        text
    }

    /// The shape of this value.
    pub fn kind(&self) -> (k: Kind)
        ensures
            k == self@.kind(),
    {
        match self {
            LispExpr::Void => Kind::Void,
            LispExpr::Integer(_) => Kind::Integer,
            LispExpr::Bool(_) => Kind::Bool,
            LispExpr::Symbol(_) => Kind::Symbol,
            LispExpr::Lambda(_, _) => Kind::Lambda,
            LispExpr::List(_) => Kind::List,
        }
    }
}

} // verus!
