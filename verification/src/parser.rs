//! The parser: tokens to one syntax tree, by recursive descent.
//!
//! A nested list is read by a nested call, so the depth of nesting that can
//! be read is bounded by the call stack of the machine.

use crate::error::ParseError;
use crate::lexer::tokens_view;
use crate::lisp_expr::{exprs_view, lemma_exprs_view_push, Expr, LispExpr};
use crate::token::{Lexeme, Token};
use vstd::prelude::*;

verus! {

/// `first` in front of what was read after it, where that was read at all.
pub open spec fn prepend(first: Expr, rest: Option<(Seq<Expr>, int)>) -> Option<(Seq<Expr>, int)> {
    match rest {
        Some((items, next)) => Some((seq![first] + items, next)),
        None => None,
    }
}

/// `done` in front of what was read after it, where that was read at all.
pub open spec fn prepend_all(done: Seq<Expr>, rest: Option<(Seq<Expr>, int)>) -> Option<
    (Seq<Expr>, int),
> {
    match rest {
        Some((items, next)) => Some((done + items, next)),
        None => None,
    }
}

/// The members of a list whose tokens start at `pos`, just behind its left
/// parenthesis, together with the position just behind the right
/// parenthesis that closes it; `None` where the tokens end before that.
///
/// A left parenthesis among the members opens a nested list, which is read
/// through its own closing parenthesis and counts as one member. (Reading a
/// nested list always moves forward and stays inside the tokens, so the
/// test on `next` never fails; it is what makes the definition well
/// founded.)
pub open spec fn parse_items(tokens: Seq<Lexeme>, pos: int) -> Option<(Seq<Expr>, int)>
    decreases tokens.len() - pos,
{
    if pos < 0 || pos >= tokens.len() {
        None
    } else {
        match tokens[pos] {
            Lexeme::RParen => Some((Seq::empty(), pos + 1)),
            Lexeme::Integer(n) => prepend(Expr::Integer(n), parse_items(tokens, pos + 1)),
            Lexeme::Symbol(s) => prepend(Expr::Symbol(s), parse_items(tokens, pos + 1)),
            Lexeme::LParen => match parse_items(tokens, pos + 1) {
                Some((inner, next)) => if pos < next <= tokens.len() {
                    prepend(Expr::List(inner), parse_items(tokens, next))
                } else {
                    None
                },
                None => None,
            },
        }
    }
}

/// The list that starts at `pos` and the position just behind it.
pub open spec fn parse_list_spec(tokens: Seq<Lexeme>, pos: int) -> Result<(Expr, int), ParseError> {
    if pos < 0 || pos >= tokens.len() {
        Err(ParseError::EmptyTokens)
    } else if !(tokens[pos] is LParen) {
        Err(ParseError::MissingLeadingParen)
    } else {
        match parse_items(tokens, pos + 1) {
            Some((items, next)) => Ok((Expr::List(items), next)),
            None => Err(ParseError::UnclosedParen),
        }
    }
}

/// The first complete form of `tokens`; what follows it is not looked at.
pub open spec fn parse_spec(tokens: Seq<Lexeme>) -> Result<Expr, ParseError> {
    match parse_list_spec(tokens, 0) {
        Ok((expr, _)) => Ok(expr),
        Err(error) => Err(error),
    }
}

/// Reading the members of a list moves forward and stays inside the tokens.
pub proof fn lemma_parse_items_bounds(tokens: Seq<Lexeme>, pos: int)
    ensures
        parse_items(tokens, pos) matches Some((_, next)) ==> 0 <= pos < next <= tokens.len(),
    decreases tokens.len() - pos,
{
    if 0 <= pos < tokens.len() {
        match tokens[pos] {
            Lexeme::RParen => {},
            Lexeme::Integer(_) => {
                lemma_parse_items_bounds(tokens, pos + 1);
            },
            Lexeme::Symbol(_) => {
                lemma_parse_items_bounds(tokens, pos + 1);
            },
            Lexeme::LParen => {
                lemma_parse_items_bounds(tokens, pos + 1);
                match parse_items(tokens, pos + 1) {
                    Some((_, next)) => {
                        lemma_parse_items_bounds(tokens, next);
                    },
                    None => {},
                }
            },
        }
    }
}

/// Whether `expr` can stand in a program text: an integer, a symbol, or a
/// list of such.
pub open spec fn is_syntax(expr: Expr) -> bool
    decreases expr,
{
    match expr {
        Expr::Integer(_) => true,
        Expr::Symbol(_) => true,
        Expr::List(items) => forall|i: int| 0 <= i < items.len() ==> is_syntax(#[trigger] items[i]),
        _ => false,
    }
}

/// The members of a list that can stand in a program text can do so too.
pub proof fn lemma_syntax_member(items: Seq<Expr>, i: int)
    requires
        is_syntax(Expr::List(items)),
        0 <= i < items.len(),
    ensures
        is_syntax(items[i]),
{
    assert(Expr::List(items)->List_0 == items);
    assert(forall|k: int| 0 <= k < items.len() ==> is_syntax(#[trigger] items[k]));
}

/// The tokens that write `expr` down.
pub open spec fn written(expr: Expr) -> Seq<Lexeme>
    decreases expr, 0int,
{
    match expr {
        Expr::Integer(n) => seq![Lexeme::Integer(n)],
        Expr::Symbol(name) => seq![Lexeme::Symbol(name)],
        Expr::List(items) => seq![Lexeme::LParen] + written_from(items, 0) + seq![Lexeme::RParen],
        _ => Seq::empty(),
    }
}

/// The tokens that write down the members of `items` from position `from`
/// on, one after the other.
pub open spec fn written_from(items: Seq<Expr>, from: int) -> Seq<Lexeme>
    decreases items, items.len() - from,
{
    if from < 0 || from >= items.len() {
        Seq::empty()
    } else {
        written(items[from]) + written_from(items, from + 1)
    }
}

/// Whether `part` stands in `tokens` at position `pos`.
pub open spec fn found_at(tokens: Seq<Lexeme>, pos: int, part: Seq<Lexeme>) -> bool {
    &&& 0 <= pos
    &&& pos + part.len() <= tokens.len()
    &&& forall|k: int| 0 <= k < part.len() ==> tokens[pos + k] == #[trigger] part[k]
}

/// Where the members of a list are written down at `pos`, with a right
/// parenthesis behind them, reading from `pos` gives those members and
/// ends just behind that parenthesis.
pub proof fn lemma_parse_items_written(tokens: Seq<Lexeme>, pos: int, items: Seq<Expr>, from: int)
    requires
        0 <= from <= items.len(),
        is_syntax(Expr::List(items)),
        found_at(tokens, pos, written_from(items, from).push(Lexeme::RParen)),
    ensures
        parse_items(tokens, pos) == Some(
            (items.skip(from), pos + written_from(items, from).len() + 1),
        ),
    decreases items, items.len() - from,
{
    let part = written_from(items, from).push(Lexeme::RParen);
    assert(tokens[pos + 0] == part[0]);
    if from == items.len() {
        assert(items.skip(from) =~= Seq::<Expr>::empty());
    } else {
        let first = items[from];
        let after = written_from(items, from + 1);
        lemma_syntax_member(items, from);
        assert(seq![first] + items.skip(from + 1) =~= items.skip(from));
        assert(part =~= written(first) + after.push(Lexeme::RParen));
        match first {
            Expr::List(inner) => {
                let inside = written_from(inner, 0).push(Lexeme::RParen);
                assert(written(first) =~= seq![Lexeme::LParen] + inside);
                assert(found_at(tokens, pos + 1, inside)) by {
                    assert forall|k: int| 0 <= k < inside.len() implies tokens[pos + 1 + k]
                        == #[trigger] inside[k] by {
                        assert(tokens[pos + (k + 1)] == part[k + 1]);
                    }
                }
                lemma_parse_items_written(tokens, pos + 1, inner, 0);
                assert(inner.skip(0) =~= inner);
                let next = pos + 1 + inside.len();
                assert(found_at(tokens, next, after.push(Lexeme::RParen))) by {
                    assert forall|k: int| 0 <= k < after.len() + 1 implies tokens[next + k]
                        == #[trigger] after.push(Lexeme::RParen)[k] by {
                        assert(tokens[pos + (k + 1 + inside.len())] == part[k + 1 + inside.len()]);
                    }
                }
                lemma_parse_items_written(tokens, next, items, from + 1);
            },
            _ => {
                assert(written(first).len() == 1);
                assert(found_at(tokens, pos + 1, after.push(Lexeme::RParen))) by {
                    assert forall|k: int| 0 <= k < after.len() + 1 implies tokens[pos + 1 + k]
                        == #[trigger] after.push(Lexeme::RParen)[k] by {
                        assert(tokens[pos + (k + 1)] == part[k + 1]);
                    }
                }
                lemma_parse_items_written(tokens, pos + 1, items, from + 1);
            },
        }
    }
}

/// Reading is the inverse of writing down: the tokens that write a list of
/// integers, symbols and lists, followed by any tokens at all, parse to that
/// list.
pub proof fn lemma_parse_written(items: Seq<Expr>, rest: Seq<Lexeme>)
    requires
        is_syntax(Expr::List(items)),
    ensures
        parse_spec(written(Expr::List(items)) + rest) == Ok::<Expr, ParseError>(Expr::List(items)),
{
    let tokens = written(Expr::List(items)) + rest;
    let inside = written_from(items, 0).push(Lexeme::RParen);
    assert(written(Expr::List(items)) =~= seq![Lexeme::LParen] + inside);
    assert(tokens[0] == Lexeme::LParen);
    assert(found_at(tokens, 1, inside)) by {
        assert forall|k: int| 0 <= k < inside.len() implies tokens[1 + k] == #[trigger] inside[k] by {
            assert(tokens[1 + k] == written(Expr::List(items))[1 + k]);
        }
    }
    lemma_parse_items_written(tokens, 1, items, 0);
    assert(items.skip(0) =~= items);
}

/// Reads the list that starts at `pos` with a left parenthesis, through the
/// right parenthesis that closes it, and returns it with the position just
/// behind.
pub fn parse_list(tokens: &Vec<Token>, pos: usize) -> (res: Result<(LispExpr, usize), ParseError>)
    ensures
        match res {
            Ok((expr, next)) => pos < next <= tokens.len() && parse_list_spec(
                tokens_view(tokens@),
                pos as int,
            ) == Ok::<(Expr, int), ParseError>((expr@, next as int)),
            Err(error) => parse_list_spec(tokens_view(tokens@), pos as int) == Err::<
                (Expr, int),
                ParseError,
            >(error),
        },
    decreases tokens.len() - pos,
{
    let ghost lexemes = tokens_view(tokens@);
    if pos >= tokens.len() {
        return Err(ParseError::EmptyTokens);
    }
    match &tokens[pos] {
        Token::LParen => {},
        _ => {
            return Err(ParseError::MissingLeadingParen);
        },
    }
    let mut lisp_exprs: Vec<LispExpr> = Vec::new();
    let mut cur: usize = pos + 1;
    proof {
        assert(exprs_view(lisp_exprs@) =~= Seq::<Expr>::empty());
        match parse_items(lexemes, cur as int) {
            Some((items, next)) => {
                assert(exprs_view(lisp_exprs@) + items =~= items);
            },
            None => {},
        }
    }
    while cur < tokens.len()
        invariant
            pos < cur <= tokens.len(),
            lexemes == tokens_view(tokens@),
            lexemes[pos as int] is LParen,
            parse_items(lexemes, pos + 1) == prepend_all(
                exprs_view(lisp_exprs@),
                parse_items(lexemes, cur as int),
            ),
        decreases tokens.len() - cur,
    {
        let ghost done = exprs_view(lisp_exprs@);
        proof {
            assert(lexemes[cur as int] == tokens@[cur as int]@);
            lemma_parse_items_bounds(lexemes, cur + 1);
        }
        match &tokens[cur] {
            Token::Integer(n) => {
                let expr = LispExpr::Integer(*n);
                proof {
                    lemma_exprs_view_push(lisp_exprs@, expr);
                    match parse_items(lexemes, cur + 1) {
                        Some((items, next)) => {
                            assert(done.push(expr@) + items =~= done + (seq![expr@] + items));
                        },
                        None => {},
                    }
                }
                lisp_exprs.push(expr);
                cur += 1;
            },
            Token::Symbol(s) => {
                let expr = LispExpr::Symbol(s.clone());
                proof {
                    lemma_exprs_view_push(lisp_exprs@, expr);
                    match parse_items(lexemes, cur + 1) {
                        Some((items, next)) => {
                            assert(done.push(expr@) + items =~= done + (seq![expr@] + items));
                        },
                        None => {},
                    }
                }
                lisp_exprs.push(expr);
                cur += 1;
            },
            Token::LParen => {
                match parse_list(tokens, cur) {
                    Ok((expr, next)) => {
                        proof {
                            lemma_exprs_view_push(lisp_exprs@, expr);
                            match parse_items(lexemes, next as int) {
                                Some((items, end)) => {
                                    assert(done.push(expr@) + items =~= done + (seq![expr@]
                                        + items));
                                },
                                None => {},
                            }
                        }
                        lisp_exprs.push(expr);
                        cur = next;
                    },
                    Err(error) => {
                        return Err(error);
                    },
                }
            },
            Token::RParen => {
                proof {
                    assert(done + Seq::<Expr>::empty() =~= done);
                }
                return Ok((LispExpr::List(lisp_exprs), cur + 1));
            },
        }
    }
    Err(ParseError::UnclosedParen)
}

/// Reads the first complete form of `tokens`: a list in parentheses, whose
/// members are integers, symbols and nested lists. Tokens behind the form
/// are ignored.
pub fn parse(tokens: Vec<Token>) -> (res: Result<LispExpr, ParseError>)
    ensures
        match res {
            Ok(expr) => parse_spec(tokens_view(tokens@)) == Ok::<Expr, ParseError>(expr@),
            Err(error) => parse_spec(tokens_view(tokens@)) == Err::<Expr, ParseError>(error),
        },
{
    if tokens.is_empty() {
        return Err(ParseError::EmptyTokens);
    }
    match parse_list(&tokens, 0) {
        Ok((expr, _)) => Ok(expr),
        Err(error) => Err(error),
    }
}

} // verus!
