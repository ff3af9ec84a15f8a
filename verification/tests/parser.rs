use lisp_rs::error::ParseError;
use lisp_rs::lexer::tokenize;
use lisp_rs::lisp_expr::LispExpr;
use lisp_rs::parser::{parse, parse_list};
use lisp_rs::token::Token;

#[test]
fn test_parse_fail_with_empty_tokens() {
    let tokens = Vec::new();
    let lisp_expr = parse(tokens);
    assert!(lisp_expr.is_err());
}

#[test]
fn test_parse_fail_with_invalid_expression() {
    let expr = "(+ 1 1";
    let lisp_expr = parse(tokenize(expr).unwrap());
    assert!(lisp_expr.is_err());
}

#[test]
fn test_parse() {
    let expr = "(
                         (define r 10)
                         (define pi 314)
                         (* pi (* r r))
                       )";
    let lisp_expr = parse(tokenize(expr).unwrap()).unwrap();
    assert_eq!(
        lisp_expr,
        LispExpr::List(vec![
            LispExpr::List(vec![
                LispExpr::Symbol("define".to_string()),
                LispExpr::Symbol("r".to_string()),
                LispExpr::Integer(10),
            ]),
            LispExpr::List(vec![
                LispExpr::Symbol("define".to_string()),
                LispExpr::Symbol("pi".to_string()),
                LispExpr::Integer(314),
            ]),
            LispExpr::List(vec![
                LispExpr::Symbol("*".to_string()),
                LispExpr::Symbol("pi".to_string()),
                LispExpr::List(vec![
                    LispExpr::Symbol("*".to_string()),
                    LispExpr::Symbol("r".to_string()),
                    LispExpr::Symbol("r".to_string()),
                ]),
            ]),
        ])
    );
}

#[test]
fn parse_define_form() {
    assert_eq!(
        parse(tokenize("(define r 10)").unwrap()),
        Ok(LispExpr::List(vec![
            LispExpr::Symbol("define".to_string()),
            LispExpr::Symbol("r".to_string()),
            LispExpr::Integer(10),
        ]))
    );
}

#[test]
fn parse_empty_tokens_error() {
    assert_eq!(parse(Vec::new()), Err(ParseError::EmptyTokens));
}

#[test]
fn parse_missing_leading_paren_error() {
    assert_eq!(parse(tokenize("x").unwrap()), Err(ParseError::MissingLeadingParen));
    assert_eq!(parse(tokenize("1 (2)").unwrap()), Err(ParseError::MissingLeadingParen));
    assert_eq!(parse(tokenize(") (").unwrap()), Err(ParseError::MissingLeadingParen));
}

#[test]
fn parse_unclosed_paren_error() {
    assert_eq!(parse(tokenize("(+ 1 1").unwrap()), Err(ParseError::UnclosedParen));
    assert_eq!(parse(tokenize("(").unwrap()), Err(ParseError::UnclosedParen));
    assert_eq!(parse(tokenize("(a (b c)").unwrap()), Err(ParseError::UnclosedParen));
    assert_eq!(parse(tokenize("(a (b (c))").unwrap()), Err(ParseError::UnclosedParen));
}

#[test]
fn parse_empty_list() {
    assert_eq!(parse(tokenize("()").unwrap()), Ok(LispExpr::List(vec![])));
    assert_eq!(
        parse(tokenize("(())").unwrap()),
        Ok(LispExpr::List(vec![LispExpr::List(vec![])]))
    );
}

#[test]
fn parse_stops_after_the_first_form() {
    assert_eq!(
        parse(tokenize("(1 2) (3 4) )))").unwrap()),
        Ok(LispExpr::List(vec![LispExpr::Integer(1), LispExpr::Integer(2)]))
    );
}

#[test]
fn parse_list_gives_the_position_behind_the_list() {
    let tokens = tokenize("(a (b c) d) (e)").unwrap();
    let (outer, next) = parse_list(&tokens, 0).unwrap();
    assert_eq!(next, 8);
    assert_eq!(
        outer,
        LispExpr::List(vec![
            LispExpr::Symbol("a".to_string()),
            LispExpr::List(vec![
                LispExpr::Symbol("b".to_string()),
                LispExpr::Symbol("c".to_string()),
            ]),
            LispExpr::Symbol("d".to_string()),
        ])
    );
    let (inner, next) = parse_list(&tokens, 2).unwrap();
    assert_eq!(next, 6);
    assert_eq!(
        inner,
        LispExpr::List(vec![
            LispExpr::Symbol("b".to_string()),
            LispExpr::Symbol("c".to_string()),
        ])
    );
    assert_eq!(
        parse_list(&tokens, 8),
        Ok((LispExpr::List(vec![LispExpr::Symbol("e".to_string())]), 11))
    );
    assert_eq!(parse_list(&tokens, 1), Err(ParseError::MissingLeadingParen));
    assert_eq!(parse_list(&tokens, 11), Err(ParseError::EmptyTokens));
    assert_eq!(parse_list(&tokens, 99), Err(ParseError::EmptyTokens));
}

#[test]
fn parse_is_the_inverse_of_writing_out() {
    let texts = ["(+ 1 2)", "(a (b (c -4)) () d)", "((lambda (x y) (+ x y)) 3 4)"];
    for text in texts {
        let expr = parse(tokenize(text).unwrap()).unwrap();
        assert_eq!(expr.to_string(), text);
        assert_eq!(parse(tokenize(&expr.to_string()).unwrap()), Ok(expr));
    }
}

#[test]
fn parse_deeply_nested() {
    let depth = 200;
    let mut tokens = Vec::new();
    for _ in 0..depth {
        tokens.push(Token::LParen);
    }
    for _ in 0..depth {
        tokens.push(Token::RParen);
    }
    let mut expected = LispExpr::List(vec![]);
    for _ in 1..depth {
        expected = LispExpr::List(vec![expected]);
    }
    assert_eq!(parse(tokens), Ok(expected));
}
