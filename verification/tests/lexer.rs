use lisp_rs::error::LispError;
use lisp_rs::lexer::{is_whitespace, parse_integer, tokenize};
use lisp_rs::token::Token;

fn sym(name: &str) -> Token {
    Token::Symbol(name.to_string())
}

#[test]
fn test_tokenize() {
    let expr = "
        (
            (define r 10)
            (define pi 314)
            (* pi (* r r))
        )
        ";
    let tokens = tokenize(expr).unwrap_or(vec![]);
    assert_eq!(
        tokens,
        vec![
            Token::LParen,
            Token::LParen,
            Token::Symbol("define".to_string()),
            Token::Symbol("r".to_string()),
            Token::Integer(10),
            Token::RParen,
            Token::LParen,
            Token::Symbol("define".to_string()),
            Token::Symbol("pi".to_string()),
            Token::Integer(314),
            Token::RParen,
            Token::LParen,
            Token::Symbol("*".to_string()),
            Token::Symbol("pi".to_string()),
            Token::LParen,
            Token::Symbol("*".to_string()),
            Token::Symbol("r".to_string()),
            Token::Symbol("r".to_string()),
            Token::RParen,
            Token::RParen,
            Token::RParen,
        ]
    );
}

#[test]
fn tokenize_simple_sum() {
    assert_eq!(
        tokenize("(+ 1 2)"),
        Ok(vec![
            Token::LParen,
            sym("+"),
            Token::Integer(1),
            Token::Integer(2),
            Token::RParen,
        ])
    );
}

#[test]
fn tokenize_empty_text_is_a_fault() {
    assert_eq!(tokenize(""), Err(LispError::EmptyInput));
}

#[test]
fn tokenize_blank_text_is_a_fault() {
    assert_eq!(tokenize("  \t \n\r  "), Err(LispError::EmptyInput));
    assert_eq!(tokenize("\u{a0}\u{2003}\u{3000}"), Err(LispError::EmptyInput));
}

#[test]
fn tokenize_parentheses_touching_words() {
    assert_eq!(
        tokenize("(foo(bar)baz)"),
        Ok(vec![
            Token::LParen,
            sym("foo"),
            Token::LParen,
            sym("bar"),
            Token::RParen,
            sym("baz"),
            Token::RParen,
        ])
    );
}

#[test]
fn tokenize_does_not_check_balance() {
    assert_eq!(
        tokenize(")) x (("),
        Ok(vec![
            Token::RParen,
            Token::RParen,
            sym("x"),
            Token::LParen,
            Token::LParen,
        ])
    );
}

#[test]
fn tokenize_negative_integers_and_minus_sign() {
    assert_eq!(
        tokenize("(- -5 -)"),
        Ok(vec![
            Token::LParen,
            sym("-"),
            Token::Integer(-5),
            sym("-"),
            Token::RParen,
        ])
    );
}

#[test]
fn tokenize_integer_range() {
    assert_eq!(
        tokenize("9223372036854775807 -9223372036854775808"),
        Ok(vec![Token::Integer(i64::MAX), Token::Integer(i64::MIN)])
    );
    assert_eq!(
        tokenize("9223372036854775808 -9223372036854775809"),
        Ok(vec![sym("9223372036854775808"), sym("-9223372036854775809")])
    );
}

#[test]
fn tokenize_leading_zeros() {
    assert_eq!(
        tokenize("007 -0 00000000000000000000000000012"),
        Ok(vec![Token::Integer(7), Token::Integer(0), Token::Integer(12)])
    );
}

#[test]
fn tokenize_words_that_are_no_integers() {
    assert_eq!(
        tokenize("+5 1x x1 1.5 -- 1-2 --3"),
        Ok(vec![
            sym("+5"),
            sym("1x"),
            sym("x1"),
            sym("1.5"),
            sym("--"),
            sym("1-2"),
            sym("--3"),
        ])
    );
}

#[test]
fn tokenize_words_beyond_ascii() {
    assert_eq!(
        tokenize("(λ\u{2003}größe ١٢٣)"),
        Ok(vec![
            Token::LParen,
            sym("λ"),
            sym("größe"),
            sym("١٢٣"),
            Token::RParen,
        ])
    );
}

#[test]
fn parse_integer_on_parts_of_a_text() {
    let chars: Vec<char> = "ab-120cd".chars().collect();
    assert_eq!(parse_integer(&chars, 2, 6), Some(-120));
    assert_eq!(parse_integer(&chars, 3, 6), Some(120));
    assert_eq!(parse_integer(&chars, 2, 3), None);
    assert_eq!(parse_integer(&chars, 2, 2), None);
    assert_eq!(parse_integer(&chars, 0, 8), None);
    assert_eq!(parse_integer(&chars, 3, 7), None);
}

#[test]
fn whitespace_is_what_unicode_calls_white_space() {
    for code in 0..=0x10FFFFu32 {
        if let Some(c) = char::from_u32(code) {
            assert_eq!(is_whitespace(c), c.is_whitespace(), "U+{:04X}", code);
        }
    }
}

#[test]
fn tokens_are_what_splitting_padded_text_gives() {
    let texts = [
        "(+ 1 2)",
        "  (define   r 10)\n",
        "(a(b)c)d",
        "()",
        "x",
        "((lambda (x y) (+ x y)) 3 4)",
        "(- -5 -)",
    ];
    for text in texts {
        let padded = text.replace("(", " ( ").replace(")", " ) ");
        let words: Vec<String> = padded.split_whitespace().map(|w| w.to_string()).collect();
        let tokens = tokenize(text).unwrap();
        let texts_of_tokens: Vec<String> = tokens.iter().map(|t| t.to_string()).collect();
        assert_eq!(texts_of_tokens, words);
    }
}

#[test]
fn token_text() {
    assert_eq!(Token::Integer(-42).to_string(), "-42");
    assert_eq!(Token::Integer(0).to_string(), "0");
    assert_eq!(Token::Integer(i64::MIN).to_string(), "-9223372036854775808");
    assert_eq!(Token::Integer(i64::MAX).to_string(), "9223372036854775807");
    assert_eq!(sym("define").to_string(), "define");
    assert_eq!(Token::LParen.to_string(), "(");
    assert_eq!(Token::RParen.to_string(), ")");
}

#[test]
fn token_clone_is_equal() {
    for token in [Token::Integer(3), sym("abc"), Token::LParen, Token::RParen] {
        assert_eq!(token.clone(), token);
    }
}

#[test]
fn an_integer_written_out_reads_back() {
    for n in [i64::MIN, i64::MIN + 1, -1000, -10, -9, -1, 0, 1, 9, 10, 99, 100, i64::MAX - 1, i64::MAX] {
        let text = Token::Integer(n).to_string();
        assert_eq!(tokenize(&text), Ok(vec![Token::Integer(n)]));
    }
}
