use lisp_rs::lisp_expr::{Kind, LispExpr};

#[test]
fn check_display() {
    let lisp_exprs = LispExpr::Lambda(
        vec!["x".to_string(), "y".to_string()],
        vec![
            LispExpr::Symbol("+".to_string()),
            LispExpr::Integer(1),
            LispExpr::Integer(1),
            LispExpr::Void,
        ],
    );
    println!("{}", lisp_exprs.to_string());
}

#[test]
fn lambda_text() {
    let lambda = LispExpr::Lambda(
        vec!["x".to_string(), "y".to_string()],
        vec![
            LispExpr::Symbol("+".to_string()),
            LispExpr::Integer(1),
            LispExpr::Integer(1),
            LispExpr::Void,
        ],
    );
    assert_eq!(lambda.to_string(), "(lambda (x y) (+ 1 1 ))");
    assert_eq!(LispExpr::Lambda(vec![], vec![]).to_string(), "(lambda () ())");
}

#[test]
fn atom_text() {
    assert_eq!(LispExpr::Void.to_string(), "");
    assert_eq!(LispExpr::Integer(0).to_string(), "0");
    assert_eq!(LispExpr::Integer(7).to_string(), "7");
    assert_eq!(LispExpr::Integer(10).to_string(), "10");
    assert_eq!(LispExpr::Integer(-305).to_string(), "-305");
    assert_eq!(LispExpr::Integer(i64::MAX).to_string(), "9223372036854775807");
    assert_eq!(LispExpr::Integer(i64::MIN).to_string(), "-9223372036854775808");
    assert_eq!(LispExpr::Bool(true).to_string(), "true");
    assert_eq!(LispExpr::Bool(false).to_string(), "false");
    assert_eq!(LispExpr::Symbol("foo".to_string()).to_string(), "foo");
}

#[test]
fn integer_text_is_the_decimal_text() {
    for n in [-1000i64, -99, -10, -9, -1, 0, 1, 9, 10, 11, 99, 100, 101, 123456789] {
        assert_eq!(LispExpr::Integer(n).to_string(), format!("{}", n));
    }
}

#[test]
fn list_text() {
    assert_eq!(LispExpr::List(vec![]).to_string(), "()");
    assert_eq!(LispExpr::List(vec![LispExpr::Integer(7)]).to_string(), "(7)");
    let list = LispExpr::List(vec![
        LispExpr::Integer(1),
        LispExpr::List(vec![LispExpr::Bool(true), LispExpr::Symbol("x".to_string())]),
        LispExpr::List(vec![]),
        LispExpr::Integer(-2),
    ]);
    assert_eq!(list.to_string(), "(1 (true x) () -2)");
}

#[test]
fn write_to_appends() {
    let mut out = "> ".to_string();
    LispExpr::List(vec![LispExpr::Integer(1), LispExpr::Integer(2)]).write_to(&mut out);
    LispExpr::Void.write_to(&mut out);
    LispExpr::Bool(false).write_to(&mut out);
    assert_eq!(out, "> (1 2)false");
}

#[test]
fn clone_is_equal() {
    let expr = LispExpr::List(vec![
        LispExpr::Void,
        LispExpr::Integer(3),
        LispExpr::Bool(true),
        LispExpr::Symbol("s".to_string()),
        LispExpr::Lambda(
            vec!["a".to_string(), "b".to_string()],
            vec![LispExpr::List(vec![LispExpr::Symbol("a".to_string())])],
        ),
    ]);
    assert_eq!(expr.clone(), expr);
}

#[test]
fn kinds() {
    assert_eq!(LispExpr::Void.kind(), Kind::Void);
    assert_eq!(LispExpr::Integer(1).kind(), Kind::Integer);
    assert_eq!(LispExpr::Bool(true).kind(), Kind::Bool);
    assert_eq!(LispExpr::Symbol("a".to_string()).kind(), Kind::Symbol);
    assert_eq!(LispExpr::Lambda(vec![], vec![]).kind(), Kind::Lambda);
    assert_eq!(LispExpr::List(vec![]).kind(), Kind::List);
}
