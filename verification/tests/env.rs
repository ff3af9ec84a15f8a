use lisp_rs::env::Env;
use lisp_rs::lisp_expr::LispExpr;

#[test]
fn new_env_binds_nothing() {
    let env = Env::new();
    assert_eq!(env.get("x"), None);
    assert_eq!(env.get(""), None);
    assert!(!env.has_parent());
}

#[test]
fn set_then_get() {
    let mut env = Env::new();
    env.set("x", LispExpr::Integer(5));
    assert_eq!(env.get("x"), Some(LispExpr::Integer(5)));
    assert_eq!(env.get("y"), None);
}

#[test]
fn set_overwrites_and_is_idempotent() {
    let mut env = Env::new();
    env.set("x", LispExpr::Integer(1));
    env.set("y", LispExpr::Bool(true));
    env.set("x", LispExpr::Integer(2));
    assert_eq!(env.get("x"), Some(LispExpr::Integer(2)));
    assert_eq!(env.get("y"), Some(LispExpr::Bool(true)));
    env.set("x", LispExpr::Integer(2));
    assert_eq!(env.get("x"), Some(LispExpr::Integer(2)));
    assert_eq!(env.get("y"), Some(LispExpr::Bool(true)));
}

#[test]
fn set_takes_any_value() {
    let mut env = Env::new();
    env.set("v", LispExpr::Void);
    env.set(
        "f",
        LispExpr::Lambda(vec!["a".to_string()], vec![LispExpr::Symbol("a".to_string())]),
    );
    assert_eq!(env.get("v"), Some(LispExpr::Void));
    assert_eq!(
        env.get("f"),
        Some(LispExpr::Lambda(
            vec!["a".to_string()],
            vec![LispExpr::Symbol("a".to_string())]
        ))
    );
}

#[test]
fn child_sees_the_bindings_of_its_ancestors() {
    let mut root = Env::new();
    root.set("x", LispExpr::Integer(1));
    let mut middle = Env::extend(root);
    middle.set("y", LispExpr::Integer(2));
    let inner = Env::extend(middle);
    assert!(inner.has_parent());
    assert_eq!(inner.get("x"), Some(LispExpr::Integer(1)));
    assert_eq!(inner.get("y"), Some(LispExpr::Integer(2)));
    assert_eq!(inner.get("z"), None);
}

#[test]
fn child_shadows_and_never_writes_to_its_parent() {
    let mut root = Env::new();
    root.set("x", LispExpr::Integer(1));
    let mut child = Env::extend(root);
    assert_eq!(child.get("x"), Some(LispExpr::Integer(1)));
    child.set("x", LispExpr::Integer(10));
    child.set("y", LispExpr::Integer(20));
    assert_eq!(child.get("x"), Some(LispExpr::Integer(10)));
    assert_eq!(child.get("y"), Some(LispExpr::Integer(20)));
    let root = child.into_parent().unwrap();
    assert_eq!(root.get("x"), Some(LispExpr::Integer(1)));
    assert_eq!(root.get("y"), None);
    assert!(root.into_parent().is_none());
}

#[test]
fn default_env_is_a_root() {
    let env = Env::default();
    assert_eq!(env.get("x"), None);
    assert!(!env.has_parent());
    assert!(format!("{:?}", env).contains("Env"));
}
