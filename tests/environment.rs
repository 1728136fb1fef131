use minilisp::environment::Env;
use minilisp::expr::Expr;

#[test]
fn env_set_and_get() {
    let mut env = Env::new();
    assert_eq!(env.get("x"), None);
    env.set("x".to_string(), Expr::Int(1));
    env.set("y".to_string(), Expr::Boolean(false));
    assert_eq!(env.get("x"), Some(Expr::Int(1)));
    assert_eq!(env.get("y"), Some(Expr::Boolean(false)));
    env.set("x".to_string(), Expr::Int(2));
    assert_eq!(env.get("x"), Some(Expr::Int(2)));
    assert_eq!(env.get("X"), None);
}

#[test]
fn env_get_returns_a_copy() {
    let mut env = Env::new();
    let list = Expr::List(vec![Expr::Int(1), Expr::Symbol("a".to_string())]);
    env.set("l".to_string(), list.clone());
    assert_eq!(env.get("l"), Some(list));
}
