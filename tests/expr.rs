use minilisp::error::Error;
use minilisp::expr::Expr;

#[test]
fn expr_str_renders_atoms() {
    assert_eq!(Expr::Int(0).expr_str(), "0");
    assert_eq!(Expr::Int(-45).expr_str(), "-45");
    assert_eq!(Expr::Int(i32::MIN).expr_str(), "-2147483648");
    assert_eq!(Expr::Int(i32::MAX).expr_str(), "2147483647");
    assert_eq!(Expr::Boolean(true).expr_str(), "#t");
    assert_eq!(Expr::Boolean(false).expr_str(), "#f");
    assert_eq!(Expr::Symbol("abc".to_string()).expr_str(), "abc");
}

#[test]
fn expr_str_renders_lists_and_pairs() {
    let list = Expr::List(vec![Expr::Int(1), Expr::List(vec![]), Expr::Symbol("x".to_string())]);
    assert_eq!(list.expr_str(), "(1 () x)");
    let pair = Expr::Pair(Box::new(Expr::Int(1)), Box::new(Expr::Boolean(true)));
    assert_eq!(pair.expr_str(), "(cons 1 #t)");
}

#[test]
fn equality_is_structural() {
    let a = Expr::List(vec![Expr::Int(1), Expr::Symbol("s".to_string())]);
    let b = Expr::List(vec![Expr::Int(1), Expr::Symbol("s".to_string())]);
    let c = Expr::List(vec![Expr::Int(1), Expr::Symbol("t".to_string())]);
    assert_eq!(a, b);
    assert_ne!(a, c);
    assert_ne!(Expr::Int(1), Expr::Boolean(true));
    assert_eq!(a.clone(), a);
}

#[test]
fn error_messages() {
    assert_eq!(Error::DivisionByZero.message(), "Division by zero");
    assert_eq!(Error::UnexpectedEndOfInput.message(), "Unexpected end of input");
    assert_eq!(Error::UndefinedSymbol("q".to_string()).message(), "Undefined symbol 'q'");
}
