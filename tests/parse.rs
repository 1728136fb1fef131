use minilisp::error::Error;
use minilisp::expr::Expr;
use minilisp::parse::{parse, parse_int};
use minilisp::tokenize::tokenize;

fn sym(s: &str) -> Expr {
    Expr::Symbol(s.to_string())
}

#[test]
fn test_parse() {
    let tokens = vec![
        "(".to_string(),
        "+".to_string(),
        "2".to_string(),
        "3".to_string(),
        ")".to_string(),
    ];
    let (expr, rest) = parse(&tokens).unwrap();
    assert_eq!(expr, Expr::List(vec![sym("+"), Expr::Int(2), Expr::Int(3)]));
    assert_eq!(rest, Vec::<String>::new());
}

#[test]
fn parse_cons_form_gives_pair() {
    let tokens = tokenize("(cons 1 (cons 2 ()))");
    let (expr, rest) = parse(&tokens).unwrap();
    assert!(rest.is_empty());
    let inner = Expr::Pair(Box::new(Expr::Int(2)), Box::new(Expr::List(vec![])));
    assert_eq!(expr, Expr::Pair(Box::new(Expr::Int(1)), Box::new(inner)));
}

#[test]
fn parse_cons_with_other_arity_stays_a_list() {
    let tokens = tokenize("(cons 1)");
    let (expr, _) = parse(&tokens).unwrap();
    assert_eq!(expr, Expr::List(vec![sym("cons"), Expr::Int(1)]));
    let tokens = tokenize("(kons 1 2)");
    let (expr, _) = parse(&tokens).unwrap();
    assert_eq!(expr, Expr::List(vec![sym("kons"), Expr::Int(1), Expr::Int(2)]));
}

#[test]
fn parse_unbalanced_input() {
    assert!(matches!(parse(&tokenize("(")), Err(Error::UnexpectedEndOfInput)));
    assert!(matches!(parse(&tokenize("(+ 1 (* 2 3)")), Err(Error::UnexpectedEndOfInput)));
    assert!(matches!(parse(&tokenize(")")), Err(Error::UnmatchedCloseParen)));
    assert!(matches!(parse(&tokenize("")), Err(Error::UnexpectedEndOfInput)));
}

#[test]
fn parse_leaves_trailing_tokens() {
    let tokens = tokenize("1 2 )");
    let (expr, rest) = parse(&tokens).unwrap();
    assert_eq!(expr, Expr::Int(1));
    assert_eq!(rest, ["2".to_string(), ")".to_string()]);
}

#[test]
fn parse_atoms() {
    let tokens = tokenize("(#t #f -7 +8 x 2147483648 -2147483648 - 1a)");
    let (expr, _) = parse(&tokens).unwrap();
    assert_eq!(
        expr,
        Expr::List(vec![
            Expr::Boolean(true),
            Expr::Boolean(false),
            Expr::Int(-7),
            Expr::Int(8),
            sym("x"),
            sym("2147483648"),
            Expr::Int(i32::MIN),
            sym("-"),
            sym("1a"),
        ])
    );
}

#[test]
fn parse_int_edges() {
    assert_eq!(parse_int("0"), Some(0));
    assert_eq!(parse_int("007"), Some(7));
    assert_eq!(parse_int("2147483647"), Some(i32::MAX));
    assert_eq!(parse_int("-2147483648"), Some(i32::MIN));
    assert_eq!(parse_int("2147483648"), None);
    assert_eq!(parse_int("99999999999999999999"), None);
    assert_eq!(parse_int("+"), None);
    assert_eq!(parse_int(""), None);
    assert_eq!(parse_int("12x"), None);
}
