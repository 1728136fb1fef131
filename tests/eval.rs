use minilisp::environment::Env;
use minilisp::error::Error;
use minilisp::eval::{eval, eval_str};
use minilisp::expr::Expr;

fn run(program: &str, env: &mut Env) -> String {
    eval_str(program, env).unwrap().expr_str()
}

fn fails(program: &str) -> Error {
    let mut env = Env::new();
    eval_str(program, &mut env).unwrap_err()
}

fn sym(s: &str) -> Expr {
    Expr::Symbol(s.to_string())
}

#[test]
fn test_eval_str() {
    let mut env = Env::new();

    let result = eval_str("(* 2 3)", &mut env).unwrap().expr_str();
    assert_eq!(result, "6".to_string());
    let result = eval_str("(- 7 4)", &mut env).unwrap().expr_str();
    assert_eq!(result, "3".to_string());
    let result = eval_str("(if (= 1 1) 3 2)", &mut env).unwrap().expr_str();
    assert_eq!(result, "3".to_string());
    let result = eval_str("(= 1 3 2)", &mut env).unwrap().expr_str();
    assert_eq!(result, "#f".to_string());
    let result = eval_str("(= 1 1 1)", &mut env).unwrap().expr_str();
    assert_eq!(result, "#t".to_string());
    let result = eval_str("(< 1 2)", &mut env).unwrap().expr_str();
    assert_eq!(result, "#t".to_string());
    let result = eval_str("(<= 1 1)", &mut env).unwrap().expr_str();
    assert_eq!(result, "#t".to_string());
    let result = eval_str("(> 2 1)", &mut env).unwrap().expr_str();
    assert_eq!(result, "#t".to_string());
    let result = eval_str("(>= 1 1)", &mut env).unwrap().expr_str();
    assert_eq!(result, "#t".to_string());
    let result = eval_str("(< 1 1)", &mut env).unwrap().expr_str();
    assert_eq!(result, "#f".to_string());
}

#[test]
fn arithmetic_on_two_integers() {
    let mut env = Env::new();
    assert_eq!(run("(+ 40 2)", &mut env), "42");
    assert_eq!(run("(* -6 7)", &mut env), "-42");
    assert_eq!(run("(- 2 44)", &mut env), "-42");
    assert_eq!(run("(/ 85 2)", &mut env), "42");
    assert_eq!(run("(/ -7 2)", &mut env), "-3");
    assert!(matches!(fails("(/ 5 0)"), Error::DivisionByZero));
}

#[test]
fn arithmetic_folds() {
    let mut env = Env::new();
    assert_eq!(run("(+)", &mut env), "0");
    assert_eq!(run("(*)", &mut env), "1");
    assert_eq!(run("(+ 1 2 3 4)", &mut env), "10");
    assert_eq!(run("(- 10 1 2 3)", &mut env), "4");
    assert_eq!(run("(- 5)", &mut env), "5");
    assert_eq!(run("(/ 100 5 2)", &mut env), "10");
    assert_eq!(run("(* 2 (+ 1 2) (- 5 1))", &mut env), "24");
    assert!(matches!(fails("(-)"), Error::ArityError));
    assert!(matches!(fails("(/)"), Error::ArityError));
}

#[test]
fn arithmetic_overflow_is_an_error() {
    assert!(matches!(fails("(+ 2147483647 1)"), Error::Overflow));
    assert!(matches!(fails("(* 65536 65536)"), Error::Overflow));
    assert!(matches!(fails("(- -2147483648 1)"), Error::Overflow));
    assert!(matches!(fails("(/ -2147483648 -1)"), Error::Overflow));
}

#[test]
fn wrong_kind_of_argument_is_an_error() {
    assert!(matches!(fails("(+ 1 #t)"), Error::TypeMismatch));
    assert!(matches!(fails("(< #f 1)"), Error::TypeMismatch));
    assert!(matches!(fails("(if 1 2 3)"), Error::TypeMismatch));
}

#[test]
fn equality_and_conditionals() {
    let mut env = Env::new();
    assert_eq!(run("(if (= 1 1) 3 2)", &mut env), "3");
    assert_eq!(run("(if (= 1 2) 3 2)", &mut env), "2");
    assert_eq!(run("(= 1 3 2)", &mut env), "#f");
    assert_eq!(run("(= 1 1 1)", &mut env), "#t");
    assert_eq!(run("(= #t #t)", &mut env), "#t");
    assert_eq!(run("(= 1 #t)", &mut env), "#f");
    assert_eq!(run("(= 7)", &mut env), "#t");
    assert!(matches!(fails("(=)"), Error::ArityError));
    assert!(matches!(fails("(if #t 1)"), Error::ArityError));
}

#[test]
fn equality_stops_at_first_mismatch() {
    let mut env = Env::new();
    assert_eq!(run("(= 1 2 (let y 3))", &mut env), "#f");
    assert!(matches!(eval(&sym("y"), &mut env), Err(Error::UndefinedSymbol(_))));
}

#[test]
fn chained_comparisons() {
    let mut env = Env::new();
    assert_eq!(run("(< 1 2)", &mut env), "#t");
    assert_eq!(run("(<= 1 1)", &mut env), "#t");
    assert_eq!(run("(> 2 1)", &mut env), "#t");
    assert_eq!(run("(>= 1 1)", &mut env), "#t");
    assert_eq!(run("(< 1 1)", &mut env), "#f");
    assert_eq!(run("(<= 2 1)", &mut env), "#f");
    assert_eq!(run("(> 1 1)", &mut env), "#f");
    assert_eq!(run("(>= 1 2)", &mut env), "#f");
    // every later value is compared with the first one
    assert_eq!(run("(< 1 5 3)", &mut env), "#t");
    assert_eq!(run("(> 5 1 3)", &mut env), "#t");
    assert_eq!(run("(< 1 5 0)", &mut env), "#f");
}

#[test]
fn let_binds_and_overwrites() {
    let mut env = Env::new();
    assert_eq!(run("(let x 5)", &mut env), "5");
    assert_eq!(eval(&sym("x"), &mut env).unwrap(), Expr::Int(5));
    assert_eq!(run("(let x 9)", &mut env), "9");
    assert_eq!(eval(&sym("x"), &mut env).unwrap(), Expr::Int(9));
    assert_eq!(run("(+ x 1)", &mut env), "10");
    assert!(matches!(fails("(let x)"), Error::ArityError));
    assert!(matches!(fails("(let 1 2)"), Error::ExpectedSymbol));
}

#[test]
fn undefined_symbol_names_the_symbol() {
    let mut env = Env::new();
    match eval(&sym("nope"), &mut env) {
        Err(Error::UndefinedSymbol(name)) => assert_eq!(name, "nope"),
        other => panic!("unexpected {:?}", other),
    }
    let err = fails("(+ 1 zed)");
    assert_eq!(err.message(), "Undefined symbol 'zed'");
}

#[test]
fn symbol_bound_to_a_non_integer_is_undefined() {
    let mut env = Env::new();
    env.set("flag".to_string(), Expr::Boolean(true));
    assert!(matches!(eval(&sym("flag"), &mut env), Err(Error::UndefinedSymbol(_))));
}

#[test]
fn car_cdr_cons_report_their_errors() {
    // the argument is evaluated first: an empty list fails there
    assert!(matches!(fails("(car ())"), Error::EmptyList));
    assert!(matches!(fails("(cdr ())"), Error::EmptyList));
    assert!(matches!(fails("(car 1)"), Error::NotAList));
    assert!(matches!(fails("(cdr #t)"), Error::NotAList));
    assert!(matches!(fails("(car)"), Error::ArityError));
    assert!(matches!(fails("(cdr 1 2)"), Error::ArityError));
    assert!(matches!(fails("(cons 1 2 3)"), Error::ArityError));
    let mut env = Env::new();
    let cons = Expr::List(vec![sym("cons"), Expr::Int(1), Expr::Int(2)]);
    assert!(matches!(eval(&cons, &mut env), Err(Error::NotAList)));
}

#[test]
fn forms_and_empty_list() {
    assert!(matches!(fails("()"), Error::EmptyList));
    assert!(matches!(fails("(foo 1 2)"), Error::UnsupportedForm));
    assert!(matches!(fails("(1 2)"), Error::UnsupportedForm));
    assert!(matches!(fails("(cons 1 2)"), Error::UnsupportedForm));
    assert!(matches!(fails("1 2"), Error::TrailingTokens));
    assert!(matches!(fails("("), Error::UnexpectedEndOfInput));
    assert!(matches!(fails(")"), Error::UnmatchedCloseParen));
}

#[test]
fn literals_evaluate_to_themselves() {
    let mut env = Env::new();
    assert_eq!(run("42", &mut env), "42");
    assert_eq!(run("-2147483648", &mut env), "-2147483648");
    assert_eq!(run("#t", &mut env), "#t");
    assert_eq!(run("#f", &mut env), "#f");
}
