use vstd::prelude::*;

use crate::environment::{bind, lookup, Bindings, Env};
use crate::error::{Error, Fault};
use crate::expr::{duplicate, lemma_list_term, same, terms_of, Expr, Term};
use crate::parse::{parse, parse_expr_at};
use crate::text::same_text;
use crate::tokenize::{lex, texts, tokenize};

verus! {

/// An arithmetic operator, folded left to right over its arguments.
pub enum Arith {
    Add,
    Sub,
    Mul,
    Div,
}

/// A relational operator, applied between the first argument and each later one.
pub enum Order {
    Less,
    LessEq,
    Greater,
    GreaterEq,
}

/// A built-in form, named by the symbol at the head of a list.
pub enum Op {
    Arith(Arith),
    Equal,
    Compare(Order),
    Car,
    Cdr,
    Cons,
    Let,
    If,
}

/// The built-in form that `name` names, if any.
pub open spec fn op_named(name: Seq<char>) -> Option<Op> {
    if name == "+"@ {
        Some(Op::Arith(Arith::Add))
    } else if name == "-"@ {
        Some(Op::Arith(Arith::Sub))
    } else if name == "*"@ {
        Some(Op::Arith(Arith::Mul))
    } else if name == "/"@ {
        Some(Op::Arith(Arith::Div))
    } else if name == "="@ {
        Some(Op::Equal)
    } else if name == "<"@ {
        Some(Op::Compare(Order::Less))
    } else if name == "<="@ {
        Some(Op::Compare(Order::LessEq))
    } else if name == ">"@ {
        Some(Op::Compare(Order::Greater))
    } else if name == ">="@ {
        Some(Op::Compare(Order::GreaterEq))
    } else if name == "car"@ {
        Some(Op::Car)
    } else if name == "cdr"@ {
        Some(Op::Cdr)
    } else if name == "cons"@ {
        Some(Op::Cons)
    } else if name == "let"@ {
        Some(Op::Let)
    } else if name == "if"@ {
        Some(Op::If)
    } else {
        None
    }
}

/// Each operator name names its form.
pub proof fn lemma_op_names()
    ensures
        op_named("+"@) == Some(Op::Arith(Arith::Add)),
        op_named("-"@) == Some(Op::Arith(Arith::Sub)),
        op_named("*"@) == Some(Op::Arith(Arith::Mul)),
        op_named("/"@) == Some(Op::Arith(Arith::Div)),
        op_named("="@) == Some(Op::Equal),
        op_named("<"@) == Some(Op::Compare(Order::Less)),
        op_named("<="@) == Some(Op::Compare(Order::LessEq)),
        op_named(">"@) == Some(Op::Compare(Order::Greater)),
        op_named(">="@) == Some(Op::Compare(Order::GreaterEq)),
        op_named("car"@) == Some(Op::Car),
        op_named("cdr"@) == Some(Op::Cdr),
        op_named("cons"@) == Some(Op::Cons),
        op_named("let"@) == Some(Op::Let),
        op_named("if"@) == Some(Op::If),
{
    reveal_strlit("+");
    reveal_strlit("-");
    reveal_strlit("*");
    reveal_strlit("/");
    reveal_strlit("=");
    reveal_strlit("<");
    reveal_strlit("<=");
    reveal_strlit(">");
    reveal_strlit(">=");
    reveal_strlit("car");
    reveal_strlit("cdr");
    reveal_strlit("cons");
    reveal_strlit("let");
    reveal_strlit("if");
    assert("+"@ =~= seq!['+']);
    assert("-"@ =~= seq!['-']);
    assert("*"@ =~= seq!['*']);
    assert("/"@ =~= seq!['/']);
    assert("="@ =~= seq!['=']);
    assert("<"@ =~= seq!['<']);
    assert("<="@ =~= seq!['<', '=']);
    assert(">"@ =~= seq!['>']);
    assert(">="@ =~= seq!['>', '=']);
    assert("car"@ =~= seq!['c', 'a', 'r']);
    assert("cdr"@ =~= seq!['c', 'd', 'r']);
    assert("cons"@ =~= seq!['c', 'o', 'n', 's']);
    assert("let"@ =~= seq!['l', 'e', 't']);
    assert("if"@ =~= seq!['i', 'f']);
    assert("-"@[0] != "+"@[0]);
    assert("*"@[0] != "+"@[0]);
    assert("*"@[0] != "-"@[0]);
    assert("/"@[0] != "+"@[0]);
    assert("/"@[0] != "-"@[0]);
    assert("/"@[0] != "*"@[0]);
    assert("="@[0] != "+"@[0]);
    assert("="@[0] != "-"@[0]);
    assert("="@[0] != "*"@[0]);
    assert("="@[0] != "/"@[0]);
    assert("<"@[0] != "+"@[0]);
    assert("<"@[0] != "-"@[0]);
    assert("<"@[0] != "*"@[0]);
    assert("<"@[0] != "/"@[0]);
    assert("<"@[0] != "="@[0]);
    assert(">"@[0] != "+"@[0]);
    assert(">"@[0] != "-"@[0]);
    assert(">"@[0] != "*"@[0]);
    assert(">"@[0] != "/"@[0]);
    assert(">"@[0] != "="@[0]);
    assert(">"@[0] != "<"@[0]);
    assert(">="@[0] != "<="@[0]);
    assert("cdr"@[1] != "car"@[1]);
    assert("let"@[0] != "car"@[0]);
    assert("let"@[0] != "cdr"@[0]);
    assert("if"@[0] != "<="@[0]);
    assert("if"@[0] != ">="@[0]);
}

/// The built-in form that the head of the list `items` names, if any.
pub open spec fn head_op(items: Seq<Term>) -> Option<Op> {
    if items.len() > 0 && items[0] is Symbol {
        op_named(items[0]->Symbol_0)
    } else {
        None
    }
}

/// One step of an arithmetic fold: `acc op n`, or why it has no 32-bit result.
pub open spec fn arith_step(op: Arith, acc: i32, n: i32) -> Result<i32, Fault> {
    let r = match op {
        Arith::Add => acc.checked_add(n),
        Arith::Sub => acc.checked_sub(n),
        Arith::Mul => acc.checked_mul(n),
        Arith::Div => acc.checked_div(n),
    };
    if op is Div && n == 0 {
        Err(Fault::DivisionByZero)
    } else {
        match r {
            Some(v) => Ok(v),
            None => Err(Fault::Overflow),
        }
    }
}

/// Whether `first` stands in relation `o` to `n`.
pub open spec fn holds(o: Order, first: i32, n: i32) -> bool {
    match o {
        Order::Less => first < n,
        Order::LessEq => first <= n,
        Order::Greater => first > n,
        Order::GreaterEq => first >= n,
    }
}

/// Evaluates `t` in `env`: the result and the bindings afterwards.
pub open spec fn eval_term(t: Term, env: Bindings) -> (Result<Term, Fault>, Bindings)
    decreases t, 0nat,
{
    match t {
        Term::Int(n) => (Ok(Term::Int(n)), env),
        Term::Boolean(b) => (Ok(Term::Boolean(b)), env),
        Term::Symbol(s) => (
            match lookup(env, s) {
                Some(Term::Int(n)) => Ok(Term::Int(n)),
                _ => Err(Fault::UndefinedSymbol(s)),
            },
            env,
        ),
        Term::List(items) => eval_list_term(items, env),
        Term::Pair(_, _) => (Err(Fault::UnsupportedForm), env),
    }
}

/// Evaluates the list `items` in `env` as a form.
pub open spec fn eval_list_term(items: Seq<Term>, env: Bindings) -> (
    Result<Term, Fault>,
    Bindings,
)
    decreases items, items.len() + 1,
{
    if items.len() == 0 {
        (Err(Fault::EmptyList), env)
    } else if head_op(items) is None {
        (Err(Fault::UnsupportedForm), env)
    } else {
        let n = items.len();
        match head_op(items).unwrap() {
            Op::Arith(Arith::Add) => fold_arith(Arith::Add, items, 1, env, 0),
            Op::Arith(Arith::Mul) => fold_arith(Arith::Mul, items, 1, env, 1),
            Op::Arith(op) => if n < 2 {
                (Err(Fault::ArityError), env)
            } else {
                let (r, env1) = eval_term(items[1], env);
                match r {
                    Ok(Term::Int(seed)) => fold_arith(op, items, 2, env1, seed),
                    Ok(_) => (Err(Fault::TypeMismatch), env1),
                    Err(f) => (Err(f), env1),
                }
            },
            Op::Equal => if n < 2 {
                (Err(Fault::ArityError), env)
            } else {
                let (r, env1) = eval_term(items[1], env);
                match r {
                    Ok(first) => all_equal(items, 2, env1, first),
                    Err(f) => (Err(f), env1),
                }
            },
            Op::Compare(o) => if n < 2 {
                (Err(Fault::ArityError), env)
            } else {
                let (r, env1) = eval_term(items[1], env);
                match r {
                    Ok(Term::Int(first)) => all_ordered(o, items, 2, env1, first),
                    Ok(_) => (Err(Fault::TypeMismatch), env1),
                    Err(f) => (Err(f), env1),
                }
            },
            Op::Car => if n != 2 {
                (Err(Fault::ArityError), env)
            } else {
                let (r, env1) = eval_term(items[1], env);
                (
                    match r {
                        Ok(Term::List(xs)) => if xs.len() > 0 {
                            Ok(xs[0])
                        } else {
                            Err(Fault::EmptyList)
                        },
                        Ok(_) => Err(Fault::NotAList),
                        Err(f) => Err(f),
                    },
                    env1,
                )
            },
            Op::Cdr => if n != 2 {
                (Err(Fault::ArityError), env)
            } else {
                let (r, env1) = eval_term(items[1], env);
                (
                    match r {
                        Ok(Term::List(xs)) => if xs.len() > 1 {
                            Ok(Term::List(xs.subrange(1, xs.len() as int)))
                        } else {
                            Err(Fault::EmptyList)
                        },
                        Ok(_) => Err(Fault::NotAList),
                        Err(f) => Err(f),
                    },
                    env1,
                )
            },
            Op::Cons => if n != 3 {
                (Err(Fault::ArityError), env)
            } else {
                let (r, env1) = eval_term(items[1], env);
                match r {
                    Ok(head) => {
                        let (r2, env2) = eval_term(items[2], env1);
                        (
                            match r2 {
                                Ok(Term::List(xs)) => Ok(Term::List(seq![head] + xs)),
                                Ok(_) => Err(Fault::NotAList),
                                Err(f) => Err(f),
                            },
                            env2,
                        )
                    },
                    Err(f) => (Err(f), env1),
                }
            },
            Op::Let => if n != 3 {
                (Err(Fault::ArityError), env)
            } else if !(items[1] is Symbol) {
                (Err(Fault::ExpectedSymbol), env)
            } else {
                let (r, env1) = eval_term(items[2], env);
                match r {
                    Ok(v) => (Ok(v), bind(env1, items[1]->Symbol_0, v)),
                    Err(f) => (Err(f), env1),
                }
            },
            Op::If => if n != 4 {
                (Err(Fault::ArityError), env)
            } else {
                let (r, env1) = eval_term(items[1], env);
                match r {
                    Ok(Term::Boolean(b)) => if b {
                        eval_term(items[2], env1)
                    } else {
                        eval_term(items[3], env1)
                    },
                    Ok(_) => (Err(Fault::TypeMismatch), env1),
                    Err(f) => (Err(f), env1),
                }
            },
        }
    }
}

/// Folds `op` over the values of `items` from index `i` on, starting from `acc`.
pub open spec fn fold_arith(op: Arith, items: Seq<Term>, i: nat, env: Bindings, acc: i32) -> (
    Result<Term, Fault>,
    Bindings,
)
    decreases items, items.len() - i,
{
    if i >= items.len() {
        (Ok(Term::Int(acc)), env)
    } else {
        let (r, env1) = eval_term(items[i as int], env);
        match r {
            Ok(Term::Int(n)) => match arith_step(op, acc, n) {
                Ok(v) => fold_arith(op, items, i + 1, env1, v),
                Err(f) => (Err(f), env1),
            },
            Ok(_) => (Err(Fault::TypeMismatch), env1),
            Err(f) => (Err(f), env1),
        }
    }
}

/// Whether the values of `items` from index `i` on all equal `first`; stops at the first that
/// does not.
pub open spec fn all_equal(items: Seq<Term>, i: nat, env: Bindings, first: Term) -> (
    Result<Term, Fault>,
    Bindings,
)
    decreases items, items.len() - i,
{
    if i >= items.len() {
        (Ok(Term::Boolean(true)), env)
    } else {
        let (r, env1) = eval_term(items[i as int], env);
        match r {
            Ok(v) => if v != first {
                (Ok(Term::Boolean(false)), env1)
            } else {
                all_equal(items, i + 1, env1, first)
            },
            Err(f) => (Err(f), env1),
        }
    }
}

/// Whether `first` stands in relation `o` to each value of `items` from index `i` on; stops at
/// the first that it does not.
pub open spec fn all_ordered(o: Order, items: Seq<Term>, i: nat, env: Bindings, first: i32) -> (
    Result<Term, Fault>,
    Bindings,
)
    decreases items, items.len() - i,
{
    if i >= items.len() {
        (Ok(Term::Boolean(true)), env)
    } else {
        let (r, env1) = eval_term(items[i as int], env);
        match r {
            Ok(Term::Int(n)) => if !holds(o, first, n) {
                (Ok(Term::Boolean(false)), env1)
            } else {
                all_ordered(o, items, i + 1, env1, first)
            },
            Ok(_) => (Err(Fault::TypeMismatch), env1),
            Err(f) => (Err(f), env1),
        }
    }
}

/// The value of an evaluation's outcome.
pub open spec fn outcome(r: Result<Expr, Error>) -> Result<Term, Fault> {
    match r {
        Ok(e) => Ok(e@),
        Err(e) => Err(e@),
    }
}

/// The built-in form that `name` names, if any.
fn operator(name: &str) -> (r: Option<Op>)
    ensures
        r == op_named(name@),
{
    if same_text(name, "+") {
        Some(Op::Arith(Arith::Add))
    } else if same_text(name, "-") {
        Some(Op::Arith(Arith::Sub))
    } else if same_text(name, "*") {
        Some(Op::Arith(Arith::Mul))
    } else if same_text(name, "/") {
        Some(Op::Arith(Arith::Div))
    } else if same_text(name, "=") {
        Some(Op::Equal)
    } else if same_text(name, "<") {
        Some(Op::Compare(Order::Less))
    } else if same_text(name, "<=") {
        Some(Op::Compare(Order::LessEq))
    } else if same_text(name, ">") {
        Some(Op::Compare(Order::Greater))
    } else if same_text(name, ">=") {
        Some(Op::Compare(Order::GreaterEq))
    } else if same_text(name, "car") {
        Some(Op::Car)
    } else if same_text(name, "cdr") {
        Some(Op::Cdr)
    } else if same_text(name, "cons") {
        Some(Op::Cons)
    } else if same_text(name, "let") {
        Some(Op::Let)
    } else if same_text(name, "if") {
        Some(Op::If)
    } else {
        None
    }
}

/// One step of an arithmetic fold.
fn step(op: &Arith, acc: i32, n: i32) -> (r: Result<i32, Error>)
    ensures
        match (r, arith_step(*op, acc, n)) {
            (Ok(v), Ok(w)) => v == w,
            (Err(e), Err(f)) => e@ == f,
            _ => false,
        },
{
    let r = match op {
        Arith::Add => acc.checked_add(n),
        Arith::Sub => acc.checked_sub(n),
        Arith::Mul => acc.checked_mul(n),
        Arith::Div => {
            if n == 0 {
                return Err(Error::DivisionByZero);
            }
            acc.checked_div(n)
        },
    };
    match r {
        Some(v) => Ok(v),
        None => Err(Error::Overflow),
    }
}

/// Whether `first` stands in relation `o` to `n`.
fn compare(o: &Order, first: i32, n: i32) -> (r: bool)
    ensures
        r == holds(*o, first, n),
{
    match o {
        Order::Less => first < n,
        Order::LessEq => first <= n,
        Order::Greater => first > n,
        Order::GreaterEq => first >= n,
    }
}

/// Evaluates `expr` in `env`: integers and booleans stand for themselves, a symbol for the
/// integer bound to it, a list for the built-in form that its head names.  `let` updates `env`
/// in place, which is why it is borrowed mutably: one evaluation at a time per environment.
pub fn eval(expr: &Expr, env: &mut Env) -> (r: Result<Expr, Error>)
    requires
        old(env).wf(),
    ensures
        final(env).wf(),
        (outcome(r), final(env)@) == eval_term(expr@, old(env)@),
    decreases expr, 3nat,
{
    match expr {
        Expr::Int(n) => Ok(Expr::Int(*n)),
        Expr::Boolean(b) => Ok(Expr::Boolean(*b)),
        Expr::Symbol(s) => match env.get(s.as_str()) {
            Some(Expr::Int(n)) => Ok(Expr::Int(n)),
            _ => Err(Error::UndefinedSymbol(s.clone())),
        },
        Expr::List(items) => {
            proof {
                lemma_list_term(*items);
            }
            eval_list(items, env)
        },
        Expr::Pair(_, _) => Err(Error::UnsupportedForm),
    }
}

/// Folds `op` over the values of `items` from index `start` on, starting from `seed`.
fn fold_ints(op: &Arith, items: &Vec<Expr>, start: usize, env: &mut Env, seed: i32) -> (r: Result<
    Expr,
    Error,
>)
    requires
        old(env).wf(),
        start <= items.len(),
    ensures
        final(env).wf(),
        (outcome(r), final(env)@) == fold_arith(*op, terms_of(items@), start as nat, old(env)@, seed),
    decreases items, 0nat,
{
    let ghost ts = terms_of(items@);
    let ghost env0 = env@;
    let mut acc = seed;
    let mut i = start;
    while i < items.len()
        invariant
            start <= i <= items.len(),
            env.wf(),
            ts == terms_of(items@),
            env0 == old(env)@,
            fold_arith(*op, ts, start as nat, env0, seed) == fold_arith(*op, ts, i as nat, env@, acc),
        decreases items.len() - i,
    {
        let ghost env_before = env@;
        let r = eval(&items[i], env);
        assert(eval_term(ts[i as int], env_before) == (outcome(r), env@));
        match r {
            Ok(Expr::Int(n)) => match step(op, acc, n) {
                Ok(v) => acc = v,
                Err(e) => return Err(e),
            },
            Ok(_) => return Err(Error::TypeMismatch),
            Err(e) => return Err(e),
        }
        i += 1;
    }
    Ok(Expr::Int(acc))
}

/// Whether the values of `items` from index `start` on all equal `first`.
fn equal_from(items: &Vec<Expr>, start: usize, env: &mut Env, first: &Expr) -> (r: Result<
    Expr,
    Error,
>)
    requires
        old(env).wf(),
        start <= items.len(),
    ensures
        final(env).wf(),
        (outcome(r), final(env)@) == all_equal(terms_of(items@), start as nat, old(env)@, first@),
    decreases items, 0nat,
{
    let ghost ts = terms_of(items@);
    let ghost env0 = env@;
    let mut i = start;
    while i < items.len()
        invariant
            start <= i <= items.len(),
            env.wf(),
            ts == terms_of(items@),
            env0 == old(env)@,
            all_equal(ts, start as nat, env0, first@) == all_equal(ts, i as nat, env@, first@),
        decreases items.len() - i,
    {
        let ghost env_before = env@;
        let r = eval(&items[i], env);
        assert(eval_term(ts[i as int], env_before) == (outcome(r), env@));
        match r {
            Ok(v) => {
                if !same(&v, first) {
                    return Ok(Expr::Boolean(false));
                }
            },
            Err(e) => return Err(e),
        }
        i += 1;
    }
    Ok(Expr::Boolean(true))
}

/// Whether `first` stands in relation `o` to each value of `items` from index `start` on.
fn ordered_from(o: &Order, items: &Vec<Expr>, start: usize, env: &mut Env, first: i32) -> (r:
    Result<Expr, Error>)
    requires
        old(env).wf(),
        start <= items.len(),
    ensures
        final(env).wf(),
        (outcome(r), final(env)@) == all_ordered(*o, terms_of(items@), start as nat, old(env)@, first),
    decreases items, 0nat,
{
    let ghost ts = terms_of(items@);
    let ghost env0 = env@;
    let mut i = start;
    while i < items.len()
        invariant
            start <= i <= items.len(),
            env.wf(),
            ts == terms_of(items@),
            env0 == old(env)@,
            all_ordered(*o, ts, start as nat, env0, first) == all_ordered(*o, ts, i as nat, env@, first),
        decreases items.len() - i,
    {
        let ghost env_before = env@;
        let r = eval(&items[i], env);
        assert(eval_term(ts[i as int], env_before) == (outcome(r), env@));
        match r {
            Ok(Expr::Int(n)) => {
                if !compare(o, first, n) {
                    return Ok(Expr::Boolean(false));
                }
            },
            Ok(_) => return Err(Error::TypeMismatch),
            Err(e) => return Err(e),
        }
        i += 1;
    }
    Ok(Expr::Boolean(true))
}

/// Evaluates the list `items` in `env` as a form.
fn eval_list(items: &Vec<Expr>, env: &mut Env) -> (r: Result<Expr, Error>)
    requires
        old(env).wf(),
    ensures
        final(env).wf(),
        (outcome(r), final(env)@) == eval_list_term(terms_of(items@), old(env)@),
    decreases items, 2nat,
{
    if items.len() == 0 {
        return Err(Error::EmptyList);
    }
    let op = match &items[0] {
        Expr::Symbol(name) => match operator(name.as_str()) {
            Some(op) => op,
            None => return Err(Error::UnsupportedForm),
        },
        _ => return Err(Error::UnsupportedForm),
    };
    match op {
        Op::Arith(a) => eval_arith(&a, items, env),
        Op::Equal => eval_equal(items, env),
        Op::Compare(o) => eval_compare(&o, items, env),
        Op::Car => eval_car(items, env),
        Op::Cdr => eval_cdr(items, env),
        Op::Cons => eval_cons(items, env),
        Op::Let => eval_let(items, env),
        Op::If => eval_if(items, env),
    }
}

/// Evaluates an arithmetic form.
fn eval_arith(a: &Arith, items: &Vec<Expr>, env: &mut Env) -> (r: Result<Expr, Error>)
    requires
        old(env).wf(),
        head_op(terms_of(items@)) == Some(Op::Arith(*a)),
    ensures
        final(env).wf(),
        (outcome(r), final(env)@) == eval_list_term(terms_of(items@), old(env)@),
    decreases items, 1nat,
{
    match a {
        Arith::Add => fold_ints(a, items, 1, env, 0),
        Arith::Mul => fold_ints(a, items, 1, env, 1),
        _ => {
            if items.len() < 2 {
                return Err(Error::ArityError);
            }
            match eval(&items[1], env) {
                Ok(Expr::Int(seed)) => fold_ints(a, items, 2, env, seed),
                Ok(_) => Err(Error::TypeMismatch),
                Err(e) => Err(e),
            }
        },
    }
}

/// Evaluates an `=` form.
fn eval_equal(items: &Vec<Expr>, env: &mut Env) -> (r: Result<Expr, Error>)
    requires
        old(env).wf(),
        head_op(terms_of(items@)) == Some(Op::Equal),
    ensures
        final(env).wf(),
        (outcome(r), final(env)@) == eval_list_term(terms_of(items@), old(env)@),
    decreases items, 1nat,
{
    if items.len() < 2 {
        return Err(Error::ArityError);
    }
    match eval(&items[1], env) {
        Ok(first) => equal_from(items, 2, env, &first),
        Err(e) => Err(e),
    }
}

/// Evaluates a relational form.
fn eval_compare(o: &Order, items: &Vec<Expr>, env: &mut Env) -> (r: Result<Expr, Error>)
    requires
        old(env).wf(),
        head_op(terms_of(items@)) == Some(Op::Compare(*o)),
    ensures
        final(env).wf(),
        (outcome(r), final(env)@) == eval_list_term(terms_of(items@), old(env)@),
    decreases items, 1nat,
{
    if items.len() < 2 {
        return Err(Error::ArityError);
    }
    match eval(&items[1], env) {
        Ok(Expr::Int(first)) => ordered_from(o, items, 2, env, first),
        Ok(_) => Err(Error::TypeMismatch),
        Err(e) => Err(e),
    }
}

/// Evaluates a `car` form.
fn eval_car(items: &Vec<Expr>, env: &mut Env) -> (r: Result<Expr, Error>)
    requires
        old(env).wf(),
        head_op(terms_of(items@)) == Some(Op::Car),
    ensures
        final(env).wf(),
        (outcome(r), final(env)@) == eval_list_term(terms_of(items@), old(env)@),
    decreases items, 1nat,
{
    if items.len() != 2 {
        return Err(Error::ArityError);
    }
    match eval(&items[1], env) {
        Ok(Expr::List(xs)) => {
            proof {
                lemma_list_term(xs);
            }
            if xs.len() > 0 {
                let mut xs = xs;
                Ok(xs.remove(0))
            } else {
                Err(Error::EmptyList)
            }
        },
        Ok(_) => Err(Error::NotAList),
        Err(e) => Err(e),
    }
}

/// Evaluates a `cdr` form.
fn eval_cdr(items: &Vec<Expr>, env: &mut Env) -> (r: Result<Expr, Error>)
    requires
        old(env).wf(),
        head_op(terms_of(items@)) == Some(Op::Cdr),
    ensures
        final(env).wf(),
        (outcome(r), final(env)@) == eval_list_term(terms_of(items@), old(env)@),
    decreases items, 1nat,
{
    if items.len() != 2 {
        return Err(Error::ArityError);
    }
    match eval(&items[1], env) {
        Ok(Expr::List(xs)) => {
            proof {
                lemma_list_term(xs);
            }
            if xs.len() > 1 {
                let mut xs = xs;
                let ghost before = xs@;
                xs.remove(0);
                proof {
                    lemma_list_term(xs);
                    assert(terms_of(xs@) =~= terms_of(before).subrange(1, before.len() as int));
                }
                Ok(Expr::List(xs))
            } else {
                Err(Error::EmptyList)
            }
        },
        Ok(_) => Err(Error::NotAList),
        Err(e) => Err(e),
    }
}

/// Evaluates a `cons` form.
fn eval_cons(items: &Vec<Expr>, env: &mut Env) -> (r: Result<Expr, Error>)
    requires
        old(env).wf(),
        head_op(terms_of(items@)) == Some(Op::Cons),
    ensures
        final(env).wf(),
        (outcome(r), final(env)@) == eval_list_term(terms_of(items@), old(env)@),
    decreases items, 1nat,
{
    if items.len() != 3 {
        return Err(Error::ArityError);
    }
    match eval(&items[1], env) {
        Ok(head) => match eval(&items[2], env) {
            Ok(Expr::List(xs)) => {
                proof {
                    lemma_list_term(xs);
                }
                let mut xs = xs;
                let ghost before = xs@;
                let ghost h = head@;
                xs.insert(0, head);
                proof {
                    lemma_list_term(xs);
                    assert(terms_of(xs@) =~= seq![h] + terms_of(before));
                }
                Ok(Expr::List(xs))
            },
            Ok(_) => Err(Error::NotAList),
            Err(e) => Err(e),
        },
        Err(e) => Err(e),
    }
}

/// Evaluates a `let` form.
fn eval_let(items: &Vec<Expr>, env: &mut Env) -> (r: Result<Expr, Error>)
    requires
        old(env).wf(),
        head_op(terms_of(items@)) == Some(Op::Let),
    ensures
        final(env).wf(),
        (outcome(r), final(env)@) == eval_list_term(terms_of(items@), old(env)@),
    decreases items, 1nat,
{
    if items.len() != 3 {
        return Err(Error::ArityError);
    }
    match &items[1] {
        Expr::Symbol(name) => match eval(&items[2], env) {
            Ok(v) => {
                env.set(name.clone(), duplicate(&v));
                Ok(v)
            },
            Err(e) => Err(e),
        },
        _ => Err(Error::ExpectedSymbol),
    }
}

/// Evaluates an `if` form.
fn eval_if(items: &Vec<Expr>, env: &mut Env) -> (r: Result<Expr, Error>)
    requires
        old(env).wf(),
        head_op(terms_of(items@)) == Some(Op::If),
    ensures
        final(env).wf(),
        (outcome(r), final(env)@) == eval_list_term(terms_of(items@), old(env)@),
    decreases items, 1nat,
{
    if items.len() != 4 {
        return Err(Error::ArityError);
    }
    match eval(&items[1], env) {
        Ok(Expr::Boolean(b)) => {
            if b {
                eval(&items[2], env)
            } else {
                eval(&items[3], env)
            }
        },
        Ok(_) => Err(Error::TypeMismatch),
        Err(e) => Err(e),
    }
}

/// The expression that the text `s` holds: its tokens must make up exactly one expression.
pub open spec fn read_term(s: Seq<char>) -> Result<Term, Fault> {
    let toks = lex(s);
    match parse_expr_at(toks, 0) {
        Ok((t, k)) => if k < toks.len() {
            Err(Fault::TrailingTokens)
        } else {
            Ok(t)
        },
        Err(f) => Err(f),
    }
}

/// Reads the program `s` and evaluates it in `env`: the result and the bindings afterwards.
pub open spec fn run(s: Seq<char>, env: Bindings) -> (Result<Term, Fault>, Bindings) {
    match read_term(s) {
        Ok(t) => eval_term(t, env),
        Err(f) => (Err(f), env),
    }
}

/// Reads one expression from `program` and evaluates it in `env`.
pub fn eval_str(program: &str, env: &mut Env) -> (r: Result<Expr, Error>)
    requires
        old(env).wf(),
    ensures
        final(env).wf(),
        (outcome(r), final(env)@) == run(program@, old(env)@),
{
    let tokens = tokenize(program);
    let slice = tokens.as_slice();
    assert(texts(slice@) == lex(program@));
    match parse(slice) {
        Ok((expr, rest)) => {
            if rest.len() != 0 {
                return Err(Error::TrailingTokens);
            }
            eval(&expr, env)
        },
        Err(e) => Err(e),
    }
}

} // verus!
