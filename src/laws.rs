use vstd::prelude::*;

use crate::environment::{bind, lemma_bind_unique, lookup, position, unique_names, Bindings};
use crate::error::Fault;
use crate::eval::{eval_list_term, eval_term, fold_arith, lemma_op_names, Arith};
use crate::expr::Term;
use crate::parse::{parse_expr_at, parse_items_at};

verus! {

/// The form `(op a b)` on two integer literals.
pub open spec fn binary_form(op: Seq<char>, a: i32, b: i32) -> Term {
    Term::List(seq![Term::Symbol(op), Term::Int(a), Term::Int(b)])
}

/// The outcome of an integer result that must fit in 32 bits.
pub open spec fn fitted(v: int) -> Result<Term, Fault> {
    if i32::MIN <= v <= i32::MAX {
        Ok(Term::Int(v as i32))
    } else {
        Err(Fault::Overflow)
    }
}

/// `(+ a b)` evaluates to `a + b`, `(* a b)` to `a * b` and `(- a b)` to `a - b`, or fails with
/// an overflow where the result does not fit; `(/ a 0)` fails with a division by zero.  None of
/// them changes the environment.
pub proof fn lemma_binary_arith(a: i32, b: i32, env: Bindings)
    ensures
        eval_term(binary_form("+"@, a, b), env) == (fitted(a + b), env),
        eval_term(binary_form("*"@, a, b), env) == (fitted(a * b), env),
        eval_term(binary_form("-"@, a, b), env) == (fitted(a - b), env),
        eval_term(binary_form("/"@, a, 0), env) == (Err::<Term, Fault>(Fault::DivisionByZero), env),
{
    lemma_op_names();
    reveal_with_fuel(fold_arith, 4);
    let add = binary_form("+"@, a, b);
    let mul = binary_form("*"@, a, b);
    let sub = binary_form("-"@, a, b);
    let div = binary_form("/"@, a, 0);
    assert(eval_term(add->List_0[1], env) == (Ok::<Term, Fault>(Term::Int(a)), env));
    assert(eval_term(add->List_0[2], env) == (Ok::<Term, Fault>(Term::Int(b)), env));
    assert(eval_term(mul->List_0[1], env) == (Ok::<Term, Fault>(Term::Int(a)), env));
    assert(eval_term(mul->List_0[2], env) == (Ok::<Term, Fault>(Term::Int(b)), env));
    assert(eval_term(sub->List_0[1], env) == (Ok::<Term, Fault>(Term::Int(a)), env));
    assert(eval_term(sub->List_0[2], env) == (Ok::<Term, Fault>(Term::Int(b)), env));
    assert(eval_term(div->List_0[1], env) == (Ok::<Term, Fault>(Term::Int(a)), env));
    assert(eval_term(div->List_0[2], env) == (Ok::<Term, Fault>(Term::Int(0)), env));
    assert(fold_arith(Arith::Add, add->List_0, 2, env, a) == (fitted(a + b), env));
    assert(fold_arith(Arith::Add, add->List_0, 1, env, 0) == fold_arith(Arith::Add, add->List_0, 2, env, a));
    assert(fold_arith(Arith::Mul, mul->List_0, 2, env, a) == (fitted(a * b), env));
    assert(fold_arith(Arith::Mul, mul->List_0, 1, env, 1) == fold_arith(Arith::Mul, mul->List_0, 2, env, a));
    assert(fold_arith(Arith::Sub, sub->List_0, 2, env, a) == (fitted(a - b), env));
    assert(fold_arith(Arith::Div, div->List_0, 2, env, a) == (Err::<Term, Fault>(Fault::DivisionByZero), env));
}

/// Binds `name` to `v` with `let`, then looks `name` up in the resulting bindings: the `let`
/// form and the lookup.
pub open spec fn let_then_get(name: Seq<char>, v: i32, env: Bindings) -> (
    Result<Term, Fault>,
    Result<Term, Fault>,
    Bindings,
) {
    let (r, env1) = eval_term(
        Term::List(seq![Term::Symbol("let"@), Term::Symbol(name), Term::Int(v)]),
        env,
    );
    (r, eval_term(Term::Symbol(name), env1).0, env1)
}

/// `(let x v)` evaluates to `v`, after which `x` evaluates to `v`.  A name that was already bound
/// is overwritten in place: the number of bindings stays the same, so a later `let` of the
/// same name is not shadowed by the earlier one.
pub proof fn lemma_let_then_lookup(name: Seq<char>, v: i32, env: Bindings)
    requires
        unique_names(env),
    ensures
        let_then_get(name, v, env).0 == Ok::<Term, Fault>(Term::Int(v)),
        let_then_get(name, v, env).1 == Ok::<Term, Fault>(Term::Int(v)),
        unique_names(let_then_get(name, v, env).2),
        lookup(env, name) is Some ==> let_then_get(name, v, env).2.len() == env.len(),
        lookup(env, name) is None ==> let_then_get(name, v, env).2.len() == env.len() + 1,
{
    lemma_op_names();
    let form = Term::List(seq![Term::Symbol("let"@), Term::Symbol(name), Term::Int(v)]);
    assert(eval_term(form->List_0[2], env) == (Ok::<Term, Fault>(Term::Int(v)), env));
    assert(eval_term(form, env) == eval_list_term(form->List_0, env));
    let env1 = bind(env, name, Term::Int(v));
    assert(eval_term(form, env) == (Ok::<Term, Fault>(Term::Int(v)), env1));
    lemma_bind_unique(env, name, Term::Int(v));
    match position(env, name) {
        Some(i) => {
            assert(env1[i].0 == name);
        },
        None => {
            assert(env1[env.len() as int].0 == name);
        },
    }
}

/// `car` of an argument that evaluates to a list gives the list's first item, or fails with an
/// empty-list error where the list is empty; what evaluating the argument did to the
/// environment stays.
pub proof fn lemma_car(arg: Term, env: Bindings)
    requires
        eval_term(arg, env).0 is Ok,
        eval_term(arg, env).0->Ok_0 is List,
    ensures
        ({
            let (r, env1) = eval_term(arg, env);
            let xs = r->Ok_0->List_0;
            eval_term(Term::List(seq![Term::Symbol("car"@), arg]), env) == (
                if xs.len() >= 1 {
                    Ok::<Term, Fault>(xs[0])
                } else {
                    Err(Fault::EmptyList)
                },
                env1,
            )
        }),
{
    lemma_op_names();
    let form = Term::List(seq![Term::Symbol("car"@), arg]);
    assert(form->List_0[1] == arg);
    assert(eval_term(form, env) == eval_list_term(form->List_0, env));
}

/// A symbol with no binding fails to evaluate, with an error that names it.
pub proof fn lemma_undefined_symbol(name: Seq<char>, env: Bindings)
    requires
        lookup(env, name) is None,
    ensures
        eval_term(Term::Symbol(name), env) == (
            Err::<Term, Fault>(Fault::UndefinedSymbol(name)),
            env,
        ),
{
}

/// The expression that parsing yields is never a list of three items headed by the symbol
/// `cons`: such a form is read as a pair.
pub proof fn lemma_cons_form_is_pair(toks: Seq<Seq<char>>, i: int)
    ensures
        parse_expr_at(toks, i) matches Ok((t, _)) ==> !is_cons_list(t),
    decreases toks.len() - i, 0nat,
{
    if 0 <= i < toks.len() && toks[i] == "("@ {
        lemma_items_cons_form_is_pair(toks, i + 1, Seq::empty());
    }
}

/// Whether `t` is a list of three items headed by the symbol `cons`.
pub open spec fn is_cons_list(t: Term) -> bool {
    t matches Term::List(items) && items.len() == 3 && items[0] == Term::Symbol("cons"@)
}

/// The rest of a list, once parsed, is never a list of three items headed by `cons`.
pub proof fn lemma_items_cons_form_is_pair(toks: Seq<Seq<char>>, i: int, items: Seq<Term>)
    ensures
        parse_items_at(toks, i, items) matches Ok((t, _)) ==> !is_cons_list(t),
    decreases toks.len() - i, 1nat,
{
    if 0 <= i < toks.len() && toks[i] != ")"@ {
        match parse_expr_at(toks, i) {
            Ok((t, j)) => {
                if i < j <= toks.len() {
                    lemma_items_cons_form_is_pair(toks, j, items.push(t));
                }
            },
            Err(_) => {},
        }
    }
}

} // verus!
