use vstd::prelude::*;

use crate::error::{Error, Fault};
use crate::expr::{lemma_list_term, terms_of, Expr, Term};
use crate::text::same_text;
use crate::tokenize::texts;
use vstd::slice::slice_subrange;

verus! {

/// Whether `c` is a decimal digit.
pub open spec fn is_digit(c: char) -> bool {
    '0' <= c <= '9'
}

/// The value of the decimal digits `s`.
pub open spec fn digits_value(s: Seq<char>) -> int
    decreases s.len(),
{
    if s.len() == 0 {
        0
    } else {
        10 * digits_value(s.drop_last()) + (s.last() as int - '0' as int)
    }
}

/// The digits of a token, after its sign if it has one.
pub open spec fn unsigned_part(t: Seq<char>) -> Seq<char> {
    if t.len() > 0 && (t[0] == '-' || t[0] == '+') {
        t.drop_first()
    } else {
        t
    }
}

/// The 32-bit integer that `t` spells in decimal, with an optional `+` or `-` sign, if it spells
/// one that fits.
pub open spec fn int_literal(t: Seq<char>) -> Option<i32> {
    let body = unsigned_part(t);
    let v = if t.len() > 0 && t[0] == '-' {
        -digits_value(body)
    } else {
        digits_value(body)
    };
    if body.len() > 0 && (forall|k: int| 0 <= k < body.len() ==> is_digit(#[trigger] body[k]))
        && i32::MIN <= v <= i32::MAX {
        Some(v as i32)
    } else {
        None
    }
}

/// The term that a token other than a parenthesis stands for.
pub open spec fn atom(t: Seq<char>) -> Term {
    if t == "#t"@ {
        Term::Boolean(true)
    } else if t == "#f"@ {
        Term::Boolean(false)
    } else {
        match int_literal(t) {
            Some(n) => Term::Int(n),
            None => Term::Symbol(t),
        }
    }
}

/// The term that a parenthesized list of `items` stands for: a pair for a three-element list
/// headed by the symbol `cons`, else the list itself.
pub open spec fn close_list(items: Seq<Term>) -> Term {
    if items.len() == 3 && items[0] == Term::Symbol("cons"@) {
        Term::Pair(Box::new(items[1]), Box::new(items[2]))
    } else {
        Term::List(items)
    }
}

/// Parses one expression from `toks` at index `i`: the term and the index after it.
pub open spec fn parse_expr_at(toks: Seq<Seq<char>>, i: int) -> Result<(Term, int), Fault>
    decreases toks.len() - i, 0nat,
{
    if i < 0 || i >= toks.len() {
        Err(Fault::UnexpectedEndOfInput)
    } else if toks[i] == "("@ {
        parse_items_at(toks, i + 1, Seq::empty())
    } else if toks[i] == ")"@ {
        Err(Fault::UnmatchedCloseParen)
    } else {
        Ok((atom(toks[i]), i + 1))
    }
}

/// Parses the rest of a list from `toks` at index `i`, where `items` were read before, up to and
/// including its `)`.  (Each expression read moves the index forward; the test of that only
/// makes it evident.)
pub open spec fn parse_items_at(toks: Seq<Seq<char>>, i: int, items: Seq<Term>) -> Result<
    (Term, int),
    Fault,
>
    decreases toks.len() - i, 1nat,
{
    if i < 0 || i >= toks.len() {
        Err(Fault::UnexpectedEndOfInput)
    } else if toks[i] == ")"@ {
        Ok((close_list(items), i + 1))
    } else {
        match parse_expr_at(toks, i) {
            Ok((t, j)) => if i < j <= toks.len() {
                parse_items_at(toks, j, items.push(t))
            } else {
                Err(Fault::UnexpectedEndOfInput)
            },
            Err(f) => Err(f),
        }
    }
}

/// The value of `s` is never negative.
pub proof fn lemma_value_nonneg(s: Seq<char>)
    requires
        forall|k: int| 0 <= k < s.len() ==> is_digit(#[trigger] s[k]),
    ensures
        digits_value(s) >= 0,
    decreases s.len(),
{
    if s.len() > 0 {
        lemma_value_nonneg(s.drop_last());
    }
}

/// More digits never make a smaller value.
pub proof fn lemma_value_grows(s: Seq<char>, k: int)
    requires
        0 <= k <= s.len(),
        forall|m: int| 0 <= m < s.len() ==> is_digit(#[trigger] s[m]),
    ensures
        digits_value(s.subrange(0, k)) <= digits_value(s),
    decreases s.len(),
{
    if k == s.len() {
        assert(s.subrange(0, k) =~= s);
    } else {
        lemma_value_grows(s.drop_last(), k);
        assert(s.drop_last().subrange(0, k) =~= s.subrange(0, k));
        lemma_value_nonneg(s.drop_last());
    }
}

/// The 32-bit integer that `t` spells, if it spells one that fits.
pub fn parse_int(t: &str) -> (r: Option<i32>)
    ensures
        r == int_literal(t@),
{
    let ghost s = t@;
    let n = t.unicode_len();
    if n == 0 {
        return None;
    }
    let first = t.get_char(0);
    let negative = first == '-';
    let start: usize = if first == '-' || first == '+' {
        1
    } else {
        0
    };
    let ghost body = unsigned_part(s);
    assert(body =~= s.subrange(start as int, n as int));
    if start == n {
        return None;
    }
    let mut v: i64 = 0;
    let mut i: usize = start;
    while i < n
        invariant
            s == t@,
            n == s.len(),
            body == s.subrange(start as int, n as int),
            body == unsigned_part(s),
            start <= i <= n,
            0 <= v <= 0x8000_0000,
            v == digits_value(body.subrange(0, i - start)),
            forall|k: int| 0 <= k < i - start ==> is_digit(#[trigger] body[k]),
        decreases n - i,
    {
        let c = t.get_char(i);
        if !('0' <= c && c <= '9') {
            assert(!is_digit(body[i - start]));
            assert(!(forall|k: int| 0 <= k < body.len() ==> is_digit(#[trigger] body[k])));
            return None;
        }
        let d = (c as u32 - '0' as u32) as i64;
        assert(body.subrange(0, i + 1 - start).drop_last() =~= body.subrange(0, i - start));
        v = v * 10 + d;
        i += 1;
        assert(v == digits_value(body.subrange(0, i - start)));
        if v > 0x8000_0000 {
            proof {
                if forall|k: int| 0 <= k < body.len() ==> is_digit(#[trigger] body[k]) {
                    lemma_value_grows(body, i - start);
                }
            }
            return None;
        }
    }
    assert(body.subrange(0, n - start) =~= body);
    if negative {
        Some((-v) as i32)
    } else if v <= 0x7fff_ffff {
        Some(v as i32)
    } else {
        None
    }
}

/// The expression that a token other than a parenthesis stands for.
fn atom_expr(t: &String) -> (r: Expr)
    ensures
        r@ == atom(t@),
{
    if same_text(t.as_str(), "#t") {
        Expr::Boolean(true)
    } else if same_text(t.as_str(), "#f") {
        Expr::Boolean(false)
    } else {
        match parse_int(t.as_str()) {
            Some(n) => Expr::Int(n),
            None => Expr::Symbol(t.clone()),
        }
    }
}

/// The expression that a parenthesized list of `items` stands for.
fn close(items: Vec<Expr>) -> (r: Expr)
    ensures
        r@ == close_list(terms_of(items@)),
{
    proof {
        lemma_list_term(items);
    }
    let is_cons = items.len() == 3 && match &items[0] {
        Expr::Symbol(s) => same_text(s.as_str(), "cons"),
        _ => false,
    };
    if is_cons {
        let mut items = items;
        let second = items.pop().unwrap();
        let first = items.pop().unwrap();
        Expr::Pair(Box::new(first), Box::new(second))
    } else {
        Expr::List(items)
    }
}

/// Parses one expression from `tokens` at index `i`: the expression and the index after it.
fn read_at(tokens: &[String], i: usize) -> (r: Result<(Expr, usize), Error>)
    requires
        i <= tokens@.len(),
    ensures
        match (r, parse_expr_at(texts(tokens@), i as int)) {
            (Ok((e, j)), Ok((t, k))) => e@ == t && j == k && i < j <= tokens@.len(),
            (Err(e), Err(f)) => e@ == f,
            _ => false,
        },
    decreases tokens@.len() - i,
{
    let ghost toks = texts(tokens@);
    proof {
        reveal_strlit("(");
        reveal_strlit(")");
    }
    if i >= tokens.len() {
        return Err(Error::UnexpectedEndOfInput);
    }
    if same_text(tokens[i].as_str(), ")") {
        return Err(Error::UnmatchedCloseParen);
    }
    if !same_text(tokens[i].as_str(), "(") {
        return Ok((atom_expr(&tokens[i]), i + 1));
    }
    let mut items: Vec<Expr> = Vec::new();
    let mut k: usize = i + 1;
    assert(terms_of(items@) =~= Seq::<Term>::empty());
    while k < tokens.len()
        invariant
            i < k <= tokens@.len(),
            toks == texts(tokens@),
            toks[i as int] == "("@,
            parse_expr_at(toks, i as int) == parse_items_at(toks, k as int, terms_of(items@)),
        decreases tokens@.len() - k,
    {
        if same_text(tokens[k].as_str(), ")") {
            return Ok((close(items), k + 1));
        }
        match read_at(tokens, k) {
            Ok((e, j)) => {
                let ghost before = items@;
                let ghost t = e@;
                items.push(e);
                assert(terms_of(items@) =~= terms_of(before).push(t));
                k = j;
            },
            Err(e) => return Err(e),
        }
    }
    Err(Error::UnexpectedEndOfInput)
}

/// Parses one expression from the front of `tokens`: the expression and the tokens after it.
pub fn parse(tokens: &[String]) -> (r: Result<(Expr, &[String]), Error>)
    ensures
        match (r, parse_expr_at(texts(tokens@), 0)) {
            (Ok((e, rest)), Ok((t, k))) => {
                &&& e@ == t
                &&& 0 < k <= tokens@.len()
                &&& rest@ == tokens@.subrange(k, tokens@.len() as int)
            },
            (Err(e), Err(f)) => e@ == f,
            _ => false,
        },
{
    match read_at(tokens, 0) {
        Ok((e, j)) => Ok((e, slice_subrange(tokens, j, tokens.len()))),
        Err(e) => Err(e),
    }
}

} // verus!
