use vstd::prelude::*;

verus! {

/// The mathematical value of an expression tree.
pub enum Term {
    Int(i32),
    Boolean(bool),
    Symbol(Seq<char>),
    List(Seq<Term>),
    Pair(Box<Term>, Box<Term>),
}

/// An expression tree: what the parser builds and the evaluator reduces.
#[derive(Debug)]
pub enum Expr {
    Int(i32),
    Symbol(String),
    Boolean(bool),
    List(Vec<Expr>),
    Pair(Box<Expr>, Box<Expr>),
}

/// The term that an expression stands for.
pub open spec fn term_of(e: Expr) -> Term
    decreases e,
{
    match e {
        Expr::Int(n) => Term::Int(n),
        Expr::Symbol(s) => Term::Symbol(s@),
        Expr::Boolean(b) => Term::Boolean(b),
        Expr::List(items) => Term::List(
            Seq::new(
                items.len() as nat,
                |i: int|
                    if 0 <= i < items.len() {
                        term_of(items[i])
                    } else {
                        Term::Boolean(false)
                    },
            ),
        ),
        Expr::Pair(a, b) => Term::Pair(Box::new(term_of(*a)), Box::new(term_of(*b))),
    }
}

impl View for Expr {
    type V = Term;

    open spec fn view(&self) -> Term {
        term_of(*self)
    }
}

/// The terms of a sequence of expressions, element by element.
pub open spec fn terms_of(items: Seq<Expr>) -> Seq<Term> {
    Seq::new(items.len(), |i: int| items[i]@)
}

/// A list expression stands for the list of its items' terms.
pub proof fn lemma_list_term(items: Vec<Expr>)
    ensures
        Expr::List(items)@ == Term::List(terms_of(items@)),
{
    assert(Expr::List(items)@->List_0 =~= terms_of(items@));
}

/// A copy of `e` with the same value.
pub fn duplicate(e: &Expr) -> (r: Expr)
    ensures
        r@ == e@,
    decreases e,
{
    match e {
        Expr::Int(n) => Expr::Int(*n),
        Expr::Boolean(b) => Expr::Boolean(*b),
        Expr::Symbol(s) => Expr::Symbol(s.clone()),
        Expr::List(items) => {
            let r = duplicate_all(items);
            proof {
                lemma_list_term(*items);
                lemma_list_term(r);
            }
            Expr::List(r)
        },
        Expr::Pair(a, b) => Expr::Pair(Box::new(duplicate(a)), Box::new(duplicate(b))),
    }
}

/// A copy of each expression of `items`, in order.
pub fn duplicate_all(items: &Vec<Expr>) -> (r: Vec<Expr>)
    ensures
        terms_of(r@) == terms_of(items@),
    decreases items,
{
    let mut out: Vec<Expr> = Vec::new();
    let mut i: usize = 0;
    while i < items.len()
        invariant
            i <= items.len(),
            out@.len() == i,
            forall|k: int| 0 <= k < i ==> #[trigger] out@[k]@ == items@[k]@,
        decreases items.len() - i,
    {
        out.push(duplicate(&items[i]));
        i += 1;
    }
    assert(terms_of(out@) =~= terms_of(items@));
    out
}

impl Clone for Expr {
    fn clone(&self) -> (r: Expr)
        ensures
            r@ == self@,
    {
        duplicate(self)
    }
}

/// Whether two expressions have the same value.
pub fn same(a: &Expr, b: &Expr) -> (r: bool)
    ensures
        r == (a@ == b@),
    decreases a,
{
    match (a, b) {
        (Expr::Int(x), Expr::Int(y)) => *x == *y,
        (Expr::Boolean(x), Expr::Boolean(y)) => *x == *y,
        (Expr::Symbol(x), Expr::Symbol(y)) => *x == *y,
        (Expr::List(xs), Expr::List(ys)) => {
            proof {
                lemma_list_term(*xs);
                lemma_list_term(*ys);
            }
            same_all(xs, ys)
        },
        (Expr::Pair(a1, a2), Expr::Pair(b1, b2)) => same(a1, b1) && same(a2, b2),
        _ => false,
    }
}

/// Whether two sequences of expressions have the same values, element by element.
pub fn same_all(xs: &Vec<Expr>, ys: &Vec<Expr>) -> (r: bool)
    ensures
        r == (terms_of(xs@) == terms_of(ys@)),
    decreases xs,
{
    if xs.len() != ys.len() {
        assert(terms_of(xs@).len() != terms_of(ys@).len());
        return false;
    }
    let mut i: usize = 0;
    while i < xs.len()
        invariant
            i <= xs.len(),
            xs.len() == ys.len(),
            forall|k: int| 0 <= k < i ==> #[trigger] xs@[k]@ == ys@[k]@,
        decreases xs.len() - i,
    {
        if !same(&xs[i], &ys[i]) {
            assert(terms_of(xs@)[i as int] != terms_of(ys@)[i as int]);
            return false;
        }
        i += 1;
    }
    assert(terms_of(xs@) =~= terms_of(ys@));
    true
}

impl PartialEq for Expr {
    fn eq(&self, other: &Expr) -> (r: bool)
        ensures
            r == (self@ == other@),
    {
        same(self, other)
    }
}

impl vstd::std_specs::cmp::PartialEqSpecImpl for Expr {
    open spec fn obeys_eq_spec() -> bool {
        true
    }

    open spec fn eq_spec(&self, other: &Expr) -> bool {
        self@ == other@
    }
}

/// The decimal digit for `d`.
pub open spec fn digit_char(d: int) -> char {
    (('0' as int) + d) as char
}

/// The decimal digits of `m`, most significant first, with no leading zero.
pub open spec fn digits(m: nat) -> Seq<char>
    decreases m,
{
    if m < 10 {
        seq![digit_char(m as int)]
    } else {
        digits(m / 10).push(digit_char(m as int % 10))
    }
}

/// `n` written in decimal, with a `-` before a negative number.
pub open spec fn decimal(n: int) -> Seq<char> {
    if n < 0 {
        seq!['-'] + digits((-n) as nat)
    } else {
        digits(n as nat)
    }
}

/// How a term is written: integers in decimal, booleans as `#t` and `#f`, symbols by name, lists
/// in parentheses with their items separated by single spaces, and a pair as the `cons` form
/// that the parser reads back into it.
pub open spec fn render(t: Term) -> Seq<char>
    decreases t, 0nat,
{
    match t {
        Term::Int(n) => decimal(n as int),
        Term::Boolean(b) => if b {
            "#t"@
        } else {
            "#f"@
        },
        Term::Symbol(s) => s,
        Term::List(items) => "("@ + render_items(items, 0) + ")"@,
        Term::Pair(a, b) => "(cons "@ + render(*a) + " "@ + render(*b) + ")"@,
    }
}

/// How the items of `items` from index `i` on are written, each after a space but the first
/// item of all.
pub open spec fn render_items(items: Seq<Term>, i: nat) -> Seq<char>
    decreases items, items.len() - i,
{
    if i >= items.len() {
        Seq::empty()
    } else {
        (if i == 0 {
            Seq::empty()
        } else {
            " "@
        }) + render(items[i as int]) + render_items(items, i + 1)
    }
}

/// The text of one decimal digit.
fn digit_text(d: u32) -> (r: &'static str)
    requires
        d < 10,
    ensures
        r@ == seq![digit_char(d as int)],
{
    proof {
        reveal_strlit("0");
        reveal_strlit("1");
        reveal_strlit("2");
        reveal_strlit("3");
        reveal_strlit("4");
        reveal_strlit("5");
        reveal_strlit("6");
        reveal_strlit("7");
        reveal_strlit("8");
        reveal_strlit("9");
    }
    let r = match d {
        0 => "0",
        1 => "1",
        2 => "2",
        3 => "3",
        4 => "4",
        5 => "5",
        6 => "6",
        7 => "7",
        8 => "8",
        _ => "9",
    };
    assert(r@ =~= seq![digit_char(d as int)]);
    r
}

/// Appends the decimal digits of `m` to `out`.
fn push_digits(m: u32, out: &mut String)
    ensures
        final(out)@ == old(out)@ + digits(m as nat),
    decreases m,
{
    if m >= 10 {
        push_digits(m / 10, out);
    }
    out.append(digit_text(m % 10));
    assert(final(out)@ =~= old(out)@ + digits(m as nat));
}

/// Appends how `e` is written to `out`.
#[verifier::loop_isolation(false)]
fn render_into(e: &Expr, out: &mut String)
    ensures
        final(out)@ == old(out)@ + render(e@),
    decreases e,
{
    match e {
        Expr::Int(n) => {
            if *n < 0 {
                out.append("-");
                let m: u32 = if *n == i32::MIN {
                    0x8000_0000
                } else {
                    (-*n) as u32
                };
                push_digits(m, out);
                proof {
                    reveal_strlit("-");
                }
            } else {
                push_digits(*n as u32, out);
            }
            assert(final(out)@ =~= old(out)@ + render(e@));
        },
        Expr::Boolean(b) => {
            if *b {
                out.append("#t");
            } else {
                out.append("#f");
            }
        },
        Expr::Symbol(s) => out.append(s.as_str()),
        Expr::List(items) => {
            proof {
                lemma_list_term(*items);
            }
            let ghost ts = terms_of(items@);
            let ghost start = out@;
            out.append("(");
            let mut i: usize = 0;
            while i < items.len()
                invariant
                    i <= items.len(),
                    ts == terms_of(items@),
                    start + "("@ + render_items(ts, 0) == out@ + render_items(ts, i as nat),
                decreases items.len() - i,
            {
                let ghost before = out@;
                if i > 0 {
                    out.append(" ");
                }
                render_into(&items[i], out);
                assert(before + render_items(ts, i as nat) =~= out@ + render_items(ts, (i + 1) as nat));
                i += 1;
            }
            out.append(")");
            assert(final(out)@ =~= old(out)@ + render(e@));
        },
        Expr::Pair(a, b) => {
            out.append("(cons ");
            render_into(a, out);
            out.append(" ");
            render_into(b, out);
            out.append(")");
            assert(final(out)@ =~= old(out)@ + render(e@));
        },
    }
}

impl Expr {
    /// How the expression is written.
    pub fn expr_str(self) -> (r: String)
        ensures
            r@ == render(self@),
    {
        let mut out = String::new();
        render_into(&self, &mut out);
        assert(out@ =~= render(self@));
        out
    }
}

} // verus!
