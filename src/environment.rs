use vstd::prelude::*;

use crate::expr::{duplicate, Expr, Term};
use crate::text::same_text;

verus! {

/// The contents of an environment: its bindings of names to values, in order.
pub type Bindings = Seq<(Seq<char>, Term)>;

/// No name is bound twice.
pub open spec fn unique_names(b: Bindings) -> bool {
    forall|i: int, j: int|
        0 <= i < b.len() && 0 <= j < b.len() && i != j ==> #[trigger] b[i].0 != #[trigger] b[j].0
}

/// Where `name` is bound in `b`, if it is.
pub open spec fn position(b: Bindings, name: Seq<char>) -> Option<int> {
    if exists|i: int| 0 <= i < b.len() && b[i].0 == name {
        Some(choose|i: int| 0 <= i < b.len() && b[i].0 == name)
    } else {
        None
    }
}

/// The value bound to `name` in `b`, if any.
pub open spec fn lookup(b: Bindings, name: Seq<char>) -> Option<Term> {
    match position(b, name) {
        Some(i) => Some(b[i].1),
        None => None,
    }
}

/// `b` with `name` bound to `value`: in place where `name` is already bound, else at the end.
pub open spec fn bind(b: Bindings, name: Seq<char>, value: Term) -> Bindings {
    match position(b, name) {
        Some(i) => b.update(i, (name, value)),
        None => b.push((name, value)),
    }
}

/// Where the name at index `k` of bindings with unique names is found.
pub proof fn lemma_position_at(b: Bindings, k: int)
    requires
        unique_names(b),
        0 <= k < b.len(),
    ensures
        position(b, b[k].0) == Some(k),
{
    let i = choose|i: int| 0 <= i < b.len() && b[i].0 == b[k].0;
    assert(b[i].0 == b[k].0);
}

/// Binding keeps names unique.
pub proof fn lemma_bind_unique(b: Bindings, name: Seq<char>, value: Term)
    requires
        unique_names(b),
    ensures
        unique_names(bind(b, name, value)),
{
    let r = bind(b, name, value);
    match position(b, name) {
        Some(k) => {
            let i = choose|i: int| 0 <= i < b.len() && b[i].0 == name;
            assert forall|p: int, q: int|
                0 <= p < r.len() && 0 <= q < r.len() && p != q implies #[trigger] r[p].0
                != #[trigger] r[q].0 by {
                assert(r[p].0 == b[p].0);
                assert(r[q].0 == b[q].0);
            }
        },
        None => {
            assert forall|p: int, q: int|
                0 <= p < r.len() && 0 <= q < r.len() && p != q implies #[trigger] r[p].0
                != #[trigger] r[q].0 by {
                if p == b.len() {
                    assert(b[q].0 != name);
                } else if q == b.len() {
                    assert(b[p].0 != name);
                }
            }
        },
    }
}

/// The one environment of a session: a store of names bound to values.
pub struct Env {
    bindings: Vec<(String, Expr)>,
}

impl View for Env {
    type V = Bindings;

    closed spec fn view(&self) -> Bindings {
        Seq::new(self.bindings@.len(), |i: int| (self.bindings@[i].0@, self.bindings@[i].1@))
    }
}

/// The value of an optional expression.
pub open spec fn option_term(r: Option<Expr>) -> Option<Term> {
    match r {
        Some(e) => Some(e@),
        None => None,
    }
}

impl Env {
    /// Whether the environment is well formed: no name is bound twice.
    pub open spec fn wf(&self) -> bool {
        unique_names(self@)
    }

    /// An environment with no bindings.
    pub fn new() -> (r: Env)
        ensures
            r.wf(),
            r@ == Seq::<(Seq<char>, Term)>::empty(),
    {
        let r = Env { bindings: Vec::new() };
        assert(r@ =~= Seq::<(Seq<char>, Term)>::empty());
        r
    }

    /// Where `name` is bound, if it is.
    fn find(&self, name: &str) -> (r: Option<usize>)
        requires
            self.wf(),
        ensures
            match r {
                Some(k) => k < self@.len() && position(self@, name@) == Some(k as int),
                None => position(self@, name@) is None,
            },
    {
        let mut i: usize = 0;
        while i < self.bindings.len()
            invariant
                i <= self.bindings@.len(),
                self@.len() == self.bindings@.len(),
                self.wf(),
                forall|k: int| 0 <= k < i ==> #[trigger] self@[k].0 != name@,
            decreases self.bindings.len() - i,
        {
            if same_text(self.bindings[i].0.as_str(), name) {
                proof {
                    assert(self@[i as int].0 == name@);
                    lemma_position_at(self@, i as int);
                }
                return Some(i);
            }
            i += 1;
        }
        None
    }

    /// Binds `name` to `value`: overwrites the binding where `name` is bound, appends one where
    /// it is not.
    pub fn set(&mut self, name: String, value: Expr)
        requires
            old(self).wf(),
        ensures
            final(self).wf(),
            final(self)@ == bind(old(self)@, name@, value@),
    {
        proof {
            lemma_bind_unique(self@, name@, value@);
        }
        let ghost before = self@;
        match self.find(name.as_str()) {
            Some(index) => {
                self.bindings.set(index, (name, value));
                assert(self@ =~= bind(before, name@, value@));
            },
            None => {
                self.bindings.push((name, value));
                assert(self@ =~= bind(before, name@, value@));
            },
        }
    }

    /// A copy of the value bound to `name`, if any.
    pub fn get(&self, name: &str) -> (r: Option<Expr>)
        requires
            self.wf(),
        ensures
            option_term(r) == lookup(self@, name@),
    {
        match self.find(name) {
            Some(index) => Some(duplicate(&self.bindings[index].1)),
            None => None,
        }
    }
}

} // verus!
