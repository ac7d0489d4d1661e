//! A persistent singly linked list. Extending a list allocates one node
//! that points at the old list, which stays valid for its other holders.
use std::rc::Rc;
use vstd::prelude::*;
use vstd::std_specs::cmp::PartialEqSpec;

verus! {

#[derive(Debug)]
pub enum List<A> {
    Nil,
    Cons(A, Rc<List<A>>),
}

impl<A> List<A> {
    /// The elements, head first.
    pub open spec fn elems(&self) -> Seq<A>
        decreases self,
    {
        match self {
            List::Nil => Seq::empty(),
            List::Cons(x, xs) => seq![*x] + xs.elems(),
        }
    }
}

impl<A> View for List<A> {
    type V = Seq<A>;

    open spec fn view(&self) -> Seq<A> {
        self.elems()
    }
}

/// `i` is the first position of `s` whose key equals `key`.
pub open spec fn first_match<A: PartialEq, B>(s: Seq<(A, B)>, key: A, i: int) -> bool {
    &&& 0 <= i < s.len()
    &&& s[i].0.eq_spec(&key)
    &&& forall|j: int| 0 <= j < i ==> !(#[trigger] s[j]).0.eq_spec(&key)
}

/// Some key of `s` equals `key`.
pub open spec fn has_key<A: PartialEq, B>(s: Seq<(A, B)>, key: A) -> bool {
    exists|i: int| 0 <= i < s.len() && (#[trigger] s[i]).0.eq_spec(&key)
}

/// Some element of `s` equals `key`.
pub open spec fn has_elem<A: PartialEq>(s: Seq<A>, key: A) -> bool {
    exists|i: int| 0 <= i < s.len() && (#[trigger] s[i]).eq_spec(&key)
}

impl<A: PartialEq, B> List<(A, B)> {
    /// The value of the pair nearest the head whose key equals `key`.
    pub fn lookup(&self, key: &A) -> (r: Option<&B>)
        ensures
            A::obeys_eq_spec() ==> match r {
                Some(v) => exists|i: int| first_match(self@, *key, i) && *v == self@[i].1,
                None => !has_key(self@, *key),
            },
        decreases self,
    {
        match self {
            List::Nil => None,
            List::Cons(p, xs) => {
                assert(self@[0] == *p);
                assert(forall|i: int| 0 < i < self@.len() ==> self@[i] == xs@[i - 1]);
                if p.0 == *key {
                    assert(A::obeys_eq_spec() ==> first_match(self@, *key, 0));
                    Some(&p.1)
                } else {
                    let r = xs.lookup(key);
                    proof {
                        if A::obeys_eq_spec() {
                            match r {
                                Some(v) => {
                                    let i = choose|i: int| first_match(xs@, *key, i) && *v == xs@[i].1;
                                    assert(first_match(self@, *key, i + 1)) by {
                                        assert forall|j: int| 0 <= j < i + 1 implies !(#[trigger] self@[j]).0.eq_spec(key) by {
                                            if j > 0 {
                                                assert(self@[j] == xs@[j - 1]);
                                            }
                                        }
                                    }
                                },
                                None => {
                                    assert forall|i: int| 0 <= i < self@.len() implies !(#[trigger] self@[i]).0.eq_spec(key) by {
                                        if i > 0 {
                                            assert(self@[i] == xs@[i - 1]);
                                        }
                                    }
                                },
                            }
                        }
                    }
                    r
                }
            },
        }
    }
}

impl<A: PartialEq> List<A> {
    /// Whether some element equals `key`.
    pub fn containes(&self, key: &A) -> (r: bool)
        ensures
            A::obeys_eq_spec() ==> r == has_elem(self@, *key),
        decreases self,
    {
        match self {
            List::Nil => false,
            List::Cons(x, xs) => {
                assert(self@[0] == *x);
                assert(forall|i: int| 0 < i < self@.len() ==> self@[i] == xs@[i - 1]);
                if *x == *key {
                    true
                } else {
                    let r = xs.containes(key);
                    proof {
                        if A::obeys_eq_spec() {
                            if r {
                                let i = choose|i: int| 0 <= i < xs@.len() && (#[trigger] xs@[i]).eq_spec(key);
                                assert(self@[i + 1] == xs@[i]);
                            } else {
                                assert forall|i: int| 0 <= i < self@.len() implies !(#[trigger] self@[i]).eq_spec(key) by {
                                    if i > 0 {
                                        assert(self@[i] == xs@[i - 1]);
                                    }
                                }
                            }
                        }
                    }
                    r
                }
            },
        }
    }
}

impl<A> List<A> {
    /// A new list that holds `f` of each element, in the same order.
    pub fn map<F, B>(xs: Rc<List<A>>, f: F) -> (r: List<B>) where F: Fn(&A) -> B
        requires
            forall|i: int| 0 <= i < xs@.len() ==> f.requires((&#[trigger] xs@[i],)),
        ensures
            r@.len() == xs@.len(),
            forall|i: int| 0 <= i < xs@.len() ==> f.ensures((&xs@[i],), #[trigger] r@[i]),
        decreases xs,
    {
        match &*xs {
            List::Nil => List::Nil,
            List::Cons(x, rest) => {
                assert(xs@[0] == *x);
                assert(forall|i: int| 0 <= i < rest@.len() ==> rest@[i] == xs@[i + 1]);
                let y = f(x);
                let ys = List::map(crate::shared::share(rest), f);
                let r = List::Cons(y, Rc::new(ys));
                assert(r@[0] == y);
                assert(forall|i: int| 0 < i < r@.len() ==> r@[i] == ys@[i - 1]);
                r
            },
        }
    }
}

} // verus!
