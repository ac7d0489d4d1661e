//! The syntax of the lambda calculus.
use crate::name::{Ident, Name};
use std::rc::Rc;
use vstd::prelude::*;
use vstd::string::*;

verus! {

/// A term as contracts see it: the shape, with each name as its text.
pub enum Term {
    Var(Ident),
    Lam(Ident, Box<Term>),
    App(Box<Term>, Box<Term>),
}

impl Term {
    /// The text that the term is printed as. An abstraction is closed by
    /// two brackets for the one it opens with.
    pub open spec fn rendering(self) -> Seq<char>
        decreases self,
    {
        match self {
            Term::Var(x) => x,
            Term::Lam(x, b) => "(fun "@ + x + " -> "@ + b.rendering() + "))"@,
            Term::App(f, a) => "("@ + f.rendering() + " "@ + a.rendering() + ")"@,
        }
    }

    /// The word for the outermost form of the term.
    pub open spec fn kind_name(self) -> Seq<char> {
        match self {
            Term::Var(_) => "var"@,
            Term::Lam(_, _) => "lam"@,
            Term::App(_, _) => "app"@,
        }
    }
}

/// A term. Subterms are shared and never change once built.
#[derive(Debug)]
pub enum Tm {
    Var(Name),
    Lam(Name, TmRef),
    App(TmRef, TmRef),
}

pub type TmRef = Rc<Tm>;

impl Tm {
    pub open spec fn model(&self) -> Term
        decreases self,
    {
        match self {
            Tm::Var(x) => Term::Var(x@),
            Tm::Lam(x, t) => Term::Lam(x@, Box::new(t.model())),
            Tm::App(t, u) => Term::App(Box::new(t.model()), Box::new(u.model())),
        }
    }
}

impl Tm {
    /// The term as text: a variable as its name, an abstraction as
    /// `(fun x -> body))`, an application as `(f a)`.
    pub fn render(&self) -> (r: String)
        ensures
            r@ == self@.rendering(),
        decreases self,
    {
        match self {
            Tm::Var(x) => x.as_str().to_owned(),
            Tm::Lam(x, t) => {
                let body = t.render();
                let mut s = "(fun ".to_owned();
                s.append(x.as_str());
                s.append(" -> ");
                s.append(body.as_str());
                s.append("))");
                s
            },
            Tm::App(t, u) => {
                let left = t.render();
                let right = u.render();
                let mut s = "(".to_owned();
                s.append(left.as_str());
                s.append(" ");
                s.append(right.as_str());
                s.append(")");
                s
            },
        }
    }

    /// The word for the outermost form: `lam`, `var` or `app`.
    pub fn kind(&self) -> (r: &'static str)
        ensures
            r@ == self@.kind_name(),
    {
        match self {
            Tm::Lam(_, _) => "lam",
            Tm::Var(_) => "var",
            Tm::App(_, _) => "app",
        }
    }
}

impl View for Tm {
    type V = Term;

    open spec fn view(&self) -> Term {
        self.model()
    }
}

/// The variable named `x`.
pub fn var(x: &str) -> (r: TmRef)
    ensures
        r@ == Term::Var(x@),
{
    Rc::new(Tm::Var(Name::new(x)))
}

/// The application of `t` to `u`.
pub fn app(t: TmRef, u: TmRef) -> (r: TmRef)
    ensures
        r@ == Term::App(Box::new(t@), Box::new(u@)),
{
    Rc::new(Tm::App(t, u))
}

/// The abstraction that binds `x` in `t`.
pub fn lam(x: &str, t: TmRef) -> (r: TmRef)
    ensures
        r@ == Term::Lam(x@, Box::new(t@)),
{
    Rc::new(Tm::Lam(Name::new(x), t))
}

} // verus!
