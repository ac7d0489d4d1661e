//! The values that evaluation produces, and the environments that bind them.
use crate::list::{first_match, has_key, List};
use crate::name::{Ident, Name};
use crate::semantics::{lemma_lookup_first, lookup};
use crate::term::{Term, TmRef};
use std::rc::Rc;
use vstd::prelude::*;

verus! {

/// A value as contracts see it.
pub enum Value {
    /// A variable that stands for itself.
    Var(Ident),
    /// An application that is stuck because its head is no closure.
    App(Box<Value>, Box<Value>),
    /// A closure: the parameter, the body, and the bindings in force where
    /// the abstraction was evaluated, nearest first.
    Lam(Ident, Box<Term>, Seq<(Ident, Value)>),
}

/// An environment as contracts see it: the bindings, nearest first.
pub type Scope = Seq<(Ident, Value)>;

/// A value. A closure holds the abstraction's parameter and body and the
/// environment it was met in; applying it evaluates the body with the
/// parameter bound in front of that environment.
#[derive(Debug)]
pub enum Val {
    VVar(Name),
    VApp(ValRef, ValRef),
    VLam(Name, TmRef, Env),
}

pub type ValRef = Rc<Val>;

pub type Env = Rc<List<(Name, ValRef)>>;

impl Val {
    pub open spec fn model(&self) -> Value
        decreases self,
    {
        match self {
            Val::VVar(x) => Value::Var(x@),
            Val::VApp(t, u) => Value::App(Box::new(t.model()), Box::new(u.model())),
            Val::VLam(x, b, env) => Value::Lam(x@, Box::new(b@), env_model(env)),
        }
    }
}

/// The bindings of `env`, each name as its text and each value as its model.
pub open spec fn env_model(env: &List<(Name, ValRef)>) -> Scope
    decreases env,
{
    match env {
        List::Nil => Seq::empty(),
        List::Cons(p, rest) => seq![(p.0@, p.1.model())] + env_model(rest),
    }
}

impl View for Val {
    type V = Value;

    open spec fn view(&self) -> Value {
        self.model()
    }
}

/// The texts of the names in `ns`, in order.
pub open spec fn names_model(ns: &List<Name>) -> Seq<Ident> {
    ns@.map_values(|n: Name| n@)
}

/// `env_model` goes through the list position by position.
pub proof fn lemma_env_model_index(env: &List<(Name, ValRef)>)
    ensures
        env_model(env).len() == env@.len(),
        forall|i: int|
            0 <= i < env@.len() ==> (#[trigger] env_model(env)[i]) == (env@[i].0@, env@[i].1@),
    decreases env,
{
    match env {
        List::Nil => {},
        List::Cons(p, rest) => {
            lemma_env_model_index(&**rest);
            assert forall|i: int| 0 <= i < env@.len() implies (#[trigger] env_model(env)[i]) == (
                env@[i].0@,
                env@[i].1@,
            ) by {
                if i > 0 {
                    assert(env_model(env)[i] == env_model(rest)[i - 1]);
                    assert(env@[i] == rest@[i - 1]);
                }
            }
        },
    }
}

/// What `List::lookup` finds in an environment is what the model's
/// `lookup` finds in its model.
pub proof fn lemma_lookup_model(env: &List<(Name, ValRef)>, x: &Name, found: Option<&ValRef>)
    requires
        match found {
            Some(v) => exists|i: int| first_match(env@, *x, i) && *v == env@[i].1,
            None => !has_key(env@, *x),
        },
    ensures
        match found {
            Some(v) => lookup(env_model(env), x@) == Some(v@),
            None => lookup(env_model(env), x@) is None,
        },
{
    let scope = env_model(env);
    lemma_env_model_index(env);
    lemma_lookup_first(scope, x@);
    match found {
        Some(v) => {
            let i = choose|i: int| first_match(env@, *x, i) && *v == env@[i].1;
            assert(scope[i].0 == x@);
            assert forall|j: int| 0 <= j < i implies (#[trigger] scope[j]).0 != x@ by {
                assert(env@[j].0@ != x@);
            }
        },
        None => {
            assert forall|i: int| 0 <= i < scope.len() implies (#[trigger] scope[i]).0 != x@ by {
                assert(env@[i].0@ != x@);
            }
        },
    }
}

/// The empty environment.
pub fn empty_env() -> (r: Env)
    ensures
        env_model(&r) == Seq::<(Ident, Value)>::empty(),
{
    Rc::new(List::Nil)
}

/// `env` with `x` bound to `v` in front, so that it hides any earlier
/// binding of `x`. `env` itself is unchanged.
pub fn extend(env: Env, x: Name, v: ValRef) -> (r: Env)
    ensures
        env_model(&r) == seq![(x@, v@)] + env_model(&env),
{
    Rc::new(List::Cons((x, v), env))
}

} // verus!
