//! Evaluation: from a term and an environment to a value.
use crate::name::Name;
use crate::shared::share;
use crate::semantics;
use crate::semantics::Failure;
use crate::term::{Tm, TmRef};
use crate::value::{env_model, extend, lemma_lookup_model, Env, Val, ValRef, Value};
use std::rc::Rc;
use vstd::prelude::*;

verus! {

/// Why a call gave no result.
#[derive(Debug)]
pub enum EvalError {
    /// The term refers to this name, and the environment does not bind it.
    Unbound(Name),
    /// The recursion would have gone deeper than the budget allows.
    Exhausted,
}

impl View for EvalError {
    type V = Failure;

    open spec fn view(&self) -> Failure {
        match self {
            EvalError::Unbound(x) => Failure::Unbound(x@),
            EvalError::Exhausted => Failure::Exhausted,
        }
    }
}

/// The result of a call that gives a value, as contracts see it.
pub open spec fn value_outcome(r: Result<ValRef, EvalError>) -> Result<Value, Failure> {
    match r {
        Ok(v) => Ok(v@),
        Err(e) => Err(e@),
    }
}

/// The value of `tm` under `env`, computed to a depth of at most `fuel`.
///
/// A variable has the value of its nearest binding, and is an error where
/// `env` does not bind it. An abstraction becomes a closure over `env`. In
/// an application the operator is evaluated first, then the operand, then
/// the one is applied to the other.
pub fn eval(tm: TmRef, env: Env, fuel: usize) -> (r: Result<ValRef, EvalError>)
    ensures
        value_outcome(r) == semantics::eval(tm@, env_model(&env), fuel as nat),
    decreases fuel, 0nat,
{
    if fuel == 0 {
        return Err(EvalError::Exhausted);
    }
    match &*tm {
        Tm::Var(x) => {
            let found = env.lookup(x);
            proof {
                lemma_lookup_model(&*env, x, found);
            }
            match found {
                Some(v) => Ok(share(v)),
                None => Err(EvalError::Unbound(x.clone())),
            }
        },
        Tm::App(t, u) => {
            match eval(share(t), share(&env), fuel - 1) {
                Err(e) => Err(e),
                Ok(vt) => match eval(share(u), share(&env), fuel - 1) {
                    Err(e) => Err(e),
                    Ok(vu) => vApp(vt, vu, fuel - 1),
                },
            }
        },
        Tm::Lam(x, t) => Ok(Rc::new(Val::VLam(x.clone(), share(t), env))),
    }
}

/// `t` applied to `u`, computed to a depth of at most `fuel`.
///
/// A closure evaluates its body with its parameter bound to `u` in front
/// of the environment it holds. Any other value cannot take an argument,
/// and the application is kept as it stands.
#[allow(non_snake_case)]
pub fn vApp(t: ValRef, u: ValRef, fuel: usize) -> (r: Result<ValRef, EvalError>)
    ensures
        value_outcome(r) == semantics::apply(t@, u@, fuel as nat),
    decreases fuel, 1nat,
{
    match &*t {
        Val::VLam(x, body, env) => eval(share(body), extend(share(env), x.clone(), u), fuel),
        _ => Ok(Rc::new(Val::VApp(t, u))),
    }
}

} // verus!
