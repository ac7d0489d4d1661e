//! Reading a value back into a term, and normalisation, which is
//! evaluation followed by reading back.
use crate::eval::{eval, vApp, EvalError};
use crate::fresh::fresh;
use crate::laws::{binders_avoid, lemma_nf_avoids_capture, lemma_quote_avoids_capture};
use crate::list::List;
use crate::name::Name;
use crate::shared::share;
use crate::semantics;
use crate::semantics::Failure;
use crate::term::{Term, Tm, TmRef};
use crate::value::{env_model, lemma_env_model_index, names_model, Env, Val, ValRef};
use std::rc::Rc;
use vstd::prelude::*;

verus! {

/// The result of a call that gives a term, as contracts see it.
pub open spec fn term_outcome(r: Result<TmRef, EvalError>) -> Result<Term, Failure> {
    match r {
        Ok(t) => Ok(t@),
        Err(e) => Err(e@),
    }
}

/// The term that `val` reads back as, where the names in `ns` are in
/// sight, computed to a depth of at most `fuel`.
///
/// A variable reads back as itself and a stuck application part by part.
/// A closure reads back as an abstraction: its binder gets a name that
/// differs from every name in `ns` (the placeholder `_` stays as it is),
/// the closure is applied to the variable of that name, and the result is
/// read back with the new name in sight as well.
pub fn quote(val: ValRef, ns: Rc<List<Name>>, fuel: usize) -> (r: Result<TmRef, EvalError>)
    ensures
        term_outcome(r) == semantics::quote(val@, names_model(&ns), fuel as nat),
        r matches Ok(t) ==> binders_avoid(t@, names_model(&ns)),
    decreases fuel,
{
    let ghost seen = names_model(&ns);
    proof {
        lemma_quote_avoids_capture(val@, seen, fuel as nat);
    }
    if fuel == 0 {
        return Err(EvalError::Exhausted);
    }
    match &*val {
        Val::VVar(x) => Ok(Rc::new(Tm::Var(x.clone()))),
        Val::VApp(t, u) => {
            match quote(share(t), share(&ns), fuel - 1) {
                Err(e) => Err(e),
                Ok(qt) => match quote(share(u), ns, fuel - 1) {
                    Err(e) => Err(e),
                    Ok(qu) => Ok(Rc::new(Tm::App(qt, qu))),
                },
            }
        },
        Val::VLam(x, _, _) => {
            let y = fresh(&ns, x.clone());
            let probe = Rc::new(Val::VVar(y.clone()));
            match vApp(share(&val), probe, fuel - 1) {
                Err(e) => Err(e),
                Ok(body) => {
                    let inner = Rc::new(List::Cons(y.clone(), ns));
                    assert(names_model(&inner) =~= seq![y@] + names_model(&ns));
                    match quote(body, inner, fuel - 1) {
                        Err(e) => Err(e),
                        Ok(qb) => Ok(Rc::new(Tm::Lam(y, qb))),
                    }
                },
            }
        },
    }
}

/// The normal form of `tm` under `env`, computed to a depth of at most
/// `fuel`: the value of `tm`, read back with the names that `env` binds in
/// sight, so that no binder of the result hides one of them.
pub fn nf(tm: TmRef, env: Env, fuel: usize) -> (r: Result<TmRef, EvalError>)
    ensures
        term_outcome(r) == semantics::nf(tm@, env_model(&env), fuel as nat),
        r matches Ok(t) ==> binders_avoid(t@, semantics::names(env_model(&env))),
{
    let ghost scope = env_model(&env);
    proof {
        lemma_nf_avoids_capture(tm@, scope, fuel as nat);
    }
    match eval(tm, share(&env), fuel) {
        Err(e) => Err(e),
        Ok(v) => {
            let name_of = |p: &(Name, ValRef)| -> (n: Name)
                ensures
                    n == p.0,
                { p.0.clone() };
            proof {
                lemma_env_model_index(&*env);
            }
            let ns = Rc::new(List::map(share(&env), name_of));
            assert(names_model(&ns) =~= semantics::names(scope));
            quote(v, ns, fuel)
        },
    }
}

} // verus!
