//! What evaluation and reading back compute, stated on the models of terms
//! and values. Every function takes a budget that bounds the depth of the
//! recursion; a result other than `Exhausted` does not depend on it.
use crate::name::{placeholder, tick, Ident};
use crate::term::Term;
use crate::value::{Scope, Value};
use vstd::prelude::*;

verus! {

/// Why a term has no value, or a value no term, within the budget.
pub enum Failure {
    /// A variable was met that the environment does not bind.
    Unbound(Ident),
    /// The recursion went deeper than the budget allows.
    Exhausted,
}

/// The value of the nearest binding of `x`.
pub open spec fn lookup(env: Scope, x: Ident) -> Option<Value>
    decreases env.len(),
{
    if env.len() == 0 {
        None
    } else if env[0].0 == x {
        Some(env[0].1)
    } else {
        lookup(env.drop_first(), x)
    }
}

/// `lookup` finds the first binding of `x` and no other: where position `i`
/// binds `x` and no earlier one does, the result is the value at `i`; where
/// no position binds `x`, there is none.
pub proof fn lemma_lookup_first(env: Scope, x: Ident)
    ensures
        forall|i: int|
            0 <= i < env.len() && (#[trigger] env[i]).0 == x && (forall|j: int|
                0 <= j < i ==> (#[trigger] env[j]).0 != x) ==> lookup(env, x) == Some(env[i].1),
        (forall|i: int| 0 <= i < env.len() ==> (#[trigger] env[i]).0 != x) ==> lookup(env, x)
            is None,
    decreases env.len(),
{
    if env.len() > 0 {
        let rest = env.drop_first();
        lemma_lookup_first(rest, x);
        assert forall|i: int|
            0 <= i < env.len() && (#[trigger] env[i]).0 == x && (forall|j: int|
                0 <= j < i ==> (#[trigger] env[j]).0 != x) implies lookup(env, x) == Some(
            env[i].1,
        ) by {
            if i > 0 {
                assert(env[0].0 != x);
                assert(rest[i - 1] == env[i]);
                assert forall|j: int| 0 <= j < i - 1 implies (#[trigger] rest[j]).0 != x by {
                    assert(rest[j] == env[j + 1]);
                }
            }
        }
        if forall|i: int| 0 <= i < env.len() ==> (#[trigger] env[i]).0 != x {
            assert(env[0].0 != x);
            assert forall|i: int| 0 <= i < rest.len() implies (#[trigger] rest[i]).0 != x by {
                assert(rest[i] == env[i + 1]);
            }
        }
    }
}

/// `env` with `x` bound to `v` in front.
pub open spec fn bind(env: Scope, x: Ident, v: Value) -> Scope {
    seq![(x, v)] + env
}

/// The names that `env` binds, nearest first.
pub open spec fn names(env: Scope) -> Seq<Ident> {
    env.map_values(|p: (Ident, Value)| p.0)
}

/// The value of `t` under `env`.
pub open spec fn eval(t: Term, env: Scope, fuel: nat) -> Result<Value, Failure>
    decreases fuel, 0nat,
{
    if fuel == 0 {
        Err(Failure::Exhausted)
    } else {
        match t {
            Term::Var(x) => match lookup(env, x) {
                Some(v) => Ok(v),
                None => Err(Failure::Unbound(x)),
            },
            Term::Lam(x, b) => Ok(Value::Lam(x, b, env)),
            Term::App(f, a) => match eval(*f, env, (fuel - 1) as nat) {
                Err(e) => Err(e),
                Ok(vf) => match eval(*a, env, (fuel - 1) as nat) {
                    Err(e) => Err(e),
                    Ok(va) => apply(vf, va, (fuel - 1) as nat),
                },
            },
        }
    }
}

/// `f` applied to `a`: a closure runs its body with the parameter bound to
/// `a`; anything else stays stuck.
pub open spec fn apply(f: Value, a: Value, fuel: nat) -> Result<Value, Failure>
    decreases fuel, 1nat,
{
    match f {
        Value::Lam(x, b, env) => eval(*b, bind(env, x, a), fuel),
        _ => Ok(Value::App(Box::new(f), Box::new(a))),
    }
}

/// How many names in `seen` have at least `n` characters.
pub open spec fn count_long(seen: Seq<Ident>, n: nat) -> nat
    decreases seen.len(),
{
    if seen.len() == 0 {
        0
    } else {
        count_long(seen.drop_last(), n) + if seen.last().len() >= n {
            1nat
        } else {
            0nat
        }
    }
}

/// A name in `seen` is one of those counted at its own length, and is not
/// counted one character further.
pub proof fn lemma_count_long_drops(seen: Seq<Ident>, x: Ident)
    requires
        seen.contains(x),
    ensures
        count_long(seen, x.len() + 1) < count_long(seen, x.len()),
    decreases seen.len(),
{
    lemma_count_long_monotone(seen.drop_last(), x.len());
    if seen.last() == x {
    } else {
        let i = choose|i: int| 0 <= i < seen.len() && seen[i] == x;
        assert(seen.drop_last()[i] == x);
        lemma_count_long_drops(seen.drop_last(), x);
    }
}

/// Asking for longer names counts no more of them.
pub proof fn lemma_count_long_monotone(seen: Seq<Ident>, n: nat)
    ensures
        count_long(seen, n + 1) <= count_long(seen, n),
    decreases seen.len(),
{
    if seen.len() > 0 {
        lemma_count_long_monotone(seen.drop_last(), n);
    }
}

/// The name that a binder called `x` gets where the names in `seen` are in
/// sight: `x` itself if it is the placeholder, else `x` followed by the
/// fewest marks that give a name not in `seen`.
pub open spec fn fresh(seen: Seq<Ident>, x: Ident) -> Ident
    decreases count_long(seen, x.len()),
    via fresh_decreases
{
    if x == placeholder() {
        x
    } else if seen.contains(x) {
        fresh(seen, x.push(tick()))
    } else {
        x
    }
}

#[via_fn]
proof fn fresh_decreases(seen: Seq<Ident>, x: Ident) {
    if x != placeholder() && seen.contains(x) {
        lemma_count_long_drops(seen, x);
    }
}

/// The term that `v` reads back as where the names in `seen` are in sight.
pub open spec fn quote(v: Value, seen: Seq<Ident>, fuel: nat) -> Result<Term, Failure>
    decreases fuel,
{
    if fuel == 0 {
        Err(Failure::Exhausted)
    } else {
        match v {
            Value::Var(x) => Ok(Term::Var(x)),
            Value::App(f, a) => match quote(*f, seen, (fuel - 1) as nat) {
                Err(e) => Err(e),
                Ok(tf) => match quote(*a, seen, (fuel - 1) as nat) {
                    Err(e) => Err(e),
                    Ok(ta) => Ok(Term::App(Box::new(tf), Box::new(ta))),
                },
            },
            Value::Lam(x, _, _) => {
                let y = fresh(seen, x);
                match apply(v, Value::Var(y), (fuel - 1) as nat) {
                    Err(e) => Err(e),
                    Ok(body) => match quote(body, seq![y] + seen, (fuel - 1) as nat) {
                        Err(e) => Err(e),
                        Ok(tb) => Ok(Term::Lam(y, Box::new(tb))),
                    },
                }
            },
        }
    }
}

/// The normal form of `t` under `env`: its value, read back with the names
/// that `env` binds in sight.
pub open spec fn nf(t: Term, env: Scope, fuel: nat) -> Result<Term, Failure> {
    match eval(t, env, fuel) {
        Err(e) => Err(e),
        Ok(v) => quote(v, names(env), fuel),
    }
}

} // verus!
