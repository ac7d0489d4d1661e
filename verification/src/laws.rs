//! What holds of evaluation and reading back for every term, value and
//! environment.
use crate::name::{placeholder, primed, tick, Ident};
use crate::semantics::{apply, bind, eval, fresh, lookup, names, nf, quote, Failure};
use crate::term::Term;
use crate::value::{Scope, Value};
use vstd::prelude::*;

verus! {

/// The budget ran out before a result was reached.
pub open spec fn exhausted<T>(r: Result<T, Failure>) -> bool {
    r == Err::<T, Failure>(Failure::Exhausted)
}

/// A result of `eval` that is not `Exhausted` is the result under every
/// larger budget.
pub proof fn lemma_eval_budget(t: Term, env: Scope, small: nat, large: nat)
    requires
        small <= large,
        !exhausted(eval(t, env, small)),
    ensures
        eval(t, env, large) == eval(t, env, small),
    decreases small, 0nat,
{
    if small > 0 {
        match t {
            Term::App(f, a) => {
                let s = (small - 1) as nat;
                let l = (large - 1) as nat;
                lemma_eval_budget(*f, env, s, l);
                match eval(*f, env, s) {
                    Ok(vf) => {
                        lemma_eval_budget(*a, env, s, l);
                        match eval(*a, env, s) {
                            Ok(va) => {
                                lemma_apply_budget(vf, va, s, l);
                            },
                            Err(_) => {},
                        }
                    },
                    Err(_) => {},
                }
            },
            _ => {},
        }
    }
}

/// A result of `apply` that is not `Exhausted` is the result under every
/// larger budget.
pub proof fn lemma_apply_budget(f: Value, a: Value, small: nat, large: nat)
    requires
        small <= large,
        !exhausted(apply(f, a, small)),
    ensures
        apply(f, a, large) == apply(f, a, small),
    decreases small, 1nat,
{
    match f {
        Value::Lam(x, b, env) => {
            lemma_eval_budget(*b, bind(env, x, a), small, large);
        },
        _ => {},
    }
}

/// A result of `quote` that is not `Exhausted` is the result under every
/// larger budget.
pub proof fn lemma_quote_budget(v: Value, seen: Seq<Ident>, small: nat, large: nat)
    requires
        small <= large,
        !exhausted(quote(v, seen, small)),
    ensures
        quote(v, seen, large) == quote(v, seen, small),
    decreases small,
{
    if small > 0 {
        let s = (small - 1) as nat;
        let l = (large - 1) as nat;
        match v {
            Value::Var(_) => {},
            Value::App(f, a) => {
                lemma_quote_budget(*f, seen, s, l);
                if quote(*f, seen, s) is Ok {
                    lemma_quote_budget(*a, seen, s, l);
                }
            },
            Value::Lam(x, _, _) => {
                let y = fresh(seen, x);
                lemma_apply_budget(v, Value::Var(y), s, l);
                match apply(v, Value::Var(y), s) {
                    Ok(body) => {
                        lemma_quote_budget(body, seq![y] + seen, s, l);
                    },
                    Err(_) => {},
                }
            },
        }
    }
}

/// A result of `nf` that is not `Exhausted` is the result under every
/// larger budget.
pub proof fn lemma_nf_budget(t: Term, env: Scope, small: nat, large: nat)
    requires
        small <= large,
        !exhausted(nf(t, env, small)),
    ensures
        nf(t, env, large) == nf(t, env, small),
{
    lemma_eval_budget(t, env, small, large);
    match eval(t, env, small) {
        Ok(v) => {
            lemma_quote_budget(v, names(env), small, large);
        },
        Err(_) => {},
    }
}

/// Normalisation is a function of the term and the environment alone: two
/// budgets that both suffice give the same result, normal form or unbound
/// variable, and with it the same text.
pub proof fn lemma_nf_deterministic(t: Term, env: Scope, fuel1: nat, fuel2: nat)
    requires
        !exhausted(nf(t, env, fuel1)),
        !exhausted(nf(t, env, fuel2)),
    ensures
        nf(t, env, fuel1) == nf(t, env, fuel2),
{
    if fuel1 <= fuel2 {
        lemma_nf_budget(t, env, fuel1, fuel2);
    } else {
        lemma_nf_budget(t, env, fuel2, fuel1);
    }
}

/// `n` marks are the fewest that make `x` differ from every name in `seen`.
pub open spec fn first_free(seen: Seq<Ident>, x: Ident, n: nat) -> bool {
    &&& !seen.contains(primed(x, n))
    &&& forall|m: nat| m < n ==> seen.contains(#[trigger] primed(x, m))
}

/// The placeholder is never renamed. Any other name is renamed to itself
/// followed by the fewest marks that give a name not in `seen`.
pub proof fn lemma_fresh_first_free(seen: Seq<Ident>, x: Ident)
    ensures
        x == placeholder() ==> fresh(seen, x) == x,
        x != placeholder() ==> exists|n: nat|
            first_free(seen, x, n) && fresh(seen, x) == #[trigger] primed(x, n),
    decreases crate::semantics::count_long(seen, x.len()),
{
    if x != placeholder() {
        if seen.contains(x) {
            let y = x.push(tick());
            assert(y.last() == tick());
            assert(y != placeholder());
            crate::semantics::lemma_count_long_drops(seen, x);
            lemma_fresh_first_free(seen, y);
            let k = choose|n: nat| first_free(seen, y, n) && fresh(seen, y) == #[trigger] primed(y, n);
            let n = k + 1;
            assert(primed(x, n) =~= primed(y, k));
            assert forall|m: nat| m < n implies seen.contains(#[trigger] primed(x, m)) by {
                if m == 0 {
                    assert(primed(x, 0) =~= x);
                } else {
                    assert(primed(x, m) =~= primed(y, (m - 1) as nat));
                }
            }
            assert(first_free(seen, x, n));
        } else {
            assert(primed(x, 0) =~= x);
            assert(first_free(seen, x, 0));
        }
    }
}

/// The name that `fresh` gives is the placeholder or differs from every
/// name in `seen`.
pub proof fn lemma_fresh_avoids(seen: Seq<Ident>, x: Ident)
    ensures
        fresh(seen, x) == placeholder() || !seen.contains(fresh(seen, x)),
        fresh(seen, x) == placeholder() <==> x == placeholder(),
    decreases crate::semantics::count_long(seen, x.len()),
{
    if x != placeholder() && seen.contains(x) {
        let y = x.push(tick());
        assert(y.last() == tick());
        crate::semantics::lemma_count_long_drops(seen, x);
        lemma_fresh_avoids(seen, y);
    }
}

/// No binder of `t` has the name of a binder around it or a name in
/// `seen`, but for the placeholder.
pub open spec fn binders_avoid(t: Term, seen: Seq<Ident>) -> bool
    decreases t,
{
    match t {
        Term::Var(_) => true,
        Term::App(f, a) => binders_avoid(*f, seen) && binders_avoid(*a, seen),
        Term::Lam(x, b) => (x == placeholder() || !seen.contains(x)) && binders_avoid(
            *b,
            seq![x] + seen,
        ),
    }
}

/// Reading back never reuses a name that is in sight: every binder of the
/// result differs from the names in `seen` and from the binders around it,
/// unless it is the placeholder.
pub proof fn lemma_quote_avoids_capture(v: Value, seen: Seq<Ident>, fuel: nat)
    ensures
        quote(v, seen, fuel) matches Ok(t) ==> binders_avoid(t, seen),
    decreases fuel,
{
    if fuel > 0 {
        let rest = (fuel - 1) as nat;
        match v {
            Value::Var(_) => {},
            Value::App(f, a) => {
                lemma_quote_avoids_capture(*f, seen, rest);
                lemma_quote_avoids_capture(*a, seen, rest);
            },
            Value::Lam(x, _, _) => {
                let y = fresh(seen, x);
                lemma_fresh_avoids(seen, x);
                match apply(v, Value::Var(y), rest) {
                    Ok(body) => {
                        lemma_quote_avoids_capture(body, seq![y] + seen, rest);
                    },
                    Err(_) => {},
                }
            },
        }
    }
}

/// Normalisation never lets a binder of the result hide a name that the
/// environment binds.
pub proof fn lemma_nf_avoids_capture(t: Term, env: Scope, fuel: nat)
    ensures
        nf(t, env, fuel) matches Ok(n) ==> binders_avoid(n, names(env)),
{
    match eval(t, env, fuel) {
        Ok(v) => {
            lemma_quote_avoids_capture(v, names(env), fuel);
        },
        Err(_) => {},
    }
}

/// A closure whose parameter is the placeholder reads back as an
/// abstraction whose binder is the placeholder, whatever is in `seen`.
pub proof fn lemma_quote_keeps_placeholder(
    body: Term,
    captured: Scope,
    seen: Seq<Ident>,
    fuel: nat,
)
    ensures
        quote(Value::Lam(placeholder(), Box::new(body), captured), seen, fuel) matches Ok(t)
            ==> t matches Term::Lam(x, _) && x == placeholder(),
{
}

/// The depth of `t`: a variable has depth one.
pub open spec fn height(t: Term) -> nat
    decreases t,
{
    match t {
        Term::Var(_) => 1,
        Term::Lam(_, b) => 1 + height(*b),
        Term::App(f, a) => 1 + if height(*f) >= height(*a) {
            height(*f)
        } else {
            height(*a)
        },
    }
}

/// `v` is settled under `env`: each of its variables is bound to itself
/// there, no stuck application has a closure at its head, and the same
/// holds of every value that one of its closures has captured.
pub open spec fn settled(v: Value, env: Scope) -> bool
    decreases v,
{
    match v {
        Value::Var(x) => lookup(env, x) == Some(Value::Var(x)),
        Value::App(f, a) => !(*f is Lam) && settled(*f, env) && settled(*a, env),
        Value::Lam(_, _, captured) => forall|i: int|
            0 <= i < captured.len() ==> settled((#[trigger] captured[i]).1, env),
    }
}

/// Every value that `captured` binds is settled under `env`.
pub open spec fn all_settled(captured: Scope, env: Scope) -> bool {
    forall|i: int| 0 <= i < captured.len() ==> settled((#[trigger] captured[i]).1, env)
}

/// `t` is a normal form that names what `env` binds to itself: each free
/// variable is bound to itself in `env`, no application has an abstraction
/// at its head, and each binder is the name that reading back would choose
/// at its place.
pub open spec fn stable(t: Term, env: Scope) -> bool
    decreases t,
{
    match t {
        Term::Var(x) => lookup(env, x) == Some(Value::Var(x)),
        Term::App(f, a) => !(*f is Lam) && stable(*f, env) && stable(*a, env),
        Term::Lam(x, b) => fresh(names(env), x) == x && stable(
            *b,
            bind(env, x, Value::Var(x)),
        ),
    }
}

/// `t` holds no application with an abstraction at its head: nothing in it
/// can be reduced.
pub open spec fn beta_normal(t: Term) -> bool
    decreases t,
{
    match t {
        Term::Var(_) => true,
        Term::App(f, a) => !(*f is Lam) && beta_normal(*f) && beta_normal(*a),
        Term::Lam(_, b) => beta_normal(*b),
    }
}

/// A stable term is in normal form.
pub proof fn lemma_stable_is_normal(t: Term, env: Scope)
    requires
        stable(t, env),
    ensures
        beta_normal(t),
    decreases t,
{
    match t {
        Term::Var(_) => {},
        Term::App(f, a) => {
            lemma_stable_is_normal(*f, env);
            lemma_stable_is_normal(*a, env);
        },
        Term::Lam(x, b) => {
            lemma_stable_is_normal(*b, bind(env, x, Value::Var(x)));
        },
    }
}

/// What `lookup` finds is one of the values that `env` binds.
pub proof fn lemma_lookup_is_bound(env: Scope, x: Ident)
    ensures
        lookup(env, x) matches Some(v) ==> exists|i: int|
            0 <= i < env.len() && (#[trigger] env[i]).1 == v,
    decreases env.len(),
{
    if env.len() > 0 && env[0].0 != x {
        let rest = env.drop_first();
        lemma_lookup_is_bound(rest, x);
        if let Some(v) = lookup(rest, x) {
            let i = choose|i: int| 0 <= i < rest.len() && (#[trigger] rest[i]).1 == v;
            assert(env[i + 1] == rest[i]);
        }
    }
}

/// Looking up in an environment with one more binding in front.
pub proof fn lemma_lookup_bind(env: Scope, y: Ident, v: Value, x: Ident)
    ensures
        lookup(bind(env, y, v), x) == if x == y {
            Some(v)
        } else {
            lookup(env, x)
        },
        names(bind(env, y, v)) == seq![y] + names(env),
{
    assert(bind(env, y, v).drop_first() =~= env);
    assert(names(bind(env, y, v)) =~= seq![y] + names(env));
}

/// A settled value stays settled where one more name is bound to itself.
pub proof fn lemma_settled_under_binder(v: Value, env: Scope, y: Ident)
    requires
        settled(v, env),
    ensures
        settled(v, bind(env, y, Value::Var(y))),
    decreases v,
{
    let inner = bind(env, y, Value::Var(y));
    match v {
        Value::Var(x) => {
            lemma_lookup_bind(env, y, Value::Var(y), x);
        },
        Value::App(f, a) => {
            lemma_settled_under_binder(*f, env, y);
            lemma_settled_under_binder(*a, env, y);
        },
        Value::Lam(_, _, captured) => {
            assert forall|i: int| 0 <= i < captured.len() implies settled(
                (#[trigger] captured[i]).1,
                inner,
            ) by {
                lemma_settled_under_binder(captured[i].1, env, y);
            }
        },
    }
}

/// Evaluation under settled bindings gives a settled value.
pub proof fn lemma_eval_settled(t: Term, captured: Scope, fuel: nat, env: Scope)
    requires
        all_settled(captured, env),
    ensures
        eval(t, captured, fuel) matches Ok(v) ==> settled(v, env),
    decreases fuel, 0nat,
{
    if fuel > 0 {
        let rest = (fuel - 1) as nat;
        match t {
            Term::Var(x) => {
                lemma_lookup_is_bound(captured, x);
            },
            Term::Lam(_, _) => {},
            Term::App(f, a) => {
                lemma_eval_settled(*f, captured, rest, env);
                lemma_eval_settled(*a, captured, rest, env);
                match (eval(*f, captured, rest), eval(*a, captured, rest)) {
                    (Ok(vf), Ok(va)) => {
                        lemma_apply_settled(vf, va, rest, env);
                    },
                    _ => {},
                }
            },
        }
    }
}

/// Applying a settled value to a settled value gives a settled value.
pub proof fn lemma_apply_settled(f: Value, a: Value, fuel: nat, env: Scope)
    requires
        settled(f, env),
        settled(a, env),
    ensures
        apply(f, a, fuel) matches Ok(v) ==> settled(v, env),
    decreases fuel, 1nat,
{
    match f {
        Value::Lam(x, b, captured) => {
            let inner = bind(captured, x, a);
            assert forall|i: int| 0 <= i < inner.len() implies settled(
                (#[trigger] inner[i]).1,
                env,
            ) by {
                if i > 0 {
                    assert(inner[i] == captured[i - 1]);
                }
            }
            lemma_eval_settled(*b, inner, fuel, env);
        },
        _ => {},
    }
}

/// A settled value reads back as a stable term, no deeper than the budget.
pub proof fn lemma_quote_stable(v: Value, env: Scope, fuel: nat)
    requires
        settled(v, env),
    ensures
        quote(v, names(env), fuel) matches Ok(t) ==> stable(t, env) && height(t) <= fuel && (t
            is Lam ==> v is Lam),
    decreases fuel,
{
    if fuel > 0 {
        let rest = (fuel - 1) as nat;
        let seen = names(env);
        match v {
            Value::Var(_) => {},
            Value::App(f, a) => {
                lemma_quote_stable(*f, env, rest);
                lemma_quote_stable(*a, env, rest);
            },
            Value::Lam(x, _, _) => {
                let y = fresh(seen, x);
                let inner = bind(env, y, Value::Var(y));
                lemma_lookup_bind(env, y, Value::Var(y), y);
                lemma_settled_under_binder(v, env, y);
                lemma_apply_settled(v, Value::Var(y), rest, inner);
                match apply(v, Value::Var(y), rest) {
                    Ok(body) => {
                        lemma_quote_stable(body, inner, rest);
                        lemma_fresh_avoids(seen, x);
                        assert(fresh(seen, y) == y);
                    },
                    Err(_) => {},
                }
            },
        }
    }
}

/// A stable term is its own normal form: within a budget of its depth it
/// evaluates to a value that reads back as the term itself.
pub proof fn lemma_stable_round_trip(t: Term, env: Scope, fuel: nat)
    requires
        stable(t, env),
        height(t) <= fuel,
    ensures
        eval(t, env, fuel) matches Ok(v) && (v is Lam ==> t is Lam) && quote(
            v,
            names(env),
            fuel,
        ) == Ok::<Term, Failure>(t),
    decreases t,
{
    let rest = (fuel - 1) as nat;
    match t {
        Term::Var(_) => {},
        Term::App(f, a) => {
            lemma_stable_round_trip(*f, env, rest);
            lemma_stable_round_trip(*a, env, rest);
            let vf = eval(*f, env, rest)->Ok_0;
            let va = eval(*a, env, rest)->Ok_0;
            assert(eval(t, env, fuel) == apply(vf, va, rest));
        },
        Term::Lam(x, b) => {
            let inner = bind(env, x, Value::Var(x));
            lemma_lookup_bind(env, x, Value::Var(x), x);
            lemma_stable_round_trip(*b, inner, rest);
            assert(apply(Value::Lam(x, b, env), Value::Var(x), rest) == eval(*b, inner, rest));
        },
    }
}

/// What normalisation gives is in normal form, where every variable inside
/// the values of `env` is bound to itself in `env` and none of its stuck
/// applications has a closure at its head.
pub proof fn lemma_nf_is_normal(t: Term, env: Scope, fuel: nat)
    requires
        all_settled(env, env),
    ensures
        nf(t, env, fuel) matches Ok(n) ==> beta_normal(n) && stable(n, env) && height(n)
            <= fuel,
{
    match eval(t, env, fuel) {
        Ok(v) => {
            lemma_eval_settled(t, env, fuel, env);
            lemma_quote_stable(v, env, fuel);
            match quote(v, names(env), fuel) {
                Ok(n) => {
                    lemma_stable_is_normal(n, env);
                },
                Err(_) => {},
            }
        },
        Err(_) => {},
    }
}

/// Normalising a closed normal form gives it back: the normal form of `t`
/// under the empty environment is its own normal form, within the same
/// budget, and so prints as the same text.
pub proof fn lemma_nf_idempotent_closed(t: Term, fuel: nat)
    ensures
        nf(t, Seq::empty(), fuel) matches Ok(n) ==> nf(n, Seq::empty(), fuel) == Ok::<
            Term,
            Failure,
        >(n),
{
    lemma_nf_idempotent(t, Seq::empty(), fuel);
}

/// Normalising a normal form gives it back. Where every variable inside
/// the values of `env` is bound to itself in `env` (the empty environment,
/// and one that binds closed terms' values, are such), the normal form of
/// `t` under `env` is its own normal form under `env`, within the same
/// budget, and so prints as the same text.
pub proof fn lemma_nf_idempotent(t: Term, env: Scope, fuel: nat)
    requires
        all_settled(env, env),
    ensures
        nf(t, env, fuel) matches Ok(n) ==> nf(n, env, fuel) == Ok::<Term, Failure>(n),
{
    lemma_nf_is_normal(t, env, fuel);
    match nf(t, env, fuel) {
        Ok(n) => {
            lemma_stable_round_trip(n, env, fuel);
        },
        Err(_) => {},
    }
}

} // verus!
