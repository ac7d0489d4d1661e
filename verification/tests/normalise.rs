use eval_rs::value::{empty_env, extend};
use eval_rs::{app, eval, fresh, lam, nf, quote, vApp, var, Env, EvalError, List, Name, Tm, Val};
use std::rc::Rc;

const FUEL: usize = 1000;

fn names(xs: &[&str]) -> Rc<List<Name>> {
    let mut l = Rc::new(List::Nil);
    for x in xs.iter().rev() {
        l = Rc::new(List::Cons(Name::new(x), l));
    }
    l
}

fn neutral(x: &str) -> Rc<Val> {
    Rc::new(Val::VVar(Name::new(x)))
}

fn omega() -> Rc<Tm> {
    let half = lam("x", app(var("x"), var("x")));
    app(half.clone(), half)
}

#[test]
fn fresh_leaves_an_unseen_name_alone() {
    assert_eq!(fresh(&names(&[]), Name::new("x")).as_str(), "x");
    assert_eq!(fresh(&names(&["y", "z"]), Name::new("x")).as_str(), "x");
}

#[test]
fn fresh_appends_marks_until_unseen() {
    assert_eq!(fresh(&names(&["x"]), Name::new("x")).as_str(), "x'");
    assert_eq!(fresh(&names(&["x'", "x"]), Name::new("x")).as_str(), "x''");
    assert_eq!(fresh(&names(&["x", "x''"]), Name::new("x")).as_str(), "x'");
    assert_eq!(fresh(&names(&["x", "x'", "x''", "x"]), Name::new("x")).as_str(), "x'''");
}

#[test]
fn fresh_never_renames_the_placeholder() {
    assert_eq!(fresh(&names(&[]), Name::new("_")).as_str(), "_");
    assert_eq!(fresh(&names(&["_"]), Name::new("_")).as_str(), "_");
    assert_eq!(fresh(&names(&["_", "_'", "x"]), Name::new("_")).as_str(), "_");
}

#[test]
fn fresh_treats_other_short_names_as_names() {
    assert_eq!(fresh(&names(&[""]), Name::new("")).as_str(), "'");
    assert_eq!(fresh(&names(&["__"]), Name::new("__")).as_str(), "__'");
    assert_eq!(fresh(&names(&["é"]), Name::new("é")).as_str(), "é'");
}

#[test]
fn eval_looks_up_the_nearest_binding() {
    let env = extend(
        extend(empty_env(), Name::new("x"), neutral("old")),
        Name::new("x"),
        neutral("new"),
    );
    match &*eval(var("x"), env, FUEL).unwrap() {
        Val::VVar(n) => assert_eq!(n.as_str(), "new"),
        other => panic!("expected a variable, got {:?}", other),
    }
}

#[test]
fn eval_of_an_abstraction_is_a_closure() {
    let env = extend(empty_env(), Name::new("y"), neutral("y"));
    match &*eval(lam("x", var("y")), env, FUEL).unwrap() {
        Val::VLam(x, body, captured) => {
            assert_eq!(x.as_str(), "x");
            assert_eq!(body.render(), "y");
            assert!(captured.lookup(&Name::new("y")).is_some());
        },
        other => panic!("expected a closure, got {:?}", other),
    }
}

#[test]
fn eval_reports_the_operator_before_the_operand() {
    match eval(app(var("a"), var("b")), empty_env(), FUEL) {
        Err(EvalError::Unbound(n)) => assert_eq!(n.as_str(), "a"),
        other => panic!("expected an unbound variable, got {:?}", other),
    }
    let env = extend(empty_env(), Name::new("a"), neutral("a"));
    match eval(app(var("a"), var("b")), env, FUEL) {
        Err(EvalError::Unbound(n)) => assert_eq!(n.as_str(), "b"),
        other => panic!("expected an unbound variable, got {:?}", other),
    }
}

#[test]
fn applying_a_closure_binds_its_parameter() {
    let id = eval(lam("x", var("x")), empty_env(), FUEL).unwrap();
    match &*vApp(id, neutral("a"), FUEL).unwrap() {
        Val::VVar(n) => assert_eq!(n.as_str(), "a"),
        other => panic!("expected a variable, got {:?}", other),
    }
}

#[test]
fn applying_a_variable_stays_stuck() {
    match &*vApp(neutral("f"), neutral("a"), 0).unwrap() {
        Val::VApp(f, a) => {
            assert!(matches!(&**f, Val::VVar(n) if n.as_str() == "f"));
            assert!(matches!(&**a, Val::VVar(n) if n.as_str() == "a"));
        },
        other => panic!("expected a stuck application, got {:?}", other),
    }
}

#[test]
fn the_parameter_hides_an_outer_binding() {
    let env = extend(empty_env(), Name::new("x"), neutral("outer"));
    let r = nf(app(lam("x", var("x")), var("x")), env, FUEL).unwrap();
    assert_eq!(r.render(), "outer");
}

#[test]
fn quote_reads_neutral_values_back_as_they_are() {
    let v = Rc::new(Val::VApp(neutral("f"), neutral("a")));
    assert_eq!(quote(v, names(&[]), FUEL).unwrap().render(), "(f a)");
}

#[test]
fn quote_renames_a_binder_that_is_in_sight() {
    let id = eval(lam("x", var("x")), empty_env(), FUEL).unwrap();
    assert_eq!(quote(id.clone(), names(&[]), FUEL).unwrap().render(), "(fun x -> x))");
    assert_eq!(quote(id.clone(), names(&["x"]), FUEL).unwrap().render(), "(fun x' -> x'))");
    assert_eq!(quote(id, names(&["x'", "x"]), FUEL).unwrap().render(), "(fun x'' -> x''))");
}

#[test]
fn nested_binders_of_one_name_are_told_apart() {
    // \x. \x. x refers to the inner binder.
    let r = nf(lam("x", lam("x", var("x"))), empty_env(), FUEL).unwrap();
    assert_eq!(r.render(), "(fun x -> (fun x' -> x'))))");
}

#[test]
fn a_free_variable_is_not_captured() {
    // (\y. \x. y) x, with x standing for itself: the binder x must give way.
    let env = extend(empty_env(), Name::new("x"), neutral("x"));
    let t = app(lam("y", lam("x", var("y"))), var("x"));
    let r = nf(t, env, FUEL).unwrap();
    assert_eq!(r.render(), "(fun x' -> x))");
}

#[test]
fn an_argument_is_not_captured_under_a_binder() {
    // \x. (\y. \x. y) x  reduces to  \x. \x'. x
    let t = lam("x", app(lam("y", lam("x", var("y"))), var("x")));
    let r = nf(t, empty_env(), FUEL).unwrap();
    assert_eq!(r.render(), "(fun x -> (fun x' -> x))))");
}

#[test]
fn the_placeholder_is_kept_under_any_names() {
    let r = nf(lam("_", lam("_", var("_"))), empty_env(), FUEL).unwrap();
    assert_eq!(r.render(), "(fun _ -> (fun _ -> _))))");
    let env = extend(empty_env(), Name::new("_"), neutral("_"));
    let r = nf(lam("_", var("_")), env, FUEL).unwrap();
    assert_eq!(r.render(), "(fun _ -> _))");
}

#[test]
fn normal_forms_are_fixed_points() {
    let terms = vec![
        lam("x", var("x")),
        lam("x", lam("x", var("x"))),
        lam("x", app(lam("y", lam("x", var("y"))), var("x"))),
        lam("f", lam("x", app(app(lam("g", var("g")), var("f")), app(var("f"), var("x"))))),
        lam("_", lam("_", var("_"))),
    ];
    for t in terms {
        let once = nf(t, empty_env(), FUEL).unwrap();
        let twice = nf(once.clone(), empty_env(), FUEL).unwrap();
        assert_eq!(once.render(), twice.render());
    }
}

#[test]
fn normal_forms_are_fixed_points_under_bindings() {
    let env: Env = extend(
        extend(empty_env(), Name::new("x"), neutral("x")),
        Name::new("k"),
        eval(lam("a", lam("b", var("a"))), empty_env(), FUEL).unwrap(),
    );
    let t = app(var("k"), var("x"));
    let once = nf(t, env.clone(), FUEL).unwrap();
    assert_eq!(once.render(), "(fun b -> x))");
    let twice = nf(once.clone(), env, FUEL).unwrap();
    assert_eq!(once.render(), twice.render());
}

#[test]
fn the_same_call_gives_the_same_text() {
    let t = app(lam("x", lam("y", app(var("x"), var("y")))), lam("z", var("z")));
    let a = nf(t.clone(), empty_env(), FUEL).unwrap().render();
    let b = nf(t.clone(), empty_env(), FUEL).unwrap().render();
    assert_eq!(a, b);
    assert_eq!(a, "(fun y -> y))");
}

#[test]
fn a_larger_budget_gives_the_same_result() {
    let t = app(lam("x", lam("y", app(var("x"), var("y")))), lam("z", var("z")));
    let small = nf(t.clone(), empty_env(), 8).unwrap().render();
    let large = nf(t, empty_env(), 100_000).unwrap().render();
    assert_eq!(small, large);
}

#[test]
fn no_budget_gives_no_result() {
    assert!(matches!(eval(lam("x", var("x")), empty_env(), 0), Err(EvalError::Exhausted)));
    assert!(matches!(quote(neutral("x"), names(&[]), 0), Err(EvalError::Exhausted)));
    assert!(matches!(nf(lam("x", var("x")), empty_env(), 0), Err(EvalError::Exhausted)));
    assert!(matches!(nf(lam("x", var("x")), empty_env(), 1), Err(EvalError::Exhausted)));
    assert!(nf(lam("x", var("x")), empty_env(), 2).is_ok());
}

#[test]
fn a_term_without_normal_form_exhausts_the_budget() {
    assert!(matches!(eval(omega(), empty_env(), 200), Err(EvalError::Exhausted)));
    assert!(matches!(nf(omega(), empty_env(), 200), Err(EvalError::Exhausted)));
    // Under a binder the loop is met only when reading back.
    let t = lam("u", omega());
    assert!(eval(t.clone(), empty_env(), 200).is_ok());
    assert!(matches!(nf(t, empty_env(), 200), Err(EvalError::Exhausted)));
}

#[test]
fn an_unbound_variable_under_a_binder_is_found_when_reading_back() {
    let t = lam("x", var("y"));
    assert!(eval(t.clone(), empty_env(), FUEL).is_ok());
    match nf(t, empty_env(), FUEL) {
        Err(EvalError::Unbound(n)) => assert_eq!(n.as_str(), "y"),
        other => panic!("expected an unbound variable, got {:?}", other),
    }
}

#[test]
fn a_binding_to_another_variable_is_followed_once() {
    // y stands for z, and z for nothing: the normal form of y is z, which
    // has no normal form of its own under the same bindings.
    let env: Env = extend(empty_env(), Name::new("y"), neutral("z"));
    let once = nf(var("y"), env.clone(), FUEL).unwrap();
    assert_eq!(once.render(), "z");
    match nf(once, env, FUEL) {
        Err(EvalError::Unbound(n)) => assert_eq!(n.as_str(), "z"),
        other => panic!("expected an unbound variable, got {:?}", other),
    }
}
