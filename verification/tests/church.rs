use eval_rs::value::empty_env;
use eval_rs::{app, eval, lam, nf, var, Env, EvalError, List, Name, TmRef};
use expect_test::{Expect, Position};
use std::rc::Rc;

const FUEL: usize = 4096;

fn expect(data: &'static str) -> Expect {
    Expect { position: Position { file: "tests/church.rs", line: 1, column: 1 }, data, indent: true }
}

fn five() -> TmRef {
    lam(
        "f",
        lam(
            "x",
            app(
                var("f"),
                app(var("f"), app(var("f"), app(var("f"), app(var("f"), var("x"))))),
            ),
        ),
    )
}

fn add() -> TmRef {
    lam(
        "m",
        lam(
            "n",
            lam(
                "f",
                lam(
                    "x",
                    app(app(var("m"), var("f")), app(app(var("n"), var("f")), var("x"))),
                ),
            ),
        ),
    )
}

fn mult() -> TmRef {
    lam("m", lam("n", lam("f", app(var("m"), app(var("n"), var("f"))))))
}

fn numeral(n: usize) -> String {
    let mut s = String::from("(fun f -> (fun x -> ");
    for _ in 0..n {
        s.push_str("(f ");
    }
    s.push('x');
    for _ in 0..n {
        s.push(')');
    }
    s.push_str("))))");
    s
}

#[test]
fn test_example() {
    let nil: Env = Rc::new(List::Nil);

    let five = five();
    let add = add();

    let ten = app(app(add, five.clone()), five.clone());
    let ten = nf(ten.clone(), nil.clone(), FUEL).unwrap();

    let ten_actual = ten.render();
    let ten_expected =
        expect("(fun f -> (fun x -> (f (f (f (f (f (f (f (f (f (f x))))))))))))))");
    ten_expected.assert_eq(&ten_actual);

    let mult = mult();

    let num_25 = app(app(mult, five.clone()), five.clone());
    let num_25 = nf(num_25.clone(), nil.clone(), FUEL).unwrap();

    let num_25_actual = num_25.render();
    let num_25_expected = expect(
        "(fun f -> (fun x -> (f (f (f (f (f (f (f (f (f (f (f (f (f (f (f (f (f (f (f (f (f (f (f (f (f x)))))))))))))))))))))))))))))",
    );
    num_25_expected.assert_eq(&num_25_actual);
}

#[test]
fn five_is_its_own_normal_form() {
    let r = nf(five(), empty_env(), FUEL).unwrap();
    assert_eq!(r.render(), "(fun f -> (fun x -> (f (f (f (f (f x)))))))))");
    assert_eq!(r.render(), numeral(5));
}

#[test]
fn five_plus_five_is_ten() {
    let r = nf(app(app(add(), five()), five()), empty_env(), FUEL).unwrap();
    assert_eq!(r.render(), numeral(10));
}

#[test]
fn five_times_five_is_twenty_five() {
    let r = nf(app(app(mult(), five()), five()), empty_env(), FUEL).unwrap();
    assert_eq!(r.render(), numeral(25));
}

#[test]
fn sums_of_sums() {
    let add5 = app(add(), five());
    let mut tm = five();
    for _ in 0..8 {
        tm = app(add5.clone(), tm);
    }
    let r = nf(tm, empty_env(), FUEL).unwrap();
    assert_eq!(r.render(), numeral(45));
    assert_eq!(r.kind(), "lam");
}

#[test]
fn unbound_variable_is_an_error() {
    match eval(var("x"), empty_env(), FUEL) {
        Err(EvalError::Unbound(n)) => assert_eq!(n.as_str(), "x"),
        other => panic!("expected an unbound variable, got {:?}", other),
    }
    match nf(var("x"), empty_env(), FUEL) {
        Err(EvalError::Unbound(n)) => assert_eq!(n.as_str(), "x"),
        other => panic!("expected an unbound variable, got {:?}", other),
    }
}

#[test]
fn identity_is_unchanged() {
    let r = nf(lam("x", var("x")), empty_env(), FUEL).unwrap();
    assert_eq!(r.render(), "(fun x -> x))");
}

#[test]
fn bound_numeral_reads_back_with_its_binder_renamed() {
    let five_value = eval(five(), empty_env(), FUEL).unwrap();
    let env: Env = Rc::new(List::Cons((Name::new("f"), five_value), empty_env()));
    let r = nf(var("f"), env, FUEL).unwrap();
    // `f` is in sight, so the binder `f` of the numeral becomes `f'`;
    // up to that renaming the result is the numeral five.
    assert_eq!(r.render(), "(fun f' -> (fun x -> (f' (f' (f' (f' (f' x)))))))))");
    let plain = nf(five(), empty_env(), FUEL).unwrap();
    assert_eq!(r.render().replace("f'", "f"), plain.render());
}
