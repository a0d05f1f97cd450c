use lam::ast0::{app, bool, fun, ifte, letin, num, op2, var, Op2, Term};
use lam::env::nil;
use lam::eval::{eval, EvalError, Store, Value};
use lam::names::Supply;
use lam::trans01::{trans, Ctx, ResolveError};

fn v(s: &str) -> Box<Term> {
    var(String::from(s))
}

fn s(s: &str) -> String {
    String::from(s)
}

#[derive(Debug, PartialEq)]
enum Outcome {
    Int(i32),
    Bool(bool),
    Closure,
    Unresolved(String),
    Failed(String),
}

fn run(m: Box<Term>) -> Outcome {
    let mut supply = Supply::new();
    let resolved = match trans(&Ctx::default(), &mut supply, &m) {
        Ok(t) => t,
        Err(ResolveError::UnboundVariable(x)) => return Outcome::Unresolved(x),
    };
    let mut store = Store::new();
    let out = match eval(&mut store, &nil(), &resolved, 10_000) {
        Ok(h) => match store.get(h) {
            Value::Int(i) => Outcome::Int(*i),
            Value::Bool(b) => Outcome::Bool(*b),
            Value::Clo(_) => Outcome::Closure,
        },
        Err(EvalError::UnboundSymbol(_)) => Outcome::Failed(s("UnboundSymbol")),
        Err(EvalError::TypeMismatch(_, _)) => Outcome::Failed(s("TypeMismatch")),
        Err(EvalError::DivisionByZero) => Outcome::Failed(s("DivisionByZero")),
        Err(EvalError::NotAFunction(_)) => Outcome::Failed(s("NotAFunction")),
        Err(EvalError::ConditionNotBoolean(_)) => Outcome::Failed(s("ConditionNotBoolean")),
        Err(EvalError::StackExhausted) => Outcome::Failed(s("StackExhausted")),
    };
    out
}

#[test]
fn shadowing_takes_the_inner_binding() {
    // let x = 1 in let x = 2 in x
    let m = letin(s("x"), num(1), letin(s("x"), num(2), v("x")));
    assert_eq!(run(m), Outcome::Int(2));
}

#[test]
fn recursion_through_the_self_name() {
    // let rec fact n = if n <= 1 then 1 else n * fact (n - 1) in fact 5
    let body = ifte(
        op2(Op2::Lte, v("n"), num(1)),
        num(1),
        op2(Op2::Mul, v("n"), app(v("fact"), op2(Op2::Sub, v("n"), num(1)))),
    );
    let m = letin(s("fact"), fun(s("fact"), s("n"), body), app(v("fact"), num(5)));
    assert_eq!(run(m), Outcome::Int(120));
}

#[test]
fn closures_capture_the_environment_of_their_definition() {
    // let x = 1 in let f = fun y -> x + y in let x = 100 in f 2
    let f = fun(s(""), s("y"), op2(Op2::Add, v("x"), v("y")));
    let m = letin(
        s("x"),
        num(1),
        letin(s("f"), f, letin(s("x"), num(100), app(v("f"), num(2)))),
    );
    assert_eq!(run(m), Outcome::Int(3));
}

#[test]
fn boolean_operators_evaluate_both_operands() {
    // false && (1 / 0 == 0)
    let m = op2(
        Op2::And,
        bool(false),
        op2(Op2::Eq, op2(Op2::Div, num(1), num(0)), num(0)),
    );
    assert_eq!(run(m), Outcome::Failed(s("DivisionByZero")));
}

#[test]
fn conditionals_evaluate_one_branch() {
    // if true then 1 else (1 / 0)
    let m = ifte(bool(true), num(1), op2(Op2::Div, num(1), num(0)));
    assert_eq!(run(m), Outcome::Int(1));
}

#[test]
fn adding_a_boolean_is_a_type_mismatch() {
    let m = op2(Op2::Add, num(1), bool(true));
    assert_eq!(run(m), Outcome::Failed(s("TypeMismatch")));
}

#[test]
fn an_integer_condition_is_not_boolean() {
    let m = ifte(num(1), num(2), num(3));
    assert_eq!(run(m), Outcome::Failed(s("ConditionNotBoolean")));
}

#[test]
fn a_free_name_is_unbound() {
    let m = op2(Op2::Add, v("x"), num(1));
    assert_eq!(run(m), Outcome::Unresolved(s("x")));
}
