use lam::ast1::{app, bool, fun, ifte, letin, num, op1, op2, var, Op1, Op2, Term};
use lam::env::{cons, nil};
use lam::eval::{apply, eval, eval_bool_op, eval_int_op, eval_op1, eval_op2, kind_of, run};
use lam::eval::{Closure, EvalError, Kind, Operands, Operator, Store, Value};
use lam::names::Name;

fn sym(s: &str, id: u64) -> Name {
    Name::create(String::from(s), id)
}

fn shown(store: &Store, r: &Result<usize, EvalError>) -> String {
    match r {
        Ok(h) => match store.get(*h) {
            Value::Int(i) => format!("Int({})", i),
            Value::Bool(b) => format!("Bool({})", b),
            Value::Clo(c) => format!("Closure({}_{}, {}_{})", c.func.name, c.func.id, c.param.name, c.param.id),
        },
        Err(e) => format!("{:?}", e),
    }
}

fn value_of(m: &Term, depth: usize) -> String {
    let (store, r) = run(m, depth);
    shown(&store, &r)
}

fn int_op(op: Op2, i: i32, j: i32) -> String {
    match eval_int_op(&op, i, j) {
        Ok(Value::Int(k)) => format!("Int({})", k),
        Ok(Value::Bool(b)) => format!("Bool({})", b),
        Ok(Value::Clo(_)) => String::from("Closure"),
        Err(e) => format!("{:?}", e),
    }
}

fn bool_op(op: Op2, p: bool, q: bool) -> String {
    match eval_bool_op(&op, p, q) {
        Ok(Value::Int(k)) => format!("Int({})", k),
        Ok(Value::Bool(b)) => format!("Bool({})", b),
        Ok(Value::Clo(_)) => String::from("Closure"),
        Err(e) => format!("{:?}", e),
    }
}

#[test]
fn literals_evaluate_to_themselves() {
    assert_eq!(value_of(&num(42), 1), "Int(42)");
    assert_eq!(value_of(&bool(false), 1), "Bool(false)");
}

#[test]
fn arithmetic_on_integers() {
    assert_eq!(int_op(Op2::Add, 2, 3), "Int(5)");
    assert_eq!(int_op(Op2::Sub, 2, 3), "Int(-1)");
    assert_eq!(int_op(Op2::Mul, -4, 3), "Int(-12)");
    assert_eq!(int_op(Op2::Div, 7, 2), "Int(3)");
}

#[test]
fn division_rounds_toward_zero() {
    assert_eq!(int_op(Op2::Div, -7, 2), "Int(-3)");
    assert_eq!(int_op(Op2::Div, 7, -2), "Int(-3)");
    assert_eq!(int_op(Op2::Div, -7, -2), "Int(3)");
    assert_eq!(int_op(Op2::Div, 0, -2), "Int(0)");
}

#[test]
fn division_by_zero_fails() {
    assert_eq!(int_op(Op2::Div, 1, 0), "DivisionByZero");
    assert_eq!(int_op(Op2::Div, 0, 0), "DivisionByZero");
}

#[test]
fn arithmetic_wraps() {
    assert_eq!(int_op(Op2::Add, i32::MAX, 1), format!("Int({})", i32::MIN));
    assert_eq!(int_op(Op2::Sub, i32::MIN, 1), format!("Int({})", i32::MAX));
    assert_eq!(int_op(Op2::Mul, 65536, 65536), "Int(0)");
    assert_eq!(int_op(Op2::Mul, i32::MAX, 2), "Int(-2)");
    assert_eq!(int_op(Op2::Div, i32::MIN, -1), format!("Int({})", i32::MIN));
    assert_eq!(value_of(&op1(Op1::Neg, num(i32::MIN)), 3), format!("Int({})", i32::MIN));
}

#[test]
fn comparisons_of_integers() {
    assert_eq!(int_op(Op2::Lte, 1, 1), "Bool(true)");
    assert_eq!(int_op(Op2::Lte, 2, 1), "Bool(false)");
    assert_eq!(int_op(Op2::Gte, 1, 1), "Bool(true)");
    assert_eq!(int_op(Op2::Gte, 0, 1), "Bool(false)");
    assert_eq!(int_op(Op2::Lt, 0, 1), "Bool(true)");
    assert_eq!(int_op(Op2::Lt, 1, 1), "Bool(false)");
    assert_eq!(int_op(Op2::Gt, 2, 1), "Bool(true)");
    assert_eq!(int_op(Op2::Gt, 1, 1), "Bool(false)");
    assert_eq!(int_op(Op2::Eq, 3, 3), "Bool(true)");
    assert_eq!(int_op(Op2::Eq, 3, 4), "Bool(false)");
    assert_eq!(int_op(Op2::Neq, 3, 4), "Bool(true)");
    assert_eq!(int_op(Op2::Neq, 3, 3), "Bool(false)");
}

#[test]
fn logical_operators_on_integers_are_mismatches() {
    assert_eq!(int_op(Op2::And, 1, 0), "TypeMismatch(Binary(And), Two(Int, Int))");
    assert_eq!(int_op(Op2::Or, 1, 0), "TypeMismatch(Binary(Or), Two(Int, Int))");
}

#[test]
fn logical_operators_on_booleans() {
    assert_eq!(bool_op(Op2::And, true, true), "Bool(true)");
    assert_eq!(bool_op(Op2::And, true, false), "Bool(false)");
    assert_eq!(bool_op(Op2::Or, false, false), "Bool(false)");
    assert_eq!(bool_op(Op2::Or, false, true), "Bool(true)");
    assert_eq!(bool_op(Op2::Add, true, true), "TypeMismatch(Binary(Add), Two(Bool, Bool))");
    assert_eq!(bool_op(Op2::Eq, true, true), "TypeMismatch(Binary(Eq), Two(Bool, Bool))");
}

#[test]
fn unary_operators() {
    assert_eq!(value_of(&op1(Op1::Neg, num(5)), 2), "Int(-5)");
    assert_eq!(value_of(&op1(Op1::Not, bool(true)), 2), "Bool(false)");
    assert_eq!(
        value_of(&op1(Op1::Neg, bool(true)), 2),
        "TypeMismatch(Unary(Neg), One(Bool))"
    );
    assert_eq!(
        value_of(&op1(Op1::Not, num(0)), 2),
        "TypeMismatch(Unary(Not), One(Int))"
    );
    let id = fun(sym("f", 0), sym("x", 1), var(sym("x", 1)));
    assert_eq!(
        value_of(&op1(Op1::Not, id), 2),
        "TypeMismatch(Unary(Not), One(Closure))"
    );
}

#[test]
fn mixed_operands_are_mismatches() {
    assert_eq!(
        value_of(&op2(Op2::Add, num(1), bool(true)), 2),
        "TypeMismatch(Binary(Add), Two(Int, Bool))"
    );
    assert_eq!(
        value_of(&op2(Op2::And, bool(true), num(1)), 2),
        "TypeMismatch(Binary(And), Two(Bool, Int))"
    );
    let id = fun(sym("f", 0), sym("x", 1), var(sym("x", 1)));
    assert_eq!(
        value_of(&op2(Op2::Div, id, num(0)), 2),
        "TypeMismatch(Binary(Div), Two(Closure, Int))"
    );
}

#[test]
fn operators_on_stored_values() {
    let mut store = Store::new();
    let a = store.put(Value::Int(6));
    let b = store.put(Value::Int(7));
    let t = store.put(Value::Bool(true));
    assert_eq!(store.len(), 3);
    assert_eq!(kind_of(&store, a), Kind::Int);
    assert_eq!(kind_of(&store, t), Kind::Bool);
    let r = eval_op2(&mut store, &Op2::Mul, a, b);
    assert_eq!(shown(&store, &r), "Int(42)");
    assert_eq!(store.len(), 4);
    let r = eval_op2(&mut store, &Op2::Lt, b, a);
    assert_eq!(shown(&store, &r), "Bool(false)");
    let r = eval_op2(&mut store, &Op2::Or, t, a);
    assert!(matches!(
        r,
        Err(EvalError::TypeMismatch(Operator::Binary(Op2::Or), Operands::Two(Kind::Bool, Kind::Int)))
    ));
    let r = eval_op1(&mut store, &Op1::Not, t);
    assert_eq!(shown(&store, &r), "Bool(false)");
    let r = eval_op1(&mut store, &Op1::Neg, a);
    assert_eq!(shown(&store, &r), "Int(-6)");
    // the operands are as they were
    assert!(matches!(store.get(a), Value::Int(6)));
    assert!(matches!(store.get(t), Value::Bool(true)));
}

#[test]
fn a_variable_has_the_value_of_its_most_recent_binding() {
    let mut store = Store::new();
    let one = store.put(Value::Int(1));
    let two = store.put(Value::Int(2));
    let env = cons((5, two), cons((6, one), cons((5, one), nil())));
    let x = var(sym("x", 5));
    let y = var(sym("y", 6));
    let r = eval(&mut store, &env, &x, 1);
    assert_eq!(r.ok(), Some(two));
    let r = eval(&mut store, &env, &y, 1);
    assert_eq!(r.ok(), Some(one));
}

#[test]
fn an_unbound_symbol_is_reported() {
    let m = op2(Op2::Add, num(1), var(sym("ghost", 9)));
    let (_, r) = run(&m, 5);
    assert!(matches!(r, Err(EvalError::UnboundSymbol(ref x)) if x.id == 9 && x.name == "ghost"));
}

#[test]
fn a_function_evaluates_to_a_closure_of_its_environment() {
    let mut store = Store::new();
    let one = store.put(Value::Int(1));
    let env = cons((3, one), nil());
    let m = fun(sym("f", 0), sym("x", 1), var(sym("y", 3)));
    let r = eval(&mut store, &env, &m, 1).unwrap();
    match store.get(r) {
        Value::Clo(Closure { env, func, param, body }) => {
            assert_eq!(lam::env::find(3, env.clone()), Some(one));
            assert_eq!((func.id, param.id), (0, 1));
            assert!(matches!(body, Term::Var(y) if y.id == 3));
        },
        _ => panic!("not a closure"),
    }
}

#[test]
fn application_binds_the_parameter_and_the_function_itself() {
    // (fun f x -> if x <= 0 then 0 else 2 + f (x - 1)) 3
    let f = || var(sym("f", 0));
    let x = || var(sym("x", 1));
    let body = ifte(
        op2(Op2::Lte, x(), num(0)),
        num(0),
        op2(Op2::Add, num(2), app(f(), op2(Op2::Sub, x(), num(1)))),
    );
    let m = app(fun(sym("f", 0), sym("x", 1), body), num(3));
    assert_eq!(value_of(&m, 100), "Int(6)");
}

#[test]
fn applying_a_stored_closure() {
    let body = op2(Op2::Add, var(sym("x", 1)), var(sym("k", 7)));
    let m = fun(sym("f", 0), sym("x", 1), body);
    let mut store = Store::new();
    let ten = store.put(Value::Int(10));
    let env = cons((7, ten), nil());
    let f = eval(&mut store, &env, &m, 1).unwrap();
    let five = store.put(Value::Int(5));
    let r = apply(&mut store, f, five, 3);
    assert_eq!(shown(&store, &r), "Int(15)");
    let r = apply(&mut store, five, f, 3);
    assert!(matches!(r, Err(EvalError::NotAFunction(h)) if h == five));
}

#[test]
fn both_sides_of_an_application_are_evaluated_function_first() {
    // 1 (1 / 0): the argument fails before the function is found unfit
    let m = app(num(1), op2(Op2::Div, num(1), num(0)));
    assert_eq!(value_of(&m, 10), "DivisionByZero");
    // (-true) (1 / 0): the function fails first
    let m = app(op1(Op1::Neg, bool(true)), op2(Op2::Div, num(1), num(0)));
    assert_eq!(value_of(&m, 10), "TypeMismatch(Unary(Neg), One(Bool))");
    // 1 2
    let m = app(num(1), num(2));
    let (store, r) = run(&m, 10);
    match r {
        Err(EvalError::NotAFunction(h)) => assert!(matches!(store.get(h), Value::Int(1))),
        _ => panic!("applied"),
    }
}

#[test]
fn the_left_operand_fails_first() {
    let m = op2(Op2::Add, op1(Op1::Not, num(1)), op2(Op2::Div, num(1), num(0)));
    assert_eq!(value_of(&m, 10), "TypeMismatch(Unary(Not), One(Int))");
    let m = op2(Op2::Add, op2(Op2::Div, num(1), num(0)), op1(Op1::Not, num(1)));
    assert_eq!(value_of(&m, 10), "DivisionByZero");
}

#[test]
fn a_condition_that_is_no_boolean_is_reported_with_its_value() {
    let m = ifte(num(7), num(2), num(3));
    let (store, r) = run(&m, 10);
    match r {
        Err(EvalError::ConditionNotBoolean(h)) => assert!(matches!(store.get(h), Value::Int(7))),
        _ => panic!("tested"),
    }
}

#[test]
fn the_untaken_branch_is_not_evaluated() {
    let bad = || op2(Op2::Div, num(1), num(0));
    assert_eq!(value_of(&ifte(bool(true), num(1), bad()), 10), "Int(1)");
    assert_eq!(value_of(&ifte(bool(false), bad(), num(2)), 10), "Int(2)");
    assert_eq!(value_of(&ifte(bool(false), num(1), bad()), 10), "DivisionByZero");
}

#[test]
fn a_let_extends_the_environment_for_its_body_only() {
    // (let x = 1 in x) + x, with the outer x unbound
    let m = op2(
        Op2::Add,
        letin(sym("x", 0), num(1), var(sym("x", 0))),
        var(sym("x", 0)),
    );
    let (_, r) = run(&m, 10);
    assert!(matches!(r, Err(EvalError::UnboundSymbol(_))));
    let m = letin(sym("x", 0), num(1), op2(Op2::Add, var(sym("x", 0)), num(1)));
    assert_eq!(value_of(&m, 10), "Int(2)");
}

#[test]
fn the_depth_limit_counts_nested_steps() {
    assert_eq!(value_of(&num(1), 0), "StackExhausted");
    assert_eq!(value_of(&num(1), 1), "Int(1)");
    let m = op2(Op2::Add, num(1), op1(Op1::Neg, num(2)));
    assert_eq!(value_of(&m, 2), "StackExhausted");
    assert_eq!(value_of(&m, 3), "Int(-1)");
    assert_eq!(value_of(&m, 3000), "Int(-1)");
    // an application needs one step for itself and one more than its body
    let m = app(fun(sym("f", 0), sym("x", 1), var(sym("x", 1))), num(4));
    assert_eq!(value_of(&m, 1), "StackExhausted");
    assert_eq!(value_of(&m, 2), "Int(4)");
}

#[test]
fn endless_recursion_exhausts_the_depth() {
    // (fun f x -> f x) 0
    let body = app(var(sym("f", 0)), var(sym("x", 1)));
    let m = app(fun(sym("f", 0), sym("x", 1), body), num(0));
    assert_eq!(value_of(&m, 500), "StackExhausted");
}

#[test]
fn the_store_only_grows() {
    let mut store = Store::new();
    let a = store.put(Value::Int(1));
    let env = cons((0, a), nil());
    let m = op2(Op2::Add, var(sym("x", 0)), num(2));
    let before = store.len();
    let r = eval(&mut store, &env, &m, 10).unwrap();
    assert!(store.len() > before);
    assert!(matches!(store.get(a), Value::Int(1)));
    assert!(matches!(store.get(r), Value::Int(3)));
}
