use lam::ast0::{app, fun, ifte, letin, num, op1, op2, var, Op1, Op2, Term};
use lam::ast1;
use lam::names::{Name, Supply};
use lam::sugar::{decl, decl_rec, lambda};
use lam::trans01::{binder_count, has_room, trans, trans_op1, trans_op2, trans_program};
use lam::trans01::{Ctx, ResolveError};

fn v(s: &str) -> Box<Term> {
    var(String::from(s))
}

fn s(s: &str) -> String {
    String::from(s)
}

fn shown(t: &ast1::Term) -> String {
    match t {
        ast1::Term::Int(i) => format!("{}", i),
        ast1::Term::Bool(b) => format!("{}", b),
        ast1::Term::Var(x) => format!("{}_{}", x.name, x.id),
        ast1::Term::Op1(op, m) => format!("({:?} {})", op, shown(m)),
        ast1::Term::Op2(op, m, n) => format!("({:?} {} {})", op, shown(m), shown(n)),
        ast1::Term::Fun(f, x, m) => format!("(fun {}_{} {}_{} {})", f.name, f.id, x.name, x.id, shown(m)),
        ast1::Term::App(m, n) => format!("({} {})", shown(m), shown(n)),
        ast1::Term::LetIn(x, m, n) => format!("(let {}_{} {} {})", x.name, x.id, shown(m), shown(n)),
        ast1::Term::Ifte(m, n1, n2) => format!("(if {} {} {})", shown(m), shown(n1), shown(n2)),
    }
}

fn resolved_from(first: u64, m: &Term) -> String {
    let mut supply = Supply::starting_at(first);
    match trans_program(&mut supply, m) {
        Ok(t) => shown(&t),
        Err(ResolveError::UnboundVariable(x)) => format!("unbound {}", x),
    }
}

#[test]
fn literals_pass_through() {
    assert_eq!(resolved_from(0, &num(-5)), "-5");
    assert_eq!(resolved_from(0, &lam::ast0::bool(true)), "true");
}

#[test]
fn a_function_gets_two_symbols_in_order() {
    let m = fun(s("f"), s("x"), app(v("f"), v("x")));
    assert_eq!(resolved_from(0, &m), "(fun f_0 x_1 (f_0 x_1))");
    assert_eq!(resolved_from(40, &m), "(fun f_40 x_41 (f_40 x_41))");
}

#[test]
fn the_parameter_hides_a_self_name_spelled_alike() {
    let m = fun(s("x"), s("x"), v("x"));
    assert_eq!(resolved_from(0, &m), "(fun x_0 x_1 x_1)");
}

#[test]
fn a_let_bound_name_is_not_visible_in_its_own_definition() {
    let m = letin(s("x"), v("x"), v("x"));
    assert_eq!(resolved_from(0, &m), "unbound x");
}

#[test]
fn a_let_is_numbered_after_the_binders_of_its_definition() {
    // let g = (fun f x -> x) in g
    let m = letin(s("g"), fun(s("f"), s("x"), v("x")), v("g"));
    assert_eq!(resolved_from(0, &m), "(let g_2 (fun f_0 x_1 x_1) g_2)");
}

#[test]
fn an_inner_binding_shadows_an_outer_one() {
    let m = letin(s("x"), num(1), letin(s("x"), num(2), v("x")));
    assert_eq!(resolved_from(0, &m), "(let x_0 1 (let x_1 2 x_1))");
}

#[test]
fn a_binding_ends_with_its_body() {
    // (let x = 1 in x) + x
    let m = op2(Op2::Add, letin(s("x"), num(1), v("x")), v("x"));
    assert_eq!(resolved_from(0, &m), "unbound x");
    // (fun y -> y) y
    let m = app(fun(s(""), s("y"), v("y")), v("y"));
    assert_eq!(resolved_from(0, &m), "unbound y");
}

#[test]
fn operands_are_resolved_from_left_to_right() {
    let m = op2(Op2::Sub, v("a"), v("b"));
    assert_eq!(resolved_from(0, &m), "unbound a");
    let m = ifte(
        letin(s("c"), num(1), v("c")),
        fun(s("f"), s("x"), v("x")),
        op1(Op1::Neg, letin(s("d"), num(2), v("d"))),
    );
    assert_eq!(
        resolved_from(10, &m),
        "(if (let c_10 1 c_10) (fun f_11 x_12 x_12) (Neg (let d_13 2 d_13)))"
    );
}

#[test]
fn operators_keep_their_tag() {
    assert_eq!(format!("{:?}", trans_op1(&Op1::Neg)), "Neg");
    assert_eq!(format!("{:?}", trans_op1(&Op1::Not)), "Not");
    let all = [
        Op2::Add,
        Op2::Sub,
        Op2::Mul,
        Op2::Div,
        Op2::Lte,
        Op2::Gte,
        Op2::Lt,
        Op2::Gt,
        Op2::Eq,
        Op2::Neq,
        Op2::And,
        Op2::Or,
    ];
    for op in all.iter() {
        assert_eq!(format!("{:?}", trans_op2(op)), format!("{:?}", op));
    }
}

#[test]
fn a_context_gives_its_symbols_to_free_names() {
    let mut ctx = Ctx::default();
    ctx.insert(s("x"), 7);
    let mut supply = Supply::starting_at(100);
    let m = op2(Op2::Add, v("x"), letin(s("x"), num(1), v("x")));
    let t = trans(&ctx, &mut supply, &m).unwrap();
    assert_eq!(shown(&t), "(Add x_7 (let x_100 1 x_100))");
    assert_eq!(supply.next, 101);
    // the context itself is as it was
    assert_eq!(ctx.len(), 1);
    assert_eq!(ctx.get("x"), Some(&7));
}

#[test]
fn resolving_twice_renames_the_symbols_in_order() {
    // let rec fact n = if n <= 1 then 1 else n * fact (n - 1) in fact 5
    let body = ifte(
        op2(Op2::Lte, v("n"), num(1)),
        num(1),
        op2(Op2::Mul, v("n"), app(v("fact"), op2(Op2::Sub, v("n"), num(1)))),
    );
    let m = decl_rec(s("fact"), s("n"), Vec::new(), body, app(v("fact"), num(5)));
    let mut supply = Supply::new();
    let first = shown(&trans_program(&mut supply, &m).unwrap());
    let second = shown(&trans_program(&mut supply, &m).unwrap());
    assert_eq!(
        first,
        "(let fact_2 (fun fact_0 n_1 (if (Lte n_1 1) 1 (Mul n_1 (fact_0 (Sub n_1 1))))) (fact_2 5))"
    );
    assert_eq!(
        second,
        "(let fact_5 (fun fact_3 n_4 (if (Lte n_4 1) 1 (Mul n_4 (fact_3 (Sub n_4 1))))) (fact_5 5))"
    );
    assert_eq!(supply.next, 6);
}

#[test]
fn a_failed_resolution_keeps_the_symbols_it_made() {
    // (fun f x -> x) (let y = z in y): two symbols made before z is met
    let m = app(fun(s("f"), s("x"), v("x")), letin(s("y"), v("z"), v("y")));
    let mut supply = Supply::new();
    let r = trans_program(&mut supply, &m);
    assert!(matches!(r, Err(ResolveError::UnboundVariable(ref x)) if x == "z"));
    assert_eq!(supply.next, 2);
}

#[test]
fn binders_are_counted() {
    let m = app(fun(s("f"), s("x"), v("x")), letin(s("y"), v("z"), v("y")));
    assert_eq!(binder_count(&m), Some(3));
    assert_eq!(binder_count(&num(1)), Some(0));
    assert!(has_room(&Supply::starting_at(u64::MAX - 3), &m));
    assert!(!has_room(&Supply::starting_at(u64::MAX - 2), &m));
    assert!(has_room(&Supply::starting_at(u64::MAX), &num(1)));
}

#[test]
fn a_supply_counts_up() {
    let mut supply = Supply::new();
    assert_eq!(supply.remaining(), u64::MAX);
    let a = supply.fresh(s("a"));
    let b = supply.fresh(s("a"));
    assert_eq!((a.name.as_str(), a.id), ("a", 0));
    assert_eq!((b.name.as_str(), b.id), ("a", 1));
    assert_eq!(supply.next, 2);
    assert_eq!(supply.remaining(), u64::MAX - 2);
}

#[test]
fn symbols_are_equal_by_identity_not_by_spelling() {
    let a = Name::create(s("x"), 1);
    let b = Name::create(s("x"), 2);
    let c = Name::create(s("y"), 1);
    assert!(a != b);
    assert!(a == c);
    let d = a.clone();
    assert!(d == a);
    assert_eq!(d.name, "x");
}

#[test]
fn several_parameters_become_nested_functions() {
    // fun a b c -> a
    let m = lambda(vec![s("a"), s("b"), s("c")], v("a"));
    assert_eq!(resolved_from(0, &m), "(fun _0 a_1 (fun _2 b_3 (fun _4 c_5 a_1)))");
    // no parameter: the body itself
    let m = lambda(Vec::new(), num(3));
    assert_eq!(resolved_from(0, &m), "3");
}

#[test]
fn a_declaration_binds_a_function_of_its_parameters() {
    // let k x y = x in k
    let m = decl(s("k"), vec![s("x"), s("y")], v("x"), v("k"));
    assert_eq!(
        resolved_from(0, &m),
        "(let k_4 (fun _0 x_1 (fun _2 y_3 x_1)) k_4)"
    );
    // let k = 1 in k
    let m = decl(s("k"), Vec::new(), num(1), v("k"));
    assert_eq!(resolved_from(0, &m), "(let k_0 1 k_0)");
    // let k x = k in k: not recursive, so the inner k is unbound
    let m = decl(s("k"), vec![s("x")], v("k"), v("k"));
    assert_eq!(resolved_from(0, &m), "unbound k");
}

#[test]
fn a_recursive_declaration_sees_itself() {
    // let rec f x y = f in f
    let m = decl_rec(s("f"), s("x"), vec![s("y")], v("f"), v("f"));
    assert_eq!(
        resolved_from(0, &m),
        "(let f_4 (fun f_0 x_1 (fun _2 y_3 f_0)) f_4)"
    );
}
