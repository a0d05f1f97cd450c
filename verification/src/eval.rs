//! Big-step evaluation of resolved terms over persistent environments.
//!
//! Values live in a [`Store`] and are referred to by handles: the position at
//! which the store holds them. Environments bind symbol identities to handles.

use crate::ast1::{Op1, Op2, Term, TermView};
use crate::env::{
    below, bindings, cons, find, first_of, lemma_below_nil, lemma_below_raise, nil, ListMap,
};
use crate::names::{Name, NameView};
use vstd::prelude::*;

verus! {

/// The three kinds of value.
#[derive(Debug, Clone, Copy, PartialEq, Eq, Structural)]
pub enum Kind {
    Int,
    Bool,
    Closure,
}

/// The operator of a failed operation.
#[derive(Debug, Clone, Copy, PartialEq, Eq, Structural)]
pub enum Operator {
    Unary(Op1),
    Binary(Op2),
}

/// The kinds of the operands of a failed operation.
#[derive(Debug, Clone, Copy, PartialEq, Eq, Structural)]
pub enum Operands {
    One(Kind),
    Two(Kind, Kind),
}

/// A function together with the environment in which it was made.
#[derive(Debug)]
pub struct Closure<'a> {
    pub env: ListMap,
    pub func: &'a Name,
    pub param: &'a Name,
    pub body: &'a Term,
}

/// A value as the store holds it.
#[derive(Debug)]
pub enum Value<'a> {
    Int(i32),
    Bool(bool),
    Clo(Closure<'a>),
}

/// The values made so far. A value never changes once it is in the store.
#[derive(Debug)]
pub struct Store<'a> {
    cells: Vec<Value<'a>>,
}

impl<'a> View for Store<'a> {
    type V = Seq<Value<'a>>;

    /// The values in the store, each at its handle.
    closed spec fn view(&self) -> Seq<Value<'a>> {
        self.cells@
    }
}

/// Why an evaluation failed.
#[derive(Debug)]
pub enum EvalError {
    /// A symbol that the environment does not bind.
    UnboundSymbol(Name),
    /// An operator applied to operands of kinds it does not take.
    TypeMismatch(Operator, Operands),
    DivisionByZero,
    /// The handle of a value that was applied and is no closure.
    NotAFunction(usize),
    /// The handle of a value that was tested and is no boolean.
    ConditionNotBoolean(usize),
    /// The evaluation needed more nested steps than it was allowed.
    StackExhausted,
}

/// A value of the language.
pub enum Val {
    Int(i32),
    Bool(bool),
    /// The captured environment, the self symbol, the parameter and the body.
    Clo(Map<nat, Val>, NameView, NameView, TermView),
}

/// A failure of the language.
pub enum Fault {
    UnboundSymbol(NameView),
    TypeMismatch(Operator, Operands),
    DivisionByZero,
    NotAFunction(Val),
    ConditionNotBoolean(Val),
    StackExhausted,
}

/// The value that `cells` holds at `id`; a closure's environment is read
/// from the cells before it. Where `cells` holds nothing at `id`, the integer
/// 0 stands in.
pub open spec fn value_at<'a>(cells: Seq<Value<'a>>, id: nat) -> Val
    decreases id + 1, 0nat,
{
    if id < cells.len() {
        match cells[id as int] {
            Value::Int(i) => Val::Int(i),
            Value::Bool(b) => Val::Bool(b),
            Value::Clo(c) => Val::Clo(
                env_below(cells, id, bindings(c.env)),
                c.func@,
                c.param@,
                c.body@,
            ),
        }
    } else {
        Val::Int(0)
    }
}

/// The environment that `items` stands for, reading only handles below
/// `bound`: each symbol is bound to the value of its most recent handle.
pub open spec fn env_below<'a>(cells: Seq<Value<'a>>, bound: nat, items: Seq<(nat, nat)>) -> Map<
    nat,
    Val,
>
    decreases bound, items.len(),
{
    if items.len() == 0 {
        Map::empty()
    } else {
        let rest = env_below(cells, bound, items.drop_first());
        if items[0].1 < bound {
            rest.insert(items[0].0, value_at(cells, items[0].1))
        } else {
            rest
        }
    }
}

/// The 32-bit integer that differs from `x` by a multiple of 2^32.
pub open spec fn wrap(x: int) -> i32 {
    let r = x % 0x1_0000_0000;
    if r > i32::MAX {
        (r - 0x1_0000_0000) as i32
    } else {
        r as i32
    }
}

/// The quotient of `x` by `d`, rounded toward zero.
pub open spec fn quotient(x: int, d: int) -> int
    recommends
        d != 0,
{
    if x >= 0 && d > 0 {
        x / d
    } else if x < 0 && d < 0 {
        (-x) / (-d)
    } else if x < 0 {
        -((-x) / d)
    } else {
        -(x / (-d))
    }
}

impl Val {
    /// The kind of a value.
    pub open spec fn kind(self) -> Kind {
        match self {
            Val::Int(_) => Kind::Int,
            Val::Bool(_) => Kind::Bool,
            Val::Clo(_, _, _, _) => Kind::Closure,
        }
    }
}

/// What a unary operator makes of a value: `Not` takes a boolean, `Neg` an
/// integer, and its result wraps.
pub open spec fn op1_model(op: Op1, a: Val) -> Result<Val, Fault> {
    match (op, a) {
        (Op1::Not, Val::Bool(b)) => Ok(Val::Bool(!b)),
        (Op1::Neg, Val::Int(i)) => Ok(Val::Int(wrap(-i))),
        _ => Err(Fault::TypeMismatch(Operator::Unary(op), Operands::One(a.kind()))),
    }
}

/// What a binary operator makes of two integers. Arithmetic wraps.
pub open spec fn int_op_model(op: Op2, i: i32, j: i32) -> Result<Val, Fault> {
    match op {
        Op2::Add => Ok(Val::Int(wrap(i + j))),
        Op2::Sub => Ok(Val::Int(wrap(i - j))),
        Op2::Mul => Ok(Val::Int(wrap(i * j))),
        Op2::Div => if j == 0 {
            Err(Fault::DivisionByZero)
        } else {
            Ok(Val::Int(wrap(quotient(i as int, j as int))))
        },
        Op2::Lte => Ok(Val::Bool(i <= j)),
        Op2::Gte => Ok(Val::Bool(i >= j)),
        Op2::Lt => Ok(Val::Bool(i < j)),
        Op2::Gt => Ok(Val::Bool(i > j)),
        Op2::Eq => Ok(Val::Bool(i == j)),
        Op2::Neq => Ok(Val::Bool(i != j)),
        Op2::And | Op2::Or => Err(
            Fault::TypeMismatch(Operator::Binary(op), Operands::Two(Kind::Int, Kind::Int)),
        ),
    }
}

/// What a binary operator makes of two booleans.
pub open spec fn bool_op_model(op: Op2, p: bool, q: bool) -> Result<Val, Fault> {
    match op {
        Op2::And => Ok(Val::Bool(p && q)),
        Op2::Or => Ok(Val::Bool(p || q)),
        _ => Err(Fault::TypeMismatch(Operator::Binary(op), Operands::Two(Kind::Bool, Kind::Bool))),
    }
}

/// What a binary operator makes of two values: arithmetic and comparisons
/// take integers, `And` and `Or` take booleans.
pub open spec fn op2_model(op: Op2, a: Val, b: Val) -> Result<Val, Fault> {
    match (a, b) {
        (Val::Int(i), Val::Int(j)) => int_op_model(op, i, j),
        (Val::Bool(p), Val::Bool(q)) => bool_op_model(op, p, q),
        _ => Err(Fault::TypeMismatch(Operator::Binary(op), Operands::Two(a.kind(), b.kind()))),
    }
}

/// The application of the value `f` to the value `a`, in at most `depth`
/// nested steps: the body of a closure runs in the environment it captured,
/// extended by the closure itself under its self symbol and then by the
/// argument under its parameter.
pub open spec fn apply_model(depth: nat, f: Val, a: Val) -> Result<Val, Fault>
    decreases depth, 1nat,
{
    match f {
        Val::Clo(env, func, param, body) => eval_model(
            depth,
            env.insert(func.id, f).insert(param.id, a),
            body,
        ),
        _ => Err(Fault::NotAFunction(f)),
    }
}

/// The result of evaluating `m` in `env` in at most `depth` nested steps.
///
/// Operands are evaluated from left to right and all of them before the
/// operator is looked at; the first failure is the result. Of the branches of
/// a conditional only the chosen one is evaluated.
pub open spec fn eval_model(depth: nat, env: Map<nat, Val>, m: TermView) -> Result<Val, Fault>
    decreases depth, 0nat,
{
    if depth == 0 {
        Err(Fault::StackExhausted)
    } else {
        let d = (depth - 1) as nat;
        match m {
            TermView::Int(i) => Ok(Val::Int(i)),
            TermView::Bool(b) => Ok(Val::Bool(b)),
            TermView::Var(x) => if env.contains_key(x.id) {
                Ok(env[x.id])
            } else {
                Err(Fault::UnboundSymbol(x))
            },
            TermView::Op1(op, m1) => match eval_model(d, env, *m1) {
                Ok(a) => op1_model(op, a),
                Err(e) => Err(e),
            },
            TermView::Op2(op, m1, m2) => match eval_model(d, env, *m1) {
                Ok(a) => match eval_model(d, env, *m2) {
                    Ok(b) => op2_model(op, a, b),
                    Err(e) => Err(e),
                },
                Err(e) => Err(e),
            },
            TermView::Fun(f, x, body) => Ok(Val::Clo(env, f, x, *body)),
            TermView::App(m1, m2) => match eval_model(d, env, *m1) {
                Ok(f) => match eval_model(d, env, *m2) {
                    Ok(a) => apply_model(d, f, a),
                    Err(e) => Err(e),
                },
                Err(e) => Err(e),
            },
            TermView::LetIn(x, m1, m2) => match eval_model(d, env, *m1) {
                Ok(a) => eval_model(d, env.insert(x.id, a), *m2),
                Err(e) => Err(e),
            },
            TermView::Ifte(m1, m2, m3) => match eval_model(d, env, *m1) {
                Ok(Val::Bool(true)) => eval_model(d, env, *m2),
                Ok(Val::Bool(false)) => eval_model(d, env, *m3),
                Ok(c) => Err(Fault::ConditionNotBoolean(c)),
                Err(e) => Err(e),
            },
        }
    }
}

impl<'a> Store<'a> {
    /// Whether every closure in the store captured only values that were
    /// in the store before it.
    #[verifier::opaque]
    pub open spec fn wf(self) -> bool {
        forall|i: int|
            0 <= i < self@.len() ==> match #[trigger] self@[i] {
                Value::Clo(c) => below(bindings(c.env), i as nat),
                _ => true,
            }
    }

    /// The number of values in the store.
    pub open spec fn size(self) -> nat {
        self@.len()
    }

    /// The value behind the handle `id`.
    pub open spec fn value(self, id: nat) -> Val {
        value_at(self@, id)
    }

    /// The environment that the bindings `items` stand for.
    pub open spec fn env(self, items: Seq<(nat, nat)>) -> Map<nat, Val> {
        env_below(self@, self@.len(), items)
    }

    /// What `v` stands for, its captured bindings read in this store.
    pub open spec fn reading(self, v: Value<'a>) -> Val {
        match v {
            Value::Int(i) => Val::Int(i),
            Value::Bool(b) => Val::Bool(b),
            Value::Clo(c) => Val::Clo(self.env(bindings(c.env)), c.func@, c.param@, c.body@),
        }
    }

    /// Whether this store holds everything that `earlier` holds, at the same
    /// handles.
    #[verifier::opaque]
    pub open spec fn extends(self, earlier: Store<'a>) -> bool {
        &&& earlier@.len() <= self@.len()
        &&& forall|i: int| 0 <= i < earlier@.len() ==> self@[i] == earlier@[i]
    }

    /// The empty store.
    pub fn new() -> (s: Store<'a>)
        ensures
            s.wf(),
            s.size() == 0,
    {
        let s = Store { cells: Vec::new() };
        proof {
            reveal(Store::wf);
        }
        s
    }

    /// The number of values in the store.
    pub fn len(&self) -> (n: usize)
        ensures
            n == self.size(),
    {
        self.cells.len()
    }

    /// The value behind the handle `id`.
    pub fn get(&self, id: usize) -> (v: &Value<'a>)
        requires
            id < self.size(),
        ensures
            *v == self@[id as int],
            self.wf() ==> self.reading(*v) == self.value(id as nat),
            self.wf() ==> (*v matches Value::Clo(c) ==> below(bindings(c.env), self.size())),
    {
        let v = &self.cells[id];
        proof {
            if self.wf() {
                reveal(Store::wf);
                match v {
                    Value::Clo(c) => {
                        lemma_env_bound(self@, id as nat, self.size(), bindings(c.env));
                        lemma_below_raise(bindings(c.env), id as nat, self.size());
                    },
                    _ => {},
                }
            }
        }
        v
    }

    /// Puts `v` into the store and returns its handle.
    pub fn put(&mut self, v: Value<'a>) -> (id: usize)
        requires
            old(self).wf(),
            v matches Value::Clo(c) ==> below(bindings(c.env), old(self).size()),
        ensures
            final(self).wf(),
            final(self).extends(*old(self)),
            final(self)@ == old(self)@.push(v),
            final(self).value(id as nat) == old(self).reading(v),
            id == old(self).size(),
    {
        let id: usize = self.cells.len();
        let ghost items = match &v {
            Value::Clo(c) => bindings(c.env),
            _ => Seq::empty(),
        };
        self.cells.push(v);
        proof {
            reveal(Store::wf);
            reveal(Store::extends);
            lemma_env_stable(old(self)@, self@, id as nat, items);
        }
        id
    }
}

/// The value behind a handle depends only on the cells up to that handle.
pub proof fn lemma_value_stable<'a>(c1: Seq<Value<'a>>, c2: Seq<Value<'a>>, id: nat)
    requires
        id < c1.len() <= c2.len(),
        forall|i: int| 0 <= i <= id ==> c1[i] == c2[i],
    ensures
        value_at(c1, id) == value_at(c2, id),
    decreases id + 1, 0nat,
{
    match c1[id as int] {
        Value::Clo(c) => {
            lemma_env_stable(c1, c2, id, bindings(c.env));
        },
        _ => {},
    }
}

/// An environment read below a bound depends only on the cells below it.
pub proof fn lemma_env_stable<'a>(
    c1: Seq<Value<'a>>,
    c2: Seq<Value<'a>>,
    bound: nat,
    items: Seq<(nat, nat)>,
)
    requires
        bound <= c1.len() <= c2.len(),
        forall|i: int| 0 <= i < bound ==> c1[i] == c2[i],
    ensures
        env_below(c1, bound, items) == env_below(c2, bound, items),
    decreases bound, items.len(),
{
    if items.len() > 0 {
        lemma_env_stable(c1, c2, bound, items.drop_first());
        if items[0].1 < bound {
            lemma_value_stable(c1, c2, items[0].1);
        }
    }
}

/// Raising the bound above every handle of an environment changes nothing.
pub proof fn lemma_env_bound<'a>(cells: Seq<Value<'a>>, b1: nat, b2: nat, items: Seq<(nat, nat)>)
    requires
        below(items, b1),
        b1 <= b2,
    ensures
        env_below(cells, b1, items) == env_below(cells, b2, items),
    decreases items.len(),
{
    reveal(below);
    if items.len() > 0 {
        assert(below(items.drop_first(), b1)) by {
            assert forall|j: int| 0 <= j < items.drop_first().len() implies (
            #[trigger] items.drop_first()[j]).1 < b1 by {
                assert(items.drop_first()[j] == items[j + 1]);
            }
        }
        lemma_env_bound(cells, b1, b2, items.drop_first());
        assert(items[0].1 < b1);
    }
}

/// Looking a symbol up in the bindings agrees with the environment they
/// stand for.
pub proof fn lemma_env_lookup<'a>(cells: Seq<Value<'a>>, bound: nat, items: Seq<(nat, nat)>, k: nat)
    requires
        below(items, bound),
    ensures
        match first_of(items, k) {
            Some(h) => h < bound && env_below(cells, bound, items).contains_key(k) && env_below(
                cells,
                bound,
                items,
            )[k] == value_at(cells, h),
            None => !env_below(cells, bound, items).contains_key(k),
        },
    decreases items.len(),
{
    reveal(below);
    if items.len() > 0 {
        assert(below(items.drop_first(), bound)) by {
            assert forall|j: int| 0 <= j < items.drop_first().len() implies (
            #[trigger] items.drop_first()[j]).1 < bound by {
                assert(items.drop_first()[j] == items[j + 1]);
            }
        }
        lemma_env_lookup(cells, bound, items.drop_first(), k);
        assert(items[0].1 < bound);
    }
}

/// A store that grew holds the same value behind every earlier handle.
pub proof fn lemma_value_kept<'a>(later: Store<'a>, earlier: Store<'a>, id: nat)
    requires
        later.extends(earlier),
        id < earlier.size(),
    ensures
        id < later.size(),
        later.value(id) == earlier.value(id),
{
    reveal(Store::extends);
    lemma_value_stable(earlier@, later@, id);
}

/// In a store that grew, bindings stand for the same environment as before.
pub proof fn lemma_env_kept<'a>(later: Store<'a>, earlier: Store<'a>, items: Seq<(nat, nat)>)
    requires
        later.extends(earlier),
        below(items, earlier.size()),
    ensures
        below(items, later.size()),
        later.env(items) == earlier.env(items),
{
    reveal(Store::extends);
    lemma_env_stable(earlier@, later@, earlier.size(), items);
    lemma_env_bound(later@, earlier.size(), later.size(), items);
    lemma_below_raise(items, earlier.size(), later.size());
}

/// A store extends itself.
pub proof fn lemma_extends_self<'a>(a: Store<'a>)
    ensures
        a.extends(a),
{
    reveal(Store::extends);
}

/// Growing twice is growing.
pub proof fn lemma_extends_chain<'a>(a: Store<'a>, b: Store<'a>, c: Store<'a>)
    requires
        c.extends(b),
        b.extends(a),
    ensures
        c.extends(a),
        a.size() <= b.size() <= c.size(),
{
    reveal(Store::extends);
}

/// A step that follows growth of the store has computed, from the store
/// before the growth, what it has computed from the store after it.
pub proof fn lemma_yields_after<'a>(
    s0: Store<'a>,
    s1: Store<'a>,
    s2: Store<'a>,
    r: Result<usize, EvalError>,
    expected: Result<Val, Fault>,
)
    requires
        s1.extends(s0),
        yields(s1, s2, r, expected),
    ensures
        yields(s0, s2, r, expected),
{
    lemma_extends_chain(s0, s1, s2);
}

impl EvalError {
    /// The failure that this error reports, its handles read in `store`.
    pub open spec fn fault<'a>(self, store: Store<'a>) -> Fault {
        match self {
            EvalError::UnboundSymbol(x) => Fault::UnboundSymbol(x@),
            EvalError::TypeMismatch(op, kinds) => Fault::TypeMismatch(op, kinds),
            EvalError::DivisionByZero => Fault::DivisionByZero,
            EvalError::NotAFunction(h) => Fault::NotAFunction(store.value(h as nat)),
            EvalError::ConditionNotBoolean(h) => Fault::ConditionNotBoolean(store.value(h as nat)),
            EvalError::StackExhausted => Fault::StackExhausted,
        }
    }
}

/// What a returned result stands for, its handles read in `store`.
pub open spec fn result_of<'a>(store: Store<'a>, r: Result<usize, EvalError>) -> Result<
    Val,
    Fault,
> {
    match r {
        Ok(h) => Ok(store.value(h as nat)),
        Err(e) => Err(e.fault(store)),
    }
}

/// Whether a step that took the store from `before` to `after` and returned
/// `r` has computed `expected`: the store only grew, and `r` is a handle of
/// the expected value or reports the expected failure.
pub open spec fn yields<'a>(
    before: Store<'a>,
    after: Store<'a>,
    r: Result<usize, EvalError>,
    expected: Result<Val, Fault>,
) -> bool {
    &&& after.wf()
    &&& after.extends(before)
    &&& r matches Ok(h) ==> h < after.size()
    &&& result_of(after, r) == expected
}

/// The kind of the value behind the handle `a`.
pub fn kind_of<'a>(store: &Store<'a>, a: usize) -> (k: Kind)
    requires
        a < store.size(),
    ensures
        k == store.value(a as nat).kind(),
{
    match store.get(a) {
        Value::Int(_) => Kind::Int,
        Value::Bool(_) => Kind::Bool,
        Value::Clo(_) => Kind::Closure,
    }
}

/// The quotient rounded toward zero lies between the dividend and its
/// negation.
proof fn lemma_quotient_bounds(x: int, d: int)
    requires
        d != 0,
    ensures
        x >= 0 ==> -x <= quotient(x, d) <= x,
        x < 0 ==> x <= quotient(x, d) <= -x,
        x == 0 ==> quotient(x, d) == 0,
        d == 1 ==> quotient(x, d) == x,
        d == -1 ==> quotient(x, d) == -x,
{
    assert(forall|a: int, b: int| a >= 0 && b > 0 ==> 0 <= #[trigger] (a / b) <= a)
        by (nonlinear_arith);
    assert(forall|a: int| #[trigger] (a / 1) == a) by (nonlinear_arith);
}

/// Applies the unary operator `op` to the value behind `a`.
pub fn eval_op1<'a>(store: &mut Store<'a>, op: &Op1, a: usize) -> (r: Result<usize, EvalError>)
    requires
        old(store).wf(),
        a < old(store).size(),
    ensures
        yields(*old(store), *final(store), r, op1_model(*op, old(store).value(a as nat))),
{
    let out = match (op, store.get(a)) {
        (Op1::Not, Value::Bool(b)) => Value::Bool(!*b),
        (Op1::Neg, Value::Int(i)) => Value::Int(0i32.wrapping_sub(*i)),
        _ => {
            proof {
                lemma_extends_self(*store);
            }
            return Err(
                EvalError::TypeMismatch(Operator::Unary(*op), Operands::One(kind_of(store, a))),
            );
        },
    };
    let h = store.put(out);
    Ok(h)
}

/// What a result that holds neither a closure nor a handle stands for.
pub open spec fn plain<'a>(r: Result<Value<'a>, EvalError>) -> Option<Result<Val, Fault>> {
    match r {
        Ok(Value::Int(k)) => Some(Ok(Val::Int(k))),
        Ok(Value::Bool(b)) => Some(Ok(Val::Bool(b))),
        Err(EvalError::DivisionByZero) => Some(Err(Fault::DivisionByZero)),
        Err(EvalError::TypeMismatch(o, k)) => Some(Err(Fault::TypeMismatch(o, k))),
        _ => None,
    }
}

/// Applies the binary operator `op` to the integers `i` and `j`.
pub fn eval_int_op<'a>(op: &Op2, i: i32, j: i32) -> (r: Result<Value<'a>, EvalError>)
    ensures
        plain(r) == Some(int_op_model(*op, i, j)),
{
    match op {
        Op2::Add => Ok(Value::Int(i.wrapping_add(j))),
        Op2::Sub => Ok(Value::Int(i.wrapping_sub(j))),
        Op2::Mul => Ok(Value::Int(i.wrapping_mul(j))),
        Op2::Div => {
            if j == 0 {
                Err(EvalError::DivisionByZero)
            } else {
                proof {
                    lemma_quotient_bounds(i as int, j as int);
                }
                match i.checked_div(j) {
                    Some(q) => Ok(Value::Int(q)),
                    None => Ok(Value::Int(i32::MIN)),
                }
            }
        },
        Op2::Lte => Ok(Value::Bool(i <= j)),
        Op2::Gte => Ok(Value::Bool(i >= j)),
        Op2::Lt => Ok(Value::Bool(i < j)),
        Op2::Gt => Ok(Value::Bool(i > j)),
        Op2::Eq => Ok(Value::Bool(i == j)),
        Op2::Neq => Ok(Value::Bool(i != j)),
        Op2::And | Op2::Or => Err(
            EvalError::TypeMismatch(Operator::Binary(*op), Operands::Two(Kind::Int, Kind::Int)),
        ),
    }
}

/// Applies the binary operator `op` to the booleans `p` and `q`.
pub fn eval_bool_op<'a>(op: &Op2, p: bool, q: bool) -> (r: Result<Value<'a>, EvalError>)
    ensures
        plain(r) == Some(bool_op_model(*op, p, q)),
{
    match op {
        Op2::And => Ok(Value::Bool(p && q)),
        Op2::Or => Ok(Value::Bool(p || q)),
        _ => Err(
            EvalError::TypeMismatch(Operator::Binary(*op), Operands::Two(Kind::Bool, Kind::Bool)),
        ),
    }
}

/// Applies the binary operator `op` to the values behind `a` and `b`.
pub fn eval_op2<'a>(store: &mut Store<'a>, op: &Op2, a: usize, b: usize) -> (r: Result<
    usize,
    EvalError,
>)
    requires
        old(store).wf(),
        a < old(store).size(),
        b < old(store).size(),
    ensures
        yields(
            *old(store),
            *final(store),
            r,
            op2_model(*op, old(store).value(a as nat), old(store).value(b as nat)),
        ),
{
    let out = match (store.get(a), store.get(b)) {
        (Value::Int(i), Value::Int(j)) => eval_int_op(op, *i, *j),
        (Value::Bool(p), Value::Bool(q)) => eval_bool_op(op, *p, *q),
        _ => Err(
            EvalError::TypeMismatch(
                Operator::Binary(*op),
                Operands::Two(kind_of(store, a), kind_of(store, b)),
            ),
        ),
    };
    match out {
        Ok(v) => {
            let h = store.put(v);
            Ok(h)
        },
        Err(e) => {
            proof {
                lemma_extends_self(*store);
            }
            Err(e)
        },
    }
}

/// Putting a binding before the others binds its symbol to its value and
/// leaves the other symbols as they were.
pub proof fn lemma_env_cons<'a>(
    cells: Seq<Value<'a>>,
    bound: nat,
    k: nat,
    h: nat,
    items: Seq<(nat, nat)>,
)
    requires
        h < bound,
        below(items, bound),
    ensures
        below(seq![(k, h)] + items, bound),
        env_below(cells, bound, seq![(k, h)] + items) == env_below(cells, bound, items).insert(
            k,
            value_at(cells, h),
        ),
{
    reveal(below);
    let all = seq![(k, h)] + items;
    assert(all.drop_first() =~= items);
    assert(all[0] == (k, h));
}


/// Applies the value behind `f` to the value behind `a`, in at most `depth`
/// nested steps.
pub fn apply<'a>(store: &mut Store<'a>, f: usize, a: usize, depth: usize) -> (r: Result<
    usize,
    EvalError,
>)
    requires
        old(store).wf(),
        f < old(store).size(),
        a < old(store).size(),
    ensures
        yields(
            *old(store),
            *final(store),
            r,
            apply_model(depth as nat, old(store).value(f as nat), old(store).value(a as nat)),
        ),
    decreases depth, 1nat,
{
    match store.get(f) {
        Value::Clo(c) => {
            let body: &'a Term = c.body;
            let inner = cons((c.func.id, f), c.env.clone());
            let local = cons((c.param.id, a), inner);
            proof {
                let size = store.size();
                lemma_env_cons(store@, size, c.func.id as nat, f as nat, bindings(c.env));
                lemma_env_cons(store@, size, c.param.id as nat, a as nat, bindings(inner));
            }
            eval(store, &local, body, depth)
        },
        _ => {
            proof {
                lemma_extends_self(*store);
            }
            Err(EvalError::NotAFunction(f))
        },
    }
}

/// Evaluates `m0` in `env`, in at most `depth` nested steps.
pub fn eval<'a>(store: &mut Store<'a>, env: &ListMap, m0: &'a Term, depth: usize) -> (r: Result<
    usize,
    EvalError,
>)
    requires
        old(store).wf(),
        below(bindings(*env), old(store).size()),
    ensures
        yields(
            *old(store),
            *final(store),
            r,
            eval_model(depth as nat, old(store).env(bindings(*env)), m0@),
        ),
    decreases depth, 0nat,
{
    let ghost s0 = *store;
    let ghost items = bindings(*env);
    proof {
        lemma_extends_self(s0);
    }
    if depth == 0 {
        return Err(EvalError::StackExhausted);
    }
    let d: usize = depth - 1;
    match m0 {
        Term::Int(i) => {
            let h = store.put(Value::Int(*i));
            Ok(h)
        },
        Term::Bool(b) => {
            let h = store.put(Value::Bool(*b));
            Ok(h)
        },
        Term::Var(x) => {
            proof {
                lemma_env_lookup(store@, store.size(), items, x.id as nat);
            }
            match find(x.id, env.clone()) {
                Some(h) => Ok(h),
                None => Err(EvalError::UnboundSymbol(x.clone())),
            }
        },
        Term::Op1(op, m) => {
            match eval(store, env, m, d) {
                Ok(a) => {
                    let ghost s1 = *store;
                    let r = eval_op1(store, op, a);
                    proof {
                        lemma_yields_after(s0, s1, *store, r, op1_model(*op, s1.value(a as nat)));
                    }
                    r
                },
                Err(e) => Err(e),
            }
        },
        Term::Op2(op, m, n) => {
            match eval(store, env, m, d) {
                Ok(a) => {
                    let ghost s1 = *store;
                    proof {
                        lemma_env_kept(s1, s0, items);
                    }
                    match eval(store, env, n, d) {
                        Ok(b) => {
                            let ghost s2 = *store;
                            proof {
                                lemma_value_kept(s2, s1, a as nat);
                                lemma_extends_chain(s0, s1, s2);
                            }
                            let r = eval_op2(store, op, a, b);
                            proof {
                                lemma_yields_after(
                                    s0,
                                    s2,
                                    *store,
                                    r,
                                    op2_model(*op, s2.value(a as nat), s2.value(b as nat)),
                                );
                            }
                            r
                        },
                        Err(e) => {
                            proof {
                                lemma_extends_chain(s0, s1, *store);
                            }
                            Err(e)
                        },
                    }
                },
                Err(e) => Err(e),
            }
        },
        Term::Fun(f, x, m) => {
            let clo = Closure { env: env.clone(), func: f, param: x, body: &**m };
            let h = store.put(Value::Clo(clo));
            Ok(h)
        },
        Term::App(m, n) => {
            match eval(store, env, m, d) {
                Ok(f) => {
                    let ghost s1 = *store;
                    proof {
                        lemma_env_kept(s1, s0, items);
                    }
                    match eval(store, env, n, d) {
                        Ok(a) => {
                            let ghost s2 = *store;
                            proof {
                                lemma_value_kept(s2, s1, f as nat);
                                lemma_extends_chain(s0, s1, s2);
                            }
                            let r = apply(store, f, a, d);
                            proof {
                                lemma_yields_after(
                                    s0,
                                    s2,
                                    *store,
                                    r,
                                    apply_model(d as nat, s2.value(f as nat), s2.value(a as nat)),
                                );
                            }
                            r
                        },
                        Err(e) => {
                            proof {
                                lemma_extends_chain(s0, s1, *store);
                            }
                            Err(e)
                        },
                    }
                },
                Err(e) => Err(e),
            }
        },
        Term::LetIn(x, m, n) => {
            match eval(store, env, m, d) {
                Ok(a) => {
                    let ghost s1 = *store;
                    let local = cons((x.id, a), env.clone());
                    proof {
                        lemma_env_kept(s1, s0, items);
                        lemma_env_cons(s1@, s1.size(), x.id as nat, a as nat, items);
                    }
                    let r = eval(store, &local, n, d);
                    proof {
                        lemma_yields_after(
                            s0,
                            s1,
                            *store,
                            r,
                            eval_model(d as nat, s1.env(bindings(local)), n@),
                        );
                    }
                    r
                },
                Err(e) => Err(e),
            }
        },
        Term::Ifte(m, n1, n2) => {
            match eval(store, env, m, d) {
                Ok(c) => {
                    let ghost s1 = *store;
                    proof {
                        lemma_env_kept(s1, s0, items);
                    }
                    let test: Option<bool> = match store.get(c) {
                        Value::Bool(b) => Some(*b),
                        _ => None,
                    };
                    match test {
                        Some(true) => {
                            let r = eval(store, env, n1, d);
                            proof {
                                lemma_yields_after(
                                    s0,
                                    s1,
                                    *store,
                                    r,
                                    eval_model(d as nat, s1.env(items), n1@),
                                );
                            }
                            r
                        },
                        Some(false) => {
                            let r = eval(store, env, n2, d);
                            proof {
                                lemma_yields_after(
                                    s0,
                                    s1,
                                    *store,
                                    r,
                                    eval_model(d as nat, s1.env(items), n2@),
                                );
                            }
                            r
                        },
                        None => Err(EvalError::ConditionNotBoolean(c)),
                    }
                },
                Err(e) => Err(e),
            }
        },
    }
}

/// Evaluates the program `m`, in at most `depth` nested steps: a term in
/// the environment that binds no symbol, with a store of its own.
pub fn run<'a>(m: &'a Term, depth: usize) -> (out: (Store<'a>, Result<usize, EvalError>))
    ensures
        out.0.wf(),
        out.1 matches Ok(h) ==> h < out.0.size(),
        result_of(out.0, out.1) == eval_model(depth as nat, Map::empty(), m@),
{
    let mut store = Store::new();
    let env = nil();
    proof {
        lemma_below_nil(store.size());
    }
    let r = eval(&mut store, &env, m, depth);
    (store, r)
}

} // verus!
