//! Name resolution: from surface terms to resolved terms.
//!
//! Every binder gets a symbol that no other binder has, and every variable
//! occurrence gets the symbol of the binder that is visible where it stands.

use crate::ast0;
use crate::ast1;
use crate::names::{Name, NameView, Supply};
use vstd::prelude::*;

verus! {

/// `ahash::RandomState`, the hasher of a [`Ctx`]: carried along, never looked
/// into.
#[verifier::external_type_specification]
#[verifier::external_body]
pub struct ExRandomState(ahash::RandomState);

/// The names that are visible at a place, each with the identity of its
/// symbol: std's `HashMap`, hashing with `ahash::RandomState`.
pub type Ctx = ahash::HashMap<String, u64>;

/// The names that a context binds, each with the identity of its symbol.
pub uninterp spec fn scope(ctx: Ctx) -> Map<Seq<char>, nat>;

/// `HashMap::default`, with the hasher that `ahash::RandomState::default`
/// gives: the context that binds no name. Taken on trust: the new map holds
/// no entry.
#[verifier::external_body]
fn empty() -> (ctx: Ctx)
    ensures
        scope(ctx) == (Map::<Seq<char>, nat>::empty()),
{
    Ctx::default()
}

/// `HashMap::get`: the identity that the context binds to `s`, if any. Taken
/// on trust: the result is the entry whose key is spelled like `s`, and
/// `None` where the map has no such key.
#[verifier::external_body]
fn lookup(ctx: &Ctx, s: &String) -> (r: Option<u64>)
    ensures
        match r {
            Some(id) => scope(*ctx).contains_key(s@) && scope(*ctx)[s@] == id as nat,
            None => !scope(*ctx).contains_key(s@),
        },
{
    match ctx.get(s) {
        Some(id) => Some(*id),
        None => None,
    }
}

/// `HashMap::insert`: binds `s` to `id`, in place of what `s` was bound to.
/// Taken on trust: the entry for `s` is the new one, and every other entry
/// is as it was.
#[verifier::external_body]
fn bind(ctx: &mut Ctx, s: String, id: u64)
    ensures
        scope(*final(ctx)) == scope(*old(ctx)).insert(s@, id as nat),
{
    ctx.insert(s, id);
}

/// `HashMap::clone`: a context of its own that binds the same names. Taken
/// on trust: the copy holds the entries of the map it was made from.
#[verifier::external_body]
fn copy(ctx: &Ctx) -> (r: Ctx)
    ensures
        scope(r) == scope(*ctx),
{
    ctx.clone()
}

/// Why a resolution failed.
#[derive(Debug)]
pub enum ResolveError {
    /// A name that no visible binder binds.
    UnboundVariable(String),
}

/// The mathematical value of a [`ResolveError`].
pub enum ResolveFault {
    UnboundVariable(Seq<char>),
}

impl View for ResolveError {
    type V = ResolveFault;

    open spec fn view(&self) -> ResolveFault {
        match self {
            ResolveError::UnboundVariable(s) => ResolveFault::UnboundVariable(s@),
        }
    }
}

/// The resolved operator for a surface operator.
pub open spec fn op1_of(op: ast0::Op1) -> ast1::Op1 {
    match op {
        ast0::Op1::Neg => ast1::Op1::Neg,
        ast0::Op1::Not => ast1::Op1::Not,
    }
}

/// The resolved operator for a surface operator.
pub open spec fn op2_of(op: ast0::Op2) -> ast1::Op2 {
    match op {
        ast0::Op2::Add => ast1::Op2::Add,
        ast0::Op2::Sub => ast1::Op2::Sub,
        ast0::Op2::Mul => ast1::Op2::Mul,
        ast0::Op2::Div => ast1::Op2::Div,
        ast0::Op2::Lte => ast1::Op2::Lte,
        ast0::Op2::Gte => ast1::Op2::Gte,
        ast0::Op2::Lt => ast1::Op2::Lt,
        ast0::Op2::Gt => ast1::Op2::Gt,
        ast0::Op2::Eq => ast1::Op2::Eq,
        ast0::Op2::Neq => ast1::Op2::Neq,
        ast0::Op2::And => ast1::Op2::And,
        ast0::Op2::Or => ast1::Op2::Or,
    }
}

/// The number of symbols that resolving `m` makes: two for each function,
/// one for each `let`.
pub open spec fn binders(m: ast0::TermView) -> nat
    decreases m,
{
    match m {
        ast0::TermView::Int(_) => 0,
        ast0::TermView::Bool(_) => 0,
        ast0::TermView::Var(_) => 0,
        ast0::TermView::Op1(_, m1) => binders(*m1),
        ast0::TermView::Op2(_, m1, m2) => binders(*m1) + binders(*m2),
        ast0::TermView::Fun(_, _, m1) => 2 + binders(*m1),
        ast0::TermView::App(m1, m2) => binders(*m1) + binders(*m2),
        ast0::TermView::LetIn(_, m1, m2) => binders(*m1) + 1 + binders(*m2),
        ast0::TermView::Ifte(m1, m2, m3) => binders(*m1) + binders(*m2) + binders(*m3),
    }
}

/// The resolved term for `m`, where `scope` gives the visible names and the
/// symbols made get the identities `next`, `next + 1` and so on, in the
/// order in which their binders are met.
///
/// A function's self name and parameter are visible in its body, the
/// parameter hiding the self name where both are spelled alike. The name of
/// a `let` is visible in its body only. The first variable without a visible
/// binder, from left to right, is the failure.
pub open spec fn resolve(scope: Map<Seq<char>, nat>, next: nat, m: ast0::TermView) -> Result<
    ast1::TermView,
    ResolveFault,
>
    decreases m,
{
    match m {
        ast0::TermView::Int(i) => Ok(ast1::TermView::Int(i)),
        ast0::TermView::Bool(b) => Ok(ast1::TermView::Bool(b)),
        ast0::TermView::Var(s) => if scope.contains_key(s) {
            Ok(ast1::TermView::Var(NameView { name: s, id: scope[s] }))
        } else {
            Err(ResolveFault::UnboundVariable(s))
        },
        ast0::TermView::Op1(op, m1) => match resolve(scope, next, *m1) {
            Ok(t1) => Ok(ast1::TermView::Op1(op1_of(op), Box::new(t1))),
            Err(e) => Err(e),
        },
        ast0::TermView::Op2(op, m1, m2) => match resolve(scope, next, *m1) {
            Ok(t1) => match resolve(scope, next + binders(*m1), *m2) {
                Ok(t2) => Ok(ast1::TermView::Op2(op2_of(op), Box::new(t1), Box::new(t2))),
                Err(e) => Err(e),
            },
            Err(e) => Err(e),
        },
        ast0::TermView::Fun(f, x, m1) => match resolve(
            scope.insert(f, next).insert(x, next + 1),
            next + 2,
            *m1,
        ) {
            Ok(t1) => Ok(
                ast1::TermView::Fun(
                    NameView { name: f, id: next },
                    NameView { name: x, id: next + 1 },
                    Box::new(t1),
                ),
            ),
            Err(e) => Err(e),
        },
        ast0::TermView::App(m1, m2) => match resolve(scope, next, *m1) {
            Ok(t1) => match resolve(scope, next + binders(*m1), *m2) {
                Ok(t2) => Ok(ast1::TermView::App(Box::new(t1), Box::new(t2))),
                Err(e) => Err(e),
            },
            Err(e) => Err(e),
        },
        ast0::TermView::LetIn(x, m1, m2) => match resolve(scope, next, *m1) {
            Ok(t1) => match resolve(
                scope.insert(x, next + binders(*m1)),
                next + binders(*m1) + 1,
                *m2,
            ) {
                Ok(t2) => Ok(
                    ast1::TermView::LetIn(
                        NameView { name: x, id: next + binders(*m1) },
                        Box::new(t1),
                        Box::new(t2),
                    ),
                ),
                Err(e) => Err(e),
            },
            Err(e) => Err(e),
        },
        ast0::TermView::Ifte(m1, m2, m3) => match resolve(scope, next, *m1) {
            Ok(t1) => match resolve(scope, next + binders(*m1), *m2) {
                Ok(t2) => match resolve(scope, next + binders(*m1) + binders(*m2), *m3) {
                    Ok(t3) => Ok(ast1::TermView::Ifte(Box::new(t1), Box::new(t2), Box::new(t3))),
                    Err(e) => Err(e),
                },
                Err(e) => Err(e),
            },
            Err(e) => Err(e),
        },
    }
}

/// The resolved operator for a surface operator.
pub fn trans_op1(op1: &ast0::Op1) -> (r: ast1::Op1)
    ensures
        r == op1_of(*op1),
{
    match op1 {
        ast0::Op1::Neg => ast1::Op1::Neg,
        ast0::Op1::Not => ast1::Op1::Not,
    }
}

/// The resolved operator for a surface operator.
pub fn trans_op2(op2: &ast0::Op2) -> (r: ast1::Op2)
    ensures
        r == op2_of(*op2),
{
    match op2 {
        ast0::Op2::Add => ast1::Op2::Add,
        ast0::Op2::Sub => ast1::Op2::Sub,
        ast0::Op2::Mul => ast1::Op2::Mul,
        ast0::Op2::Div => ast1::Op2::Div,
        ast0::Op2::Lte => ast1::Op2::Lte,
        ast0::Op2::Gte => ast1::Op2::Gte,
        ast0::Op2::Lt => ast1::Op2::Lt,
        ast0::Op2::Gt => ast1::Op2::Gt,
        ast0::Op2::Eq => ast1::Op2::Eq,
        ast0::Op2::Neq => ast1::Op2::Neq,
        ast0::Op2::And => ast1::Op2::And,
        ast0::Op2::Or => ast1::Op2::Or,
    }
}

/// The number of symbols that the resolution of `m` has made when it ends:
/// all of them where it succeeds, and those of the binders met before the
/// first unbound variable where it fails.
pub open spec fn spent(scope: Map<Seq<char>, nat>, next: nat, m: ast0::TermView) -> nat
    decreases m,
{
    match m {
        ast0::TermView::Int(_) => 0,
        ast0::TermView::Bool(_) => 0,
        ast0::TermView::Var(_) => 0,
        ast0::TermView::Op1(_, m1) => spent(scope, next, *m1),
        ast0::TermView::Op2(_, m1, m2) => if resolve(scope, next, *m1) is Ok {
            binders(*m1) + spent(scope, next + binders(*m1), *m2)
        } else {
            spent(scope, next, *m1)
        },
        ast0::TermView::Fun(f, x, m1) => 2 + spent(
            scope.insert(f, next).insert(x, next + 1),
            next + 2,
            *m1,
        ),
        ast0::TermView::App(m1, m2) => if resolve(scope, next, *m1) is Ok {
            binders(*m1) + spent(scope, next + binders(*m1), *m2)
        } else {
            spent(scope, next, *m1)
        },
        ast0::TermView::LetIn(x, m1, m2) => if resolve(scope, next, *m1) is Ok {
            binders(*m1) + 1 + spent(
                scope.insert(x, next + binders(*m1)),
                next + binders(*m1) + 1,
                *m2,
            )
        } else {
            spent(scope, next, *m1)
        },
        ast0::TermView::Ifte(m1, m2, m3) => if resolve(scope, next, *m1) is Ok {
            if resolve(scope, next + binders(*m1), *m2) is Ok {
                binders(*m1) + binders(*m2) + spent(
                    scope,
                    next + binders(*m1) + binders(*m2),
                    *m3,
                )
            } else {
                binders(*m1) + spent(scope, next + binders(*m1), *m2)
            }
        } else {
            spent(scope, next, *m1)
        },
    }
}

/// A resolution makes no more symbols than the term has binders, and all of
/// them where it succeeds.
pub proof fn lemma_spent(scope: Map<Seq<char>, nat>, next: nat, m: ast0::TermView)
    ensures
        spent(scope, next, m) <= binders(m),
        resolve(scope, next, m) is Ok ==> spent(scope, next, m) == binders(m),
    decreases m,
{
    match m {
        ast0::TermView::Int(_) => {},
        ast0::TermView::Bool(_) => {},
        ast0::TermView::Var(_) => {},
        ast0::TermView::Op1(_, m1) => {
            lemma_spent(scope, next, *m1);
        },
        ast0::TermView::Op2(_, m1, m2) => {
            lemma_spent(scope, next, *m1);
            lemma_spent(scope, next + binders(*m1), *m2);
        },
        ast0::TermView::Fun(f, x, m1) => {
            lemma_spent(scope.insert(f, next).insert(x, next + 1), next + 2, *m1);
        },
        ast0::TermView::App(m1, m2) => {
            lemma_spent(scope, next, *m1);
            lemma_spent(scope, next + binders(*m1), *m2);
        },
        ast0::TermView::LetIn(x, m1, m2) => {
            let k = binders(*m1);
            lemma_spent(scope, next, *m1);
            lemma_spent(scope.insert(x, next + k), next + k + 1, *m2);
        },
        ast0::TermView::Ifte(m1, m2, m3) => {
            let k1 = binders(*m1);
            let k2 = binders(*m2);
            lemma_spent(scope, next, *m1);
            lemma_spent(scope, next + k1, *m2);
            lemma_spent(scope, next + k1 + k2, *m3);
        },
    }
}

/// What a returned result stands for.
pub open spec fn outcome(r: Result<Box<ast1::Term>, ResolveError>) -> Result<
    ast1::TermView,
    ResolveFault,
> {
    match r {
        Ok(t) => Ok(t@),
        Err(e) => Err(e@),
    }
}

/// Whether `r`, returned with the supply taken from `before` to `after`, is
/// the resolution of `m` in `scope`.
pub open spec fn resolved(
    scope: Map<Seq<char>, nat>,
    before: Supply,
    after: Supply,
    m: ast0::TermView,
    r: Result<Box<ast1::Term>, ResolveError>,
) -> bool {
    &&& outcome(r) == resolve(scope, before.next as nat, m)
    &&& after.next == before.next + spent(scope, before.next as nat, m)
}

/// The number of symbols that resolving `m` makes, if a `u64` can hold it.
pub fn binder_count(m: &ast0::Term) -> (n: Option<u64>)
    ensures
        match n {
            Some(k) => k == binders(m@),
            None => binders(m@) > u64::MAX,
        },
    decreases m,
{
    match m {
        ast0::Term::Int(_) => Some(0),
        ast0::Term::Bool(_) => Some(0),
        ast0::Term::Var(_) => Some(0),
        ast0::Term::Op1(_, m1) => binder_count(m1),
        ast0::Term::Op2(_, m1, m2) => sum(binder_count(m1), binder_count(m2)),
        ast0::Term::Fun(_, _, m1) => sum(Some(2), binder_count(m1)),
        ast0::Term::App(m1, m2) => sum(binder_count(m1), binder_count(m2)),
        ast0::Term::LetIn(_, m1, m2) => sum(sum(binder_count(m1), Some(1)), binder_count(m2)),
        ast0::Term::Ifte(m1, m2, m3) => sum(
            sum(binder_count(m1), binder_count(m2)),
            binder_count(m3),
        ),
    }
}

/// The sum of two counts, if a `u64` can hold it; `None` stands for a count
/// that none can hold.
fn sum(a: Option<u64>, b: Option<u64>) -> (n: Option<u64>)
    ensures
        match (a, b, n) {
            (Some(x), Some(y), Some(z)) => z == x + y,
            (Some(x), Some(y), None) => x + y > u64::MAX,
            (_, _, Some(_)) => false,
            _ => true,
        },
{
    match (a, b) {
        (Some(x), Some(y)) => x.checked_add(y),
        _ => None,
    }
}

/// Whether `supply` has the symbols that resolving `m` makes.
pub fn has_room(supply: &Supply, m: &ast0::Term) -> (b: bool)
    ensures
        b == (supply.next + binders(m@) <= u64::MAX),
{
    match binder_count(m) {
        Some(k) => k <= supply.remaining(),
        None => false,
    }
}

/// Resolves `m` in the context `ctx`, taking the symbols of its binders
/// from `supply`.
pub fn trans(ctx: &Ctx, supply: &mut Supply, m: &ast0::Term) -> (r: Result<
    Box<ast1::Term>,
    ResolveError,
>)
    requires
        old(supply).next + binders(m@) <= u64::MAX,
    ensures
        resolved(scope(*ctx), *old(supply), *final(supply), m@, r),
    decreases m,
{
    let ghost names = scope(*ctx);
    let ghost next = supply.next as nat;
    match m {
        ast0::Term::Int(i) => Ok(ast1::num(*i)),
        ast0::Term::Bool(b) => Ok(ast1::bool(*b)),
        ast0::Term::Var(s) => {
            match lookup(ctx, s) {
                Some(id) => Ok(ast1::var(Name::create(s.clone(), id))),
                None => Err(ResolveError::UnboundVariable(s.clone())),
            }
        },
        ast0::Term::Op1(op1, m) => {
            let op1 = trans_op1(op1);
            match trans(ctx, supply, m) {
                Ok(m) => Ok(ast1::op1(op1, m)),
                Err(e) => Err(e),
            }
        },
        ast0::Term::Op2(op2, m, n) => {
            let op2 = trans_op2(op2);
            proof {
                lemma_spent(names, next, m@);
            }
            match trans(ctx, supply, m) {
                Ok(m) => match trans(ctx, supply, n) {
                    Ok(n) => Ok(ast1::op2(op2, m, n)),
                    Err(e) => Err(e),
                },
                Err(e) => Err(e),
            }
        },
        ast0::Term::Fun(f0, x0, m) => {
            let mut local = copy(ctx);
            let f = supply.fresh(f0.clone());
            let x = supply.fresh(x0.clone());
            bind(&mut local, f0.clone(), f.id);
            bind(&mut local, x0.clone(), x.id);
            match trans(&local, supply, m) {
                Ok(m) => Ok(ast1::fun(f, x, m)),
                Err(e) => Err(e),
            }
        },
        ast0::Term::App(m, n) => {
            proof {
                lemma_spent(names, next, m@);
            }
            match trans(ctx, supply, m) {
                Ok(m) => match trans(ctx, supply, n) {
                    Ok(n) => Ok(ast1::app(m, n)),
                    Err(e) => Err(e),
                },
                Err(e) => Err(e),
            }
        },
        ast0::Term::LetIn(x0, m, n) => {
            proof {
                lemma_spent(names, next, m@);
            }
            match trans(ctx, supply, m) {
                Ok(m) => {
                    let mut local = copy(ctx);
                    let x = supply.fresh(x0.clone());
                    bind(&mut local, x0.clone(), x.id);
                    match trans(&local, supply, n) {
                        Ok(n) => Ok(ast1::letin(x, m, n)),
                        Err(e) => Err(e),
                    }
                },
                Err(e) => Err(e),
            }
        },
        ast0::Term::Ifte(m, n1, n2) => {
            proof {
                lemma_spent(names, next, m@);
                lemma_spent(names, next + binders(m@), n1@);
            }
            match trans(ctx, supply, m) {
                Ok(m) => match trans(ctx, supply, n1) {
                    Ok(n1) => match trans(ctx, supply, n2) {
                        Ok(n2) => Ok(ast1::ifte(m, n1, n2)),
                        Err(e) => Err(e),
                    },
                    Err(e) => Err(e),
                },
                Err(e) => Err(e),
            }
        },
    }
}

/// Resolves the program `m`: a term in the context that binds no name.
pub fn trans_program(supply: &mut Supply, m: &ast0::Term) -> (r: Result<
    Box<ast1::Term>,
    ResolveError,
>)
    requires
        old(supply).next + binders(m@) <= u64::MAX,
    ensures
        resolved(Map::empty(), *old(supply), *final(supply), m@, r),
{
    let ctx = empty();
    trans(&ctx, supply, m)
}

} // verus!
