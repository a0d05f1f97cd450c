//! Scopes: a resolved term refers only to symbols that are visible where it
//! stands, and evaluating such a term never meets an unbound symbol.

use crate::ast0;
use crate::ast1;
use crate::eval::{apply_model, eval_model, op1_model, op2_model, Fault, Val};
use crate::trans01::{binders, resolve};
use vstd::prelude::*;

verus! {

/// The surface operator that resolves to `op`.
pub open spec fn op1_back(op: ast1::Op1) -> ast0::Op1 {
    match op {
        ast1::Op1::Neg => ast0::Op1::Neg,
        ast1::Op1::Not => ast0::Op1::Not,
    }
}

/// The surface operator that resolves to `op`.
pub open spec fn op2_back(op: ast1::Op2) -> ast0::Op2 {
    match op {
        ast1::Op2::Add => ast0::Op2::Add,
        ast1::Op2::Sub => ast0::Op2::Sub,
        ast1::Op2::Mul => ast0::Op2::Mul,
        ast1::Op2::Div => ast0::Op2::Div,
        ast1::Op2::Lte => ast0::Op2::Lte,
        ast1::Op2::Gte => ast0::Op2::Gte,
        ast1::Op2::Lt => ast0::Op2::Lt,
        ast1::Op2::Gt => ast0::Op2::Gt,
        ast1::Op2::Eq => ast0::Op2::Eq,
        ast1::Op2::Neq => ast0::Op2::Neq,
        ast1::Op2::And => ast0::Op2::And,
        ast1::Op2::Or => ast0::Op2::Or,
    }
}

/// The surface term that is left of `t` when its symbols are reduced to
/// their spellings.
pub open spec fn erase(t: ast1::TermView) -> ast0::TermView
    decreases t,
{
    match t {
        ast1::TermView::Int(i) => ast0::TermView::Int(i),
        ast1::TermView::Bool(b) => ast0::TermView::Bool(b),
        ast1::TermView::Var(x) => ast0::TermView::Var(x.name),
        ast1::TermView::Op1(op, t1) => ast0::TermView::Op1(op1_back(op), Box::new(erase(*t1))),
        ast1::TermView::Op2(op, t1, t2) => ast0::TermView::Op2(
            op2_back(op),
            Box::new(erase(*t1)),
            Box::new(erase(*t2)),
        ),
        ast1::TermView::Fun(f, x, t1) => ast0::TermView::Fun(f.name, x.name, Box::new(erase(*t1))),
        ast1::TermView::App(t1, t2) => ast0::TermView::App(
            Box::new(erase(*t1)),
            Box::new(erase(*t2)),
        ),
        ast1::TermView::LetIn(x, t1, t2) => ast0::TermView::LetIn(
            x.name,
            Box::new(erase(*t1)),
            Box::new(erase(*t2)),
        ),
        ast1::TermView::Ifte(t1, t2, t3) => ast0::TermView::Ifte(
            Box::new(erase(*t1)),
            Box::new(erase(*t2)),
            Box::new(erase(*t3)),
        ),
    }
}

/// A resolved term is the surface term it came from with a symbol in place
/// of each name: reducing the symbols to their spellings gives the surface
/// term back.
pub proof fn lemma_resolve_keeps_shape(scope: Map<Seq<char>, nat>, next: nat, m: ast0::TermView)
    ensures
        resolve(scope, next, m) matches Ok(t) ==> erase(t) == m,
    decreases m,
{
    match m {
        ast0::TermView::Int(_) => {},
        ast0::TermView::Bool(_) => {},
        ast0::TermView::Var(_) => {},
        ast0::TermView::Op1(_, m1) => {
            lemma_resolve_keeps_shape(scope, next, *m1);
        },
        ast0::TermView::Op2(_, m1, m2) => {
            lemma_resolve_keeps_shape(scope, next, *m1);
            lemma_resolve_keeps_shape(scope, next + binders(*m1), *m2);
        },
        ast0::TermView::Fun(f, x, m1) => {
            lemma_resolve_keeps_shape(scope.insert(f, next).insert(x, next + 1), next + 2, *m1);
        },
        ast0::TermView::App(m1, m2) => {
            lemma_resolve_keeps_shape(scope, next, *m1);
            lemma_resolve_keeps_shape(scope, next + binders(*m1), *m2);
        },
        ast0::TermView::LetIn(x, m1, m2) => {
            let k = binders(*m1);
            lemma_resolve_keeps_shape(scope, next, *m1);
            lemma_resolve_keeps_shape(scope.insert(x, next + k), next + k + 1, *m2);
        },
        ast0::TermView::Ifte(m1, m2, m3) => {
            let k1 = binders(*m1);
            let k2 = binders(*m2);
            lemma_resolve_keeps_shape(scope, next, *m1);
            lemma_resolve_keeps_shape(scope, next + k1, *m2);
            lemma_resolve_keeps_shape(scope, next + k1 + k2, *m3);
        },
    }
}

/// The identities of the binders of `t`, in the order in which resolution
/// meets them.
pub open spec fn binder_ids(t: ast1::TermView) -> Seq<nat>
    decreases t,
{
    match t {
        ast1::TermView::Int(_) => Seq::empty(),
        ast1::TermView::Bool(_) => Seq::empty(),
        ast1::TermView::Var(_) => Seq::empty(),
        ast1::TermView::Op1(_, t1) => binder_ids(*t1),
        ast1::TermView::Op2(_, t1, t2) => binder_ids(*t1) + binder_ids(*t2),
        ast1::TermView::Fun(f, x, t1) => seq![f.id, x.id] + binder_ids(*t1),
        ast1::TermView::App(t1, t2) => binder_ids(*t1) + binder_ids(*t2),
        ast1::TermView::LetIn(x, t1, t2) => binder_ids(*t1) + seq![x.id] + binder_ids(*t2),
        ast1::TermView::Ifte(t1, t2, t3) => binder_ids(*t1) + binder_ids(*t2) + binder_ids(*t3),
    }
}

/// The `count` numbers from `first` on.
pub open spec fn run(first: nat, count: nat) -> Seq<nat> {
    Seq::new(count, |i: int| (first + i) as nat)
}

/// Every binder of a resolved term has an identity of its own: in the order
/// in which resolution meets them, the binders carry the identities from
/// `next` on, none left out and none twice.
pub proof fn lemma_resolve_numbers_binders(
    scope: Map<Seq<char>, nat>,
    next: nat,
    m: ast0::TermView,
)
    ensures
        resolve(scope, next, m) matches Ok(t) ==> binder_ids(t) == run(next, binders(m)),
    decreases m,
{
    match m {
        ast0::TermView::Int(_) => {
            assert(run(next, 0) =~= Seq::empty());
        },
        ast0::TermView::Bool(_) => {
            assert(run(next, 0) =~= Seq::empty());
        },
        ast0::TermView::Var(_) => {
            assert(run(next, 0) =~= Seq::empty());
        },
        ast0::TermView::Op1(_, m1) => {
            lemma_resolve_numbers_binders(scope, next, *m1);
        },
        ast0::TermView::Op2(_, m1, m2) => {
            let k = binders(*m1);
            lemma_resolve_numbers_binders(scope, next, *m1);
            lemma_resolve_numbers_binders(scope, next + k, *m2);
            assert(run(next, k) + run(next + k, binders(*m2)) =~= run(next, binders(m)));
        },
        ast0::TermView::Fun(f, x, m1) => {
            lemma_resolve_numbers_binders(
                scope.insert(f, next).insert(x, next + 1),
                next + 2,
                *m1,
            );
            assert(seq![next, next + 1] + run(next + 2, binders(*m1)) =~= run(next, binders(m)));
        },
        ast0::TermView::App(m1, m2) => {
            let k = binders(*m1);
            lemma_resolve_numbers_binders(scope, next, *m1);
            lemma_resolve_numbers_binders(scope, next + k, *m2);
            assert(run(next, k) + run(next + k, binders(*m2)) =~= run(next, binders(m)));
        },
        ast0::TermView::LetIn(x, m1, m2) => {
            let k = binders(*m1);
            lemma_resolve_numbers_binders(scope, next, *m1);
            lemma_resolve_numbers_binders(scope.insert(x, next + k), next + k + 1, *m2);
            assert(run(next, k) + seq![next + k] + run(next + k + 1, binders(*m2)) =~= run(
                next,
                binders(m),
            ));
        },
        ast0::TermView::Ifte(m1, m2, m3) => {
            let k1 = binders(*m1);
            let k2 = binders(*m2);
            lemma_resolve_numbers_binders(scope, next, *m1);
            lemma_resolve_numbers_binders(scope, next + k1, *m2);
            lemma_resolve_numbers_binders(scope, next + k1 + k2, *m3);
            assert(run(next, k1) + run(next + k1, k2) + run(next + k1 + k2, binders(*m3)) =~= run(
                next,
                binders(m),
            ));
        },
    }
}

/// Whether every symbol that occurs in `t` is bound in `t` around the
/// occurrence or has its identity in `visible`.
pub open spec fn closed(t: ast1::TermView, visible: Set<nat>) -> bool
    decreases t,
{
    match t {
        ast1::TermView::Int(_) => true,
        ast1::TermView::Bool(_) => true,
        ast1::TermView::Var(x) => visible.contains(x.id),
        ast1::TermView::Op1(_, t1) => closed(*t1, visible),
        ast1::TermView::Op2(_, t1, t2) => closed(*t1, visible) && closed(*t2, visible),
        ast1::TermView::Fun(f, x, t1) => closed(*t1, visible.insert(f.id).insert(x.id)),
        ast1::TermView::App(t1, t2) => closed(*t1, visible) && closed(*t2, visible),
        ast1::TermView::LetIn(x, t1, t2) => closed(*t1, visible) && closed(
            *t2,
            visible.insert(x.id),
        ),
        ast1::TermView::Ifte(t1, t2, t3) => closed(*t1, visible) && closed(*t2, visible) && closed(
            *t3,
            visible,
        ),
    }
}

/// A term that is closed over some identities is closed over more.
pub proof fn lemma_closed_over_more(t: ast1::TermView, fewer: Set<nat>, more: Set<nat>)
    requires
        closed(t, fewer),
        fewer.subset_of(more),
    ensures
        closed(t, more),
    decreases t,
{
    match t {
        ast1::TermView::Int(_) => {},
        ast1::TermView::Bool(_) => {},
        ast1::TermView::Var(_) => {},
        ast1::TermView::Op1(_, t1) => {
            lemma_closed_over_more(*t1, fewer, more);
        },
        ast1::TermView::Op2(_, t1, t2) => {
            lemma_closed_over_more(*t1, fewer, more);
            lemma_closed_over_more(*t2, fewer, more);
        },
        ast1::TermView::Fun(f, x, t1) => {
            lemma_closed_over_more(
                *t1,
                fewer.insert(f.id).insert(x.id),
                more.insert(f.id).insert(x.id),
            );
        },
        ast1::TermView::App(t1, t2) => {
            lemma_closed_over_more(*t1, fewer, more);
            lemma_closed_over_more(*t2, fewer, more);
        },
        ast1::TermView::LetIn(x, t1, t2) => {
            lemma_closed_over_more(*t1, fewer, more);
            lemma_closed_over_more(*t2, fewer.insert(x.id), more.insert(x.id));
        },
        ast1::TermView::Ifte(t1, t2, t3) => {
            lemma_closed_over_more(*t1, fewer, more);
            lemma_closed_over_more(*t2, fewer, more);
            lemma_closed_over_more(*t3, fewer, more);
        },
    }
}

/// The identities that `scope` binds some name to.
pub open spec fn identities(scope: Map<Seq<char>, nat>) -> Set<nat> {
    Set::new(|i: nat| exists|s: Seq<char>| scope.contains_key(s) && #[trigger] scope[s] == i)
}

/// Binding one more name makes at most one more identity visible.
proof fn lemma_identities_insert(scope: Map<Seq<char>, nat>, s: Seq<char>, i: nat)
    ensures
        identities(scope.insert(s, i)).subset_of(identities(scope).insert(i)),
{
    let wider = scope.insert(s, i);
    assert forall|j: nat| identities(wider).contains(j) implies identities(scope).insert(
        i,
    ).contains(j) by {
        let k = choose|k: Seq<char>| wider.contains_key(k) && #[trigger] wider[k] == j;
        if k != s {
            assert(scope.contains_key(k) && scope[k] == j);
        }
    }
}

/// A resolved term refers to no symbol from outside but those of the
/// context it was resolved in.
pub proof fn lemma_resolve_closed(scope: Map<Seq<char>, nat>, next: nat, m: ast0::TermView)
    ensures
        resolve(scope, next, m) matches Ok(t) ==> closed(t, identities(scope)),
    decreases m,
{
    match m {
        ast0::TermView::Int(_) => {},
        ast0::TermView::Bool(_) => {},
        ast0::TermView::Var(s) => {
            if scope.contains_key(s) {
                assert(scope[s] == scope[s]);
            }
        },
        ast0::TermView::Op1(_, m1) => {
            lemma_resolve_closed(scope, next, *m1);
        },
        ast0::TermView::Op2(_, m1, m2) => {
            lemma_resolve_closed(scope, next, *m1);
            lemma_resolve_closed(scope, next + binders(*m1), *m2);
        },
        ast0::TermView::Fun(f, x, m1) => {
            let inner = scope.insert(f, next).insert(x, next + 1);
            lemma_resolve_closed(inner, next + 2, *m1);
            lemma_identities_insert(scope, f, next);
            lemma_identities_insert(scope.insert(f, next), x, next + 1);
            match resolve(inner, next + 2, *m1) {
                Ok(t1) => {
                    lemma_closed_over_more(
                        t1,
                        identities(inner),
                        identities(scope).insert(next).insert(next + 1),
                    );
                },
                Err(_) => {},
            }
        },
        ast0::TermView::App(m1, m2) => {
            lemma_resolve_closed(scope, next, *m1);
            lemma_resolve_closed(scope, next + binders(*m1), *m2);
        },
        ast0::TermView::LetIn(x, m1, m2) => {
            let k = binders(*m1);
            let inner = scope.insert(x, next + k);
            lemma_resolve_closed(scope, next, *m1);
            lemma_resolve_closed(inner, next + k + 1, *m2);
            lemma_identities_insert(scope, x, next + k);
            match resolve(inner, next + k + 1, *m2) {
                Ok(t2) => {
                    lemma_closed_over_more(
                        t2,
                        identities(inner),
                        identities(scope).insert(next + k),
                    );
                },
                Err(_) => {},
            }
        },
        ast0::TermView::Ifte(m1, m2, m3) => {
            let k1 = binders(*m1);
            let k2 = binders(*m2);
            lemma_resolve_closed(scope, next, *m1);
            lemma_resolve_closed(scope, next + k1, *m2);
            lemma_resolve_closed(scope, next + k1 + k2, *m3);
        },
    }
}

/// Whether every closure in `v`, and in what it captured, has a body that
/// refers only to its own two symbols and to what it captured.
pub open spec fn sound(v: Val) -> bool
    decreases v,
{
    match v {
        Val::Clo(env, f, x, body) => {
            &&& env.dom().finite()
            &&& closed(body, env.dom().insert(f.id).insert(x.id))
            &&& forall|k: nat| env.contains_key(k) ==> sound(#[trigger] env[k])
        },
        _ => true,
    }
}

/// Whether `env` binds finitely many symbols, each to a sound value.
pub open spec fn sound_env(env: Map<nat, Val>) -> bool {
    &&& env.dom().finite()
    &&& forall|k: nat| env.contains_key(k) ==> sound(#[trigger] env[k])
}

/// Evaluating a term in an environment that binds every symbol it refers to
/// never meets an unbound symbol, and gives a sound value.
pub proof fn lemma_eval_sound(depth: nat, env: Map<nat, Val>, m: ast1::TermView)
    requires
        sound_env(env),
        closed(m, env.dom()),
    ensures
        match eval_model(depth, env, m) {
            Ok(v) => sound(v),
            Err(e) => !(e is UnboundSymbol),
        },
    decreases depth, 0nat,
{
    if depth > 0 {
        let d = (depth - 1) as nat;
        match m {
            ast1::TermView::Int(_) => {},
            ast1::TermView::Bool(_) => {},
            ast1::TermView::Var(_) => {},
            ast1::TermView::Op1(_, m1) => {
                lemma_eval_sound(d, env, *m1);
            },
            ast1::TermView::Op2(_, m1, m2) => {
                lemma_eval_sound(d, env, *m1);
                lemma_eval_sound(d, env, *m2);
            },
            ast1::TermView::Fun(_, _, _) => {},
            ast1::TermView::App(m1, m2) => {
                lemma_eval_sound(d, env, *m1);
                lemma_eval_sound(d, env, *m2);
                match (eval_model(d, env, *m1), eval_model(d, env, *m2)) {
                    (Ok(f), Ok(a)) => {
                        lemma_apply_sound(d, f, a);
                    },
                    _ => {},
                }
            },
            ast1::TermView::LetIn(x, m1, m2) => {
                lemma_eval_sound(d, env, *m1);
                match eval_model(d, env, *m1) {
                    Ok(a) => {
                        let inner = env.insert(x.id, a);
                        assert(inner.dom() =~= env.dom().insert(x.id));
                        lemma_eval_sound(d, inner, *m2);
                    },
                    Err(_) => {},
                }
            },
            ast1::TermView::Ifte(m1, m2, m3) => {
                lemma_eval_sound(d, env, *m1);
                lemma_eval_sound(d, env, *m2);
                lemma_eval_sound(d, env, *m3);
            },
        }
    }
}

/// Applying a sound value to a sound value never meets an unbound symbol,
/// and gives a sound value.
pub proof fn lemma_apply_sound(depth: nat, f: Val, a: Val)
    requires
        sound(f),
        sound(a),
    ensures
        match apply_model(depth, f, a) {
            Ok(v) => sound(v),
            Err(e) => !(e is UnboundSymbol),
        },
    decreases depth, 1nat,
{
    match f {
        Val::Clo(env, func, param, body) => {
            let inner = env.insert(func.id, f).insert(param.id, a);
            assert(inner.dom() =~= env.dom().insert(func.id).insert(param.id));
            lemma_eval_sound(depth, inner, body);
        },
        _ => {},
    }
}

/// Evaluating a term that was resolved in the empty context never meets an
/// unbound symbol.
pub proof fn lemma_resolved_never_unbound(next: nat, m: ast0::TermView, depth: nat)
    ensures
        resolve(Map::empty(), next, m) matches Ok(t) ==> !(eval_model(depth, Map::empty(), t)
            matches Err(Fault::UnboundSymbol(_))),
{
    let none = Map::<Seq<char>, nat>::empty();
    match resolve(none, next, m) {
        Ok(t) => {
            lemma_resolve_closed(none, next, m);
            lemma_closed_over_more(t, identities(none), Map::<nat, Val>::empty().dom());
            lemma_eval_sound(depth, Map::empty(), t);
        },
        Err(_) => {},
    }
}

} // verus!
