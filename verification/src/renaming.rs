//! What resolution does to a term, whatever identities it hands out: the
//! shape of the term stays, each binder gets an identity of its own, and
//! other identities give the same term up to a renaming of symbols.

use crate::ast0;
use crate::ast1;
use crate::names::NameView;
use crate::trans01::{binders, op1_of, op2_of, resolve, ResolveFault};
use vstd::prelude::*;

verus! {

/// The symbol `x` with the identity that `r` gives in place of its own.
pub open spec fn rename_name(x: NameView, r: spec_fn(nat) -> nat) -> NameView {
    NameView { name: x.name, id: r(x.id) }
}

/// The term `t` with every identity `i` replaced by `r(i)`.
pub open spec fn rename(t: ast1::TermView, r: spec_fn(nat) -> nat) -> ast1::TermView
    decreases t,
{
    match t {
        ast1::TermView::Int(i) => ast1::TermView::Int(i),
        ast1::TermView::Bool(b) => ast1::TermView::Bool(b),
        ast1::TermView::Var(x) => ast1::TermView::Var(rename_name(x, r)),
        ast1::TermView::Op1(op, t1) => ast1::TermView::Op1(op, Box::new(rename(*t1, r))),
        ast1::TermView::Op2(op, t1, t2) => ast1::TermView::Op2(
            op,
            Box::new(rename(*t1, r)),
            Box::new(rename(*t2, r)),
        ),
        ast1::TermView::Fun(f, x, t1) => ast1::TermView::Fun(
            rename_name(f, r),
            rename_name(x, r),
            Box::new(rename(*t1, r)),
        ),
        ast1::TermView::App(t1, t2) => ast1::TermView::App(
            Box::new(rename(*t1, r)),
            Box::new(rename(*t2, r)),
        ),
        ast1::TermView::LetIn(x, t1, t2) => ast1::TermView::LetIn(
            rename_name(x, r),
            Box::new(rename(*t1, r)),
            Box::new(rename(*t2, r)),
        ),
        ast1::TermView::Ifte(t1, t2, t3) => ast1::TermView::Ifte(
            Box::new(rename(*t1, r)),
            Box::new(rename(*t2, r)),
            Box::new(rename(*t3, r)),
        ),
    }
}

/// The outcome `res` of a resolution with its term renamed by `r`.
pub open spec fn rename_outcome(
    res: Result<ast1::TermView, ResolveFault>,
    r: spec_fn(nat) -> nat,
) -> Result<ast1::TermView, ResolveFault> {
    match res {
        Ok(t) => Ok(rename(t, r)),
        Err(e) => Err(e),
    }
}

/// The renaming that moves the identities from `from` on to those from `to`
/// on, in order, and leaves the identities below `from` alone.
pub open spec fn shift(from: nat, to: nat) -> spec_fn(nat) -> nat {
    |i: nat|
        if i >= from {
            (i - from + to) as nat
        } else {
            i
        }
}

/// Whether `scope2` binds the names that `scope1` binds, each to the
/// identity that `r` gives for the one it has in `scope1`.
pub open spec fn renames_scope(
    scope1: Map<Seq<char>, nat>,
    scope2: Map<Seq<char>, nat>,
    r: spec_fn(nat) -> nat,
) -> bool {
    &&& forall|s: Seq<char>| scope1.contains_key(s) <==> scope2.contains_key(s)
    &&& forall|s: Seq<char>| scope1.contains_key(s) ==> scope2[s] == r(#[trigger] scope1[s])
}

/// Resolving one term in two contexts that bind the same names, with
/// identities counted from two starts, gives the same failure or two terms
/// of which the second is the first renamed: by any `r` that takes the
/// identities of the first context to those of the second and the new
/// identities of the first resolution, in order, to those of the second.
pub proof fn lemma_resolve_renamed(
    scope1: Map<Seq<char>, nat>,
    scope2: Map<Seq<char>, nat>,
    n1: nat,
    n2: nat,
    m: ast0::TermView,
    r: spec_fn(nat) -> nat,
)
    requires
        renames_scope(scope1, scope2, r),
        forall|i: nat| n1 <= i < n1 + binders(m) ==> #[trigger] r(i) == i - n1 + n2,
    ensures
        resolve(scope2, n2, m) == rename_outcome(resolve(scope1, n1, m), r),
    decreases m,
{
    match m {
        ast0::TermView::Int(_) => {},
        ast0::TermView::Bool(_) => {},
        ast0::TermView::Var(_) => {},
        ast0::TermView::Op1(_, m1) => {
            lemma_resolve_renamed(scope1, scope2, n1, n2, *m1, r);
        },
        ast0::TermView::Op2(_, m1, m2) => {
            lemma_resolve_renamed(scope1, scope2, n1, n2, *m1, r);
            lemma_resolve_renamed(scope1, scope2, n1 + binders(*m1), n2 + binders(*m1), *m2, r);
        },
        ast0::TermView::Fun(f, x, m1) => {
            assert(r(n1) == n2);
            assert(r(n1 + 1) == n2 + 1);
            lemma_resolve_renamed(
                scope1.insert(f, n1).insert(x, n1 + 1),
                scope2.insert(f, n2).insert(x, n2 + 1),
                n1 + 2,
                n2 + 2,
                *m1,
                r,
            );
        },
        ast0::TermView::App(m1, m2) => {
            lemma_resolve_renamed(scope1, scope2, n1, n2, *m1, r);
            lemma_resolve_renamed(scope1, scope2, n1 + binders(*m1), n2 + binders(*m1), *m2, r);
        },
        ast0::TermView::LetIn(x, m1, m2) => {
            let k = binders(*m1);
            lemma_resolve_renamed(scope1, scope2, n1, n2, *m1, r);
            assert(r(n1 + k) == n2 + k);
            lemma_resolve_renamed(
                scope1.insert(x, n1 + k),
                scope2.insert(x, n2 + k),
                n1 + k + 1,
                n2 + k + 1,
                *m2,
                r,
            );
        },
        ast0::TermView::Ifte(m1, m2, m3) => {
            let k1 = binders(*m1);
            let k2 = binders(*m2);
            lemma_resolve_renamed(scope1, scope2, n1, n2, *m1, r);
            lemma_resolve_renamed(scope1, scope2, n1 + k1, n2 + k1, *m2, r);
            lemma_resolve_renamed(scope1, scope2, n1 + k1 + k2, n2 + k1 + k2, *m3, r);
        },
    }
}

/// Resolving one term twice in the empty context, with identities counted
/// from `n1` and from `n2`, gives the same failure twice or two terms that
/// are each the other with its symbols renamed: the `i`-th symbol of the one
/// becomes the `i`-th of the other.
pub proof fn lemma_resolve_twice(n1: nat, n2: nat, m: ast0::TermView)
    ensures
        resolve(Map::empty(), n2, m) == rename_outcome(
            resolve(Map::empty(), n1, m),
            shift(n1, n2),
        ),
        resolve(Map::empty(), n1, m) == rename_outcome(
            resolve(Map::empty(), n2, m),
            shift(n2, n1),
        ),
{
    let none = Map::<Seq<char>, nat>::empty();
    lemma_resolve_renamed(none, none, n1, n2, m, shift(n1, n2));
    lemma_resolve_renamed(none, none, n2, n1, m, shift(n2, n1));
}

} // verus!
