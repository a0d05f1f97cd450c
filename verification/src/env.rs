//! Persistent association lists from symbol identities to value handles.

use vstd::prelude::*;

verus! {

/// A persistent list of bindings, most recent first: an `rpds::List` of
/// pairs of a symbol identity and a value handle. Extending a list leaves
/// every earlier handle to it unchanged.
#[verifier::external_body]
#[derive(Debug)]
pub struct ListMap {
    list: rpds::List<(u64, usize)>,
}

/// The bindings that a list holds, most recent first.
pub uninterp spec fn bindings(xs: ListMap) -> Seq<(nat, nat)>;

impl Clone for ListMap {
    /// `rpds::List::clone`: a second handle to the same list. Taken on
    /// trust: the copy holds the bindings of the list it was made from.
    #[verifier::external_body]
    fn clone(&self) -> (r: ListMap)
        ensures
            bindings(r) == bindings(*self),
    {
        ListMap { list: self.list.clone() }
    }
}

/// `rpds::List::new`: the list without bindings. Taken on trust: the new
/// list holds no binding.
#[verifier::external_body]
pub fn nil() -> (xs: ListMap)
    ensures
        bindings(xs) == Seq::<(nat, nat)>::empty(),
{
    ListMap { list: rpds::List::new() }
}

/// `rpds::List::push_front`: the list `xs` with the binding `x` put before
/// it. Taken on trust: the new list holds `x` first and then the bindings of
/// `xs`, in their order.
#[verifier::external_body]
pub fn cons(x: (u64, usize), xs: ListMap) -> (ys: ListMap)
    ensures
        bindings(ys) == seq![(x.0 as nat, x.1 as nat)] + bindings(xs),
{
    ListMap { list: xs.list.push_front(x) }
}

/// `rpds::List::first`: the most recent binding, if there is one. Taken on
/// trust: the result is the first binding of a list that has one, and `None`
/// for the list without bindings.
#[verifier::external_body]
fn head(xs: &ListMap) -> (r: Option<(u64, usize)>)
    ensures
        match r {
            Some(x) => bindings(*xs).len() > 0 && bindings(*xs)[0] == (x.0 as nat, x.1 as nat),
            None => bindings(*xs).len() == 0,
        },
{
    match xs.list.first() {
        Some(x) => Some(*x),
        None => None,
    }
}

/// `rpds::List::drop_first`: the list without its most recent binding, if it
/// has one. Taken on trust: the result holds the bindings after the first, in
/// their order, and is `None` for the list without bindings.
#[verifier::external_body]
fn tail(xs: &ListMap) -> (r: Option<ListMap>)
    ensures
        match r {
            Some(ys) => bindings(*xs).len() > 0 && bindings(ys) == bindings(*xs).drop_first(),
            None => bindings(*xs).len() == 0,
        },
{
    match xs.list.drop_first() {
        Some(list) => Some(ListMap { list }),
        None => None,
    }
}

/// The handle of the first binding of `k` in `items`, if there is one.
pub open spec fn first_of(items: Seq<(nat, nat)>, k: nat) -> Option<nat>
    decreases items.len(),
{
    if items.len() == 0 {
        None
    } else if items[0].0 == k {
        Some(items[0].1)
    } else {
        first_of(items.drop_first(), k)
    }
}

/// The handle most recently bound to `k` in `xs`.
pub fn find(k: u64, xs: ListMap) -> (r: Option<usize>)
    ensures
        match r {
            Some(v) => first_of(bindings(xs), k as nat) == Some(v as nat),
            None => first_of(bindings(xs), k as nat).is_none(),
        },
{
    let mut cur: ListMap = xs;
    loop
        invariant
            first_of(bindings(cur), k as nat) == first_of(bindings(xs), k as nat),
        decreases bindings(cur).len(),
    {
        match head(&cur) {
            None => {
                return None;
            },
            Some(x) => {
                if x.0 == k {
                    return Some(x.1);
                }
            },
        }
        match tail(&cur) {
            None => {
                return None;
            },
            Some(rest) => {
                cur = rest;
            },
        }
    }
}

/// Whether every handle in `items` is below `bound`.
#[verifier::opaque]
pub open spec fn below(items: Seq<(nat, nat)>, bound: nat) -> bool {
    forall|j: int| 0 <= j < items.len() ==> (#[trigger] items[j]).1 < bound
}

/// Handles below a bound are below every greater bound.
pub proof fn lemma_below_raise(items: Seq<(nat, nat)>, b1: nat, b2: nat)
    requires
        below(items, b1),
        b1 <= b2,
    ensures
        below(items, b2),
{
    reveal(below);
}

/// The empty list of bindings has all its handles below any bound.
pub proof fn lemma_below_nil(bound: nat)
    ensures
        below(Seq::<(nat, nat)>::empty(), bound),
{
    reveal(below);
}

/// Whether every handle in `xs` is below `bound`.
pub fn all_below(xs: &ListMap, bound: usize) -> (b: bool)
    ensures
        b == below(bindings(*xs), bound as nat),
{
    let mut cur: ListMap = xs.clone();
    loop
        invariant
            below(bindings(cur), bound as nat) == below(bindings(*xs), bound as nat),
        decreases bindings(cur).len(),
    {
        let ghost items = bindings(cur);
        match head(&cur) {
            None => {
                proof {
                    reveal(below);
                }
                return true;
            },
            Some(x) => {
                if x.1 >= bound {
                    proof {
                        reveal(below);
                    }
                    return false;
                }
            },
        }
        match tail(&cur) {
            None => {
                proof {
                    reveal(below);
                }
                return true;
            },
            Some(rest) => {
                proof {
                    reveal(below);
                    let shorter = items.drop_first();
                    assert forall|j: int| 0 <= j < shorter.len() implies shorter[j] == items[j
                        + 1] by {}
                    assert(below(items, bound as nat) == below(shorter, bound as nat)) by {
                        if below(shorter, bound as nat) {
                            assert forall|j: int| 0 <= j < items.len() implies (
                            #[trigger] items[j]).1 < bound by {
                                if j > 0 {
                                    assert(shorter[j - 1] == items[j]);
                                }
                            }
                        }
                        if below(items, bound as nat) {
                            assert forall|j: int| 0 <= j < shorter.len() implies (
                            #[trigger] shorter[j]).1 < bound by {
                                assert(shorter[j] == items[j + 1]);
                            }
                        }
                    }
                }
                cur = rest;
            },
        }
    }
}

} // verus!
