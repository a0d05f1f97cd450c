//! Surface sugar: functions and declarations of several parameters, and
//! recursive declarations, written out as functions of one parameter.

use crate::ast0::{fun, letin, Term, TermView};
use vstd::prelude::*;

verus! {

/// The spellings of `names`.
pub open spec fn spellings(names: Seq<String>) -> Seq<Seq<char>> {
    Seq::new(names.len(), |i: int| names[i]@)
}

/// The function that takes the parameters `params` one after the other and
/// then gives `body`. Each of its functions has the empty self name, which
/// no variable is spelled like.
pub open spec fn curried(params: Seq<Seq<char>>, body: TermView) -> TermView
    decreases params.len(),
{
    if params.len() == 0 {
        body
    } else {
        TermView::Fun(Seq::empty(), params[0], Box::new(curried(params.drop_first(), body)))
    }
}

/// Taking one more parameter last is giving a function of it as the body.
pub proof fn lemma_curried_last(params: Seq<Seq<char>>, last: Seq<char>, body: TermView)
    ensures
        curried(params.push(last), body) == curried(
            params,
            TermView::Fun(Seq::empty(), last, Box::new(body)),
        ),
    decreases params.len(),
{
    let all = params.push(last);
    if params.len() == 0 {
        assert(all.drop_first() =~= params);
        assert(curried(all.drop_first(), body) == body);
    } else {
        assert(all.drop_first() =~= params.drop_first().push(last));
        lemma_curried_last(params.drop_first(), last, body);
    }
}

/// `fun a b .. -> body`: the function of the parameters `params`.
pub fn lambda(params: Vec<String>, body: Box<Term>) -> (t: Box<Term>)
    ensures
        t@ == curried(spellings(params@), body@),
{
    let mut rest = params;
    let mut t = body;
    while rest.len() > 0
        invariant
            curried(spellings(rest@), t@) == curried(spellings(params@), body@),
        decreases rest.len(),
    {
        let ghost before = rest@;
        let ghost inner = t@;
        let last = rest.pop().unwrap();
        proof {
            assert(spellings(before) =~= spellings(rest@).push(last@));
            lemma_curried_last(spellings(rest@), last@, inner);
        }
        t = fun(String::new(), last, t);
    }
    t
}

/// `let x a b .. = body in m`: `x` is bound to the function of `params`,
/// or to `body` itself where there are none, and is not visible in `body`.
pub fn decl(x: String, params: Vec<String>, body: Box<Term>, m: Box<Term>) -> (t: Box<Term>)
    ensures
        t@ == TermView::LetIn(x@, Box::new(curried(spellings(params@), body@)), Box::new(m@)),
{
    letin(x, lambda(params, body), m)
}

/// `let rec f x a b .. = body in m`: `f` is bound to a function whose
/// self name is `f` too, so that `body` can call it by that name.
pub fn decl_rec(
    f: String,
    x: String,
    params: Vec<String>,
    body: Box<Term>,
    m: Box<Term>,
) -> (t: Box<Term>)
    ensures
        t@ == TermView::LetIn(
            f@,
            Box::new(TermView::Fun(f@, x@, Box::new(curried(spellings(params@), body@)))),
            Box::new(m@),
        ),
{
    let inner = lambda(params, body);
    letin(f.clone(), fun(f, x, inner), m)
}

} // verus!
