//! The limit on nested steps: it decides only whether an evaluation is given
//! up, never what comes out of one that is not.

use crate::ast1::TermView;
use crate::eval::{apply_model, eval_model, Fault, Val};
use vstd::prelude::*;

verus! {

/// Whether `r` is the failure of an evaluation that was given up.
pub open spec fn exhausted(r: Result<Val, Fault>) -> bool {
    r matches Err(Fault::StackExhausted)
}

/// An evaluation that ends within `d1` nested steps gives the same result
/// under every greater limit.
pub proof fn lemma_eval_deeper(d1: nat, d2: nat, env: Map<nat, Val>, m: TermView)
    requires
        d1 <= d2,
        !exhausted(eval_model(d1, env, m)),
    ensures
        eval_model(d2, env, m) == eval_model(d1, env, m),
    decreases d1, 0nat,
{
    let e1 = (d1 - 1) as nat;
    let e2 = (d2 - 1) as nat;
    match m {
        TermView::Int(_) => {},
        TermView::Bool(_) => {},
        TermView::Var(_) => {},
        TermView::Op1(_, m1) => {
            lemma_eval_deeper(e1, e2, env, *m1);
        },
        TermView::Op2(_, m1, m2) => {
            lemma_eval_deeper(e1, e2, env, *m1);
            if eval_model(e1, env, *m1) is Ok {
                lemma_eval_deeper(e1, e2, env, *m2);
            }
        },
        TermView::Fun(_, _, _) => {},
        TermView::App(m1, m2) => {
            lemma_eval_deeper(e1, e2, env, *m1);
            match eval_model(e1, env, *m1) {
                Ok(f) => {
                    lemma_eval_deeper(e1, e2, env, *m2);
                    match eval_model(e1, env, *m2) {
                        Ok(a) => {
                            lemma_apply_deeper(e1, e2, f, a);
                        },
                        Err(_) => {},
                    }
                },
                Err(_) => {},
            }
        },
        TermView::LetIn(x, m1, m2) => {
            lemma_eval_deeper(e1, e2, env, *m1);
            match eval_model(e1, env, *m1) {
                Ok(a) => {
                    lemma_eval_deeper(e1, e2, env.insert(x.id, a), *m2);
                },
                Err(_) => {},
            }
        },
        TermView::Ifte(m1, m2, m3) => {
            lemma_eval_deeper(e1, e2, env, *m1);
            match eval_model(e1, env, *m1) {
                Ok(Val::Bool(true)) => {
                    lemma_eval_deeper(e1, e2, env, *m2);
                },
                Ok(Val::Bool(false)) => {
                    lemma_eval_deeper(e1, e2, env, *m3);
                },
                _ => {},
            }
        },
    }
}

/// An application that ends within `d1` nested steps gives the same result
/// under every greater limit.
pub proof fn lemma_apply_deeper(d1: nat, d2: nat, f: Val, a: Val)
    requires
        d1 <= d2,
        !exhausted(apply_model(d1, f, a)),
    ensures
        apply_model(d2, f, a) == apply_model(d1, f, a),
    decreases d1, 1nat,
{
    match f {
        Val::Clo(env, func, param, body) => {
            lemma_eval_deeper(d1, d2, env.insert(func.id, f).insert(param.id, a), body);
        },
        _ => {},
    }
}

} // verus!
