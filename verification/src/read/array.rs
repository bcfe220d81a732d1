//! Executable parsing of array elements.
use vstd::prelude::*;
use crate::expr::{Expression, exprs_view};
use crate::lexer::{ident, lemma_sp_ws, ws_exec};
use crate::parser::{array_items, array_rest, cons, elem_step, expr};
use crate::lexer::ws;
use crate::read::{lemma_with_prefix_cons, with_prefix};
use crate::read::expr::expr_exec;
use crate::read::elem_step::elem_step_exec;

verus! {

/// Exec form of [`array_items`].
pub fn array_items_exec(s: &Vec<char>, k: usize) -> (r: Option<(Vec<Expression>, usize)>)
    requires
        k <= s@.len(),
    ensures
        match array_items(s@, k as int) {
            Some((items, e)) => r matches Some((v, e2)) && exprs_view(v@) == items && e2 == e
                && k < e <= s@.len(),
            None => r is None,
        },
    decreases s@.len() - k, 11nat,
{
    proof {
        lemma_sp_ws(s@, k as int);
    }
    let p = ws_exec(s, k);
    if p < s.len() && s[p] == ']' {
        return Some((Vec::new(), p + 1));
    }
    let (e, q) = match expr_exec(s, p) {
        Some(x) => x,
        None => return None,
    };
    proof {
        lemma_sp_ws(s@, q as int);
    }
    let mut items: Vec<Expression> = Vec::new();
    let ghost ev = e@;
    items.push(e);
    let mut j = ws_exec(s, q);
    proof {
        crate::expr::lemma_exprs_view(items@);
        assert(exprs_view(items@) =~= seq![ev]);
        assert(expr(s@, p as int) == Some((ev, q as int)));
        assert(ws(s@, k as int) == p);
        assert(!(p < s@.len() && s@[p as int] == ']'));
        assert(ws(s@, q as int) == j);
        assert(array_items(s@, k as int) == (match expr(s@, p as int) {
            Some((e2, q2)) => if p < q2 <= s@.len() {
                cons(e2, array_rest(s@, ws(s@, q2)))
            } else {
                None
            },
            None => None,
        }));
        assert(array_items(s@, k as int) == cons(ev, array_rest(s@, j as int)));
        if let Some((ys, n)) = array_rest(s@, j as int) {
            assert(exprs_view(items@) + ys =~= seq![ev] + ys);
        }
    }
    loop
        invariant
            k < j <= s@.len(),
            array_items(s@, k as int) == with_prefix(exprs_view(items@), array_rest(s@, j as int)),
        decreases s@.len() - j,
    {
        match elem_step_exec(s, j) {
            Some((None, e)) => {
                assert(exprs_view(items@) + seq![] =~= exprs_view(items@));
                return Some((items, e));
            },
            Some((Some(x), n)) => {
                proof {
                    lemma_with_prefix_cons(exprs_view(items@), x@, array_rest(s@, n as int));
                    assert(items@.push(x).drop_last() =~= items@);
                }
                items.push(x);
                j = n;
            },
            None => return None,
        }
    }
}

} // verus!
