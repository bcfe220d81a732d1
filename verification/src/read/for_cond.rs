//! Executable parsing of the condition of a `for` expression.
use vstd::prelude::*;
use crate::expr::Expression;
use crate::lexer::{ident, lemma_sp_ws, ws_exec};
use crate::parser::{expr, for_cond};
use crate::read::{at_chars, opt_expr_view};
use crate::read::expr::expr_exec;

verus! {

/// Exec form of [`for_cond`].
pub fn for_cond_exec(s: &Vec<char>, k: usize) -> (r: Option<(Option<Expression>, usize)>)
    requires
        k <= s@.len(),
    ensures
        match for_cond(s@, k as int) {
            Some((c, e)) => r matches Some((c2, e2)) && opt_expr_view(c2) == c && e2 == e && k
                <= e <= s@.len(),
            None => r is None,
        },
    decreases s@.len() - k, 5nat,
{
    proof {
        lemma_sp_ws(s@, k as int);
    }
    let p = ws_exec(s, k);
    if at_chars(s, p, &['i', 'f']) {
        proof {
            lemma_sp_ws(s@, p + 2);
        }
        let q = ws_exec(s, p + 2);
        match expr_exec(s, q) {
            Some((c, r)) => {
                proof {
                    lemma_sp_ws(s@, r as int);
                }
                let e = ws_exec(s, r);
                Some((Some(c), e))
            },
            None => None,
        }
    } else {
        Some((None, k))
    }
}

} // verus!
