//! Executable parsing of what follows an array element.
use vstd::prelude::*;
use crate::expr::Expression;
use crate::lexer::{ident, lemma_sp_ws, ws_exec};
use crate::parser::{elem_step, expr};
use crate::read::opt_expr_view;
use crate::read::expr::expr_exec;

verus! {

/// Exec form of [`elem_step`].
pub fn elem_step_exec(s: &Vec<char>, k: usize) -> (r: Option<(Option<Expression>, usize)>)
    requires
        k <= s@.len(),
    ensures
        match elem_step(s@, k as int) {
            Some((o, n)) => r matches Some((o2, n2)) && opt_expr_view(o2) == o && n2 == n && k
                < n <= s@.len(),
            None => r is None,
        },
    decreases s@.len() - k, 6nat,
{
    if k >= s.len() {
        return None;
    }
    if s[k] == ',' {
        proof {
            lemma_sp_ws(s@, k + 1);
        }
        let p = ws_exec(s, k + 1);
        if p < s.len() && s[p] == ']' {
            return Some((None, p + 1));
        }
        match expr_exec(s, p) {
            Some((e, q)) => {
                proof {
                    lemma_sp_ws(s@, q as int);
                }
                let n = ws_exec(s, q);
                Some((Some(e), n))
            },
            None => None,
        }
    } else if s[k] == ']' {
        Some((None, k + 1))
    } else {
        None
    }
}

} // verus!
