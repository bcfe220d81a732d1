//! Executable parsing of what follows the comma after a function argument.
use vstd::prelude::*;
use crate::expr::Expression;
use crate::lexer::{ident, lemma_sp_ws, ws_exec};
use crate::parser::{arg_after_comma, expr};
use crate::read::opt_expr_view;
use crate::read::expr::expr_exec;


verus! {

/// Exec form of [`arg_after_comma`].
#[verifier::rlimit(80)]
#[verifier::spinoff_prover]
pub fn arg_after_comma_exec(s: &Vec<char>, k: usize) -> (r: Option<(Option<Expression>, bool, usize)>)
    requires
        k <= s@.len(),
    ensures
        match arg_after_comma(s@, k as int) {
            Some((o, x, n)) => r matches Some((o2, x2, n2)) && opt_expr_view(o2) == o && x2 == x
                && n2 == n && k < n <= s@.len(),
            None => r is None,
        },
    decreases s@.len() - k, 11nat,
{
    proof {
        lemma_sp_ws(s@, k as int);
    }
    let p = ws_exec(s, k);
    if p < s.len() && (s[p] == ',' || s[p] == '.' || s[p] == ')') {
        if s[p] == ')' {
            return Some((None, false, p + 1));
        } else {
            return None;
        }
    }
    match expr_exec(s, p) {
        Some((e, r)) => {
            proof {
                lemma_sp_ws(s@, r as int);
            }
            let n = ws_exec(s, r);
            Some((Some(e), false, n))
        },
        None => None,
    }
}

} // verus!
