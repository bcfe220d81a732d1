//! Executable parsing of function arguments.
use vstd::prelude::*;
use crate::expr::{Expression, exprs_view};
use crate::lexer::{ident, lemma_sp_ws, ws_exec};
use crate::parser::{args_rest, expr, func_args};
use crate::read::expr::expr_exec;

use crate::read::args_rest::args_rest_exec;

verus! {

/// Exec form of [`func_args`].
pub fn func_args_exec(s: &Vec<char>, p: usize) -> (r: Option<(Vec<Expression>, bool, usize)>)
    requires
        p < s.len(),
    ensures
        match func_args(s@, p as int) {
            Some((args, expand, e)) => r matches Some((v, x, e2)) && exprs_view(v@) == args && x
                == expand && e2 == e && p < e <= s@.len(),
            None => r is None,
        },
    decreases s@.len() - p, 7nat,
{
    proof {
        lemma_sp_ws(s@, p + 1);
    }
    let q = ws_exec(s, p + 1);
    if q < s.len() && (s[q] == ',' || s[q] == '.' || s[q] == ')') {
        if s[q] == ')' {
            return Some((Vec::new(), false, q + 1));
        } else {
            return None;
        }
    }
    let (e, r) = match expr_exec(s, q) {
        Some(x) => x,
        None => return None,
    };
    proof {
        lemma_sp_ws(s@, r as int);
    }
    let j = ws_exec(s, r);
    match args_rest_exec(s, j) {
        Some((rest, x, t)) => Some((crate::read::prepend_expr(e, rest), x, t)),
        None => None,
    }
}

} // verus!
