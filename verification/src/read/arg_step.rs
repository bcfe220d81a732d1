//! Executable parsing of what follows a function argument.
use vstd::prelude::*;
use crate::expr::Expression;
use crate::lexer::{ident, lemma_sp_ws, ws_exec};
use crate::parser::{args_step, expr};
use crate::read::{at_chars, opt_expr_view};

use crate::read::arg_comma::arg_after_comma_exec;

verus! {

/// Exec form of [`args_step`].
pub fn args_step_exec(s: &Vec<char>, k: usize) -> (r: Option<(Option<Expression>, bool, usize)>)
    requires
        k <= s@.len(),
    ensures
        match args_step(s@, k as int) {
            Some((o, x, n)) => r matches Some((o2, x2, n2)) && opt_expr_view(o2) == o && x2 == x
                && n2 == n && k < n <= s@.len(),
            None => r is None,
        },
    decreases s@.len() - k, 5nat,
{
    if k >= s.len() {
        return None;
    }
    if s[k] == ',' {
        arg_after_comma_exec(s, k + 1)
    } else if at_chars(s, k, &['.', '.', '.']) {
        proof {
            lemma_sp_ws(s@, k + 3);
        }
        let p = ws_exec(s, k + 3);
        if p < s.len() && s[p] == ')' {
            Some((None, true, p + 1))
        } else {
            None
        }
    } else if s[k] == ')' {
        Some((None, false, k + 1))
    } else {
        None
    }
}

} // verus!
