//! Executable parsing of `for` expressions that build lists.
use vstd::prelude::*;
use crate::expr::{Expression, ForExpr, for_view};
use crate::lexer::{ident, lemma_sp_ws, ws_exec};
use crate::parser::{expr, for_cond, for_intro, for_list};
use crate::read::{box_opt, opt_expr_view, opt_ident_view, yields};
use crate::read::expr::expr_exec;
use crate::read::for_intro::for_intro_exec;
use crate::read::for_cond::for_cond_exec;

verus! {

/// Exec form of [`for_list`].
pub fn for_list_exec(s: &Vec<char>, k: usize) -> (r: Option<(Expression, usize)>)
    requires
        k <= s@.len(),
    ensures
        yields(r, for_list(s@, k as int), k as int, s@.len() as int),
    decreases s@.len() - k, 13nat,
{
    let (kv, vv, coll, p) = match for_intro_exec(s, k) {
        Some(x) => x,
        None => return None,
    };
    proof {
        lemma_sp_ws(s@, p as int);
    }
    let p1 = ws_exec(s, p);
    let (val, q) = match expr_exec(s, p1) {
        Some(x) => x,
        None => return None,
    };
    proof {
        lemma_sp_ws(s@, q as int);
    }
    let q1 = ws_exec(s, q);
    let (cond, r) = match for_cond_exec(s, q1) {
        Some(x) => x,
        None => return None,
    };
    if r < s.len() && s[r] == ']' {
        let f = ForExpr {
            key_var: kv,
            value_var: vv,
            collection_expr: coll,
            key_expr: None,
            value_expr: val,
            grouping: false,
            cond_expr: cond,
        };
        assert(for_view(f).key_var == opt_ident_view(f.key_var));
        assert(for_view(f).cond == box_opt(opt_expr_view(f.cond_expr)));
        Some((Expression::ForExpr(Box::new(f)), r + 1))
    } else {
        None
    }
}

} // verus!
