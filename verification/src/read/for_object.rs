//! Executable parsing of `for` expressions that build objects.
use vstd::prelude::*;
use crate::expr::{Expression, ForExpr, for_view};
use crate::lexer::{ident, lemma_sp_ws, ws_exec};
use crate::parser::{for_object_tail, expr, for_cond, for_intro, for_object};
use crate::read::{box_opt, opt_expr_view, opt_ident_view, yields};
use crate::read::expr::expr_exec;
use crate::read::for_intro::for_intro_exec;

use crate::read::for_object_tail::for_object_tail_exec;

verus! {

/// Exec form of [`for_object`].
#[verifier::rlimit(50)]
pub fn for_object_exec(s: &Vec<char>, k: usize) -> (r: Option<(Expression, usize)>)
    requires
        k <= s@.len(),
    ensures
        yields(r, for_object(s@, k as int), k as int, s@.len() as int),
    decreases s@.len() - k, 13nat,
{
    let (kv, vv, coll, p) = match for_intro_exec(s, k) {
        Some(x) => x,
        None => return None,
    };
    proof {
        lemma_sp_ws(s@, p as int);
    }
    let p1 = ws_exec(s, p);
    let (ke, q) = match expr_exec(s, p1) {
        Some(x) => x,
        None => return None,
    };
    proof {
        lemma_sp_ws(s@, q as int);
    }
    let q1 = ws_exec(s, q);
    let (ve, grouping, cond, t) = match for_object_tail_exec(s, q1) {
        Some(x) => x,
        None => return None,
    };
    let f = ForExpr {
        key_var: kv,
        value_var: vv,
        collection_expr: coll,
        key_expr: Some(ke),
        value_expr: ve,
        grouping,
        cond_expr: cond,
    };
    assert(for_view(f).key_var == opt_ident_view(f.key_var));
    assert(for_view(f).cond == box_opt(opt_expr_view(f.cond_expr)));
    Some((Expression::ForExpr(Box::new(f)), t))
}

} // verus!
