//! Executable parsing of the part of an object `for` expression after its key.
use vstd::prelude::*;
use crate::expr::{ExprV, Expression};
use crate::lexer::{ws, at2_exec, at3_exec, at, ident, lemma_sp_ws, ws_exec};
use crate::parser::{for_object_tail, expr, for_cond};
use crate::read::opt_expr_view;
use crate::read::expr::expr_exec;
use crate::read::for_cond::for_cond_exec;


verus! {

/// How [`for_object_tail`] unfolds once its parts are known.
proof fn lemma_tail_steps(
    s: Seq<char>,
    q1: int,
    p2: int,
    ve: ExprV,
    r: int,
    r2: int,
    c: Option<ExprV>,
    t: int,
)
    requires
        0 <= q1 <= s.len(),
        at(s, q1, seq!['=', '>']),
        p2 == ws(s, q1 + 2),
        expr(s, p2) == Some((ve, r)),
        p2 < r <= s.len(),
        r2 == (if at(s, ws(s, r), seq!['.', '.', '.']) { ws(s, r) + 3 } else { ws(s, r) }),
        for_cond(s, r2) == Some((c, t)),
    ensures
        for_object_tail(s, q1) == (if t < s.len() && s[t] == '}' {
            Some((ve, at(s, ws(s, r), seq!['.', '.', '.']), c, t + 1))
        } else {
            None
        }),
{
}

/// Exec form of [`for_object_tail`].
#[verifier::rlimit(20)]
pub fn for_object_tail_exec(s: &Vec<char>, q1: usize) -> (r: Option<
    (Expression, bool, Option<Expression>, usize),
>)
    requires
        q1 <= s@.len(),
    ensures
        match for_object_tail(s@, q1 as int) {
            Some((ve, g, c, t)) => r matches Some((ve2, g2, c2, t2)) && ve2@ == ve && g2 == g
                && opt_expr_view(c2) == c && t2 == t && q1 < t <= s@.len(),
            None => r is None,
        },
    decreases s@.len() - q1, 12nat,
{
    let ok = at2_exec(s, q1, '=', '>');
    if !ok {
        return None;
    }
    proof {
        lemma_sp_ws(s@, q1 + 2);
    }
    let p2 = ws_exec(s, q1 + 2);
    let (ve, r) = match expr_exec(s, p2) {
        Some(x) => x,
        None => return None,
    };
    proof {
        lemma_sp_ws(s@, r as int);
    }
    let r1 = ws_exec(s, r);
    let grouping = at3_exec(s, r1, '.', '.', '.');
    let r2 = if grouping {
        r1 + 3
    } else {
        r1
    };
    let (cond, t) = match for_cond_exec(s, r2) {
        Some(x) => x,
        None => return None,
    };
    if t < s.len() && s[t] == '}' {
        proof {
            lemma_tail_steps(s@, q1 as int, p2 as int, ve@, r as int, r2 as int, opt_expr_view(cond), t as int);
        }
        Some((ve, grouping, cond, t + 1))
    } else {
        None
    }
}

} // verus!
