//! Executable parsing of expressions.
use vstd::prelude::*;
use crate::expr::{BinaryOp, Conditional, ExprV, Expression, Operation, Traversal, ops_view};
use crate::lexer::{ident, lemma_sp_ws, sp_exec};
use crate::parser::{expr, term, trav_ops};
use crate::read::{binop_at_exec, binop_start_exec, yields};
use crate::read::term::term_exec;
use crate::read::trav_ops::trav_ops_exec;

verus! {

/// Exec form of [`expr`].
pub fn expr_exec(s: &Vec<char>, i: usize) -> (r: Option<(Expression, usize)>)
    requires
        i <= s@.len(),
    ensures
        yields(r, expr(s@, i as int), i as int, s@.len() as int),
    decreases s@.len() - i, 10nat,
{
    let (t, j) = match term_exec(s, i) {
        Some(x) => x,
        None => return None,
    };
    let (ops, k) = match trav_ops_exec(s, j) {
        Some(x) => x,
        None => return None,
    };
    proof {
        crate::expr::lemma_ops_view(ops@);
    }
    let ghost tv = t@;
    let ghost ov = ops_view(ops@);
    let e = if ops.len() > 0 {
        Expression::Traversal(Box::new(Traversal { expr: t, operators: ops }))
    } else {
        t
    };
    assert(e@ == (if ov.len() > 0 {
        ExprV::Traversal(Box::new(tv), ov)
    } else {
        tv
    }));
    proof {
        lemma_sp_ws(s@, k as int);
    }
    let p = sp_exec(s, k);
    if p < s.len() && s[p] == '?' {
        proof {
            lemma_sp_ws(s@, p + 1);
        }
        let p1 = sp_exec(s, p + 1);
        let (te, q) = match expr_exec(s, p1) {
            Some(x) => x,
            None => return None,
        };
        proof {
            lemma_sp_ws(s@, q as int);
        }
        let q1 = sp_exec(s, q);
        if q1 < s.len() && s[q1] == ':' {
            proof {
                lemma_sp_ws(s@, q1 + 1);
            }
            let p2 = sp_exec(s, q1 + 1);
            let (fe, r) = match expr_exec(s, p2) {
                Some(x) => x,
                None => return None,
            };
            Some(
                (
                    Expression::Conditional(
                        Box::new(Conditional { cond_expr: e, true_expr: te, false_expr: fe }),
                    ),
                    r,
                ),
            )
        } else {
            None
        }
    } else if p < s.len() && binop_start_exec(s[p]) {
        match binop_at_exec(s, p) {
            Some((op, q)) => {
                proof {
                    lemma_sp_ws(s@, q as int);
                }
                let q1 = sp_exec(s, q);
                match expr_exec(s, q1) {
                    Some((rhs, r)) => Some(
                        (
                            Expression::Operation(
                                Box::new(
                                    Operation::Binary(
                                        BinaryOp { lhs_expr: e, operator: op, rhs_expr: rhs },
                                    ),
                                ),
                            ),
                            r,
                        ),
                    ),
                    None => None,
                }
            },
            None => Some((e, k)),
        }
    } else {
        Some((e, k))
    }
}

} // verus!
