//! Executable parsing of one traversal operator.
use vstd::prelude::*;
use crate::expr::{TraversalOpV, TraversalOperator};
use crate::lexer::{ident, ident_exec, ident_start_exec, lemma_sp_ws, sp_exec, ws_exec};
use crate::parser::{expr, trav_step};
use crate::read::ident_of;
use crate::read::expr::expr_exec;

verus! {

/// The content of an optional traversal operator.
pub open spec fn opt_op_view(o: Option<TraversalOperator>) -> Option<TraversalOpV> {
    match o {
        Some(op) => Some(op@),
        None => None,
    }
}

/// Exec form of [`trav_step`].
pub fn trav_step_exec(s: &Vec<char>, j: usize) -> (r: Option<(Option<TraversalOperator>, usize)>)
    requires
        j <= s@.len(),
    ensures
        match trav_step(s@, j as int) {
            Some((o, n)) => r matches Some((o2, n2)) && opt_op_view(o2) == o && n2 == n && j
                <= n <= s@.len() && (o is Some ==> j < n),
            None => r is None,
        },
    decreases s@.len() - j, 7nat,
{
    proof {
        lemma_sp_ws(s@, j as int);
    }
    let p = sp_exec(s, j);
    if p < s.len() && s[p] == '.' {
        proof {
            lemma_sp_ws(s@, p + 1);
        }
        let q = ws_exec(s, p + 1);
        if q < s.len() && s[q] == '.' {
            Some((None, j))
        } else if q < s.len() && s[q] == '*' {
            Some((Some(TraversalOperator::AttrSplat), q + 1))
        } else if q < s.len() && ident_start_exec(s[q]) {
            match ident_exec(s, q) {
                Some((n, r)) => Some((Some(TraversalOperator::GetAttr(ident_of(&n))), r)),
                None => None,
            }
        } else if q < s.len() && '0' <= s[q] && s[q] <= '9' {
            proof {
                crate::lexer::lemma_digits_end(s@, q as int);
                crate::lexer::lemma_digits_run(s@, q as int);
            }
            let d = crate::lexer::digits_end_exec(s, q);
            match crate::lexer::digits_value_exec(s, q, d) {
                Some(v) => Some((Some(TraversalOperator::LegacyIndex(v)), d)),
                None => None,
            }
        } else {
            None
        }
    } else if p < s.len() && s[p] == '[' {
        proof {
            lemma_sp_ws(s@, p + 1);
        }
        let q = ws_exec(s, p + 1);
        if q < s.len() && s[q] == '*' {
            proof {
                lemma_sp_ws(s@, q + 1);
            }
            let r = ws_exec(s, q + 1);
            if r < s.len() && s[r] == ']' {
                Some((Some(TraversalOperator::FullSplat), r + 1))
            } else {
                None
            }
        } else {
            match expr_exec(s, q) {
                Some((e, r)) => {
                    proof {
                        lemma_sp_ws(s@, r as int);
                    }
                    let r2 = ws_exec(s, r);
                    if r2 < s.len() && s[r2] == ']' {
                        Some((Some(TraversalOperator::Index(e)), r2 + 1))
                    } else {
                        None
                    }
                },
                None => None,
            }
        }
    } else {
        Some((None, j))
    }
}

} // verus!
