//! Executable parsing of a run of traversal operators.
use vstd::prelude::*;
use crate::expr::{TraversalOperator, ops_view};
use crate::lexer::ident;
use crate::parser::{expr, trav_ops, trav_step};
use crate::read::{lemma_with_prefix_cons, lemma_with_prefix_empty, with_prefix};
use crate::read::trav_step::trav_step_exec;

verus! {

/// Exec form of [`trav_ops`].
pub fn trav_ops_exec(s: &Vec<char>, j0: usize) -> (r: Option<(Vec<TraversalOperator>, usize)>)
    requires
        j0 <= s@.len(),
    ensures
        match trav_ops(s@, j0 as int) {
            Some((ops, k)) => r matches Some((v, k2)) && ops_view(v@) == ops && k2 == k && j0
                <= k <= s@.len(),
            None => r is None,
        },
    decreases s@.len() - j0, 8nat,
{
    let mut ops: Vec<TraversalOperator> = Vec::new();
    let mut j = j0;
    proof {
        lemma_with_prefix_empty(trav_ops(s@, j0 as int));
    }
    loop
        invariant
            j0 <= j <= s@.len(),
            trav_ops(s@, j0 as int) == with_prefix(ops_view(ops@), trav_ops(s@, j as int)),
        decreases s@.len() - j,
    {
        match trav_step_exec(s, j) {
            Some((None, e)) => {
                assert(ops_view(ops@) + seq![] =~= ops_view(ops@));
                return Some((ops, e));
            },
            Some((Some(op), n)) => {
                proof {
                    lemma_with_prefix_cons(ops_view(ops@), op@, trav_ops(s@, n as int));
                    assert(ops@.push(op).drop_last() =~= ops@);
                }
                ops.push(op);
                j = n;
            },
            None => return None,
        }
    }
}

} // verus!
