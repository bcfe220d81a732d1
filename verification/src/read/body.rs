//! Executable parsing of bodies.
use vstd::prelude::*;
use crate::lexer::{lemma_sp_ws, ws_exec};
use crate::parser::{body, labels, structure};
use crate::structure::{Structure, StructureV, structures_view};
use crate::read::{lemma_with_prefix_cons, lemma_with_prefix_empty, with_prefix};
use crate::read::structure::structure_exec;
use crate::read::labels::structure_end_exec;

verus! {

/// Exec form of [`body`].
pub fn body_exec(s: &Vec<char>, i: usize) -> (r: Option<(Vec<Structure>, usize)>)
    requires
        i <= s@.len(),
    ensures
        match body(s@, i as int) {
            Some((b, e)) => r matches Some((v, e2)) && structures_view(v@) == b && e2 == e && i
                <= e <= s@.len(),
            None => r is None,
        },
    decreases s@.len() - i, 1nat,
{
    let mut out: Vec<Structure> = Vec::new();
    let mut k = i;
    proof {
        assert(structures_view(out@) =~= Seq::<StructureV>::empty());
        lemma_with_prefix_empty(body(s@, i as int));
    }
    loop
        invariant
            i <= k <= s@.len(),
            body(s@, i as int) == with_prefix(structures_view(out@), body(s@, k as int)),
        decreases s@.len() - k,
    {
        proof {
            lemma_sp_ws(s@, k as int);
        }
        let p = ws_exec(s, k);
        if p >= s.len() || s[p] == '}' {
            assert(structures_view(out@) + seq![] =~= structures_view(out@));
            return Some((out, p));
        }
        let (st, q) = match structure_exec(s, p) {
            Some(x) => x,
            None => return None,
        };
        match structure_end_exec(s, q) {
            Some(n) => {
                proof {
                    lemma_with_prefix_cons(structures_view(out@), st@, body(s@, n as int));
                    assert(out@.push(st).drop_last() =~= out@);
                }
                out.push(st);
                k = n;
            },
            None => return None,
        }
    }
}

} // verus!
