//! Executable parsing of the introduction of a `for` expression.
use vstd::prelude::*;
use crate::expr::Expression;
use crate::ident::Identifier;
use crate::lexer::{ident, ident_exec, lemma_sp_ws, ws_exec};
use crate::parser::{expr, for_in, for_intro};
use crate::read::{ident_of, opt_ident_view};
use crate::read::for_in::for_in_exec;

verus! {

/// Exec form of [`for_intro`].
#[verifier::rlimit(100)]
#[verifier::spinoff_prover]
pub fn for_intro_exec(s: &Vec<char>, k: usize) -> (r: Option<
    (Option<Identifier>, Identifier, Expression, usize),
>)
    requires
        k <= s@.len(),
    ensures
        match for_intro(s@, k as int) {
            Some((kv, vv, c, e)) => r matches Some((kv2, vv2, c2, e2)) && opt_ident_view(kv2)
                == kv && vv2@ == vv && c2@ == c && e2 == e && k < e <= s@.len(),
            None => r is None,
        },
    decreases s@.len() - k, 12nat,
{
    proof {
        lemma_sp_ws(s@, k as int);
    }
    let p = ws_exec(s, k);
    let (first, q1) = match ident_exec(s, p) {
        Some(x) => x,
        None => return None,
    };
    proof {
        lemma_sp_ws(s@, q1 as int);
    }
    let q2 = ws_exec(s, q1);
    if q2 < s.len() && s[q2] == ',' {
        proof {
            lemma_sp_ws(s@, q2 + 1);
        }
        let p2 = ws_exec(s, q2 + 1);
        let (second, r) = match ident_exec(s, p2) {
            Some(x) => x,
            None => return None,
        };
        proof {
            lemma_sp_ws(s@, r as int);
        }
        let r1 = ws_exec(s, r);
        match for_in_exec(s, r1) {
            Some((c, e)) => Some((Some(ident_of(&first)), ident_of(&second), c, e)),
            None => None,
        }
    } else {
        match for_in_exec(s, q2) {
            Some((c, e)) => Some((None, ident_of(&first), c, e)),
            None => None,
        }
    }
}

} // verus!
