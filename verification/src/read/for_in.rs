//! Executable parsing of the collection part of a `for` expression.
use vstd::prelude::*;
use crate::expr::Expression;
use crate::lexer::{ident, lemma_sp_ws, ws_exec};
use crate::parser::{expr, for_in};
use crate::read::{at_chars, yields};
use crate::read::expr::expr_exec;

verus! {

/// Exec form of [`for_in`].
#[verifier::rlimit(50)]
pub fn for_in_exec(s: &Vec<char>, k: usize) -> (r: Option<(Expression, usize)>)
    requires
        k <= s@.len(),
    ensures
        yields(r, for_in(s@, k as int), k as int, s@.len() as int),
    decreases s@.len() - k, 11nat,
{
    if !at_chars(s, k, &['i', 'n']) {
        return None;
    }
    proof {
        lemma_sp_ws(s@, k + 2);
    }
    let p = ws_exec(s, k + 2);
    let (c, r) = match expr_exec(s, p) {
        Some(x) => x,
        None => return None,
    };
    proof {
        lemma_sp_ws(s@, r as int);
    }
    let r2 = ws_exec(s, r);
    if r2 < s.len() && s[r2] == ':' {
        Some((c, r2 + 1))
    } else {
        None
    }
}

} // verus!
