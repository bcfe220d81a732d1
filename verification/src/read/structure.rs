//! Executable parsing of attributes and blocks.
use vstd::prelude::*;
use crate::lexer::{ident_exec, lemma_sp_ws, sp_exec};
use crate::parser::{body, labels, structure};
use crate::structure::{Attribute, Block, Body, Structure};
use crate::read::ident_of;
use crate::read::expr::expr_exec;
use crate::read::labels::labels_exec;
use crate::read::body::body_exec;

verus! {

/// Exec form of [`structure`].
#[verifier::rlimit(50)]
pub fn structure_exec(s: &Vec<char>, p: usize) -> (r: Option<(Structure, usize)>)
    requires
        p <= s@.len(),
    ensures
        match structure(s@, p as int) {
            Some((st, q)) => r matches Some((v, q2)) && v@ == st && q2 == q && p < q <= s@.len(),
            None => r is None,
        },
    decreases s@.len() - p, 0nat,
{
    let (id, q) = match ident_exec(s, p) {
        Some(x) => x,
        None => return None,
    };
    proof {
        lemma_sp_ws(s@, q as int);
    }
    let q1 = sp_exec(s, q);
    if q1 < s.len() && s[q1] == '=' {
        proof {
            lemma_sp_ws(s@, q1 + 1);
        }
        let v = sp_exec(s, q1 + 1);
        match expr_exec(s, v) {
            Some((e, r)) => Some((Structure::Attribute(Attribute { key: ident_of(&id), expr: e }), r)),
            None => None,
        }
    } else {
        let (ls, b) = match labels_exec(s, q1) {
            Some(x) => x,
            None => return None,
        };
        if !(b < s.len() && s[b] == '{') {
            return None;
        }
        let (bd, t) = match body_exec(s, b + 1) {
            Some(x) => x,
            None => return None,
        };
        if t < s.len() && s[t] == '}' {
            let blk = Block { identifier: ident_of(&id), labels: ls, body: Body(bd) };
            Some((Structure::Block(blk), t + 1))
        } else {
            None
        }
    }
}

} // verus!
