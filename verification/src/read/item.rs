//! Executable parsing of one object item.
use vstd::prelude::*;
use crate::expr::{Expression, ObjectKey, key_view};
use crate::ident::Identifier;
use crate::lexer::{ident, lemma_sp_ws, sp_exec};
use crate::parser::{expr, key_of, object_item};
use crate::read::expr::expr_exec;

verus! {

/// The key that an object key expression names.
pub fn key_of_exec(e: Expression) -> (r: ObjectKey)
    ensures
        key_view(r) == key_of(e@),
{
    match e {
        Expression::Variable(v) => ObjectKey::Identifier(v),
        other => ObjectKey::Expression(other),
    }
}

/// Exec form of [`object_item`].
pub fn object_item_exec(s: &Vec<char>, p: usize) -> (r: Option<((ObjectKey, Expression), usize)>)
    requires
        p <= s@.len(),
    ensures
        match object_item(s@, p as int) {
            Some((item, n)) => r matches Some((pair, n2)) && (key_view(pair.0), pair.1@) == item
                && n2 == n && p < n <= s@.len(),
            None => r is None,
        },
    decreases s@.len() - p, 11nat,
{
    let (ke, q) = match expr_exec(s, p) {
        Some(x) => x,
        None => return None,
    };
    proof {
        lemma_sp_ws(s@, q as int);
    }
    let q1 = sp_exec(s, q);
    if !(q1 < s.len() && (s[q1] == '=' || s[q1] == ':')) {
        return None;
    }
    proof {
        lemma_sp_ws(s@, q1 + 1);
    }
    let v1 = sp_exec(s, q1 + 1);
    let (ve, r) = match expr_exec(s, v1) {
        Some(x) => x,
        None => return None,
    };
    proof {
        lemma_sp_ws(s@, r as int);
    }
    let r1 = sp_exec(s, r);
    Some(((key_of_exec(ke), ve), r1))
}

} // verus!
