//! Executable parsing of object items.
use vstd::prelude::*;
use crate::expr::{Expression, ObjectKey, key_view, pairs_view};
use crate::lexer::{ident, lemma_sp_ws, ws_exec};
use crate::parser::{expr, object_items};
use crate::read::{lemma_with_prefix_cons, lemma_with_prefix_empty, with_prefix};
use crate::read::item::object_item_exec;

verus! {

/// Exec form of [`crate::parser::item_sep`].
pub fn item_sep_exec(s: &Vec<char>, r: usize) -> (res: Option<usize>)
    requires
        r <= s@.len(),
    ensures
        match crate::parser::item_sep(s@, r as int) {
            Some(n) => res == Some(n as usize) && r < n <= s@.len(),
            None => res is None,
        },
{
    if r >= s.len() {
        return None;
    }
    if s[r] == ',' || s[r] == '\n' {
        Some(r + 1)
    } else if crate::lexer::at_exec(s, r, &['\r', '\n']) {
        Some(r + 2)
    } else if s[r] == '#' || crate::lexer::at_exec(s, r, &['/', '/']) {
        let e = crate::lexer::line_end_exec(s, r + 1);
        if e < s.len() {
            Some(e + 1)
        } else {
            None
        }
    } else {
        None
    }
}

/// Exec form of [`object_items`].
pub fn object_items_exec(s: &Vec<char>, k0: usize) -> (r: Option<(Vec<(ObjectKey, Expression)>, usize)>)
    requires
        k0 <= s@.len(),
    ensures
        match object_items(s@, k0 as int) {
            Some((items, e)) => r matches Some((v, e2)) && pairs_view(v@) == items && e2 == e
                && k0 < e <= s@.len(),
            None => r is None,
        },
    decreases s@.len() - k0, 12nat,
{
    let mut items: Vec<(ObjectKey, Expression)> = Vec::new();
    let mut k = k0;
    proof {
        lemma_with_prefix_empty(object_items(s@, k0 as int));
    }
    loop
        invariant
            k0 <= k <= s@.len(),
            object_items(s@, k0 as int) == with_prefix(pairs_view(items@), object_items(s@, k as int)),
        decreases s@.len() - k,
    {
        proof {
            lemma_sp_ws(s@, k as int);
        }
        let p = ws_exec(s, k);
        if p >= s.len() {
            return None;
        }
        if s[p] == '}' {
            assert(pairs_view(items@) + seq![] =~= pairs_view(items@));
            return Some((items, p + 1));
        }
        let (pair, r1) = match object_item_exec(s, p) {
            Some(x) => x,
            None => return None,
        };
        let ghost item = (key_view(pair.0), pair.1@);
        assert(pairs_view(items@.push(pair)) == pairs_view(items@).push(item)) by {
            assert(items@.push(pair).drop_last() =~= items@);
        }
        if r1 < s.len() && s[r1] == '}' {
            assert(pairs_view(items@) + seq![item] =~= pairs_view(items@).push(item));
            items.push(pair);
            return Some((items, r1 + 1));
        }
        match item_sep_exec(s, r1) {
            Some(n) => {
                proof {
                    lemma_with_prefix_cons(pairs_view(items@), item, object_items(s@, n as int));
                }
                items.push(pair);
                k = n;
            },
            None => return None,
        }
    }
}

} // verus!
