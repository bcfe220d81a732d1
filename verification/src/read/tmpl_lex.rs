//! Executable reading of the lexical parts of templates: literal text and tags.
use vstd::prelude::*;
use crate::lexer::{at, ident_exec, lemma_sp_ws, ws_exec};
use crate::read::{at_chars, ident_of};
use crate::ident::Identifier;
use crate::template::StripMode;
use crate::tmpl_grammar::{at_tag, for_vars, keyword_tag, lemma_tag_open, literal_end, tag_close, tag_open};

verus! {

/// Whether an interpolation or a directive starts at `i`.
pub fn at_tag_exec(s: &Vec<char>, i: usize) -> (r: bool)
    requires
        i <= s@.len(),
    ensures
        r == at_tag(s@, i as int),
{
    at_chars(s, i, &['$', '{']) || at_chars(s, i, &['%', '{'])
}

/// Exec form of [`literal_end`].
pub fn literal_end_exec(s: &Vec<char>, i: usize) -> (r: usize)
    requires
        i <= s@.len(),
    ensures
        r == literal_end(s@, i as int),
        i <= r <= s@.len(),
{
    let mut k = i;
    while k < s.len()
        invariant
            i <= k <= s@.len(),
            literal_end(s@, i as int) == literal_end(s@, k as int),
        decreases s@.len() - k,
    {
        if at_chars(s, k, &['$', '$', '{']) || at_chars(s, k, &['%', '%', '{']) {
            k = k + 3;
        } else if at_tag_exec(s, k) {
            return k;
        } else {
            k = k + 1;
        }
    }
    k
}

/// Exec form of [`tag_open`].
pub fn tag_open_exec(s: &Vec<char>, i: usize) -> (r: (bool, usize))
    requires
        i + 2 <= s@.len(),
    ensures
        r.0 == tag_open(s@, i as int).0,
        r.1 == tag_open(s@, i as int).1,
        i < r.1 <= s@.len(),
{
    proof {
        lemma_tag_open(s@, i as int);
    }
    let strip = s.len() - i > 2 && s[i + 2] == '~';
    let p = if strip {
        i + 3
    } else {
        i + 2
    };
    (strip, ws_exec(s, p))
}

/// Exec form of [`tag_close`].
pub fn tag_close_exec(s: &Vec<char>, q: usize) -> (r: Option<(bool, usize)>)
    requires
        q <= s@.len(),
    ensures
        match tag_close(s@, q as int) {
            Some((st, e)) => r == Some((st, e as usize)) && q < e <= s@.len(),
            None => r is None,
        },
{
    if q < s.len() && s[q] == '}' {
        Some((false, q + 1))
    } else if at_chars(s, q, &['~', '}']) {
        Some((true, q + 2))
    } else {
        None
    }
}

/// Exec form of [`keyword_tag`].
pub fn keyword_tag_exec(s: &Vec<char>, i: usize, kw: &[char]) -> (r: Option<(StripMode, usize)>)
    requires
        i <= s@.len(),
    ensures
        match keyword_tag(s@, i as int, kw@) {
            Some((m, e)) => r == Some((m, e as usize)) && i < e <= s@.len(),
            None => r is None,
        },
{
    if !at_chars(s, i, &['%', '{']) {
        return None;
    }
    let (st, p) = tag_open_exec(s, i);
    if !at_chars(s, p, kw) {
        return None;
    }
    proof {
        lemma_sp_ws(s@, p + kw@.len());
    }
    let q = ws_exec(s, p + kw.len());
    match tag_close_exec(s, q) {
        Some((en, r)) => Some((StripMode::from_bools(st, en), r)),
        None => None,
    }
}

/// Exec form of [`for_vars`].
pub fn for_vars_exec(s: &Vec<char>, k: usize) -> (r: Option<(Option<Identifier>, Identifier, usize)>)
    requires
        k <= s@.len(),
    ensures
        match for_vars(s@, k as int) {
            Some((kv, vv, e)) => r matches Some((kv2, vv2, e2)) && crate::read::opt_ident_view(
                kv2,
            ) == kv && vv2@ == vv && e2 == e && k < e <= s@.len(),
            None => r is None,
        },
{
    let (first, q1) = match ident_exec(s, k) {
        Some(x) => x,
        None => return None,
    };
    proof {
        lemma_sp_ws(s@, q1 as int);
    }
    let q2 = ws_exec(s, q1);
    if q2 < s.len() && s[q2] == ',' {
        proof {
            lemma_sp_ws(s@, q2 + 1);
        }
        let p = ws_exec(s, q2 + 1);
        match ident_exec(s, p) {
            Some((second, r)) => {
                proof {
                    lemma_sp_ws(s@, r as int);
                }
                let e = ws_exec(s, r);
                Some((Some(ident_of(&first)), ident_of(&second), e))
            },
            None => None,
        }
    } else {
        Some((None, ident_of(&first), q2))
    }
}

} // verus!
