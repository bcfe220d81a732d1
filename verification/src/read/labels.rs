//! Executable parsing of block labels.
use vstd::prelude::*;
use crate::ident::Identifier;
use crate::lexer::{
    ident_exec, ident_start_exec, lemma_sp_ws, line_end_exec, sp_exec, str_content_exec,
};
use crate::parser::{labels, structure, structure_end};
use crate::structure::{BlockLabel, LabelV, labels_view};
use crate::text::string_of;
use crate::read::{at_chars, ident_of, lemma_with_prefix_cons, lemma_with_prefix_empty, with_prefix};

verus! {

/// Exec form of [`labels`].
pub fn labels_exec(s: &Vec<char>, k0: usize) -> (r: Option<(Vec<BlockLabel>, usize)>)
    requires
        k0 <= s@.len(),
    ensures
        match labels(s@, k0 as int) {
            Some((ls, e)) => r matches Some((v, e2)) && labels_view(v@) == ls && e2 == e && k0
                <= e <= s@.len(),
            None => r is None,
        },
{
    let mut out: Vec<BlockLabel> = Vec::new();
    let mut k = k0;
    proof {
        assert(labels_view(out@) =~= Seq::<LabelV>::empty());
        lemma_with_prefix_empty(labels(s@, k0 as int));
    }
    loop
        invariant
            k0 <= k <= s@.len(),
            labels(s@, k0 as int) == with_prefix(labels_view(out@), labels(s@, k as int)),
        decreases s@.len() - k,
    {
        if k < s.len() && s[k] == '"' {
            match str_content_exec(s, k + 1, true) {
                Some((t, e)) => {
                    proof {
                        lemma_sp_ws(s@, e + 1);
                    }
                    let n = sp_exec(s, e + 1);
                    let l = BlockLabel::String(string_of(t.as_slice()));
                    proof {
                        lemma_with_prefix_cons(labels_view(out@), LabelV::Str(t@), labels(s@, n as int));
                        assert(labels_view(out@.push(l)) =~= labels_view(out@).push(LabelV::Str(t@)));
                    }
                    out.push(l);
                    k = n;
                },
                None => return None,
            }
        } else if k < s.len() && ident_start_exec(s[k]) {
            match ident_exec(s, k) {
                Some((name, q)) => {
                    proof {
                        lemma_sp_ws(s@, q as int);
                    }
                    let n = sp_exec(s, q);
                    let l = BlockLabel::Identifier(ident_of(&name));
                    proof {
                        lemma_with_prefix_cons(labels_view(out@), LabelV::Ident(name@), labels(s@, n as int));
                        assert(labels_view(out@.push(l)) =~= labels_view(out@).push(LabelV::Ident(name@)));
                    }
                    out.push(l);
                    k = n;
                },
                None => return None,
            }
        } else {
            assert(labels_view(out@) + seq![] =~= labels_view(out@));
            return Some((out, k));
        }
    }
}

/// Exec form of [`structure_end`].
pub fn structure_end_exec(s: &Vec<char>, q: usize) -> (r: Option<usize>)
    requires
        q <= s@.len(),
    ensures
        match structure_end(s@, q as int) {
            Some(n) => r == Some(n as usize) && q <= n <= s@.len(),
            None => r is None,
        },
{
    proof {
        lemma_sp_ws(s@, q as int);
    }
    let r = sp_exec(s, q);
    let r2 = if r < s.len() && (s[r] == '#' || at_chars(s, r, &['/', '/'])) {
        line_end_exec(s, r + 1)
    } else {
        r
    };
    if r2 >= s.len() {
        Some(r2)
    } else if s[r2] == '\n' {
        Some(r2 + 1)
    } else if at_chars(s, r2, &['\r', '\n']) {
        Some(r2 + 2)
    } else if s[r2] == '}' {
        Some(r2)
    } else {
        None
    }
}

} // verus!
