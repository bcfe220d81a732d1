//! Executable reading of template `for` directives.
use vstd::prelude::*;
use crate::lexer::{lemma_sp_ws, ws_exec};
use crate::read::at_chars;
use crate::read::expr::expr_exec;
use crate::read::tmpl_lex::{for_vars_exec, keyword_tag_exec, tag_close_exec, tag_open_exec};
use crate::template::{
    Directive, Element, ElementV, ForDirective, StripMode, Template, element_view,
};
use crate::tmpl_grammar::{for_directive, tmpl_elems};
use crate::read::tmpl_elems::tmpl_elems_exec;

verus! {

/// Exec form of [`for_directive`].
#[verifier::rlimit(60)]
pub fn for_dir_exec(s: &Vec<char>, i: usize) -> (r: Option<(ForDirective, usize)>)
    requires
        i <= s@.len(),
    ensures
        match for_directive(s@, i as int) {
            Some((d, e)) => r matches Some((d2, e2)) && element_view(
                Element::Directive(Directive::For(d2)),
            ) == ElementV::For(d) && e2 == e && i < e <= s@.len(),
            None => r is None,
        },
    decreases s@.len() - i, 1nat,
{
    if s.len() - i < 2 {
        return None;
    }
    let (st, p) = tag_open_exec(s, i);
    if !at_chars(s, p, &['f', 'o', 'r']) {
        return None;
    }
    proof {
        lemma_sp_ws(s@, p + 3);
    }
    let p2 = ws_exec(s, p + 3);
    let (kv, vv, q) = match for_vars_exec(s, p2) {
        Some(x) => x,
        None => return None,
    };
    if !at_chars(s, q, &['i', 'n']) {
        return None;
    }
    proof {
        lemma_sp_ws(s@, q + 2);
    }
    let q1 = ws_exec(s, q + 2);
    let (c, q2) = match expr_exec(s, q1) {
        Some(x) => x,
        None => return None,
    };
    proof {
        lemma_sp_ws(s@, q2 as int);
    }
    let q3 = ws_exec(s, q2);
    let (en, r) = match tag_close_exec(s, q3) {
        Some(x) => x,
        None => return None,
    };
    let (body, r1) = match tmpl_elems_exec(s, r) {
        Some(x) => x,
        None => return None,
    };
    match keyword_tag_exec(s, r1, &['e', 'n', 'd', 'f', 'o', 'r']) {
        Some((endfor_strip, r2)) => {
            let d = ForDirective {
                key_var: kv,
                value_var: vv,
                collection_expr: c,
                template: Template { elements: body },
                for_strip: StripMode::from_bools(st, en),
                endfor_strip,
            };
            Some((d, r2))
        },
        None => None,
    }
}

} // verus!
