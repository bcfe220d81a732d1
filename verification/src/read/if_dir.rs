//! Executable reading of template `if` directives.
use vstd::prelude::*;
use crate::lexer::{lemma_sp_ws, ws_exec};
use crate::read::at_chars;
use crate::read::expr::expr_exec;
use crate::read::tmpl_lex::{keyword_tag_exec, tag_close_exec, tag_open_exec};
use crate::template::{
    Directive, Element, ElementV, IfDirective, StripMode, Template, element_view,
};
use crate::tmpl_grammar::{if_directive, tmpl_elems};
use crate::read::tmpl_elems::tmpl_elems_exec;

verus! {

/// Exec form of [`if_directive`].
#[verifier::rlimit(60)]
pub fn if_dir_exec(s: &Vec<char>, i: usize) -> (r: Option<(IfDirective, usize)>)
    requires
        i <= s@.len(),
    ensures
        match if_directive(s@, i as int) {
            Some((d, e)) => r matches Some((d2, e2)) && element_view(
                Element::Directive(Directive::If(d2)),
            ) == ElementV::If(d) && e2 == e && i < e <= s@.len(),
            None => r is None,
        },
    decreases s@.len() - i, 1nat,
{
    if s.len() - i < 2 {
        return None;
    }
    let (st, p) = tag_open_exec(s, i);
    if !at_chars(s, p, &['i', 'f']) {
        return None;
    }
    proof {
        lemma_sp_ws(s@, p + 2);
    }
    let p2 = ws_exec(s, p + 2);
    let (c, q) = match expr_exec(s, p2) {
        Some(x) => x,
        None => return None,
    };
    proof {
        lemma_sp_ws(s@, q as int);
    }
    let q1 = ws_exec(s, q);
    let (en, r) = match tag_close_exec(s, q1) {
        Some(x) => x,
        None => return None,
    };
    let (t1, r1) = match tmpl_elems_exec(s, r) {
        Some(x) => x,
        None => return None,
    };
    let if_strip = StripMode::from_bools(st, en);
    match keyword_tag_exec(s, r1, &['e', 'l', 's', 'e']) {
        Some((else_strip, r2)) => {
            let (t2, r3) = match tmpl_elems_exec(s, r2) {
                Some(x) => x,
                None => return None,
            };
            match keyword_tag_exec(s, r3, &['e', 'n', 'd', 'i', 'f']) {
                Some((endif_strip, r4)) => {
                    let d = IfDirective {
                        cond_expr: c,
                        true_template: Template { elements: t1 },
                        false_template: Some(Template { elements: t2 }),
                        if_strip,
                        else_strip,
                        endif_strip,
                    };
                    Some((d, r4))
                },
                None => None,
            }
        },
        None => match keyword_tag_exec(s, r1, &['e', 'n', 'd', 'i', 'f']) {
            Some((endif_strip, r4)) => {
                let d = IfDirective {
                    cond_expr: c,
                    true_template: Template { elements: t1 },
                    false_template: None,
                    if_strip,
                    else_strip: StripMode::NoStrip,
                    endif_strip,
                };
                Some((d, r4))
            },
            None => None,
        },
    }
}

} // verus!
