//! Executable reading of one template element.
use vstd::prelude::*;
use crate::lexer::{lemma_sp_ws, ws_exec};
use crate::read::at_chars;
use crate::read::expr::expr_exec;
use crate::read::tmpl_lex::{at_tag_exec, literal_end_exec, tag_close_exec, tag_open_exec};
use crate::template::{Directive, Element, Interpolation, StripMode};
use crate::tmpl_grammar::tmpl_element;
use crate::text::string_of;
use crate::read::if_dir::if_dir_exec;
use crate::read::for_dir::for_dir_exec;

verus! {

/// Exec form of [`tmpl_element`].
#[verifier::rlimit(40)]
pub fn tmpl_element_exec(s: &Vec<char>, i: usize) -> (r: Option<Option<(Element, usize)>>)
    requires
        i <= s@.len(),
    ensures
        match tmpl_element(s@, i as int) {
            Some(Some((el, j))) => r matches Some(Some((e2, j2))) && e2@ == el && j2 == j && i < j
                <= s@.len(),
            Some(None) => r matches Some(None),
            None => r is None,
        },
    decreases s@.len() - i, 2nat,
{
    if i >= s.len() {
        return Some(None);
    }
    if !at_tag_exec(s, i) {
        let e = literal_end_exec(s, i);
        if e > i {
            let t = crate::lexer::slice_chars(s, i, e);
            return Some(Some((Element::Literal(string_of(t.as_slice())), e)));
        } else {
            return None;
        }
    }
    if at_chars(s, i, &['$', '{']) {
        let (st, p) = tag_open_exec(s, i);
        let (e, q) = match expr_exec(s, p) {
            Some(x) => x,
            None => return None,
        };
        proof {
            lemma_sp_ws(s@, q as int);
        }
        let q1 = ws_exec(s, q);
        match tag_close_exec(s, q1) {
            Some((en, r)) => {
                let strip = StripMode::from_bools(st, en);
                Some(Some((Element::Interpolation(Interpolation { expr: e, strip }), r)))
            },
            None => None,
        }
    } else {
        let (st, p) = tag_open_exec(s, i);
        if at_chars(s, p, &['i', 'f']) {
            match if_dir_exec(s, i) {
                Some((d, r)) => Some(Some((Element::Directive(Directive::If(d)), r))),
                None => None,
            }
        } else if at_chars(s, p, &['f', 'o', 'r']) {
            match for_dir_exec(s, i) {
                Some((d, r)) => Some(Some((Element::Directive(Directive::For(d)), r))),
                None => None,
            }
        } else {
            Some(None)
        }
    }
}

} // verus!
