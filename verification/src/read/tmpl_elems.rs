//! Executable reading of a run of template elements.
use vstd::prelude::*;
use crate::read::{lemma_with_prefix_cons, lemma_with_prefix_empty, with_prefix};
use crate::template::{Element, ElementV, elements_view};
use crate::tmpl_grammar::{tmpl_element, tmpl_elems};
use crate::read::tmpl_element::tmpl_element_exec;

verus! {

/// Exec form of [`tmpl_elems`].
pub fn tmpl_elems_exec(s: &Vec<char>, i: usize) -> (r: Option<(Vec<Element>, usize)>)
    requires
        i <= s@.len(),
    ensures
        match tmpl_elems(s@, i as int) {
            Some((es, e)) => r matches Some((v, e2)) && elements_view(v@) == es && e2 == e && i
                <= e <= s@.len(),
            None => r is None,
        },
    decreases s@.len() - i, 3nat,
{
    let mut out: Vec<Element> = Vec::new();
    let mut k = i;
    proof {
        assert(elements_view(out@) =~= Seq::<ElementV>::empty());
        lemma_with_prefix_empty(tmpl_elems(s@, i as int));
    }
    loop
        invariant
            i <= k <= s@.len(),
            tmpl_elems(s@, i as int) == with_prefix(elements_view(out@), tmpl_elems(s@, k as int)),
        decreases s@.len() - k,
    {
        if k == s.len() {
            assert(elements_view(out@) + seq![] =~= elements_view(out@));
            return Some((out, k));
        }
        match tmpl_element_exec(s, k) {
            Some(Some((el, j))) => {
                proof {
                    lemma_with_prefix_cons(elements_view(out@), el@, tmpl_elems(s@, j as int));
                    assert(out@.push(el).drop_last() =~= out@);
                }
                out.push(el);
                k = j;
            },
            Some(None) => {
                assert(elements_view(out@) + seq![] =~= elements_view(out@));
                return Some((out, k));
            },
            None => return None,
        }
    }
}

} // verus!
