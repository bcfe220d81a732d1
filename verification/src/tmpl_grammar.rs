//! The grammar of the template sub-language, stated as spec functions over characters, and
//! the text that a template is written as.
use vstd::prelude::*;
use crate::expr::ExprV;
use crate::format::fmt_expr;
use crate::lexer::{at, ident, lemma_sp_ws, ws};
use crate::parser::{cons, expr};
use crate::template::{ElementV, ForDirV, IfV, StripMode};

verus! {

// ---------------------------------------------------------------------------------------------
// Reading
// ---------------------------------------------------------------------------------------------

/// Whether an interpolation or a directive starts at `i`.
pub open spec fn at_tag(s: Seq<char>, i: int) -> bool {
    at(s, i, seq!['$', '{']) || at(s, i, seq!['%', '{'])
}

/// The end of the literal text from `i`: up to the next interpolation or directive start;
/// the escaped starts `$${` and `%%{` belong to the text.
pub open spec fn literal_end(s: Seq<char>, i: int) -> int
    decreases s.len() - i,
{
    if i < 0 || i >= s.len() {
        i
    } else if at(s, i, seq!['$', '$', '{']) || at(s, i, seq!['%', '%', '{']) {
        literal_end(s, i + 3)
    } else if at_tag(s, i) {
        i
    } else {
        literal_end(s, i + 1)
    }
}

/// The opening of a tag at `i` (`${` or `%{`, with `~` where it strips): whether it strips,
/// and the position after it and the whitespace that follows.
pub open spec fn tag_open(s: Seq<char>, i: int) -> (bool, int) {
    let strip = i + 2 < s.len() && s[i + 2] == '~';
    let p = if strip {
        i + 3
    } else {
        i + 2
    };
    (strip, ws(s, p))
}

/// The closing of a tag at `q` (`}`, or `~}` where it strips): whether it strips and the
/// position after it.
pub open spec fn tag_close(s: Seq<char>, q: int) -> Option<(bool, int)> {
    if q < s.len() && s[q] == '}' {
        Some((false, q + 1))
    } else if at(s, q, seq!['~', '}']) {
        Some((true, q + 2))
    } else {
        None
    }
}

/// A keyword tag at `i`: `%{`, the keyword `kw` between whitespace, and the closing; the
/// result is its strip mode and the position after it.
pub open spec fn keyword_tag(s: Seq<char>, i: int, kw: Seq<char>) -> Option<(StripMode, int)> {
    if !at(s, i, seq!['%', '{']) || i < 0 || i > s.len() {
        None
    } else {
        let (st, p) = tag_open(s, i);
        if at(s, p, kw) {
            match tag_close(s, ws(s, p + kw.len())) {
                Some((en, r)) => Some((StripMode::of(st, en), r)),
                None => None,
            }
        } else {
            None
        }
    }
}

/// The elements of a template from `i`, as far as they go; the result is the elements and the
/// position where they end (the end of the input, or a tag that is no element here, such as
/// `%{ else }`). `None` where a tag is malformed.
pub open spec fn tmpl_elems(s: Seq<char>, i: int) -> Option<(Seq<ElementV>, int)>
    decreases s.len() - i, 3nat,
{
    if i < 0 || i > s.len() {
        None
    } else if i == s.len() {
        Some((seq![], i))
    } else {
        match tmpl_element(s, i) {
            Some(Some((el, j))) => if i < j <= s.len() {
                cons(el, tmpl_elems(s, j))
            } else {
                None
            },
            Some(None) => Some((seq![], i)),
            None => None,
        }
    }
}

/// The element at `i`: a literal, an interpolation or a directive (`Some(Some(..))`), no
/// element (`Some(None)`) before a tag that does not start one, or `None` where a tag is
/// malformed.
pub open spec fn tmpl_element(s: Seq<char>, i: int) -> Option<Option<(ElementV, int)>>
    decreases s.len() - i, 2nat,
{
    if i < 0 || i >= s.len() {
        Some(None)
    } else if !at_tag(s, i) {
        let e = literal_end(s, i);
        if i < e <= s.len() {
            Some(Some((ElementV::Literal(s.subrange(i, e)), e)))
        } else {
            None
        }
    } else if at(s, i, seq!['$', '{']) {
        let (st, p) = tag_open(s, i);
        if i < p <= s.len() {
            match expr(s, p) {
                Some((e, q)) => if p < q <= s.len() {
                    proof {
                        lemma_sp_ws(s, q);
                    }
                    match tag_close(s, ws(s, q)) {
                        Some((en, r)) => Some(Some((ElementV::Interp(e, StripMode::of(st, en)), r))),
                        None => None,
                    }
                } else {
                    None
                },
                None => None,
            }
        } else {
            None
        }
    } else {
        let (st, p) = tag_open(s, i);
        if at(s, p, seq!['i', 'f']) {
            match if_directive(s, i) {
                Some((d, r)) => Some(Some((ElementV::If(d), r))),
                None => None,
            }
        } else if at(s, p, seq!['f', 'o', 'r']) {
            match for_directive(s, i) {
                Some((d, r)) => Some(Some((ElementV::For(d), r))),
                None => None,
            }
        } else {
            Some(None)
        }
    }
}

/// An `if` directive at `i`: the `if` tag with its condition, the template, an optional
/// `else` tag and template, and the `endif` tag.
pub open spec fn if_directive(s: Seq<char>, i: int) -> Option<(IfV, int)>
    decreases s.len() - i, 1nat,
{
    if i < 0 || i > s.len() {
        None
    } else {
        proof {
            lemma_tag_open(s, i);
        }
        let (st, p) = tag_open(s, i);
        if !(i < p <= s.len()) || !at(s, p, seq!['i', 'f']) {
            None
        } else {
            proof {
                lemma_sp_ws(s, p + 2);
            }
            match expr(s, ws(s, p + 2)) {
                Some((c, q)) => if p < q <= s.len() {
                    proof {
                        lemma_sp_ws(s, q);
                    }
                    match tag_close(s, ws(s, q)) {
                        Some((en, r)) => match tmpl_elems(s, r) {
                            Some((t1, r1)) => if r <= r1 <= s.len() {
                                match keyword_tag(s, r1, seq!['e', 'l', 's', 'e']) {
                                    Some((else_strip, r2)) => if r1 < r2 <= s.len() {
                                        match tmpl_elems(s, r2) {
                                            Some((t2, r3)) => match keyword_tag(
                                                s,
                                                r3,
                                                seq!['e', 'n', 'd', 'i', 'f'],
                                            ) {
                                                Some((endif_strip, r4)) => Some(
                                                    (
                                                        IfV {
                                                            cond: c,
                                                            then_t: t1,
                                                            else_t: Some(t2),
                                                            if_strip: StripMode::of(st, en),
                                                            else_strip,
                                                            endif_strip,
                                                        },
                                                        r4,
                                                    ),
                                                ),
                                                None => None,
                                            },
                                            None => None,
                                        }
                                    } else {
                                        None
                                    },
                                    None => match keyword_tag(s, r1, seq!['e', 'n', 'd', 'i', 'f']) {
                                        Some((endif_strip, r4)) => Some(
                                            (
                                                IfV {
                                                    cond: c,
                                                    then_t: t1,
                                                    else_t: None,
                                                    if_strip: StripMode::of(st, en),
                                                    else_strip: StripMode::NoStrip,
                                                    endif_strip,
                                                },
                                                r4,
                                            ),
                                        ),
                                        None => None,
                                    },
                                }
                            } else {
                                None
                            },
                            None => None,
                        },
                        None => None,
                    }
                } else {
                    None
                },
                None => None,
            }
        }
    }
}

/// A `for` directive at `i`: the `for` tag with one or two variables, `in` and the
/// collection, the template, and the `endfor` tag.
pub open spec fn for_directive(s: Seq<char>, i: int) -> Option<(ForDirV, int)>
    decreases s.len() - i, 1nat,
{
    if i < 0 || i > s.len() {
        None
    } else {
        proof {
            lemma_tag_open(s, i);
        }
        let (st, p) = tag_open(s, i);
        if !(i < p <= s.len()) || !at(s, p, seq!['f', 'o', 'r']) {
            None
        } else {
            proof {
                lemma_sp_ws(s, p + 3);
            }
            match for_vars(s, ws(s, p + 3)) {
                Some((kv, vv, q)) => if p < q <= s.len() && at(s, q, seq!['i', 'n']) {
                    proof {
                        lemma_sp_ws(s, q + 2);
                    }
                    match expr(s, ws(s, q + 2)) {
                        Some((c, q2)) => if q < q2 <= s.len() {
                            proof {
                                lemma_sp_ws(s, q2);
                            }
                            match tag_close(s, ws(s, q2)) {
                                Some((en, r)) => match tmpl_elems(s, r) {
                                    Some((body, r1)) => match keyword_tag(
                                        s,
                                        r1,
                                        seq!['e', 'n', 'd', 'f', 'o', 'r'],
                                    ) {
                                        Some((endfor_strip, r2)) => Some(
                                            (
                                                ForDirV {
                                                    key_var: kv,
                                                    value_var: vv,
                                                    collection: c,
                                                    body,
                                                    for_strip: StripMode::of(st, en),
                                                    endfor_strip,
                                                },
                                                r2,
                                            ),
                                        ),
                                        None => None,
                                    },
                                    None => None,
                                },
                                None => None,
                            }
                        } else {
                            None
                        },
                        None => None,
                    }
                } else {
                    None
                },
                None => None,
            }
        }
    }
}

/// The variables of a template `for` tag at `k`: one identifier, or two separated by a comma,
/// each followed by whitespace. The result is the key variable where there are two, the value
/// variable and the position after them.
pub open spec fn for_vars(s: Seq<char>, k: int) -> Option<(Option<Seq<char>>, Seq<char>, int)> {
    match ident(s, k) {
        Some((first, q1)) => {
            let q2 = ws(s, q1);
            if q2 < s.len() && s[q2] == ',' {
                match ident(s, ws(s, q2 + 1)) {
                    Some((second, r)) => Some((Some(first), second, ws(s, r))),
                    None => None,
                }
            } else {
                Some((None, first, q2))
            }
        },
        None => None,
    }
}

pub proof fn lemma_tag_open(s: Seq<char>, i: int)
    requires
        0 <= i <= s.len(),
    ensures
        i + 2 <= s.len() ==> i < tag_open(s, i).1 <= s.len(),
{
    if i + 2 <= s.len() {
        if i + 2 < s.len() && s[i + 2] == '~' {
            lemma_sp_ws(s, i + 3);
        } else {
            lemma_sp_ws(s, i + 2);
        }
    }
}

/// The elements of a whole template text, where it is one.
pub open spec fn parse_template(s: Seq<char>) -> Option<Seq<ElementV>> {
    match tmpl_elems(s, 0) {
        Some((es, e)) => if e == s.len() {
            Some(es)
        } else {
            None
        },
        None => None,
    }
}

// ---------------------------------------------------------------------------------------------
// Writing
// ---------------------------------------------------------------------------------------------

/// The opening of a tag: `${` or `%{`, and `~` where it strips.
pub open spec fn open_text(marker: char, strip: StripMode) -> Seq<char> {
    if strip.strips_start() {
        seq![marker, '{', '~']
    } else {
        seq![marker, '{']
    }
}

/// The closing of a tag: `~` where it strips, and `}`.
pub open spec fn close_text(strip: StripMode) -> Seq<char> {
    if strip.strips_end() {
        seq!['~', '}']
    } else {
        seq!['}']
    }
}

/// A keyword tag such as `%{ endif }`.
pub open spec fn keyword_text(kw: Seq<char>, strip: StripMode) -> Seq<char> {
    open_text('%', strip) + seq![' '] + kw + seq![' '] + close_text(strip)
}

/// The text of an expression inside a template.
pub open spec fn tmpl_expr_text(e: ExprV) -> Seq<char> {
    fmt_expr(e, seq![], seq![' ', ' '], false)
}

/// The text of a template element.
pub open spec fn render_element(e: ElementV) -> Seq<char>
    decreases e,
{
    match e {
        ElementV::Literal(t) => t,
        ElementV::Interp(x, strip) => open_text('$', strip) + tmpl_expr_text(x) + close_text(strip),
        ElementV::If(d) => open_text('%', d.if_strip) + seq![' ', 'i', 'f', ' '] + tmpl_expr_text(
            d.cond,
        ) + seq![' '] + close_text(d.if_strip) + render_elements(d.then_t) + match d.else_t {
            Some(t) => keyword_text(seq!['e', 'l', 's', 'e'], d.else_strip) + render_elements(t),
            None => seq![],
        } + keyword_text(seq!['e', 'n', 'd', 'i', 'f'], d.endif_strip),
        ElementV::For(d) => open_text('%', d.for_strip) + seq![' ', 'f', 'o', 'r', ' '] + match d.key_var {
            Some(k) => k + seq![',', ' '],
            None => seq![],
        } + d.value_var + seq![' ', 'i', 'n', ' '] + tmpl_expr_text(d.collection) + seq![' ']
            + close_text(d.for_strip) + render_elements(d.body) + keyword_text(
            seq!['e', 'n', 'd', 'f', 'o', 'r'],
            d.endfor_strip,
        ),
    }
}

/// The text of a sequence of template elements.
pub open spec fn render_elements(es: Seq<ElementV>) -> Seq<char>
    decreases es,
{
    if es.len() == 0 {
        seq![]
    } else {
        render_elements(es.drop_last()) + render_element(es.last())
    }
}

} // verus!
