//! Reading a body with its whitespace, comments and positions.
use vstd::prelude::*;
use crate::ast::{Body, BodyRawV, Structure, StructureRawV, raw_items_text, raw_text, raw_values};
use crate::error::Error;
use crate::lexer::{lemma_sp_ws, ws, ws_exec};
use crate::parser::{body, parse_body, structure, structure_end};
use crate::read::structure::structure_exec;
use crate::read::labels::structure_end_exec;
use crate::text::string_of;

verus! {

/// The structures of a body read from `i` with everything around them, the whitespace and
/// comments after the last one, and where reading stopped: the grammar of [`body`], keeping
/// what it skips.
pub open spec fn raw_items(s: Seq<char>, i: int) -> Option<(Seq<StructureRawV>, Seq<char>, int)>
    decreases s.len() - i,
{
    if i < 0 || i > s.len() {
        None
    } else {
        proof {
            lemma_sp_ws(s, i);
        }
        let p = ws(s, i);
        if p >= s.len() || s[p] == '}' {
            Some((seq![], s.subrange(i, p), p))
        } else {
            match structure(s, p) {
                Some((st, q)) => if p < q <= s.len() {
                    match structure_end(s, q) {
                        Some(n) => if q <= n <= s.len() {
                            match raw_items(s, n) {
                                Some((rest, tr, e)) => Some((
                                    seq![
                                        StructureRawV {
                                            prefix: s.subrange(i, p),
                                            start: p,
                                            end: q,
                                            text: s.subrange(p, q),
                                            suffix: s.subrange(q, n),
                                            value: st,
                                        },
                                    ] + rest,
                                    tr,
                                    e,
                                )),
                                None => None,
                            }
                        } else {
                            None
                        },
                        None => None,
                    }
                } else {
                    None
                },
                None => None,
            }
        }
    }
}

/// The body that a whole text holds, read with its whitespace, comments and positions.
pub open spec fn raw_body(s: Seq<char>) -> Option<BodyRawV> {
    match raw_items(s, 0) {
        Some((items, tr, e)) => if e == s.len() {
            Some(BodyRawV { structures: items, suffix: tr })
        } else {
            None
        },
        None => None,
    }
}

/// Prepends read structures to a result of [`raw_items`].
pub open spec fn raw_with_prefix(
    xs: Seq<StructureRawV>,
    r: Option<(Seq<StructureRawV>, Seq<char>, int)>,
) -> Option<(Seq<StructureRawV>, Seq<char>, int)> {
    match r {
        Some((ys, tr, e)) => Some((xs + ys, tr, e)),
        None => None,
    }
}

/// The characters of `s` from `a` up to `b`.
fn chars_between(s: &Vec<char>, a: usize, b: usize) -> (r: String)
    requires
        a <= b <= s@.len(),
    ensures
        r@ == s@.subrange(a as int, b as int),
{
    string_of(&s.as_slice()[a..b])
}

/// Parses a body, keeping the whitespace and comments around each structure and where each
/// structure stands.
pub fn parse_raw(input: &str) -> (r: Result<Body, Error>)
    ensures
        match raw_body(input@) {
            Some(b) => r matches Ok(x) && x@ == b,
            None => r == Err::<Body, Error>(Error::Parse),
        },
{
    let s = crate::text::chars_of(input);
    let mut out: Vec<Structure> = Vec::new();
    let mut k: usize = 0;
    proof {
        assert(out@.map_values(|x: Structure| x@) =~= Seq::<StructureRawV>::empty());
        assert(raw_items(s@, 0) == raw_with_prefix(seq![], raw_items(s@, 0))) by {
            match raw_items(s@, 0) {
                Some((ys, tr, e)) => assert(Seq::<StructureRawV>::empty() + ys =~= ys),
                None => {},
            }
        }
    }
    loop
        invariant
            k <= s@.len(),
            s@ == input@,
            raw_items(s@, 0) == raw_with_prefix(
                out@.map_values(|x: Structure| x@),
                raw_items(s@, k as int),
            ),
        decreases s@.len() - k,
    {
        proof {
            lemma_sp_ws(s@, k as int);
        }
        let p = ws_exec(&s, k);
        if p >= s.len() || s[p] == '}' {
            let ghost xs = out@.map_values(|x: Structure| x@);
            assert(xs + seq![] =~= xs);
            if p < s.len() {
                return Err(Error::Parse);
            }
            let suffix = chars_between(&s, k, p);
            let b = Body { structures: out, suffix };
            return Ok(b);
        }
        let (st, q) = match structure_exec(&s, p) {
            Some(x) => x,
            None => return Err(Error::Parse),
        };
        let n = match structure_end_exec(&s, q) {
            Some(n) => n,
            None => return Err(Error::Parse),
        };
        let prefix = chars_between(&s, k, p);
        let text = chars_between(&s, p, q);
        let suffix = chars_between(&s, q, n);
        let item = Structure { prefix, span: (p, q), text, suffix, value: st };
        proof {
            let xs = out@.map_values(|x: Structure| x@);
            let ys = out@.push(item).map_values(|x: Structure| x@);
            assert(ys =~= xs.push(item@));
            match raw_items(s@, n as int) {
                Some((rest, tr, e)) => {
                    assert(xs + (seq![item@] + rest) =~= xs.push(item@) + rest);
                },
                None => {},
            }
        }
        out.push(item);
        k = n;
    }
}

/// The text of read structures, the first one taken off the front.
proof fn lemma_items_text_front(x: StructureRawV, rest: Seq<StructureRawV>)
    ensures
        raw_items_text(seq![x] + rest) == x.prefix + x.text + x.suffix + raw_items_text(rest),
    decreases rest.len(),
{
    let xs = seq![x] + rest;
    if rest.len() == 0 {
        assert(xs.drop_last() =~= Seq::<StructureRawV>::empty());
        assert(raw_items_text(xs.drop_last()) == Seq::<char>::empty());
        assert(seq![] + x.prefix + x.text + x.suffix =~= x.prefix + x.text + x.suffix + seq![]);
    } else {
        assert(xs.drop_last() =~= seq![x] + rest.drop_last());
        lemma_items_text_front(x, rest.drop_last());
        let l = rest.last();
        assert(x.prefix + x.text + x.suffix + raw_items_text(rest.drop_last()) + l.prefix + l.text
            + l.suffix =~= x.prefix + x.text + x.suffix + (raw_items_text(rest.drop_last())
            + l.prefix + l.text + l.suffix));
    }
}

/// What [`raw_items`] reads tiles the text it was read from, and means what [`body`] reads.
#[verifier::spinoff_prover]
#[verifier::rlimit(40)]
proof fn lemma_raw_items(s: Seq<char>, i: int)
    requires
        0 <= i <= s.len(),
    ensures
        match raw_items(s, i) {
            Some((items, tr, e)) => i <= e <= s.len() && raw_items_text(items) + tr
                == s.subrange(i, e) && body(s, i) == Some((raw_values(items), e)),
            None => body(s, i) is None,
        },
    decreases s.len() - i,
{
    lemma_sp_ws(s, i);
    let p = ws(s, i);
    if p >= s.len() || s[p] == '}' {
        assert(raw_values(seq![]) =~= seq![]);
        assert(seq![] + s.subrange(i, p) =~= s.subrange(i, p));
    } else {
        match structure(s, p) {
            Some((st, q)) => if p < q <= s.len() {
                match structure_end(s, q) {
                    Some(n) => if q <= n <= s.len() {
                        lemma_raw_items(s, n);
                        match raw_items(s, n) {
                            Some((rest, tr, e)) => {
                                let x = StructureRawV {
                                    prefix: s.subrange(i, p),
                                    start: p,
                                    end: q,
                                    text: s.subrange(p, q),
                                    suffix: s.subrange(q, n),
                                    value: st,
                                };
                                assert(raw_items(s, i) == Some((seq![x] + rest, tr, e)));
                                lemma_items_text_front(x, rest);
                                assert(s.subrange(i, p) + s.subrange(p, q) + s.subrange(q, n)
                                    + s.subrange(n, e) =~= s.subrange(i, e));
                                assert(x.prefix + x.text + x.suffix + raw_items_text(rest) + tr
                                    =~= x.prefix + x.text + x.suffix + (raw_items_text(rest) + tr));
                                assert(raw_values(seq![x] + rest) =~= seq![st] + raw_values(rest));
                            },
                            None => {},
                        }
                    },
                    None => {},
                }
            },
            None => {},
        }
    }
}

/// Printing a body read by [`parse_raw`] gives back, character for character, the text it was
/// read from.
pub proof fn raw_body_text_roundtrip(s: Seq<char>)
    requires
        raw_body(s) is Some,
    ensures
        raw_text(raw_body(s).unwrap()) == s,
{
    lemma_raw_items(s, 0);
    assert(s.subrange(0, s.len() as int) =~= s);
}

/// The body that [`parse_raw`] reads means what [`crate::parse`] reads from the same text, and
/// one fails where the other does.
pub proof fn raw_body_means_parsed_body(s: Seq<char>)
    ensures
        match raw_body(s) {
            Some(b) => parse_body(s) == Some(raw_values(b.structures)),
            None => parse_body(s) is None,
        },
{
    lemma_raw_items(s, 0);
}

} // verus!
