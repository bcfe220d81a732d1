//! Properties that relate the parser, the formatter and the conversions to each other.
use vstd::prelude::*;
use crate::expr::ExprV;
use crate::format::{encode_char, encode_str, quoted};
use crate::lexer::{all_hex, at, escape_at, hex_run_value, str_content};
use crate::parser::term;
use crate::convert::{
    JsonV, block_node, body_nodes, body_value, deep_merge, expr_value, find_key, insert_entry,
    lemma_find_key, merge_all, merge_into, node_value, nodes_value, object_entries, values_of,
};
use crate::expr::{
    BinaryOperator, HeredocStripMode, KeyV, UnaryOperator, binary_op_text, heredoc_intro_text,
    strip_mode_named, unary_op_text,
};
use crate::structure::{LabelV, StructureV};
use crate::value::{ValueV, keys_unique};
use crate::util::{
    escape_char, escape_seq, hex4_value, hex_value, is_scalar_value, needs_unicode_escape,
    prepend_ok, simple_escape, unescape_seq, upper_hex_digit,
};

verus! {

proof fn lemma_hex_digit_value(d: u32)
    requires
        d < 16,
    ensures
        hex_value(upper_hex_digit(d)) == Some(d),
{
}

/// How the parser reads back one escaped character.
pub(crate) proof fn lemma_escape_read(s: Seq<char>, k: int, c: char)
    requires
        0 <= k,
        k + escape_char(c).len() <= s.len(),
        s.subrange(k, k + escape_char(c).len()) == escape_char(c),
        escape_char(c).len() > 1,
    ensures
        s[k] == '\\',
        escape_at(s, k) == Some((c, k + escape_char(c).len())),
{
    let e = escape_char(c);
    assert(s[k] == e[0]);
    assert(s[k + 1] == e[1]);
    if needs_unicode_escape(c) {
        let n = c as u32;
        let hi = n / 16;
        let lo = n % 16;
        assert(hi < 16 && lo < 16);
        lemma_hex_digit_value(0);
        lemma_hex_digit_value(hi);
        lemma_hex_digit_value(lo);
        let d = s.subrange(k + 2, k + 6);
        assert(d[0] == e[2] && d[1] == e[3] && d[2] == e[4] && d[3] == e[5]);
        assert(d =~= seq!['0', '0', upper_hex_digit(hi), upper_hex_digit(lo)]);
        assert(all_hex(d));
        reveal_with_fuel(hex_run_value, 5);
        assert(d.drop_last().drop_last().drop_last().drop_last().len() == 0);
        assert(hex_run_value(d) == hi * 16 + lo);
        assert(hi * 16 + lo == n);
        assert(is_scalar_value(n));
    }
}

/// The core of the string round trip: where the encoded form of `t` and a closing quote stand
/// at `k`, the parser reads `t` and stops at the quote.
pub proof fn lemma_read_encoded(s: Seq<char>, k: int, t: Seq<char>)
    requires
        0 <= k,
        k + encode_str(t).len() < s.len(),
        s.subrange(k, k + encode_str(t).len()) == encode_str(t),
        s[k + encode_str(t).len()] == '"',
    ensures
        str_content(s, k, true) == Some((t, k + encode_str(t).len())),
    decreases t.len(),
{
    let m = encode_str(t).len() as int;
    if t.len() == 0 {
        assert(s[k] == '"');
    } else {
        let c = t[0];
        let next = if t.len() > 1 {
            Some(t[1])
        } else {
            None
        };
        let ec = encode_char(c, next);
        let rest = t.drop_first();
        assert(encode_str(t) == ec + encode_str(rest));
        let n = ec.len() as int;
        assert(s.subrange(k, k + n) == ec) by {
            assert(s.subrange(k, k + n) =~= s.subrange(k, k + m).subrange(0, n));
        }
        assert(s.subrange(k + n, k + m) == encode_str(rest)) by {
            assert(s.subrange(k + n, k + m) =~= s.subrange(k, k + m).subrange(n, m));
        }
        if (c == '$' || c == '%') && next == Some('{') {
            // `${` is written `$${` and read back as one unit.
            let rest2 = rest.drop_first();
            assert(rest[0] == '{');
            assert(encode_str(rest) == encode_char('{', if rest.len() > 1 { Some(rest[1]) } else { None }) + encode_str(rest2));
            assert(encode_char('{', if rest.len() > 1 { Some(rest[1]) } else { None }) == seq!['{']);
            assert(s[k] == c && s[k + 1] == c && s[k + 2] == '{') by {
                assert(s.subrange(k, k + n)[0] == s[k]);
                assert(s.subrange(k, k + n)[1] == s[k + 1]);
                assert(s.subrange(k + n, k + m)[0] == s[k + 2]);
            }
            assert(s.subrange(k, k + 3) =~= seq![c, c, '{']);
            assert(s.subrange(k + 3, k + m) =~= encode_str(rest2)) by {
                assert(s.subrange(k + 3, k + m) =~= s.subrange(k + n, k + m).subrange(1, m - n));
            }
            lemma_read_encoded(s, k + 3, rest2);
            assert(t =~= seq![c, '{'] + rest2);
        } else {
            assert(ec == escape_char(c));
            if ec.len() > 1 {
                lemma_escape_read(s, k, c);
            } else {
                assert(ec == seq![c]);
                assert(s[k] == c) by {
                    assert(s.subrange(k, k + n)[0] == s[k]);
                }
                assert(c != '"' && c != '\\');
                if c == '$' || c == '%' {
                    // The next character read is not `{`, nor the start of a doubled marker.
                    if rest.len() > 0 {
                        let r0 = rest[0];
                        let rnext = if rest.len() > 1 {
                            Some(rest[1])
                        } else {
                            None
                        };
                        assert(encode_str(rest) == encode_char(r0, rnext) + encode_str(rest.drop_first()));
                        let er = encode_char(r0, rnext);
                        assert(er.len() >= 1);
                        assert(s[k + 1] == er[0]) by {
                            assert(s.subrange(k + n, k + m)[0] == s[k + 1]);
                        }
                        assert(r0 != '{');
                        assert(er[0] != '{');
                        if er[0] == c && er.len() > 1 {
                            assert(er[1] == c);
                            assert(s[k + 2] == er[1]) by {
                                assert(s.subrange(k + n, k + m)[1] == s[k + 2]);
                            }
                        } else if er[0] == c {
                            assert(er == seq![c]);
                            let rest2 = rest.drop_first();
                            assert(encode_str(rest) == seq![c] + encode_str(rest2));
                            if rest2.len() > 0 {
                                let q0 = rest2[0];
                                let qn = if rest2.len() > 1 { Some(rest2[1]) } else { None };
                                assert(encode_str(rest2) == encode_char(q0, qn) + encode_str(rest2.drop_first()));
                                assert(rnext == Some(q0));
                                assert(q0 != '{');
                                assert(encode_char(q0, qn)[0] != '{');
                                assert(s[k + 2] == encode_char(q0, qn)[0]) by {
                                    assert(s.subrange(k + n, k + m)[1] == s[k + 2]);
                                }
                            } else {
                                assert(s[k + 2] == '"');
                            }
                        }
                    } else {
                        assert(s[k + 1] == '"');
                    }
                    assert(!at(s, k, seq!['$', '$', '{'])) by {
                        if at(s, k, seq!['$', '$', '{']) {
                            assert(s.subrange(k, k + 3)[1] == s[k + 1]);
                            assert(s.subrange(k, k + 3)[2] == s[k + 2]);
                        }
                    }
                    assert(!at(s, k, seq!['%', '%', '{'])) by {
                        if at(s, k, seq!['%', '%', '{']) {
                            assert(s.subrange(k, k + 3)[1] == s[k + 1]);
                            assert(s.subrange(k, k + 3)[2] == s[k + 2]);
                        }
                    }
                    assert(!at(s, k, seq!['$', '{'])) by {
                        if at(s, k, seq!['$', '{']) {
                            assert(s.subrange(k, k + 2)[1] == s[k + 1]);
                        }
                    }
                    assert(!at(s, k, seq!['%', '{'])) by {
                        if at(s, k, seq!['%', '{']) {
                            assert(s.subrange(k, k + 2)[1] == s[k + 1]);
                        }
                    }
                } else {
                    assert(!at(s, k, seq!['$', '$', '{'])) by {
                        if at(s, k, seq!['$', '$', '{']) {
                            assert(s.subrange(k, k + 3)[0] == s[k]);
                        }
                    }
                    assert(!at(s, k, seq!['%', '%', '{'])) by {
                        if at(s, k, seq!['%', '%', '{']) {
                            assert(s.subrange(k, k + 3)[0] == s[k]);
                        }
                    }
                    assert(!at(s, k, seq!['$', '{'])) by {
                        if at(s, k, seq!['$', '{']) {
                            assert(s.subrange(k, k + 2)[0] == s[k]);
                        }
                    }
                    assert(!at(s, k, seq!['%', '{'])) by {
                        if at(s, k, seq!['%', '{']) {
                            assert(s.subrange(k, k + 2)[0] == s[k]);
                        }
                    }
                }
            }
            lemma_read_encoded(s, k + n, rest);
            assert(t =~= seq![c] + rest);
        }
    }
}

/// A string that the formatter writes as a quoted literal is read back by the parser as the
/// same string, and the whole literal is consumed.
pub proof fn string_literal_roundtrip(t: Seq<char>)
    ensures
        term(quoted(t), 0) == Some((ExprV::String(t), quoted(t).len() as int)),
{
    let s = quoted(t);
    let m = encode_str(t).len() as int;
    assert(s.subrange(1, 1 + m) =~= encode_str(t));
    assert(s[1 + m] == '"');
    lemma_read_encoded(s, 1, t);
    assert(s[0] == '"');
}

// ---------------------------------------------------------------------------------------------
// Values converted from HCL have no key twice
// ---------------------------------------------------------------------------------------------

/// Whether every object in the value, at every depth, has no key twice.
pub open spec fn keys_unique_deep(v: ValueV) -> bool
    decreases v,
{
    match v {
        ValueV::Array(a) => forall|i: int| 0 <= i < a.len() ==> keys_unique_deep(#[trigger] a[i]),
        ValueV::Object(o) => keys_unique(o) && forall|i: int|
            0 <= i < o.len() ==> keys_unique_deep(#[trigger] o[i].1),
        _ => true,
    }
}

/// Whether a map of nodes has no key twice and all its nodes are so too.
pub open spec fn map_ok(m: Seq<(Seq<char>, JsonV)>) -> bool
    decreases m,
{
    keys_unique_nodes(m) && forall|i: int| 0 <= i < m.len() ==> node_ok(#[trigger] m[i].1)
}

/// Whether no key occurs twice in a map of nodes.
pub open spec fn keys_unique_nodes(m: Seq<(Seq<char>, JsonV)>) -> bool {
    forall|i: int, j: int| 0 <= i < j < m.len() ==> m[i].0 != m[j].0
}

/// Whether a node only holds maps without repeated keys and values whose objects have none.
pub open spec fn node_ok(n: JsonV) -> bool
    decreases n,
{
    match n {
        JsonV::Keyed(m) => keys_unique_nodes(m) && forall|i: int|
            0 <= i < m.len() ==> node_ok(#[trigger] m[i].1),
        JsonV::Bodies(vs) => forall|i: int| 0 <= i < vs.len() ==> keys_unique_deep(#[trigger] vs[i]),
        JsonV::Leaf(v) => keys_unique_deep(v),
    }
}

proof fn lemma_insert_value(s: Seq<(Seq<char>, ValueV)>, key: Seq<char>, v: ValueV)
    requires
        keys_unique(s),
        forall|i: int| 0 <= i < s.len() ==> keys_unique_deep(#[trigger] s[i].1),
        keys_unique_deep(v),
    ensures
        keys_unique(insert_entry(s, key, v)),
        forall|i: int|
            0 <= i < insert_entry(s, key, v).len() ==> keys_unique_deep(
                #[trigger] insert_entry(s, key, v)[i].1,
            ),
        insert_entry(s, key, v).len() >= s.len(),
{
    lemma_find_key(s, key, 0);
}

proof fn lemma_expr_value(e: ExprV)
    ensures
        keys_unique_deep(expr_value(e)),
    decreases e, 1nat,
{
    match e {
        ExprV::Array(a) => {
            lemma_values_of(a);
        },
        ExprV::Object(o) => {
            lemma_object_entries(o);
        },
        ExprV::Parenthesis(inner) => {
            lemma_expr_value(*inner);
        },
        _ => {},
    }
}

proof fn lemma_values_of(a: Seq<ExprV>)
    ensures
        values_of(a).len() == a.len(),
        forall|i: int| 0 <= i < a.len() ==> keys_unique_deep(#[trigger] values_of(a)[i]),
    decreases a, 0nat,
{
    if a.len() > 0 {
        lemma_values_of(a.drop_last());
        lemma_expr_value(a.last());
        assert forall|i: int| 0 <= i < a.len() implies keys_unique_deep(#[trigger] values_of(a)[i]) by {
            if i < a.len() - 1 {
                assert(values_of(a)[i] == values_of(a.drop_last())[i]);
            }
        }
    }
}

proof fn lemma_object_entries(o: Seq<(KeyV, ExprV)>)
    ensures
        keys_unique(object_entries(o)),
        forall|i: int|
            0 <= i < object_entries(o).len() ==> keys_unique_deep(#[trigger] object_entries(o)[i].1),
    decreases o, 0nat,
{
    if o.len() > 0 {
        lemma_object_entries(o.drop_last());
        lemma_expr_value(o.last().1);
        lemma_insert_value(object_entries(o.drop_last()), crate::convert::key_text(o.last().0), expr_value(o.last().1));
    }
}

proof fn lemma_insert_node(m: Seq<(Seq<char>, JsonV)>, key: Seq<char>, n: JsonV)
    requires
        map_ok(m),
        node_ok(n),
    ensures
        map_ok(insert_entry(m, key, n)),
{
    lemma_find_key(m, key, 0);
}

proof fn lemma_deep_merge(l: JsonV, r: JsonV)
    requires
        node_ok(l),
        node_ok(r),
    ensures
        node_ok(deep_merge(l, r)),
    decreases r, 0nat,
{
    match (l, r) {
        (JsonV::Keyed(lm), JsonV::Keyed(rm)) => {
            assert(map_ok(lm));
            assert(map_ok(rm));
            lemma_merge_all(lm, rm);
        },
        (JsonV::Bodies(a), JsonV::Bodies(b)) => {
            assert forall|i: int| 0 <= i < (a + b).len() implies keys_unique_deep(#[trigger] (a + b)[i]) by {
                if i >= a.len() {
                    assert((a + b)[i] == b[i - a.len()]);
                }
            }
        },
        _ => {},
    }
}

proof fn lemma_merge_into(m: Seq<(Seq<char>, JsonV)>, key: Seq<char>, n: JsonV)
    requires
        map_ok(m),
        node_ok(n),
    ensures
        map_ok(merge_into(m, key, n)),
    decreases n, 1nat,
{
    lemma_find_key(m, key, 0);
    if let Some(i) = find_key(m, key, 0) {
        lemma_deep_merge(m[i].1, n);
    }
}

proof fn lemma_merge_all(lm: Seq<(Seq<char>, JsonV)>, rm: Seq<(Seq<char>, JsonV)>)
    requires
        map_ok(lm),
        map_ok(rm),
    ensures
        map_ok(merge_all(lm, rm)),
    decreases rm, 2nat,
{
    if rm.len() > 0 {
        assert(map_ok(rm.drop_last())) by {
            assert forall|i: int, j: int| 0 <= i < j < rm.drop_last().len() implies rm.drop_last()[i].0 != rm.drop_last()[j].0 by {
                assert(rm.drop_last()[i] == rm[i] && rm.drop_last()[j] == rm[j]);
            }
            assert forall|i: int| 0 <= i < rm.drop_last().len() implies node_ok(#[trigger] rm.drop_last()[i].1) by {
                assert(rm.drop_last()[i] == rm[i]);
            }
        }
        lemma_merge_all(lm, rm.drop_last());
        assert(node_ok(rm[rm.len() - 1].1));
        lemma_merge_into(merge_all(lm, rm.drop_last()), rm.last().0, rm.last().1);
    }
}

proof fn lemma_block_node(ls: Seq<LabelV>, v: ValueV)
    requires
        keys_unique_deep(v),
    ensures
        node_ok(block_node(ls, v)),
    decreases ls.len(),
{
    if ls.len() > 0 {
        lemma_block_node(ls.drop_first(), v);
        let m = seq![(crate::convert::label_text(ls[0]), block_node(ls.drop_first(), v))];
        assert(node_ok(m[0].1));
    }
}

proof fn lemma_body_nodes(b: Seq<StructureV>)
    ensures
        map_ok(body_nodes(b)),
    decreases b, 0nat,
{
    if b.len() > 0 {
        lemma_body_nodes(b.drop_last());
        match b.last() {
            StructureV::Attribute(k, e) => {
                lemma_expr_value(e);
                lemma_insert_node(body_nodes(b.drop_last()), k, JsonV::Leaf(expr_value(e)));
            },
            StructureV::Block(id, ls, bd) => {
                lemma_body_value(bd);
                lemma_block_node(ls, body_value(bd));
                lemma_merge_into(body_nodes(b.drop_last()), id, block_node(ls, body_value(bd)));
            },
        }
    }
}

proof fn lemma_nodes_value(m: Seq<(Seq<char>, JsonV)>)
    requires
        map_ok(m),
    ensures
        nodes_value(m).len() == m.len(),
        forall|i: int| 0 <= i < m.len() ==> (#[trigger] nodes_value(m)[i]).0 == m[i].0,
        forall|i: int| 0 <= i < m.len() ==> keys_unique_deep(#[trigger] nodes_value(m)[i].1),
    decreases m, 0nat,
{
    if m.len() > 0 {
        assert(map_ok(m.drop_last())) by {
            assert forall|i: int, j: int| 0 <= i < j < m.drop_last().len() implies m.drop_last()[i].0 != m.drop_last()[j].0 by {
                assert(m.drop_last()[i] == m[i] && m.drop_last()[j] == m[j]);
            }
            assert forall|i: int| 0 <= i < m.drop_last().len() implies node_ok(#[trigger] m.drop_last()[i].1) by {
                assert(m.drop_last()[i] == m[i]);
            }
        }
        lemma_nodes_value(m.drop_last());
        assert(node_ok(m[m.len() - 1].1));
        lemma_node_value(m.last().1);
        assert forall|i: int| 0 <= i < m.len() implies (#[trigger] nodes_value(m)[i]).0 == m[i].0 && keys_unique_deep(nodes_value(m)[i].1) by {
            if i < m.len() - 1 {
                assert(nodes_value(m)[i] == nodes_value(m.drop_last())[i]);
                assert(m.drop_last()[i] == m[i]);
            }
        }
    }
}

proof fn lemma_node_value(n: JsonV)
    requires
        node_ok(n),
    ensures
        keys_unique_deep(node_value(n)),
    decreases n, 1nat,
{
    match n {
        JsonV::Keyed(m) => {
            assert(map_ok(m));
            lemma_nodes_value(m);
            let nv = nodes_value(m);
            assert forall|i: int, j: int| 0 <= i < j < nv.len() implies nv[i].0 != nv[j].0 by {
                assert(nv[i].0 == m[i].0 && nv[j].0 == m[j].0);
            }
        },
        JsonV::Bodies(vs) => {
            if vs.len() == 1 {
                assert(keys_unique_deep(vs[0]));
            }
        },
        JsonV::Leaf(v) => {},
    }
}

proof fn lemma_body_value(b: Seq<StructureV>)
    ensures
        keys_unique_deep(body_value(b)),
    decreases b, 1nat,
{
    lemma_body_nodes(b);
    let m = body_nodes(b);
    lemma_nodes_value(m);
    let nv = nodes_value(m);
    assert forall|i: int, j: int| 0 <= i < j < nv.len() implies nv[i].0 != nv[j].0 by {
        assert(nv[i].0 == m[i].0 && nv[j].0 == m[j].0);
    }
}

/// The value of any HCL body has no object, at any depth, with a key twice: an attribute set
/// twice keeps one entry, and blocks under one identifier are merged into one entry.
pub proof fn body_value_keys_unique(b: Seq<StructureV>)
    ensures
        keys_unique_deep(body_value(b)),
{
    lemma_body_value(b);
}

/// The value of any expression has no object, at any depth, with a key twice.
pub proof fn expr_value_keys_unique(e: ExprV)
    ensures
        keys_unique_deep(expr_value(e)),
{
    lemma_expr_value(e);
}

/// No two binary operators share a text, so parsing the text of an operator gives back that
/// operator.
pub proof fn binary_operator_text_roundtrip(a: BinaryOperator, b: BinaryOperator)
    ensures
        binary_op_text(a) == binary_op_text(b) ==> a == b,
{
    if binary_op_text(a) == binary_op_text(b) {
        let t = binary_op_text(a);
        assert(t.len() == binary_op_text(b).len());
        assert(t[0] == binary_op_text(b)[0]);
        if t.len() == 2 {
            assert(t[1] == binary_op_text(b)[1]);
        }
    }
}

/// No two unary operators share a text, so parsing the text of an operator gives back that
/// operator.
pub proof fn unary_operator_text_roundtrip(a: UnaryOperator, b: UnaryOperator)
    ensures
        unary_op_text(a) == unary_op_text(b) ==> a == b,
{
    if unary_op_text(a) == unary_op_text(b) {
        assert(unary_op_text(a)[0] == unary_op_text(b)[0]);
    }
}

/// The text before a heredoc's delimiter names its strip mode, so parsing the text of a strip
/// mode gives back that mode.
pub proof fn heredoc_strip_mode_text_roundtrip(m: HeredocStripMode)
    ensures
        strip_mode_named(heredoc_intro_text(m)) == Some(m),
{
    let t = heredoc_intro_text(m);
    assert(t != seq!['N', 'o', 'n', 'e'] && t != seq!['n', 'o', 'n', 'e']) by {
        assert(t[0] == '<');
    }
    assert(t != seq!['I', 'n', 'd', 'e', 'n', 't'] && t != seq!['i', 'n', 'd', 'e', 'n', 't']) by {
        assert(t[0] == '<');
    }
    if m == HeredocStripMode::Indent {
        assert(t.len() == 3);
        assert(t != seq!['<', '<']);
    }
}

/// The escaped text of a string is the escaped first character followed by the escaped rest.
pub(crate) proof fn lemma_escape_front(s: Seq<char>)
    requires
        s.len() > 0,
    ensures
        escape_seq(s) == escape_char(s[0]) + escape_seq(s.drop_first()),
    decreases s.len(),
{
    if s.len() == 1 {
        assert(escape_seq(s.drop_last()) == Seq::<char>::empty());
        assert(escape_seq(s.drop_first()) == Seq::<char>::empty());
        assert(escape_seq(s) =~= escape_char(s[0]) + escape_seq(s.drop_first()));
    } else {
        lemma_escape_front(s.drop_last());
        assert(s.drop_last().drop_first() =~= s.drop_first().drop_last());
        assert(s.drop_first().last() == s.last());
        assert(s.drop_last()[0] == s[0]);
        assert(escape_seq(s) =~= escape_char(s[0]) + escape_seq(s.drop_first()));
    }
}

/// Unescaping reads one escaped character back and goes on after it.
proof fn lemma_unescape_char(c: char, rest: Seq<char>)
    ensures
        unescape_seq(escape_char(c) + rest) == prepend_ok(seq![c], unescape_seq(rest)),
{
    let e = escape_char(c);
    let t = e + rest;
    assert(t.len() > 0 && t[0] == e[0]);
    if e.len() == 1 {
        assert(e == seq![c]);
        assert(c != '\\');
        assert(t.drop_first() =~= rest);
    } else if e.len() == 2 {
        assert(t[1] == e[1]);
        assert(t.skip(2) =~= rest);
        assert(simple_escape(e[1]) == Some(c));
    } else {
        assert(needs_unicode_escape(c));
        let n = c as u32;
        let hi = n / 16;
        let lo = n % 16;
        lemma_hex_digit_value(0);
        lemma_hex_digit_value(hi);
        lemma_hex_digit_value(lo);
        assert(t[1] == 'u');
        assert(simple_escape('u') is None);
        let d = t.subrange(2, 6);
        assert(d =~= seq!['0', '0', upper_hex_digit(hi), upper_hex_digit(lo)]);
        assert(hex4_value(d) == Some(((hi * 16 + lo) as u32)));
        assert(hi * 16 + lo == n);
        assert(is_scalar_value(n));
        assert((n as char) == c);
        assert(t.skip(6) =~= rest);
    }
}

/// Unescaping the escaped text of a string gives back that string.
pub proof fn unescape_undoes_escape(s: Seq<char>)
    ensures
        unescape_seq(escape_seq(s)) == Ok::<Seq<char>, crate::util::UnescapeFailure>(s),
    decreases s.len(),
{
    if s.len() == 0 {
        assert(escape_seq(s) == Seq::<char>::empty());
        assert(s =~= Seq::<char>::empty());
    } else {
        lemma_escape_front(s);
        unescape_undoes_escape(s.drop_first());
        lemma_unescape_char(s[0], escape_seq(s.drop_first()));
        assert(seq![s[0]] + s.drop_first() =~= s);
        assert(unescape_seq(escape_seq(s)) == prepend_ok(seq![s[0]], unescape_seq(
            escape_seq(s.drop_first()),
        )));
    }
}

/// An object whose key is a string gets, in its value, that string's characters as the key,
/// without quotes; and one whose key is an identifier gets the identifier.
pub proof fn string_key_value(k: Seq<char>, v: ExprV)
    ensures
        expr_value(ExprV::Object(seq![(KeyV::Expr(ExprV::String(k)), v)])) == ValueV::Object(
            seq![(k, expr_value(v))],
        ),
        expr_value(ExprV::Object(seq![(KeyV::Ident(k), v)])) == ValueV::Object(
            seq![(k, expr_value(v))],
        ),
{
    let o1 = seq![(KeyV::Expr(ExprV::String(k)), v)];
    let o2 = seq![(KeyV::Ident(k), v)];
    assert(o1.drop_last() =~= Seq::<(KeyV, ExprV)>::empty());
    assert(o2.drop_last() =~= Seq::<(KeyV, ExprV)>::empty());
    assert(object_entries(o1.drop_last()) == Seq::<(Seq<char>, ValueV)>::empty());
    assert(find_key(Seq::<(Seq<char>, ValueV)>::empty(), k, 0) is None);
    assert(object_entries(o1) =~= seq![(k, expr_value(v))]);
    assert(object_entries(o2) =~= seq![(k, expr_value(v))]);
}

/// Converting the document `x = { "k" = v }` gives an object whose entry `x` is an object with
/// the single entry `k`, unquoted, holding the value of `v`.
pub proof fn string_key_document_value(x: Seq<char>, k: Seq<char>, v: ExprV)
    ensures
        body_value(
            seq![StructureV::Attribute(x, ExprV::Object(seq![(KeyV::Expr(ExprV::String(k)), v)]))],
        ) == ValueV::Object(seq![(x, ValueV::Object(seq![(k, expr_value(v))]))]),
{
    let e = ExprV::Object(seq![(KeyV::Expr(ExprV::String(k)), v)]);
    let b = seq![StructureV::Attribute(x, e)];
    string_key_value(k, v);
    assert(b.drop_last() =~= Seq::<StructureV>::empty());
    assert(body_nodes(b.drop_last()) == Seq::<(Seq<char>, JsonV)>::empty());
    assert(find_key(Seq::<(Seq<char>, JsonV)>::empty(), x, 0) is None);
    let m = seq![(x, JsonV::Leaf(expr_value(e)))];
    assert(body_nodes(b) =~= m);
    assert(m.drop_last() =~= Seq::<(Seq<char>, JsonV)>::empty());
    assert(nodes_value(m.drop_last()) == Seq::<(Seq<char>, ValueV)>::empty());
    assert(m.last() == (x, JsonV::Leaf(expr_value(e))));
    assert(node_value(JsonV::Leaf(expr_value(e))) == expr_value(e));
    assert(nodes_value(m) == nodes_value(m.drop_last()).push((x, expr_value(e))));
    assert(nodes_value(m) =~= seq![(x, expr_value(e))]);
}

} // verus!
