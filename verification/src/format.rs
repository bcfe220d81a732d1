//! Formatting HCL structures and expressions as HCL text.
use vstd::prelude::*;
use crate::expr::{
    Expression, ForExpr, ForV, ObjectKey, Operation, for_view, TemplateExpr, TraversalOperator, exprs_view, expr_view,
    key_view, lemma_exprs_view, lemma_ops_view, lemma_pairs_view, op_view, ops_view, pairs_view,
    ExprV, HeredocStripMode, KeyV, TemplateV, TraversalOpV, binary_op_text, heredoc_intro_text,
    unary_op_text,
};
use crate::number::{NumberV, decimal_digits};
use crate::structure::{
    Body, BlockLabel, LabelV, Structure, StructureV, label_view, labels_view, structure_view,
    structures_view,
};
use crate::util::escape_char;

verus! {

// ---------------------------------------------------------------------------------------------
// Quoted strings
// ---------------------------------------------------------------------------------------------

/// How the character `c` of a string is written when it is followed by `next`: template start
/// markers are doubled (`${` becomes `$${`, `%{` becomes `%%{`), everything else is escaped
/// with [`escape_char`].
pub open spec fn encode_char(c: char, next: Option<char>) -> Seq<char> {
    if (c == '$' || c == '%') && next == Some('{') {
        seq![c, c]
    } else {
        escape_char(c)
    }
}

/// The text of a string literal between its quotes.
pub open spec fn encode_str(s: Seq<char>) -> Seq<char>
    decreases s.len(),
{
    if s.len() == 0 {
        seq![]
    } else {
        encode_char(
            s[0],
            if s.len() > 1 {
                Some(s[1])
            } else {
                None
            },
        ) + encode_str(s.drop_first())
    }
}

/// A string literal: the encoded string between double quotes.
pub open spec fn quoted(s: Seq<char>) -> Seq<char> {
    seq!['"'] + encode_str(s) + seq!['"']
}

// ---------------------------------------------------------------------------------------------
// Expressions
// ---------------------------------------------------------------------------------------------

/// The text of a number.
pub open spec fn fmt_number(n: NumberV) -> Seq<char> {
    match n {
        NumberV::PosInt(v) => decimal_digits(v as nat),
        NumberV::NegInt(v) => if v < 0 {
            seq!['-'] + decimal_digits((-(v as int)) as nat)
        } else {
            decimal_digits(v as nat)
        },
        NumberV::Float(t) => t,
    }
}

/// The text of a traversal operator.
pub open spec fn fmt_op(o: TraversalOpV, pre: Seq<char>, ind: Seq<char>, compact: bool) -> Seq<char>
    decreases o, 1nat,
{
    match o {
        TraversalOpV::AttrSplat => seq!['.', '*'],
        TraversalOpV::FullSplat => seq!['[', '*', ']'],
        TraversalOpV::GetAttr(s) => seq!['.'] + s,
        TraversalOpV::Index(e) => seq!['['] + fmt_expr(e, pre, ind, compact) + seq![']'],
        TraversalOpV::LegacyIndex(n) => seq!['.'] + decimal_digits(n as nat),
    }
}

/// The text of a sequence of traversal operators.
pub open spec fn fmt_ops(os: Seq<TraversalOpV>, pre: Seq<char>, ind: Seq<char>, compact: bool) -> Seq<
    char,
>
    decreases os, 1nat,
{
    if os.len() == 0 {
        seq![]
    } else {
        fmt_ops(os.drop_last(), pre, ind, compact) + fmt_op(os.last(), pre, ind, compact)
    }
}

/// Expressions separated by `, `.
pub open spec fn fmt_joined(es: Seq<ExprV>, pre: Seq<char>, ind: Seq<char>) -> Seq<char>
    decreases es, 1nat,
{
    if es.len() == 0 {
        seq![]
    } else if es.len() == 1 {
        fmt_expr(es[0], pre, ind, true)
    } else {
        fmt_joined(es.drop_last(), pre, ind) + seq![',', ' '] + fmt_expr(es.last(), pre, ind, true)
    }
}

/// Array elements on lines of their own, each followed by a comma.
pub open spec fn fmt_elements_comma(es: Seq<ExprV>, pre: Seq<char>, ind: Seq<char>) -> Seq<char>
    decreases es, 1nat,
{
    if es.len() == 0 {
        seq![]
    } else {
        fmt_elements_comma(es.drop_last(), pre, ind) + pre + ind + fmt_expr(
            es.last(),
            pre + ind,
            ind,
            false,
        ) + seq![',', '\n']
    }
}

/// The lines of a non-empty multi-line array: all elements but the last followed by a comma.
pub open spec fn fmt_elements(es: Seq<ExprV>, pre: Seq<char>, ind: Seq<char>) -> Seq<char>
    decreases es, 1nat,
{
    if es.len() == 0 {
        seq![]
    } else {
        fmt_elements_comma(es.drop_last(), pre, ind) + pre + ind + fmt_expr(
            es.last(),
            pre + ind,
            ind,
            false,
        ) + seq!['\n']
    }
}

/// The text of an object key.
pub open spec fn fmt_key(k: KeyV, pre: Seq<char>, ind: Seq<char>, compact: bool) -> Seq<char>
    decreases k, 1nat,
{
    match k {
        KeyV::Ident(s) => s,
        KeyV::Expr(e) => fmt_expr(e, pre, ind, compact),
    }
}

/// Object items separated by `, `.
pub open spec fn fmt_items_joined(ps: Seq<(KeyV, ExprV)>, pre: Seq<char>, ind: Seq<char>) -> Seq<
    char,
>
    decreases ps, 1nat,
{
    if ps.len() == 0 {
        seq![]
    } else if ps.len() == 1 {
        fmt_key(ps[0].0, pre, ind, true) + seq![' ', '=', ' '] + fmt_expr(ps[0].1, pre, ind, true)
    } else {
        fmt_items_joined(ps.drop_last(), pre, ind) + seq![',', ' '] + fmt_key(
            ps.last().0,
            pre,
            ind,
            true,
        ) + seq![' ', '=', ' '] + fmt_expr(ps.last().1, pre, ind, true)
    }
}

/// Object items on lines of their own.
pub open spec fn fmt_items(ps: Seq<(KeyV, ExprV)>, pre: Seq<char>, ind: Seq<char>) -> Seq<char>
    decreases ps, 1nat,
{
    if ps.len() == 0 {
        seq![]
    } else {
        fmt_items(ps.drop_last(), pre, ind) + pre + ind + fmt_key(
            ps.last().0,
            pre + ind,
            ind,
            false,
        ) + seq![' ', '=', ' '] + fmt_expr(ps.last().1, pre + ind, ind, false) + seq!['\n']
    }
}

/// The text of a heredoc: the introducer, the delimiter, the template and the closing
/// delimiter (indented for `<<-`).
pub open spec fn fmt_heredoc(
    delim: Seq<char>,
    template: Seq<char>,
    mode: HeredocStripMode,
    pre: Seq<char>,
) -> Seq<char> {
    heredoc_intro_text(mode) + delim + seq!['\n'] + template + (if template.len() > 0
        && template.last() != '\n' {
        seq!['\n']
    } else {
        seq![]
    }) + (if mode == HeredocStripMode::Indent {
        pre
    } else {
        seq![]
    }) + delim
}

/// The text of an array.
pub open spec fn fmt_array(es: Seq<ExprV>, pre: Seq<char>, ind: Seq<char>, compact: bool) -> Seq<
    char,
>
    decreases es, 2nat,
{
    if es.len() == 0 {
        seq!['[', ']']
    } else if compact {
        seq!['['] + fmt_joined(es, pre, ind) + seq![']']
    } else {
        seq!['[', '\n'] + fmt_elements(es, pre, ind) + pre + seq![']']
    }
}

/// The text of an object.
pub open spec fn fmt_object(
    ps: Seq<(KeyV, ExprV)>,
    pre: Seq<char>,
    ind: Seq<char>,
    compact: bool,
) -> Seq<char>
    decreases ps, 2nat,
{
    if ps.len() == 0 {
        seq!['{', '}']
    } else if compact {
        seq!['{'] + fmt_items_joined(ps, pre, ind) + seq!['}']
    } else {
        seq!['{', '\n'] + fmt_items(ps, pre, ind) + pre + seq!['}']
    }
}

/// The text of a template expression.
pub open spec fn fmt_template(t: TemplateV, pre: Seq<char>) -> Seq<char> {
    match t {
        TemplateV::Quoted(s) => seq!['"'] + crate::util::escape_seq(s) + seq!['"'],
        TemplateV::Heredoc(delim, template, mode) => fmt_heredoc(delim, template, mode, pre),
    }
}

/// The text of a for expression; the expressions in it are written in compact mode.
pub open spec fn fmt_for(f: ForV, pre: Seq<char>, ind: Seq<char>) -> Seq<char>
    decreases f, 1nat,
{
    let intro = seq!['f', 'o', 'r', ' '] + (match f.key_var {
        Some(k) => k + seq![',', ' '],
        None => seq![],
    }) + f.value_var + seq![' ', 'i', 'n', ' '] + fmt_expr(*f.collection, pre, ind, true) + seq![
        ' ',
        ':',
        ' ',
    ];
    let cond = match f.cond {
        Some(c) => seq![' ', 'i', 'f', ' '] + fmt_expr(*c, pre, ind, true),
        None => seq![],
    };
    match f.key_expr {
        Some(k) => seq!['{'] + intro + fmt_expr(*k, pre, ind, true) + seq![' ', '=', '>', ' ']
            + fmt_expr(*f.value_expr, pre, ind, true) + (if f.grouping {
            seq!['.', '.', '.']
        } else {
            seq![]
        }) + cond + seq!['}'],
        None => seq!['['] + intro + fmt_expr(*f.value_expr, pre, ind, true) + cond + seq![']'],
    }
}

/// The text of an expression. `pre` is the indentation of the line that the expression starts
/// on, `ind` one level of indentation; in compact mode arrays and objects are written on one
/// line.
pub open spec fn fmt_expr(e: ExprV, pre: Seq<char>, ind: Seq<char>, compact: bool) -> Seq<char>
    decreases e, 3nat,
{
    match e {
        ExprV::Null => seq!['n', 'u', 'l', 'l'],
        ExprV::Bool(b) => if b {
            seq!['t', 'r', 'u', 'e']
        } else {
            seq!['f', 'a', 'l', 's', 'e']
        },
        ExprV::Number(n) => fmt_number(n),
        ExprV::String(s) => quoted(s),
        ExprV::Array(es) => fmt_array(es, pre, ind, compact),
        ExprV::Object(ps) => fmt_object(ps, pre, ind, compact),
        ExprV::Template(t) => fmt_template(t, pre),
        ExprV::Variable(s) => s,
        ExprV::Traversal(inner, ops) => fmt_expr(*inner, pre, ind, compact) + fmt_ops(
            ops,
            pre,
            ind,
            compact,
        ),
        ExprV::FuncCall(name, args, expand) => name + seq!['('] + fmt_joined(args, pre, ind) + (
        if expand {
            seq!['.', '.', '.']
        } else {
            seq![]
        }) + seq![')'],
        ExprV::Parenthesis(inner) => seq!['('] + fmt_expr(*inner, pre, ind, compact) + seq![')'],
        ExprV::Conditional(c, t, f) => fmt_expr(*c, pre, ind, compact) + seq![' ', '?', ' ']
            + fmt_expr(*t, pre, ind, compact) + seq![' ', ':', ' '] + fmt_expr(
            *f,
            pre,
            ind,
            compact,
        ),
        ExprV::Unary(op, inner) => unary_op_text(op) + fmt_expr(*inner, pre, ind, compact),
        ExprV::Binary(l, op, r) => fmt_expr(*l, pre, ind, compact) + seq![' '] + binary_op_text(op)
            + seq![' '] + fmt_expr(*r, pre, ind, compact),
        ExprV::For(f) => fmt_for(f, pre, ind),
        ExprV::Raw(s) => s,
    }
}

// ---------------------------------------------------------------------------------------------
// Structures
// ---------------------------------------------------------------------------------------------

/// The text of a block label.
pub open spec fn fmt_label(l: LabelV) -> Seq<char> {
    match l {
        LabelV::Ident(s) => s,
        LabelV::Str(s) => quoted(s),
    }
}

/// The labels of a block, each preceded by a space.
pub open spec fn fmt_labels(ls: Seq<LabelV>) -> Seq<char>
    decreases ls.len(),
{
    if ls.len() == 0 {
        seq![]
    } else {
        fmt_labels(ls.drop_last()) + seq![' '] + fmt_label(ls.last())
    }
}

/// Whether an empty line separates two adjacent structures: in non-dense mode, around blocks.
pub open spec fn separated(prev: StructureV, next: StructureV, dense: bool) -> bool {
    !dense && (prev is Block || next is Block)
}

/// The text of a structure at indentation `pre`.
pub open spec fn fmt_structure(s: StructureV, pre: Seq<char>, ind: Seq<char>, dense: bool) -> Seq<
    char,
>
    decreases s,
{
    match s {
        StructureV::Attribute(key, e) => pre + key + seq![' ', '=', ' '] + fmt_expr(
            e,
            pre,
            ind,
            false,
        ) + seq!['\n'],
        StructureV::Block(id, labels, body) => pre + id + fmt_labels(labels) + seq![' ', '{'] + (
        if body.len() == 0 {
            seq!['}']
        } else {
            seq!['\n'] + fmt_body(body, pre + ind, ind, dense) + pre + seq!['}']
        }) + seq!['\n'],
    }
}

/// The text of a body at indentation `pre`.
pub open spec fn fmt_body(ss: Seq<StructureV>, pre: Seq<char>, ind: Seq<char>, dense: bool) -> Seq<
    char,
>
    decreases ss,
{
    if ss.len() == 0 {
        seq![]
    } else {
        fmt_body(ss.drop_last(), pre, ind, dense) + (if ss.len() > 1 && separated(
            ss[ss.len() - 2],
            ss.last(),
            dense,
        ) {
            seq!['\n']
        } else {
            seq![]
        }) + fmt_structure(ss.last(), pre, ind, dense)
    }
}

} // verus!

verus! {

// ---------------------------------------------------------------------------------------------
// Writing
// ---------------------------------------------------------------------------------------------

/// Appends a string literal (quotes included) for the characters `s`.
pub fn write_quoted(out: &mut Vec<char>, s: &[char])
    ensures
        final(out)@ == old(out)@ + quoted(s@),
{
    let ghost o = out@;
    out.push('"');
    let mut i: usize = 0;
    assert(s@.skip(0) =~= s@);
    while i < s.len()
        invariant
            i <= s@.len(),
            o + seq!['"'] + encode_str(s@) == out@ + encode_str(s@.skip(i as int)),
        decreases s@.len() - i,
    {
        let ghost rest = s@.skip(i as int);
        let ghost before = out@;
        assert(rest[0] == s@[i as int]);
        assert(rest.drop_first() =~= s@.skip(i + 1));
        let c = s[i];
        let next_brace = i + 1 < s.len() && s[i + 1] == '{';
        if i + 1 < s.len() {
            assert(rest[1] == s@[i + 1]);
        }
        if (c == '$' || c == '%') && next_brace {
            out.push(c);
            out.push(c);
            assert(out@ =~= before + seq![c, c]);
        } else {
            crate::util::push_escaped_char(out, c);
        }
        assert(encode_str(rest) == encode_char(
            c,
            if rest.len() > 1 {
                Some(rest[1])
            } else {
                None
            },
        ) + encode_str(rest.drop_first()));
        assert(before + encode_str(rest) =~= out@ + encode_str(s@.skip(i + 1)));
        i += 1;
    }
    assert(s@.skip(s@.len() as int) =~= seq![]);
    out.push('"');
    assert(o + quoted(s@) =~= out@);
}

/// Appends the text of a number.
pub fn write_number(out: &mut Vec<char>, n: &crate::number::Number)
    ensures
        final(out)@ == old(out)@ + fmt_number(n@),
{
    match n {
        crate::number::Number::PosInt(v) => crate::number::push_decimal(out, *v),
        crate::number::Number::NegInt(v) => if *v >= 0 {
            crate::number::push_decimal(out, *v as u64);
        } else {
            let ghost o = out@;
            out.push('-');
            let m: u64 = if *v == i64::MIN {
                0x8000_0000_0000_0000
            } else {
                (-*v) as u64
            };
            crate::number::push_decimal(out, m);
            assert(out@ =~= o + fmt_number(n@));
        },
        crate::number::Number::Float(t) => crate::text::push_str_chars(out, t.as_str()),
    }
}

} // verus!

verus! {

/// Appends expressions separated by `, `.
fn write_joined(out: &mut Vec<char>, es: &Vec<Expression>, pre: &Vec<char>, ind: &Vec<char>)
    ensures
        final(out)@ == old(out)@ + fmt_joined(exprs_view(es@), pre@, ind@),
    decreases es, 1nat,
{
    let ghost o = out@;
    let mut i: usize = 0;
    assert(es@.take(0) =~= seq![]);
    assert(o + seq![] =~= o);
    while i < es.len()
        invariant
            i <= es@.len(),
            out@ == o + fmt_joined(exprs_view(es@.take(i as int)), pre@, ind@),
        decreases es@.len() - i,
    {
        let ghost prev = exprs_view(es@.take(i as int));
        let ghost before = out@;
        proof {
            lemma_exprs_view(es@.take(i as int));
            assert(es@.take(i + 1).drop_last() =~= es@.take(i as int));
            assert(exprs_view(es@.take(i + 1)) == prev.push(es@[i as int]@));
            assert(prev.push(es@[i as int]@).drop_last() =~= prev);
        }
        if i > 0 {
            out.push(',');
            out.push(' ');
        }
        write_expr(out, &es[i], pre, ind, true);
        proof {
            let cur = prev.push(es@[i as int]@);
            if i == 0 {
                assert(cur[0] == es@[0]@);
                assert(out@ =~= o + fmt_joined(cur, pre@, ind@));
            } else {
                assert(out@ =~= o + fmt_joined(cur, pre@, ind@));
            }
        }
        i += 1;
    }
    assert(es@.take(es@.len() as int) =~= es@);
}

/// Appends the lines of a multi-line array.
fn write_elements(out: &mut Vec<char>, es: &Vec<Expression>, pre: &Vec<char>, ind: &Vec<char>)
    requires
        es@.len() > 0,
    ensures
        final(out)@ == old(out)@ + fmt_elements(exprs_view(es@), pre@, ind@),
    decreases es, 1nat,
{
    let ghost o = out@;
    let inner = crate::text::concat(pre, ind);
    let mut i: usize = 0;
    let n = es.len();
    assert(es@.take(0) =~= seq![]);
    assert(o + seq![] =~= o);
    while i + 1 < n
        invariant
            n == es@.len(),
            n > 0,
            i < n,
            inner@ == pre@ + ind@,
            out@ == o + fmt_elements_comma(exprs_view(es@.take(i as int)), pre@, ind@),
        decreases n - i,
    {
        let ghost prev = exprs_view(es@.take(i as int));
        proof {
            lemma_exprs_view(es@.take(i as int));
            assert(es@.take(i + 1).drop_last() =~= es@.take(i as int));
            assert(exprs_view(es@.take(i + 1)) == prev.push(es@[i as int]@));
            assert(prev.push(es@[i as int]@).drop_last() =~= prev);
        }
        crate::text::push_chars(out, inner.as_slice());
        write_expr(out, &es[i], &inner, ind, false);
        out.push(',');
        out.push('\n');
        proof {
            let cur = prev.push(es@[i as int]@);
            assert(out@ =~= o + fmt_elements_comma(cur, pre@, ind@));
        }
        i += 1;
    }
    let ghost prev = exprs_view(es@.take(i as int));
    proof {
        lemma_exprs_view(es@);
        lemma_exprs_view(es@.take(i as int));
        assert(es@.drop_last() =~= es@.take(i as int));
        assert(exprs_view(es@).drop_last() =~= prev);
    }
    crate::text::push_chars(out, inner.as_slice());
    write_expr(out, &es[i], &inner, ind, false);
    out.push('\n');
    assert(out@ =~= o + fmt_elements(exprs_view(es@), pre@, ind@));
}

/// Appends an object key.
fn write_key(out: &mut Vec<char>, k: &ObjectKey, pre: &Vec<char>, ind: &Vec<char>, compact: bool)
    ensures
        final(out)@ == old(out)@ + fmt_key(k@, pre@, ind@, compact),
    decreases k, 1nat,
{
    match k {
        ObjectKey::Identifier(i) => crate::text::push_str_chars(out, i.as_str()),
        ObjectKey::Expression(e) => write_expr(out, e, pre, ind, compact),
    }
}

/// Appends object items separated by `, `.
fn write_items_joined(
    out: &mut Vec<char>,
    ps: &Vec<(ObjectKey, Expression)>,
    pre: &Vec<char>,
    ind: &Vec<char>,
)
    ensures
        final(out)@ == old(out)@ + fmt_items_joined(pairs_view(ps@), pre@, ind@),
    decreases ps, 1nat,
{
    let ghost o = out@;
    let mut i: usize = 0;
    assert(ps@.take(0) =~= seq![]);
    assert(o + seq![] =~= o);
    while i < ps.len()
        invariant
            i <= ps@.len(),
            out@ == o + fmt_items_joined(pairs_view(ps@.take(i as int)), pre@, ind@),
        decreases ps@.len() - i,
    {
        let ghost prev = pairs_view(ps@.take(i as int));
        let ghost item = (key_view(ps@[i as int].0), expr_view(ps@[i as int].1));
        proof {
            lemma_pairs_view(ps@.take(i as int));
            assert(ps@.take(i + 1).drop_last() =~= ps@.take(i as int));
            assert(pairs_view(ps@.take(i + 1)) == prev.push(item));
            assert(prev.push(item).drop_last() =~= prev);
        }
        if i > 0 {
            out.push(',');
            out.push(' ');
        }
        let (k, v) = &ps[i];
        write_key(out, k, pre, ind, true);
        out.push(' ');
        out.push('=');
        out.push(' ');
        write_expr(out, v, pre, ind, true);
        proof {
            let cur = prev.push(item);
            if i == 0 {
                assert(cur[0] == item);
            }
            assert(out@ =~= o + fmt_items_joined(cur, pre@, ind@));
        }
        i += 1;
    }
    assert(ps@.take(ps@.len() as int) =~= ps@);
}

/// Appends object items on lines of their own.
fn write_items(
    out: &mut Vec<char>,
    ps: &Vec<(ObjectKey, Expression)>,
    pre: &Vec<char>,
    ind: &Vec<char>,
)
    ensures
        final(out)@ == old(out)@ + fmt_items(pairs_view(ps@), pre@, ind@),
    decreases ps, 1nat,
{
    let ghost o = out@;
    let inner = crate::text::concat(pre, ind);
    let mut i: usize = 0;
    assert(ps@.take(0) =~= seq![]);
    assert(o + seq![] =~= o);
    while i < ps.len()
        invariant
            i <= ps@.len(),
            inner@ == pre@ + ind@,
            out@ == o + fmt_items(pairs_view(ps@.take(i as int)), pre@, ind@),
        decreases ps@.len() - i,
    {
        let ghost prev = pairs_view(ps@.take(i as int));
        let ghost item = (key_view(ps@[i as int].0), expr_view(ps@[i as int].1));
        proof {
            lemma_pairs_view(ps@.take(i as int));
            assert(ps@.take(i + 1).drop_last() =~= ps@.take(i as int));
            assert(pairs_view(ps@.take(i + 1)) == prev.push(item));
            assert(prev.push(item).drop_last() =~= prev);
        }
        let (k, v) = &ps[i];
        crate::text::push_chars(out, inner.as_slice());
        write_key(out, k, &inner, ind, false);
        out.push(' ');
        out.push('=');
        out.push(' ');
        write_expr(out, v, &inner, ind, false);
        out.push('\n');
        proof {
            let cur = prev.push(item);
            assert(out@ =~= o + fmt_items(cur, pre@, ind@));
        }
        i += 1;
    }
    assert(ps@.take(ps@.len() as int) =~= ps@);
}

/// Appends a traversal operator.
fn write_op(
    out: &mut Vec<char>,
    op: &TraversalOperator,
    pre: &Vec<char>,
    ind: &Vec<char>,
    compact: bool,
)
    ensures
        final(out)@ == old(out)@ + fmt_op(op@, pre@, ind@, compact),
    decreases op, 1nat,
{
    let ghost o = out@;
    match op {
        TraversalOperator::AttrSplat => {
            crate::text::push_chars(out, &['.', '*']);
        },
        TraversalOperator::FullSplat => {
            crate::text::push_chars(out, &['[', '*', ']']);
        },
        TraversalOperator::GetAttr(i) => {
            out.push('.');
            crate::text::push_str_chars(out, i.as_str());
            assert(out@ =~= o + fmt_op(op@, pre@, ind@, compact));
        },
        TraversalOperator::Index(e) => {
            out.push('[');
            write_expr(out, e, pre, ind, compact);
            out.push(']');
            assert(out@ =~= o + fmt_op(op@, pre@, ind@, compact));
        },
        TraversalOperator::LegacyIndex(n) => {
            out.push('.');
            crate::number::push_decimal(out, *n);
            assert(out@ =~= o + fmt_op(op@, pre@, ind@, compact));
        },
    }
}

/// Appends traversal operators.
fn write_ops(
    out: &mut Vec<char>,
    os: &Vec<TraversalOperator>,
    pre: &Vec<char>,
    ind: &Vec<char>,
    compact: bool,
)
    ensures
        final(out)@ == old(out)@ + fmt_ops(ops_view(os@), pre@, ind@, compact),
    decreases os, 1nat,
{
    let ghost o = out@;
    let mut i: usize = 0;
    assert(os@.take(0) =~= seq![]);
    assert(o + seq![] =~= o);
    while i < os.len()
        invariant
            i <= os@.len(),
            out@ == o + fmt_ops(ops_view(os@.take(i as int)), pre@, ind@, compact),
        decreases os@.len() - i,
    {
        let ghost prev = ops_view(os@.take(i as int));
        proof {
            lemma_ops_view(os@.take(i as int));
            assert(os@.take(i + 1).drop_last() =~= os@.take(i as int));
            assert(ops_view(os@.take(i + 1)) == prev.push(op_view(os@[i as int])));
            assert(prev.push(op_view(os@[i as int])).drop_last() =~= prev);
        }
        write_op(out, &os[i], pre, ind, compact);
        proof {
            let cur = prev.push(op_view(os@[i as int]));
            assert(out@ =~= o + fmt_ops(cur, pre@, ind@, compact));
        }
        i += 1;
    }
    assert(os@.take(os@.len() as int) =~= os@);
}

/// Appends the text of an array.
fn write_array(out: &mut Vec<char>, es: &Vec<Expression>, pre: &Vec<char>, ind: &Vec<char>, compact: bool)
    ensures
        final(out)@ == old(out)@ + fmt_array(exprs_view(es@), pre@, ind@, compact),
    decreases es, 2nat,
{
    let ghost o = out@;
    proof {
        lemma_exprs_view(es@);
    }
    if es.len() == 0 {
        crate::text::push_chars(out, &['[', ']']);
    } else if compact {
        out.push('[');
        write_joined(out, es, pre, ind);
        out.push(']');
        assert(out@ =~= o + fmt_array(exprs_view(es@), pre@, ind@, compact));
    } else {
        out.push('[');
        out.push('\n');
        write_elements(out, es, pre, ind);
        crate::text::push_chars(out, pre.as_slice());
        out.push(']');
        assert(out@ =~= o + fmt_array(exprs_view(es@), pre@, ind@, compact));
    }
}

/// Appends the text of an object.
fn write_object(
    out: &mut Vec<char>,
    ps: &Vec<(ObjectKey, Expression)>,
    pre: &Vec<char>,
    ind: &Vec<char>,
    compact: bool,
)
    ensures
        final(out)@ == old(out)@ + fmt_object(pairs_view(ps@), pre@, ind@, compact),
    decreases ps, 2nat,
{
    let ghost o = out@;
    proof {
        lemma_pairs_view(ps@);
    }
    if ps.len() == 0 {
        crate::text::push_chars(out, &['{', '}']);
    } else if compact {
        out.push('{');
        write_items_joined(out, ps, pre, ind);
        out.push('}');
        assert(out@ =~= o + fmt_object(pairs_view(ps@), pre@, ind@, compact));
    } else {
        out.push('{');
        out.push('\n');
        write_items(out, ps, pre, ind);
        crate::text::push_chars(out, pre.as_slice());
        out.push('}');
        assert(out@ =~= o + fmt_object(pairs_view(ps@), pre@, ind@, compact));
    }
}

/// Appends the text of a template expression.
fn write_template(out: &mut Vec<char>, t: &TemplateExpr, pre: &Vec<char>)
    ensures
        final(out)@ == old(out)@ + fmt_template(t@, pre@),
{
    let ghost o = out@;
    match t {
        TemplateExpr::QuotedString(s) => {
            out.push('"');
            let v = crate::text::chars_of(s.as_str());
            crate::util::push_escaped(out, v.as_slice());
            out.push('"');
            assert(out@ =~= o + fmt_template(t@, pre@));
        },
        TemplateExpr::Heredoc(h) => {
            crate::text::push_str_chars(out, h.strip.as_str());
            crate::text::push_str_chars(out, h.delimiter.as_str());
            out.push('\n');
            let tv = crate::text::chars_of(h.template.as_str());
            crate::text::push_chars(out, tv.as_slice());
            if tv.len() > 0 && tv[tv.len() - 1] != '\n' {
                out.push('\n');
            }
            if h.strip == HeredocStripMode::Indent {
                crate::text::push_chars(out, pre.as_slice());
            }
            crate::text::push_str_chars(out, h.delimiter.as_str());
            assert(out@ =~= o + fmt_template(t@, pre@));
        },
    }
}

/// Appends the text of a for expression.
#[verifier::rlimit(100)]
#[verifier::spinoff_prover]
fn write_for(out: &mut Vec<char>, f: &ForExpr, pre: &Vec<char>, ind: &Vec<char>)
    ensures
        final(out)@ == old(out)@ + fmt_for(for_view(*f), pre@, ind@),
    decreases f, 1nat,
{
    let ghost o = out@;
    let is_object = f.key_expr.is_some();
    if is_object {
        out.push('{');
    } else {
        out.push('[');
    }
    crate::text::push_chars(out, &['f', 'o', 'r', ' ']);
    match &f.key_var {
        Some(k) => {
            crate::text::push_str_chars(out, k.as_str());
            out.push(',');
            out.push(' ');
        },
        None => {},
    }
    crate::text::push_str_chars(out, f.value_var.as_str());
    crate::text::push_chars(out, &[' ', 'i', 'n', ' ']);
    write_expr(out, &f.collection_expr, pre, ind, true);
    crate::text::push_chars(out, &[' ', ':', ' ']);
    match &f.key_expr {
        Some(k) => {
            write_expr(out, k, pre, ind, true);
            crate::text::push_chars(out, &[' ', '=', '>', ' ']);
            write_expr(out, &f.value_expr, pre, ind, true);
            if f.grouping {
                crate::text::push_chars(out, &['.', '.', '.']);
            }
        },
        None => {
            write_expr(out, &f.value_expr, pre, ind, true);
        },
    }
    match &f.cond_expr {
        Some(c) => {
            crate::text::push_chars(out, &[' ', 'i', 'f', ' ']);
            write_expr(out, c, pre, ind, true);
        },
        None => {},
    }
    if is_object {
        out.push('}');
    } else {
        out.push(']');
    }
    assert(out@ =~= o + fmt_for(for_view(*f), pre@, ind@));
}

/// Appends the text of an expression, as [`fmt_expr`] describes.
#[verifier::rlimit(100)]
#[verifier::spinoff_prover]
pub fn write_expr(
    out: &mut Vec<char>,
    e: &Expression,
    pre: &Vec<char>,
    ind: &Vec<char>,
    compact: bool,
)
    ensures
        final(out)@ == old(out)@ + fmt_expr(e@, pre@, ind@, compact),
    decreases e, 3nat,
{
    let ghost o = out@;
    match e {
        Expression::Null => {
            crate::text::push_chars(out, &['n', 'u', 'l', 'l']);
        },
        Expression::Bool(b) => {
            if *b {
                crate::text::push_chars(out, &['t', 'r', 'u', 'e']);
            } else {
                crate::text::push_chars(out, &['f', 'a', 'l', 's', 'e']);
            }
        },
        Expression::Number(n) => write_number(out, n),
        Expression::String(s) => {
            let v = crate::text::chars_of(s.as_str());
            write_quoted(out, v.as_slice());
        },
        Expression::Array(es) => write_array(out, es, pre, ind, compact),
        Expression::Object(ps) => write_object(out, ps, pre, ind, compact),
        Expression::TemplateExpr(t) => write_template(out, t, pre),
        Expression::Variable(v) => crate::text::push_str_chars(out, v.as_str()),
        Expression::Traversal(t) => {
            write_expr(out, &t.expr, pre, ind, compact);
            write_ops(out, &t.operators, pre, ind, compact);
            assert(out@ =~= o + fmt_expr(e@, pre@, ind@, compact));
        },
        Expression::FuncCall(f) => {
            crate::text::push_str_chars(out, f.name.as_str());
            out.push('(');
            write_joined(out, &f.args, pre, ind);
            if f.expand_final {
                crate::text::push_chars(out, &['.', '.', '.']);
            }
            out.push(')');
            assert(out@ =~= o + fmt_expr(e@, pre@, ind@, compact));
        },
        Expression::Parenthesis(inner) => {
            out.push('(');
            write_expr(out, inner, pre, ind, compact);
            out.push(')');
            assert(out@ =~= o + fmt_expr(e@, pre@, ind@, compact));
        },
        Expression::Conditional(c) => {
            write_expr(out, &c.cond_expr, pre, ind, compact);
            crate::text::push_chars(out, &[' ', '?', ' ']);
            write_expr(out, &c.true_expr, pre, ind, compact);
            crate::text::push_chars(out, &[' ', ':', ' ']);
            write_expr(out, &c.false_expr, pre, ind, compact);
            assert(out@ =~= o + fmt_expr(e@, pre@, ind@, compact));
        },
        Expression::Operation(op) => match &**op {
            Operation::Unary(u) => {
                crate::text::push_str_chars(out, u.operator.as_str());
                write_expr(out, &u.expr, pre, ind, compact);
                assert(out@ =~= o + fmt_expr(e@, pre@, ind@, compact));
            },
            Operation::Binary(b) => {
                write_expr(out, &b.lhs_expr, pre, ind, compact);
                out.push(' ');
                crate::text::push_str_chars(out, b.operator.as_str());
                out.push(' ');
                write_expr(out, &b.rhs_expr, pre, ind, compact);
                assert(out@ =~= o + fmt_expr(e@, pre@, ind@, compact));
            },
        },
        Expression::ForExpr(f) => write_for(out, f, pre, ind),
        Expression::Raw(r) => crate::text::push_str_chars(out, r.as_str()),
    }
}

} // verus!

verus! {

/// Appends the text of a block label.
fn write_label(out: &mut Vec<char>, l: &BlockLabel)
    ensures
        final(out)@ == old(out)@ + fmt_label(l@),
{
    match l {
        BlockLabel::Identifier(i) => crate::text::push_str_chars(out, i.as_str()),
        BlockLabel::String(s) => {
            let v = crate::text::chars_of(s.as_str());
            write_quoted(out, v.as_slice());
        },
    }
}

/// Appends the labels of a block.
fn write_labels(out: &mut Vec<char>, ls: &Vec<BlockLabel>)
    ensures
        final(out)@ == old(out)@ + fmt_labels(labels_view(ls@)),
{
    let ghost o = out@;
    let mut i: usize = 0;
    assert(labels_view(ls@.take(0)) =~= seq![]);
    assert(o + seq![] =~= o);
    while i < ls.len()
        invariant
            i <= ls@.len(),
            out@ == o + fmt_labels(labels_view(ls@.take(i as int))),
        decreases ls@.len() - i,
    {
        let ghost prev = labels_view(ls@.take(i as int));
        assert(labels_view(ls@.take(i + 1)) =~= prev.push(label_view(ls@[i as int])));
        assert(prev.push(label_view(ls@[i as int])).drop_last() =~= prev);
        out.push(' ');
        write_label(out, &ls[i]);
        assert(out@ =~= o + fmt_labels(labels_view(ls@.take(i + 1))));
        i += 1;
    }
    assert(ls@.take(ls@.len() as int) =~= ls@);
}

/// Appends the text of a structure, as [`fmt_structure`] describes.
#[verifier::spinoff_prover]
#[verifier::rlimit(40)]
pub fn write_structure(
    out: &mut Vec<char>,
    s: &Structure,
    pre: &Vec<char>,
    ind: &Vec<char>,
    dense: bool,
)
    ensures
        final(out)@ == old(out)@ + fmt_structure(s@, pre@, ind@, dense),
    decreases s,
{
    let ghost o = out@;
    match s {
        Structure::Attribute(a) => {
            crate::text::push_chars(out, pre.as_slice());
            crate::text::push_str_chars(out, a.key.as_str());
            crate::text::push_chars(out, &[' ', '=', ' ']);
            write_expr(out, &a.expr, pre, ind, false);
            out.push('\n');
            assert(out@ =~= o + fmt_structure(s@, pre@, ind@, dense));
        },
        Structure::Block(b) => {
            crate::text::push_chars(out, pre.as_slice());
            crate::text::push_str_chars(out, b.identifier.as_str());
            write_labels(out, &b.labels);
            out.push(' ');
            out.push('{');
            proof {
                crate::structure::lemma_structures_view_len(b.body.0@);
            }
            if b.body.0.len() == 0 {
                out.push('}');
            } else {
                out.push('\n');
                let inner = crate::text::concat(pre, ind);
                write_body(out, &b.body.0, &inner, ind, dense);
                crate::text::push_chars(out, pre.as_slice());
                out.push('}');
            }
            out.push('\n');
            assert(out@ =~= o + fmt_structure(s@, pre@, ind@, dense));
        },
    }
}

/// Appends the text of a sequence of structures, as [`fmt_body`] describes.
pub fn write_body(
    out: &mut Vec<char>,
    ss: &Vec<Structure>,
    pre: &Vec<char>,
    ind: &Vec<char>,
    dense: bool,
)
    ensures
        final(out)@ == old(out)@ + fmt_body(structures_view(ss@), pre@, ind@, dense),
    decreases ss,
{
    let ghost o = out@;
    let mut i: usize = 0;
    assert(ss@.take(0) =~= seq![]);
    assert(o + seq![] =~= o);
    while i < ss.len()
        invariant
            i <= ss@.len(),
            out@ == o + fmt_body(structures_view(ss@.take(i as int)), pre@, ind@, dense),
        decreases ss@.len() - i,
    {
        let ghost prev = structures_view(ss@.take(i as int));
        let ghost cur = structure_view(ss@[i as int]);
        proof {
            crate::structure::lemma_structures_view_len(ss@.take(i as int));
            assert(ss@.take(i + 1).drop_last() =~= ss@.take(i as int));
            assert(structures_view(ss@.take(i + 1)) == prev.push(cur));
            assert(prev.push(cur).drop_last() =~= prev);
            if i > 0 {
                assert(prev.push(cur)[i - 1] == prev[i - 1]);
                assert(prev[i - 1] == structure_view(ss@[i - 1]));
            }
        }
        if i > 0 && !dense && (ss[i - 1].is_block() || ss[i].is_block()) {
            out.push('\n');
        }
        write_structure(out, &ss[i], pre, ind, dense);
        assert(out@ =~= o + fmt_body(structures_view(ss@.take(i + 1)), pre@, ind@, dense));
        i += 1;
    }
    assert(ss@.take(ss@.len() as int) =~= ss@);
}

// ---------------------------------------------------------------------------------------------
// Formatter
// ---------------------------------------------------------------------------------------------

/// Formats HCL structures with a configurable indentation and layout.
#[derive(Debug)]
pub struct Formatter {
    /// The characters of one level of indentation.
    pub indent: Vec<char>,
    /// In dense mode no empty lines are put around blocks.
    pub dense: bool,
}

/// Builds a [`Formatter`].
#[derive(Debug)]
pub struct FormatterBuilder {
    /// The characters of one level of indentation.
    pub indent: Vec<char>,
    /// Whether to leave out the empty lines around blocks.
    pub dense: bool,
}

impl Formatter {
    /// The default formatter: two spaces of indentation and empty lines around blocks.
    pub fn new() -> (r: Formatter)
        ensures
            r.indent@ == seq![' ', ' '],
            !r.dense,
    {
        let mut indent: Vec<char> = Vec::new();
        indent.push(' ');
        indent.push(' ');
        Formatter { indent, dense: false }
    }

    /// Creates a [`FormatterBuilder`] with the default settings.
    pub fn builder() -> (r: FormatterBuilder)
        ensures
            r.indent@ == seq![' ', ' '],
            !r.dense,
    {
        let f = Formatter::new();
        FormatterBuilder { indent: f.indent, dense: f.dense }
    }

    /// Formats a body.
    pub fn format_body(&self, body: &Body) -> (r: String)
        ensures
            r@ == fmt_body(body@, seq![], self.indent@, self.dense),
    {
        let mut out: Vec<char> = Vec::new();
        let pre: Vec<char> = Vec::new();
        write_body(&mut out, &body.0, &pre, &self.indent, self.dense);
        assert(seq![] + fmt_body(body@, pre@, self.indent@, self.dense) =~= fmt_body(
            body@,
            seq![],
            self.indent@,
            self.dense,
        ));
        crate::text::string_of(out.as_slice())
    }

    /// Formats a single expression at the top level.
    pub fn format_expression(&self, expr: &Expression) -> (r: String)
        ensures
            r@ == fmt_expr(expr@, seq![], self.indent@, false),
    {
        let mut out: Vec<char> = Vec::new();
        let pre: Vec<char> = Vec::new();
        write_expr(&mut out, expr, &pre, &self.indent, false);
        assert(seq![] + fmt_expr(expr@, pre@, self.indent@, false) =~= fmt_expr(
            expr@,
            seq![],
            self.indent@,
            false,
        ));
        crate::text::string_of(out.as_slice())
    }
}

impl FormatterBuilder {
    /// Sets the characters of one level of indentation.
    pub fn indent(self, indent: &str) -> (r: FormatterBuilder)
        ensures
            r.indent@ == indent@,
            r.dense == self.dense,
    {
        FormatterBuilder { indent: crate::text::chars_of(indent), dense: self.dense }
    }

    /// Sets dense mode, in which no empty lines are put around blocks.
    pub fn dense(self, yes: bool) -> (r: FormatterBuilder)
        ensures
            r.indent == self.indent,
            r.dense == yes,
    {
        FormatterBuilder { indent: self.indent, dense: yes }
    }

    /// Builds the formatter.
    pub fn build(self) -> (r: Formatter)
        ensures
            r.indent == self.indent,
            r.dense == self.dense,
    {
        Formatter { indent: self.indent, dense: self.dense }
    }
}

/// Formats a body as HCL text with the default formatter.
pub fn to_string(body: &Body) -> (r: String)
    ensures
        r@ == fmt_body(body@, seq![], seq![' ', ' '], false),
{
    Formatter::new().format_body(body)
}

/// Formats an expression as HCL text with the default formatter.
pub fn expression_to_string(expr: &Expression) -> (r: String)
    ensures
        r@ == fmt_expr(expr@, seq![], seq![' ', ' '], false),
{
    Formatter::new().format_expression(expr)
}

} // verus!
