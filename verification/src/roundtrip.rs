//! What the formatter writes, the parser reads back: proved for bodies of attributes with
//! plain keys and values that are scalars (quoted templates among them), parenthesised scalars,
//! variables followed by traversal operators (attribute accesses, splats and indexes), calls
//! with scalar arguments, conditionals over those, arrays of those, and objects
//! of all of these under plain or string keys, and of blocks with plain identifiers and labels,
//! nested to any depth.
use vstd::prelude::*;
use crate::expr::{ExprV, KeyV, TemplateV, TraversalOpV};
use crate::format::{
    encode_str, fmt_body, fmt_elements, fmt_elements_comma, fmt_expr, fmt_label, fmt_labels,
    fmt_number, fmt_structure, quoted, separated,
};
use crate::lexer::{ident, ident_char, ident_end, ident_start, lemma_sp_ws, sp, ws};
use crate::util::{escape_char, escape_seq, is_ascii_alpha, is_ascii_digit};
use crate::lexer::{at, str_content};
use crate::laws::{lemma_escape_front, lemma_escape_read};
use crate::number::{NumberV, decimal_digits};
use crate::lexer::{digits_end, digits_value, number};
use crate::parser::{
    body, expr, labels, parse_body, structure, structure_end, term, trav_ops, trav_step,
    word_expr,
};
use crate::structure::{LabelV, StructureV};

verus! {

/// Whether `k` is an identifier as the parser reads one at the start of a structure: a letter or
/// `_`, then letters, digits, `_` and `-`.
pub open spec fn plain_key(k: Seq<char>) -> bool {
    &&& k.len() > 0
    &&& ident_start(k[0])
    &&& forall|i: int| 0 <= i < k.len() ==> ident_char(#[trigger] k[i])
}

/// Whether an attribute value is read back as written: a string, `null`, `true`, `false`, a
/// variable with a plain name other than those three words, an integer, or a quoted template
/// whose first `${` or `%{` is read as one.
pub open spec fn plain_value(e: ExprV) -> bool {
    ||| e is String
    ||| e is Null
    ||| e is Bool
    ||| e is Variable && plain_key(e->Variable_0) && word_expr(e->Variable_0) == e
    ||| e is Number && e->Number_0 is PosInt
    ||| e is Number && e->Number_0 is NegInt && e->Number_0->NegInt_0 < 0
    ||| e is Template && e->Template_0 is Quoted && opens_template(e->Template_0->Quoted_0)
}

/// The text the formatter writes for a plain attribute value.
pub open spec fn value_text(e: ExprV) -> Seq<char> {
    match e {
        ExprV::String(v) => quoted(v),
        ExprV::Null => seq!['n', 'u', 'l', 'l'],
        ExprV::Bool(b) => if b {
            seq!['t', 'r', 'u', 'e']
        } else {
            seq!['f', 'a', 'l', 's', 'e']
        },
        ExprV::Variable(n) => n,
        ExprV::Number(n) => fmt_number(n),
        ExprV::Template(TemplateV::Quoted(t)) => seq!['"'] + escape_seq(t) + seq!['"'],
        _ => seq![],
    }
}

/// Whether a traversal operator is read back as written: an attribute access with a plain
/// name, a splat, a legacy index, or an index by a plain value.
pub open spec fn plain_op(o: TraversalOpV) -> bool {
    match o {
        TraversalOpV::GetAttr(n) => plain_key(n),
        TraversalOpV::Index(e) => plain_value(e),
        _ => true,
    }
}

/// Whether the operators of a traversal are all read back as written.
pub open spec fn plain_ops(ops: Seq<TraversalOpV>) -> bool {
    forall|i: int| 0 <= i < ops.len() ==> plain_op(#[trigger] ops[i])
}

/// The text the formatter writes for a plain traversal operator.
pub open spec fn op_text(o: TraversalOpV) -> Seq<char> {
    match o {
        TraversalOpV::AttrSplat => seq!['.', '*'],
        TraversalOpV::FullSplat => seq!['[', '*', ']'],
        TraversalOpV::GetAttr(n) => seq!['.'] + n,
        TraversalOpV::Index(e) => seq!['['] + value_text(e) + seq![']'],
        TraversalOpV::LegacyIndex(n) => seq!['.'] + decimal_digits(n as nat),
    }
}

/// The text of plain traversal operators, one after the other.
pub open spec fn ops_text(ops: Seq<TraversalOpV>) -> Seq<char>
    decreases ops.len(),
{
    if ops.len() == 0 {
        seq![]
    } else {
        ops_text(ops.drop_last()) + op_text(ops.last())
    }
}

/// Whether `e` is a variable with a plain name followed by one or more plain traversal
/// operators.
pub open spec fn plain_trav(e: ExprV) -> bool {
    &&& e is Traversal
    &&& *e->Traversal_0 is Variable
    &&& plain_value(*e->Traversal_0)
    &&& e->Traversal_1.len() > 0
    &&& plain_ops(e->Traversal_1)
}

/// The text the formatter writes for the condition of a conditional: a plain value, or a
/// variable with traversal operators.
pub open spec fn head_text(c: ExprV) -> Seq<char> {
    match c {
        ExprV::Traversal(i, ops) => value_text(*i) + ops_text(ops),
        _ => value_text(c),
    }
}

/// Whether a value built of plain values is read back as written: a plain value in
/// parentheses, a conditional of plain values whose condition may also be a variable with
/// traversal operators, a variable followed by traversal operators, or a call of a plain name
/// with plain arguments.
pub open spec fn compound_value(e: ExprV) -> bool {
    ||| e is Parenthesis && plain_value(*e->Parenthesis_0)
    ||| e is Conditional && (plain_value(*e->Conditional_0) || plain_trav(*e->Conditional_0))
        && plain_value(*e->Conditional_1) && plain_value(*e->Conditional_2)
    ||| plain_trav(e)
    ||| e is FuncCall && plain_key(e->FuncCall_0) && !e->FuncCall_2 && plain_values(e->FuncCall_1)
}

/// The text the formatter writes for a compound value.
pub open spec fn compound_text(e: ExprV) -> Seq<char> {
    match e {
        ExprV::Parenthesis(i) => seq!['('] + value_text(*i) + seq![')'],
        ExprV::Conditional(c, t, f) => head_text(*c) + seq![' ', '?', ' '] + value_text(*t)
            + seq![' ', ':', ' '] + value_text(*f),
        ExprV::Traversal(i, ops) => value_text(*i) + ops_text(ops),
        ExprV::FuncCall(name, args, _) => name + seq!['('] + joined_text(args) + seq![')'],
        _ => seq![],
    }
}

/// Whether the value of an attribute is read back as written: a plain value, an array of
/// plain values, a compound value, or an object of plain items.
pub open spec fn attr_value(e: ExprV) -> bool {
    ||| plain_value(e)
    ||| e is Array && elem_values(e->Array_0)
    ||| compound_value(e)
    ||| e is Object && plain_items(e->Object_0)
}

/// The text the formatter writes for an array of plain values at indentation `pre`: `[]`, or
/// one element per line, all but the last followed by a comma.
pub open spec fn array_text(es: Seq<ExprV>, pre: Seq<char>, ind: Seq<char>) -> Seq<char> {
    if es.len() == 0 {
        seq!['[', ']']
    } else {
        seq!['[', '\n'] + fmt_elements(es, pre, ind) + pre + seq![']']
    }
}

/// The text the formatter writes for the value of an attribute at indentation `pre`.
pub open spec fn attr_text(e: ExprV, pre: Seq<char>, ind: Seq<char>) -> Seq<char> {
    if e is Array {
        array_text(e->Array_0, pre, ind)
    } else if compound_value(e) {
        compound_text(e)
    } else if e is Object {
        crate::format::fmt_object(e->Object_0, pre, ind, false)
    } else {
        value_text(e)
    }
}

/// The line the formatter writes for the attribute `k = e` at indentation `pre`.
pub open spec fn attr_line(k: Seq<char>, e: ExprV, pre: Seq<char>, ind: Seq<char>) -> Seq<char> {
    k + seq![' ', '=', ' '] + attr_text(e, pre, ind) + seq!['\n']
}

/// A run of identifier characters ends at the first character that is not one.
proof fn lemma_ident_run(s: Seq<char>, a: int, b: int)
    requires
        0 <= a <= b < s.len(),
        forall|i: int| a <= i < b ==> ident_char(#[trigger] s[i]),
        !ident_char(s[b]),
    ensures
        ident_end(s, a) == b,
    decreases b - a,
{
    if a < b {
        lemma_ident_run(s, a + 1, b);
    }
}

/// A key followed by a space, a line ending or a comma is read as an identifier.
proof fn lemma_read_key(s: Seq<char>, i: int, k: Seq<char>)
    requires
        0 <= i,
        i + k.len() < s.len(),
        plain_key(k),
        forall|x: int| 0 <= x < k.len() ==> #[trigger] s[i + x] == k[x],
        s[i + k.len()] == ' ' || s[i + k.len()] == '\n' || s[i + k.len()] == ',' || s[i
            + k.len()] == ')' || s[i + k.len()] == '.' || s[i + k.len()] == '[' || s[i + k.len()]
            == ']' || s[i + k.len()] == '(',
    ensures
        ident(s, i) == Some((k, i + k.len())),
        ws(s, i) == i,
{
    let q = i + k.len();
    assert(s[i + 0] == k[0]);
    assert forall|x: int| i + 1 <= x < q implies ident_char(#[trigger] s[x]) by {
        assert(s[i + (x - i)] == k[x - i]);
    }
    lemma_ident_run(s, i + 1, q);
    assert forall|x: int| 0 <= x < k.len() implies #[trigger] s.subrange(i, q)[x] == k[x] by {
        assert(s[i + x] == k[x]);
    }
    assert(s.subrange(i, q) =~= k);
}

/// A line ending ends a structure, and no traversal operator, conditional or binary operator
/// starts there.
#[verifier::spinoff_prover]
#[verifier::rlimit(40)]
proof fn lemma_at_line_end(s: Seq<char>, j: int)
    requires
        0 <= j < s.len(),
        s[j] == '\n',
    ensures
        sp(s, j) == j,
        trav_ops(s, j) == Some((Seq::<crate::expr::TraversalOpV>::empty(), j)),
        structure_end(s, j) == Some(j + 1),
{
    assert(sp(s, j) == j);
    assert(trav_step(s, j) == Some((None::<crate::expr::TraversalOpV>, j)));
}

/// A string literal is read as a term.
proof fn lemma_string_term(s: Seq<char>, st: int, v: Seq<char>)
    requires
        0 <= st,
        st + encode_str(v).len() + 2 <= s.len(),
        s[st] == '"',
        s.subrange(st + 1, st + 1 + encode_str(v).len()) == encode_str(v),
        s[st + 1 + encode_str(v).len()] == '"',
    ensures
        term(s, st) == Some((ExprV::String(v), st + 2 + encode_str(v).len())),
{
    crate::laws::lemma_read_encoded(s, st + 1, v);
}

/// A term followed by a line ending is the whole expression.
proof fn lemma_term_is_expr(s: Seq<char>, st: int, e: ExprV, j: int)
    requires
        0 <= st < j < s.len(),
        term(s, st) == Some((e, j)),
        s[j] == '\n' || s[j] == ',',
    ensures
        expr(s, st) == Some((e, j)),
{
    lemma_no_ops(s, j);
}

/// No traversal operator starts at a line ending or a comma.
#[verifier::spinoff_prover]
#[verifier::rlimit(40)]
proof fn lemma_no_ops(s: Seq<char>, j: int)
    requires
        0 <= j < s.len(),
        s[j] == '\n' || s[j] == ',',
    ensures
        sp(s, j) == j,
        ws(s, j) == j || s[j] == '\n',
        trav_ops(s, j) == Some((Seq::<crate::expr::TraversalOpV>::empty(), j)),
{
    assert(sp(s, j) == j);
    assert(trav_step(s, j) == Some((None::<crate::expr::TraversalOpV>, j)));
}

/// Whether a value that ends at `j` is followed by a comma, or by a line ending after which
/// whitespace leads to no parenthesis.
pub open spec fn value_end(s: Seq<char>, j: int) -> bool {
    &&& 0 <= j < s.len()
    &&& (s[j] == ',' || (s[j] == '\n' && (ws(s, j + 1) >= s.len() || s[ws(s, j + 1)] != '(')))
}

/// Whether a character ends a term of a plain value as the formatter writes it: a comma, a line
/// ending, a closing parenthesis or bracket, or a space.
pub open spec fn stop_char(c: char) -> bool {
    c == ',' || c == '\n' || c == ')' || c == ' ' || c == ']'
}

/// Whether a plain value that ends at `j` is followed by a character that ends its term, and
/// whitespace from there leads to no parenthesis.
pub open spec fn value_stop(s: Seq<char>, j: int) -> bool {
    &&& 0 <= j < s.len()
    &&& stop_char(s[j])
    &&& (ws(s, j) >= s.len() || s[ws(s, j)] != '(')
}

/// A value that a comma or a line ending follows stops there.
proof fn lemma_end_stops(s: Seq<char>, j: int)
    requires
        value_end(s, j),
    ensures
        value_stop(s, j),
{
    if s[j] == '\n' {
        assert(spacing(s, j, 1));
        lemma_ws_skip(s, j, 1);
    } else {
        assert(ws(s, j) == j);
    }
}

/// The words `null`, `true` and `false`, and plain variable names, are plain keys that the
/// parser turns back into the same value.
proof fn lemma_word_plain(e: ExprV)
    requires
        e is Null || e is Bool || (e is Variable && plain_key(e->Variable_0) && word_expr(
            e->Variable_0,
        ) == e),
    ensures
        plain_key(value_text(e)),
        word_expr(value_text(e)) == e,
{
    let w = value_text(e);
    if !(e is Variable) {
        assert(forall|i: int| 0 <= i < w.len() ==> is_ascii_alpha(#[trigger] w[i]));
    }
}

/// A plain word is read as a term, where no parenthesis follows.
proof fn lemma_read_word(s: Seq<char>, st: int, w: Seq<char>)
    requires
        plain_key(w),
        0 <= st,
        st + w.len() < s.len(),
        s.subrange(st, st + w.len()) == w,
        value_stop(s, st + w.len()),
    ensures
        term(s, st) == Some((word_expr(w), st + w.len())),
{
    let j = st + w.len();
    assert forall|x: int| 0 <= x < w.len() implies #[trigger] s[st + x] == w[x] by {
        assert(s.subrange(st, st + w.len())[x] == s[st + x]);
    }
    lemma_read_key(s, st, w);
    assert(s[st + 0] == w[0]);
    lemma_sp_ws(s, j);
}

/// The decimal digits of a number are digits, and read back as that number.
proof fn lemma_decimal(n: nat)
    ensures
        decimal_digits(n).len() > 0,
        forall|i: int| 0 <= i < decimal_digits(n).len() ==> is_ascii_digit(
            #[trigger] decimal_digits(n)[i],
        ),
        digits_value(decimal_digits(n)) == n,
    decreases n,
{
    if n < 10 {
        let d = decimal_digits(n);
        assert(d.drop_last().len() == 0);
        assert(digits_value(d.drop_last()) == 0);
    } else {
        lemma_decimal(n / 10);
        let d = decimal_digits(n);
        let c = ((n % 10) + '0' as nat) as char;
        assert(d == decimal_digits(n / 10).push(c));
        assert(d.drop_last() =~= decimal_digits(n / 10));
        assert(d.last() == c);
        assert(c as nat - '0' as nat == n % 10);
        assert(forall|i: int| 0 <= i < d.len() - 1 ==> d[i] == decimal_digits(n / 10)[i]);
        assert((n / 10) * 10 + n % 10 == n);
    }
}

/// A run of digits ends at the first character that is not one.
proof fn lemma_digit_run(s: Seq<char>, a: int, b: int)
    requires
        0 <= a <= b < s.len(),
        forall|i: int| a <= i < b ==> is_ascii_digit(#[trigger] s[i]),
        !is_ascii_digit(s[b]),
    ensures
        digits_end(s, a) == b,
    decreases b - a,
{
    if a < b {
        lemma_digit_run(s, a + 1, b);
    }
}

/// The decimal digits of a non-negative integer followed by a line ending are read as that
/// number.
proof fn lemma_read_digits(s: Seq<char>, st: int, v: u64)
    requires
        0 <= st,
        st + decimal_digits(v as nat).len() < s.len(),
        s.subrange(st, st + decimal_digits(v as nat).len()) == decimal_digits(v as nat),
        stop_char(s[st + decimal_digits(v as nat).len()]),
    ensures
        is_ascii_digit(s[st]),
        number(s, st) == Some((NumberV::PosInt(v), st + decimal_digits(v as nat).len())),
{
    let d = decimal_digits(v as nat);
    let j = st + d.len();
    lemma_decimal(v as nat);
    assert forall|i: int| st <= i < j implies is_ascii_digit(#[trigger] s[i]) by {
        assert(s.subrange(st, j)[i - st] == s[i]);
    }
    lemma_digit_run(s, st, j);
    assert(s.subrange(st, j) == d);
    assert(is_ascii_digit(s[st]));
}

/// The text of a non-negative integer followed by a line ending is read as that number.
proof fn lemma_read_number(s: Seq<char>, st: int, v: u64)
    requires
        0 <= st,
        st + decimal_digits(v as nat).len() < s.len(),
        s.subrange(st, st + decimal_digits(v as nat).len()) == decimal_digits(v as nat),
        stop_char(s[st + decimal_digits(v as nat).len()]),
    ensures
        term(s, st) == Some((ExprV::Number(NumberV::PosInt(v)), st + decimal_digits(v as nat).len())),
{
    lemma_read_digits(s, st, v);
}

/// The text of a negative integer followed by a line ending is read as that number.
proof fn lemma_read_negative(s: Seq<char>, st: int, v: i64)
    requires
        v < 0,
        0 <= st,
        st + 1 + decimal_digits((-(v as int)) as nat).len() < s.len(),
        s.subrange(st, st + 1 + decimal_digits((-(v as int)) as nat).len()) == seq!['-']
            + decimal_digits((-(v as int)) as nat),
        stop_char(s[st + 1 + decimal_digits((-(v as int)) as nat).len()]),
    ensures
        term(s, st) == Some(
            (ExprV::Number(NumberV::NegInt(v)), st + 1 + decimal_digits((-(v as int)) as nat).len()),
        ),
{
    let u = (-(v as int)) as u64;
    assert(u as nat == (-(v as int)) as nat);
    let d = decimal_digits(u as nat);
    let t = seq!['-'] + d;
    assert(s[st] == '-') by {
        assert(s.subrange(st, st + t.len())[0] == s[st]);
    }
    assert(s.subrange(st + 1, st + 1 + d.len()) =~= d) by {
        assert(s.subrange(st + 1, st + 1 + d.len()) =~= s.subrange(st, st + t.len()).subrange(
            1,
            (1 + d.len()) as int,
        ));
    }
    lemma_read_digits(s, st + 1, u);
    lemma_sp_ws(s, st + 1);
    assert(sp(s, st + 1) == st + 1);
    assert(NumberV::PosInt(u).negate() == NumberV::NegInt(v));
}

/// Whether a `${` or `%{` starts at `k` in a template text.
pub open spec fn marker_at(t: Seq<char>, k: int) -> bool {
    &&& 0 <= k
    &&& k + 1 < t.len()
    &&& (t[k] == '$' || t[k] == '%')
    &&& t[k + 1] == '{'
}

/// Whether `k` is the first `${` or `%{` of a template text and is not written doubled (`$${`
/// or `%%{`), so that the text is not read as a plain string.
pub open spec fn first_marker(t: Seq<char>, k: int) -> bool {
    &&& marker_at(t, k)
    &&& (k == 0 || t[k - 1] != t[k])
    &&& forall|j: int| 0 <= j < k ==> !marker_at(t, j)
}

/// Whether a template text holds an interpolation or directive marker that is read as one.
pub open spec fn opens_template(t: Seq<char>) -> bool {
    exists|k: int| first_marker(t, k)
}

/// The first character of an escaped character is the character itself or a backslash.
proof fn lemma_escape_head(c: char)
    ensures
        escape_char(c).len() >= 1,
        escape_char(c)[0] == c || escape_char(c)[0] == '\\',
        escape_char(c).len() == 1 ==> escape_char(c) == seq![c] && c != '"' && c != '\\',
        escape_char(c).len() > 1 ==> escape_char(c)[0] == '\\',
{
}

/// Where the escaped form of `t` and a closing quote stand at `k`, a template string is read
/// as `t`, up to the quote.
proof fn lemma_read_escaped(s: Seq<char>, k: int, t: Seq<char>)
    requires
        0 <= k,
        k + escape_seq(t).len() < s.len(),
        s.subrange(k, k + escape_seq(t).len()) == escape_seq(t),
        s[k + escape_seq(t).len()] == '"',
    ensures
        str_content(s, k, false) == Some((t, k + escape_seq(t).len())),
    decreases t.len(),
{
    let m = escape_seq(t).len() as int;
    if t.len() == 0 {
        assert(escape_seq(t) == Seq::<char>::empty());
        assert(t =~= Seq::<char>::empty());
    } else {
        let c = t[0];
        let rest = t.drop_first();
        lemma_escape_front(t);
        lemma_escape_head(c);
        let ec = escape_char(c);
        let n = ec.len() as int;
        assert(s.subrange(k, k + n) == ec) by {
            assert(s.subrange(k, k + n) =~= s.subrange(k, k + m).subrange(0, n));
        }
        assert(s.subrange(k + n, k + m) == escape_seq(rest)) by {
            assert(s.subrange(k + n, k + m) =~= s.subrange(k, k + m).subrange(n, m));
        }
        lemma_read_escaped(s, k + n, rest);
        assert(s[k] == ec[0]) by {
            assert(s.subrange(k, k + n)[0] == s[k]);
        }
        if n > 1 {
            lemma_escape_read(s, k, c);
        }
        assert(t =~= seq![c] + rest);
    }
}

/// Where the escaped form of `t` and a closing quote stand at `k`, and `k0` is the first marker
/// of `t`, the text is not read as a plain string.
proof fn lemma_plain_fails(s: Seq<char>, k: int, t: Seq<char>, k0: int)
    requires
        0 <= k,
        k + escape_seq(t).len() < s.len(),
        s.subrange(k, k + escape_seq(t).len()) == escape_seq(t),
        s[k + escape_seq(t).len()] == '"',
        first_marker(t, k0),
    ensures
        str_content(s, k, true) is None,
    decreases t.len(),
{
    let m = escape_seq(t).len() as int;
    let c = t[0];
    let rest = t.drop_first();
    lemma_escape_front(t);
    lemma_escape_front(rest);
    lemma_escape_head(c);
    lemma_escape_head(t[1]);
    let ec = escape_char(c);
    let n = ec.len() as int;
    let e1 = escape_char(t[1]);
    assert(s.subrange(k, k + n) == ec) by {
        assert(s.subrange(k, k + n) =~= s.subrange(k, k + m).subrange(0, n));
    }
    assert(s.subrange(k + n, k + m) == escape_seq(rest)) by {
        assert(s.subrange(k + n, k + m) =~= s.subrange(k, k + m).subrange(n, m));
    }
    assert(s[k] == ec[0]) by {
        assert(s.subrange(k, k + n)[0] == s[k]);
    }
    assert(s[k + n] == e1[0]) by {
        assert(s.subrange(k + n, k + m)[0] == s[k + n]);
        assert(rest[0] == t[1]);
    }
    if k0 == 0 {
        assert(n == 1 && e1.len() == 1);
        assert(!at(s, k, seq!['$', '$', '{']) && !at(s, k, seq!['%', '%', '{']));
        assert(s[k] == c && s[k + 1] == '{');
        assert(s.subrange(k, k + 2) =~= seq![c, '{']);
        assert(at(s, k, seq![c, '{']));
    } else {
        assert(first_marker(rest, k0 - 1)) by {
            assert forall|j: int| 0 <= j < k0 - 1 implies !marker_at(rest, j) by {
                assert(!marker_at(t, j + 1));
            }
            assert(marker_at(t, k0));
        }
        lemma_plain_fails(s, k + n, rest, k0 - 1);
        if n > 1 {
            lemma_escape_read(s, k, c);
        } else {
            assert(!marker_at(t, 0));
            if t.len() > 2 {
                lemma_escape_front(rest.drop_first());
                lemma_escape_head(t[2]);
                let e2 = escape_char(t[2]);
                assert(s[k + 1 + e1.len()] == e2[0]) by {
                    assert(s.subrange(k + n, k + m)[e1.len() as int] == s[k + 1 + e1.len()]);
                    assert(rest.drop_first()[0] == t[2]);
                    assert(escape_seq(rest) == e1 + escape_seq(rest.drop_first()));
                    assert(escape_seq(rest.drop_first()) == e2 + escape_seq(rest.drop_first().drop_first()));
                }
                if (c == '$' || c == '%') && e1[0] == c && e1.len() == 1 && e2[0] == '{' {
                    assert(t[1] == c);
                    assert(t[2] == '{');
                    assert(marker_at(t, 1));
                    assert(false);
                }
            }
            assert(!at(s, k, seq!['$', '$', '{']) && !at(s, k, seq!['%', '%', '{']));
            assert(!at(s, k, seq!['$', '{']) && !at(s, k, seq!['%', '{']));
        }
    }
}

/// A quoted template as the formatter writes it is read as that template.
proof fn lemma_template_term(s: Seq<char>, st: int, t: Seq<char>)
    requires
        opens_template(t),
        0 <= st,
        st + escape_seq(t).len() + 2 <= s.len(),
        s.subrange(st, st + escape_seq(t).len() + 2) == seq!['"'] + escape_seq(t) + seq!['"'],
    ensures
        term(s, st) == Some((ExprV::Template(TemplateV::Quoted(t)), st + escape_seq(t).len() + 2)),
{
    let w = seq!['"'] + escape_seq(t) + seq!['"'];
    let m = escape_seq(t).len() as int;
    assert(s[st] == '"') by {
        assert(s.subrange(st, st + m + 2)[0] == s[st]);
    }
    assert(s[st + 1 + m] == '"') by {
        assert(s.subrange(st, st + m + 2)[1 + m] == s[st + 1 + m]);
    }
    assert(s.subrange(st + 1, st + 1 + m) =~= escape_seq(t)) by {
        assert(s.subrange(st + 1, st + 1 + m) =~= s.subrange(st, st + m + 2).subrange(1, 1 + m));
    }
    let k0 = choose|k: int| first_marker(t, k);
    lemma_plain_fails(s, st + 1, t, k0);
    lemma_read_escaped(s, st + 1, t);
}

/// A plain value that a comma or a line ending follows is read as an expression.
proof fn lemma_read_scalar(s: Seq<char>, st: int, e: ExprV)
    requires
        plain_value(e),
        0 <= st,
        st + value_text(e).len() < s.len(),
        s.subrange(st, st + value_text(e).len()) == value_text(e),
        value_end(s, st + value_text(e).len()),
    ensures
        expr(s, st) == Some((e, st + value_text(e).len())),
{
    lemma_end_stops(s, st + value_text(e).len());
    lemma_read_scalar_term(s, st, e);
    lemma_term_is_expr(s, st, e, st + value_text(e).len());
}

/// A plain value that a character ending its term follows is read as a term.
proof fn lemma_read_scalar_term(s: Seq<char>, st: int, e: ExprV)
    requires
        plain_value(e),
        0 <= st,
        st + value_text(e).len() < s.len(),
        s.subrange(st, st + value_text(e).len()) == value_text(e),
        value_stop(s, st + value_text(e).len()),
    ensures
        term(s, st) == Some((e, st + value_text(e).len())),
{
    let w = value_text(e);
    let j = st + w.len();
    if e is String {
        let v = e->String_0;
        assert(e == ExprV::String(v));
        let m = encode_str(v).len() as int;
        assert(w == quoted(v));
        assert(w.len() == m + 2);
        assert(s[st] == '"') by {
            assert(s.subrange(st, st + w.len())[0] == s[st]);
        }
        assert(s[st + 1 + m] == '"') by {
            assert(s.subrange(st, st + w.len())[1 + m] == s[st + 1 + m]);
        }
        assert(s.subrange(st + 1, st + 1 + m) =~= encode_str(v)) by {
            assert(s.subrange(st + 1, st + 1 + m) =~= s.subrange(st, st + w.len()).subrange(1, 1 + m));
        }
        lemma_string_term(s, st, v);
    } else if e is Number && e->Number_0 is PosInt {
        let v = e->Number_0->PosInt_0;
        assert(e == ExprV::Number(NumberV::PosInt(v)));
        lemma_read_number(s, st, v);
    } else if e is Number {
        let v = e->Number_0->NegInt_0;
        assert(e == ExprV::Number(NumberV::NegInt(v)));
        lemma_read_negative(s, st, v);
    } else if e is Template {
        let t = e->Template_0->Quoted_0;
        assert(e == ExprV::Template(TemplateV::Quoted(t)));
        lemma_template_term(s, st, t);
    } else {
        lemma_word_plain(e);
        lemma_read_word(s, st, w);
    }
}

/// A plain value followed by a line ending, where no parenthesis follows after whitespace, is
/// read as an expression, and the structure ends after the line ending.
proof fn lemma_read_plain_value(s: Seq<char>, st: int, e: ExprV)
    requires
        plain_value(e),
        0 <= st,
        st + value_text(e).len() < s.len(),
        s.subrange(st, st + value_text(e).len()) == value_text(e),
        s[st + value_text(e).len()] == '\n',
        ws(s, st + value_text(e).len() + 1) >= s.len() || s[ws(s, st + value_text(e).len() + 1)]
            != '(',
    ensures
        expr(s, st) == Some((e, st + value_text(e).len())),
        structure_end(s, st + value_text(e).len()) == Some(st + value_text(e).len() + 1),
{
    lemma_read_scalar(s, st, e);
    lemma_at_line_end(s, st + value_text(e).len());
}

/// The formatter writes the value of an attribute as its plain text, or as an array text.
proof fn lemma_attr_text(e: ExprV, pre: Seq<char>, ind: Seq<char>)
    requires
        attr_value(e),
    ensures
        fmt_expr(e, pre, ind, false) == attr_text(e, pre, ind),
{
    if e is Array {
        assert(fmt_expr(e, pre, ind, false) == crate::format::fmt_array(e->Array_0, pre, ind, false));
    } else if compound_value(e) {
        lemma_compound_text(e, pre, ind, false);
    } else if e is Object {
    } else {
        lemma_value_text(e, pre, ind, false);
    }
}

/// The formatter writes a plain traversal operator as its text.
proof fn lemma_op_text(o: TraversalOpV, pre: Seq<char>, ind: Seq<char>, compact: bool)
    requires
        plain_op(o),
    ensures
        crate::format::fmt_op(o, pre, ind, compact) == op_text(o),
{
    if let TraversalOpV::Index(e) = o {
        lemma_value_text(e, pre, ind, compact);
    }
}

/// The formatter writes plain traversal operators as their texts.
proof fn lemma_ops_text(ops: Seq<TraversalOpV>, pre: Seq<char>, ind: Seq<char>, compact: bool)
    requires
        plain_ops(ops),
    ensures
        crate::format::fmt_ops(ops, pre, ind, compact) == ops_text(ops),
    decreases ops.len(),
{
    if ops.len() > 0 {
        assert(plain_ops(ops.drop_last())) by {
            assert forall|i: int| 0 <= i < ops.drop_last().len() implies plain_op(
                #[trigger] ops.drop_last()[i],
            ) by {
                assert(ops.drop_last()[i] == ops[i]);
            }
        }
        lemma_ops_text(ops.drop_last(), pre, ind, compact);
        assert(ops[ops.len() - 1] == ops.last());
        assert(plain_op(ops[ops.len() - 1]));
        lemma_op_text(ops.last(), pre, ind, compact);
        assert(crate::format::fmt_ops(ops, pre, ind, compact) == crate::format::fmt_ops(
            ops.drop_last(),
            pre,
            ind,
            compact,
        ) + crate::format::fmt_op(ops.last(), pre, ind, compact));
    } else {
        assert(crate::format::fmt_ops(ops, pre, ind, compact) == Seq::<char>::empty());
    }
}

/// The formatter writes a compound value as its compound text, whatever the indentation.
proof fn lemma_compound_text(e: ExprV, pre: Seq<char>, ind: Seq<char>, compact: bool)
    requires
        compound_value(e),
    ensures
        fmt_expr(e, pre, ind, compact) == compound_text(e),
{
    match e {
        ExprV::Parenthesis(i) => {
            lemma_value_text(*i, pre, ind, compact);
        },
        ExprV::Conditional(c, t, f) => {
            if plain_trav(*c) {
                let i = *(*c)->Traversal_0;
                let ops = (*c)->Traversal_1;
                assert(*c == ExprV::Traversal(Box::new(i), ops));
                lemma_value_text(i, pre, ind, compact);
                lemma_ops_text(ops, pre, ind, compact);
                assert(fmt_expr(*c, pre, ind, compact) == fmt_expr(i, pre, ind, compact)
                    + crate::format::fmt_ops(ops, pre, ind, compact));
                assert(fmt_expr(*c, pre, ind, compact) == head_text(*c));
            } else {
                lemma_value_text(*c, pre, ind, compact);
                assert(!(*c is Traversal));
                assert(head_text(*c) == value_text(*c));
            }
            lemma_value_text(*t, pre, ind, compact);
            lemma_value_text(*f, pre, ind, compact);
        },
        ExprV::Traversal(i, ops) => {
            lemma_value_text(*i, pre, ind, compact);
            lemma_ops_text(ops, pre, ind, compact);
        },
        ExprV::FuncCall(name, args, expand) => {
            lemma_joined_fmt(args, pre, ind);
            assert(fmt_expr(e, pre, ind, compact) =~= compound_text(e));
        },
        _ => {},
    }
}

/// The formatter writes a plain value as its plain text, whatever the indentation.
proof fn lemma_value_text(e: ExprV, pre: Seq<char>, ind: Seq<char>, compact: bool)
    requires
        plain_value(e),
    ensures
        fmt_expr(e, pre, ind, compact) == value_text(e),
{
}

/// The line of one array element: its indentation, its text and what ends it.
pub open spec fn element_line(e: ExprV, pre: Seq<char>, ind: Seq<char>, end: Seq<char>) -> Seq<
    char,
> {
    pre + ind + fmt_expr(e, pre + ind, ind, false) + end
}

/// Elements written with a comma after each are, from the front, the first one's line and the
/// others.
proof fn lemma_comma_front(es: Seq<ExprV>, pre: Seq<char>, ind: Seq<char>)
    requires
        es.len() > 0,
    ensures
        fmt_elements_comma(es, pre, ind) == element_line(es[0], pre, ind, seq![',', '\n'])
            + fmt_elements_comma(es.drop_first(), pre, ind),
    decreases es.len(),
{
    if es.len() == 1 {
        assert(fmt_elements_comma(es.drop_last(), pre, ind) == Seq::<char>::empty());
        assert(fmt_elements_comma(es.drop_first(), pre, ind) == Seq::<char>::empty());
        assert(fmt_elements_comma(es, pre, ind) =~= element_line(es[0], pre, ind, seq![',', '\n']));
    } else {
        let init = es.drop_last();
        lemma_comma_front(init, pre, ind);
        assert(init.drop_first() =~= es.drop_first().drop_last());
        assert(es.drop_first().last() == es.last());
        assert(init[0] == es[0]);
        assert(fmt_elements_comma(es, pre, ind) =~= element_line(es[0], pre, ind, seq![',', '\n'])
            + fmt_elements_comma(es.drop_first(), pre, ind));
    }
}

/// The lines of two or more elements are, from the front, the first one's line with a comma
/// and the lines of the others.
proof fn lemma_elements_front(es: Seq<ExprV>, pre: Seq<char>, ind: Seq<char>)
    requires
        es.len() > 0,
    ensures
        es.len() == 1 ==> fmt_elements(es, pre, ind) == element_line(es[0], pre, ind, seq!['\n']),
        es.len() > 1 ==> fmt_elements(es, pre, ind) == element_line(es[0], pre, ind, seq![',', '\n'])
            + fmt_elements(es.drop_first(), pre, ind),
{
    if es.len() == 1 {
        assert(fmt_elements_comma(es.drop_last(), pre, ind) == Seq::<char>::empty());
        assert(fmt_elements(es, pre, ind) =~= element_line(es[0], pre, ind, seq!['\n']));
    } else {
        lemma_comma_front(es.drop_last(), pre, ind);
        assert(es.drop_last().drop_first() =~= es.drop_first().drop_last());
        assert(es.drop_first().last() == es.last());
        assert(es.drop_last()[0] == es[0]);
        assert(fmt_elements(es, pre, ind) =~= element_line(es[0], pre, ind, seq![',', '\n'])
            + fmt_elements(es.drop_first(), pre, ind));
    }
}

/// An array's items: the first element and the rest.
proof fn lemma_items_cons(
    s: Seq<char>,
    k: int,
    p: int,
    e0: ExprV,
    q: int,
    rest: Seq<ExprV>,
    end: int,
)
    requires
        0 <= k <= s.len(),
        ws(s, k) == p,
        p < s.len(),
        s[p] != ']',
        expr(s, p) == Some((e0, q)),
        p < q <= s.len(),
        crate::parser::array_rest(s, ws(s, q)) == Some((rest, end)),
    ensures
        crate::parser::array_items(s, k) == Some((seq![e0] + rest, end)),
{
    lemma_sp_ws(s, q);
}

/// The rest of an array at its closing bracket.
proof fn lemma_rest_end(s: Seq<char>, r: int)
    requires
        0 <= r < s.len(),
        s[r] == ']',
    ensures
        crate::parser::array_rest(s, r) == Some((Seq::<ExprV>::empty(), r + 1)),
{
    assert(crate::parser::elem_step(s, r) == Some((None::<ExprV>, r + 1)));
}

/// The rest of an array at a comma: the next element and what follows it.
proof fn lemma_rest_cons(
    s: Seq<char>,
    k: int,
    p: int,
    e0: ExprV,
    q: int,
    rest: Seq<ExprV>,
    end: int,
)
    requires
        0 <= k < s.len(),
        s[k] == ',',
        ws(s, k + 1) == p,
        p < s.len(),
        s[p] != ']',
        expr(s, p) == Some((e0, q)),
        p < q <= s.len(),
        k < ws(s, q) <= s.len(),
        crate::parser::array_rest(s, ws(s, q)) == Some((rest, end)),
    ensures
        crate::parser::array_rest(s, k) == Some((seq![e0] + rest, end)),
{
    lemma_sp_ws(s, k + 1);
    lemma_sp_ws(s, q);
    assert(crate::parser::elem_step(s, k) == Some((Some(e0), ws(s, q))));
}

/// An array term.
proof fn lemma_array_term(s: Seq<char>, st: int, es: Seq<ExprV>, end: int)
    requires
        0 <= st < s.len(),
        s[st] == '[',
        !crate::parser::is_for_start(s, ws(s, st + 1)),
        crate::parser::array_items(s, st + 1) == Some((es, end)),
    ensures
        term(s, st) == Some((ExprV::Array(es), end)),
{
}

/// No `for` expression starts at a plain value that a comma or a line ending follows.
proof fn lemma_not_for(s: Seq<char>, p: int, e: ExprV)
    requires
        plain_value(e),
        0 <= p,
        p + value_text(e).len() < s.len(),
        s.subrange(p, p + value_text(e).len()) == value_text(e),
        s[p + value_text(e).len()] == ',' || s[p + value_text(e).len()] == '\n',
    ensures
        !crate::parser::is_for_start(s, p),
        s[p] != ']',
{
    let w = value_text(e);
    assert(w.len() > 0) by {
        if e is Number && e->Number_0 is PosInt {
            lemma_decimal(e->Number_0->PosInt_0 as nat);
        }
        if e is Variable {
            assert(plain_key(e->Variable_0));
        }
    }
    assert(s[p] == w[0]) by {
        assert(s.subrange(p, p + w.len())[0] == s[p]);
    }
    if e is Number && e->Number_0 is PosInt {
        lemma_decimal(e->Number_0->PosInt_0 as nat);
    }
    if crate::parser::is_for_start(s, p) {
        // Only a word starts with `f`; its characters and the one after it are no blank.
        assert(s[p] == 'f');
        lemma_word_plain_any(e);
        if p + 3 < p + w.len() {
            assert(s[p + 3] == w[3]) by {
                assert(s.subrange(p, p + w.len())[3] == s[p + 3]);
            }
            assert(ident_char(w[3]));
        } else {
            assert(w.len() == 3);
        }
    }
}

/// A plain value that starts with `f` is a word of identifier characters.
proof fn lemma_word_plain_any(e: ExprV)
    requires
        plain_value(e),
        value_text(e).len() > 0,
        value_text(e)[0] == 'f',
    ensures
        plain_key(value_text(e)),
{
    if e is Number && e->Number_0 is PosInt {
        lemma_decimal(e->Number_0->PosInt_0 as nat);
    }
    if !(e is String) && !(e is Number) {
        lemma_word_plain(e);
    }
}

/// The text of the elements of a non-empty array after its `[`: a line ending, the element
/// lines, the indentation and the closing bracket.
pub open spec fn items_text(es: Seq<ExprV>, pre: Seq<char>, ind: Seq<char>) -> Seq<char> {
    seq!['\n'] + fmt_elements(es, pre, ind) + pre + seq![']']
}

/// Whether an array element is read back as written: a plain value, or a compound value other
/// than a conditional on a variable named `for`.
pub open spec fn elem_value(e: ExprV) -> bool {
    plain_value(e) || (compound_value(e) && !(e is Conditional && *e->Conditional_0
        == ExprV::Variable(seq!['f', 'o', 'r'])))
}

/// The text the formatter writes for an array element.
pub open spec fn elem_text(e: ExprV) -> Seq<char> {
    if plain_value(e) {
        value_text(e)
    } else {
        compound_text(e)
    }
}

/// Whether every element is read back as written.
pub open spec fn elem_values(es: Seq<ExprV>) -> bool {
    forall|i: int| 0 <= i < es.len() ==> elem_value(#[trigger] es[i])
}

/// Whether every element is a plain value.
pub open spec fn plain_values(es: Seq<ExprV>) -> bool {
    forall|i: int| 0 <= i < es.len() ==> plain_value(#[trigger] es[i])
}

/// Where the text of the elements stands at `k`, whitespace leads to the first element, which
/// is read as an expression; after it comes a comma and the text of the others, or whitespace
/// and the closing bracket.
#[verifier::spinoff_prover]
#[verifier::rlimit(60)]
proof fn lemma_read_element(s: Seq<char>, k: int, es: Seq<ExprV>, pre: Seq<char>, ind: Seq<char>)
    requires
        es.len() > 0,
        elem_values(es),
        blanks(pre),
        blanks(ind),
        0 <= k,
        k + items_text(es, pre, ind).len() <= s.len(),
        s.subrange(k, k + items_text(es, pre, ind).len()) == items_text(es, pre, ind),
    ensures
        ({
            let p = k + 1 + pre.len() + ind.len();
            let q = p + elem_text(es[0]).len();
            &&& ws(s, k) == p
            &&& p < s.len()
            &&& s[p] != ']'
            &&& !crate::parser::is_for_start(s, p)
            &&& expr(s, p) == Some((es[0], q))
            &&& p < q <= s.len()
            &&& es.len() == 1 ==> ws(s, q) == k + items_text(es, pre, ind).len() - 1 && s[k
                + items_text(es, pre, ind).len() - 1] == ']'
            &&& es.len() > 1 ==> s[q] == ',' && ws(s, q) == q && q + 1 + items_text(
                es.drop_first(),
                pre,
                ind,
            ).len() == k + items_text(es, pre, ind).len() && s.subrange(
                q + 1,
                q + 1 + items_text(es.drop_first(), pre, ind).len(),
            ) == items_text(es.drop_first(), pre, ind)
        }),
{
    let t = items_text(es, pre, ind);
    let e0 = es[0];
    assert(elem_value(e0));
    let v0 = elem_text(e0);
    lemma_elem_text(e0, pre + ind, ind);
    lemma_elements_front(es, pre, ind);
    let pi = pre + ind;
    let pl: int = pi.len() as int;
    let vl: int = v0.len() as int;
    let prl: int = pre.len() as int;
    let p = k + 1 + pl;
    let q = p + vl;
    let endc = if es.len() == 1 {
        seq!['\n']
    } else {
        seq![',', '\n']
    };
    let line = element_line(e0, pre, ind, endc);
    assert(line =~= pi + v0 + endc);
    let more = if es.len() == 1 {
        Seq::<char>::empty()
    } else {
        fmt_elements(es.drop_first(), pre, ind)
    };
    assert(t =~= seq!['\n'] + pi + v0 + endc + more + pre + seq![']']);
    // Whitespace up to the element.
    assert forall|x: int| 0 <= x < 1 + pl implies (#[trigger] t[x] == ' ' || t[x] == '\t'
        || t[x] == '\n') by {
        if x > 0 {
            assert(t[x] == pi[x - 1]);
            if x - 1 < pre.len() {
                assert(pi[x - 1] == pre[x - 1]);
            } else {
                assert(pi[x - 1] == ind[x - 1 - pre.len()]);
            }
        }
    }
    lemma_spacing_at(s, k, t, 0, 1 + pl);
    lemma_ws_skip(s, k, 1 + pl);
    lemma_piece_at(s, k, t, 1 + pl, vl);
    assert(t.subrange(1 + pl, 1 + pl + vl) =~= v0);
    lemma_char_at(s, k, t, 1 + pl + vl);
    assert(t[1 + pl + vl] == endc[0]);
    if es.len() == 1 {
        // After the line ending, the indentation and the closing bracket.
        assert forall|x: int| 1 + pl + vl <= x < 1 + pl + vl + 1 + prl implies (
        #[trigger] t[x] == ' ' || t[x] == '\t' || t[x] == '\n') by {
            if x > 1 + pl + vl {
                assert(t[x] == pre[x - (2 + pl + vl)]);
            }
        }
        lemma_spacing_at(s, k, t, 1 + pl + vl, 1 + prl);
        lemma_ws_skip(s, q, 1 + prl);
        lemma_char_at(s, k, t, t.len() - 1);
        lemma_ws_stop(s, k + t.len() - 1);
        assert(spacing(s, q, 1));
        lemma_ws_skip(s, q + 1, prl);
        lemma_read_elem(s, p, e0);
    } else {
        let rt = items_text(es.drop_first(), pre, ind);
        let rtl: int = rt.len() as int;
        assert(rt =~= seq!['\n'] + more + pre + seq![']']);
        lemma_piece_at(s, k, t, 2 + pl + vl, rtl);
        assert(t.subrange(2 + pl + vl, 2 + pl + vl + rtl) =~= rt);
        assert(ws(s, q) == q);
        lemma_read_elem(s, p, e0);
    }
}

/// The formatter writes an array element as its text.
proof fn lemma_elem_text(e: ExprV, pi: Seq<char>, ind: Seq<char>)
    requires
        elem_value(e),
    ensures
        fmt_expr(e, pi, ind, false) == elem_text(e),
{
    if plain_value(e) {
        lemma_value_text(e, pi, ind, false);
    } else {
        lemma_compound_text(e, pi, ind, false);
    }
}

/// No `for` expression starts at a plain name followed by `.`, `[` or `(`, nor at one other than
/// `for` followed by a space.
proof fn lemma_word_not_for(s: Seq<char>, p: int, v: Seq<char>)
    requires
        plain_key(v),
        0 <= p,
        p + v.len() < s.len(),
        s.subrange(p, p + v.len()) == v,
        s[p + v.len()] == '.' || s[p + v.len()] == '[' || s[p + v.len()] == '(' || (s[p
            + v.len()] == ' ' && v != seq!['f', 'o', 'r']),
    ensures
        !crate::parser::is_for_start(s, p),
{
    if crate::parser::is_for_start(s, p) {
        assert(s[p] == 'f' && s[p + 1] == 'o' && s[p + 2] == 'r') by {
            assert(s.subrange(p, p + 3)[0] == s[p]);
            assert(s.subrange(p, p + 3)[1] == s[p + 1]);
            assert(s.subrange(p, p + 3)[2] == s[p + 2]);
        }
        if v.len() > 3 {
            lemma_char_at(s, p, v, 3);
            assert(ident_char(v[3]));
        } else if v.len() == 3 {
            lemma_char_at(s, p, v, 0);
            lemma_char_at(s, p, v, 1);
            lemma_char_at(s, p, v, 2);
            assert(v =~= seq!['f', 'o', 'r']);
        } else {
            assert(s[p + v.len()] == 'o' || s[p + v.len()] == 'r');
        }
    }
}

/// The text of a plain value that is three characters long and starts with `f` is that of a
/// variable.
proof fn lemma_f_word(c: ExprV)
    requires
        plain_value(c),
        value_text(c).len() > 0,
        value_text(c)[0] == 'f',
    ensures
        plain_key(value_text(c)),
        value_text(c) == seq!['f', 'o', 'r'] ==> c == ExprV::Variable(seq!['f', 'o', 'r']),
{
    lemma_word_plain_any(c);
    if c is Number && c->Number_0 is PosInt {
        lemma_decimal(c->Number_0->PosInt_0 as nat);
    }
    if value_text(c) == seq!['f', 'o', 'r'] {
        assert(c is Variable);
    }
}

/// No `for` expression starts at a conditional element whose condition is not the variable
/// `for`.
#[verifier::spinoff_prover]
#[verifier::rlimit(60)]
proof fn lemma_cond_not_for(s: Seq<char>, p: int, e: ExprV)
    requires
        compound_value(e),
        e is Conditional,
        *e->Conditional_0 != ExprV::Variable(seq!['f', 'o', 'r']),
        0 <= p,
        p + compound_text(e).len() < s.len(),
        s.subrange(p, p + compound_text(e).len()) == compound_text(e),
    ensures
        !crate::parser::is_for_start(s, p),
{
    let w = compound_text(e);
    let c = *e->Conditional_0;
    let h = head_text(c);
    assert(w == h + seq![' ', '?', ' '] + value_text(*e->Conditional_1) + seq![' ', ':', ' ']
        + value_text(*e->Conditional_2));
    if plain_trav(c) {
        let v = (*c->Traversal_0)->Variable_0;
        let ops = c->Traversal_1;
        assert(plain_key(v));
        assert(h == v + ops_text(ops));
        lemma_ops_front(ops);
        assert(plain_op(ops[0]));
        lemma_op_head(ops[0]);
        lemma_piece_at(s, p, w, 0, v.len() as int);
        assert(w.subrange(0, v.len() as int) =~= v);
        assert(w[v.len() as int] == h[v.len() as int]);
        lemma_char_at(s, p, w, v.len() as int);
        lemma_word_not_for(s, p, v);
    } else {
        assert(h == value_text(c));
        lemma_ws_stop_value_len(c);
        lemma_char_at(s, p, w, 0);
        if s[p] == 'f' {
            lemma_f_word(c);
            lemma_piece_at(s, p, w, 0, h.len() as int);
            assert(w.subrange(0, h.len() as int) =~= h);
            assert(w[h.len() as int] == ' ');
            lemma_char_at(s, p, w, h.len() as int);
            lemma_word_not_for(s, p, h);
        } else {
            assert(!at(s, p, seq!['f', 'o', 'r'])) by {
                if at(s, p, seq!['f', 'o', 'r']) {
                    assert(s.subrange(p, p + 3)[0] == s[p]);
                }
            }
        }
    }
}

/// An array element that a comma or a line ending follows, where whitespace after a line ending
/// leads to no parenthesis, is read as an expression; it starts no `for` expression and no
/// closing bracket, and no whitespace stands before it.
#[verifier::spinoff_prover]
#[verifier::rlimit(60)]
proof fn lemma_read_elem(s: Seq<char>, p: int, e: ExprV)
    requires
        elem_value(e),
        0 <= p,
        p + elem_text(e).len() < s.len(),
        s.subrange(p, p + elem_text(e).len()) == elem_text(e),
        value_end(s, p + elem_text(e).len()),
    ensures
        expr(s, p) == Some((e, p + elem_text(e).len())),
        ws(s, p) == p,
        s[p] != ']',
        !crate::parser::is_for_start(s, p),
{
    let w = elem_text(e);
    if plain_value(e) {
        lemma_not_for(s, p, e);
        lemma_ws_stop_value_len(e);
        lemma_char_at(s, p, w, 0);
        lemma_ws_stop_value(s, p, e);
        lemma_read_scalar(s, p, e);
    } else {
        lemma_char_at(s, p, w, 0);
        if e is Parenthesis {
            lemma_read_paren_value(s, p, e);
            assert(s[p] == '(');
        } else if e is Conditional {
            lemma_read_cond_value(s, p, e);
            lemma_cond_not_for(s, p, e);
            let c = *e->Conditional_0;
            let h = head_text(c);
            assert(w == h + seq![' ', '?', ' '] + value_text(*e->Conditional_1) + seq![
                ' ',
                ':',
                ' ',
            ] + value_text(*e->Conditional_2));
            if plain_trav(c) {
                let v = (*c->Traversal_0)->Variable_0;
                assert(plain_key(v));
                assert(h == v + ops_text(c->Traversal_1));
                assert(w[0] == v[0]);
                assert(ident_start(s[p]));
            } else {
                assert(h == value_text(c));
                lemma_value_head(c);
                assert(w[0] == h[0]);
                lemma_ws_stop_value(s, p, c);
            }
        } else if e is FuncCall {
            lemma_read_call_value(s, p, e);
            let name = e->FuncCall_0;
            assert(plain_key(name));
            lemma_piece_at(s, p, w, 0, name.len() as int);
            assert(w.subrange(0, name.len() as int) =~= name);
            lemma_char_at(s, p, w, name.len() as int);
            lemma_word_not_for(s, p, name);
        } else {
            lemma_read_trav_value(s, p, e);
            let v = (*e->Traversal_0)->Variable_0;
            let ops = e->Traversal_1;
            assert(plain_key(v));
            assert(w == v + ops_text(ops));
            lemma_ops_front(ops);
            assert(plain_op(ops[0]));
            lemma_op_head(ops[0]);
            lemma_piece_at(s, p, w, 0, v.len() as int);
            assert(w.subrange(0, v.len() as int) =~= v);
            lemma_char_at(s, p, w, v.len() as int);
            lemma_word_not_for(s, p, v);
        }
        lemma_sp_ws(s, p);
        assert(ws(s, p) == p);
    }
}

/// The items of an array that is empty.
proof fn lemma_items_empty(s: Seq<char>, k: int)
    requires
        0 <= k < s.len(),
        s[k] == ']',
    ensures
        ws(s, k) == k,
        crate::parser::array_items(s, k) == Some((Seq::<ExprV>::empty(), k + 1)),
{
    assert(ws(s, k) == k);
}

/// Where a comma and the text of the elements stand at `k`, the rest of the array is read as
/// those elements.
proof fn lemma_read_rest(s: Seq<char>, k: int, es: Seq<ExprV>, pre: Seq<char>, ind: Seq<char>)
    requires
        es.len() > 0,
        elem_values(es),
        blanks(pre),
        blanks(ind),
        0 <= k,
        s[k] == ',',
        k + 1 + items_text(es, pre, ind).len() <= s.len(),
        s.subrange(k + 1, k + 1 + items_text(es, pre, ind).len()) == items_text(es, pre, ind),
    ensures
        crate::parser::array_rest(s, k) == Some((es, k + 1 + items_text(es, pre, ind).len())),
    decreases es.len(),
{
    let t = items_text(es, pre, ind);
    lemma_read_element(s, k + 1, es, pre, ind);
    let p = k + 1 + 1 + pre.len() + ind.len();
    let q = p + elem_text(es[0]).len();
    let rest = es.drop_first();
    if es.len() == 1 {
        let r = k + 1 + t.len() - 1;
        lemma_rest_end(s, r);
        assert(rest =~= Seq::<ExprV>::empty());
        lemma_rest_cons(s, k, p, es[0], q, rest, r + 1);
    } else {
        assert forall|x: int| 0 <= x < rest.len() implies elem_value(#[trigger] rest[x]) by {
            assert(rest[x] == es[x + 1]);
        }
        lemma_read_rest(s, q, rest, pre, ind);
        lemma_rest_cons(s, k, p, es[0], q, rest, k + 1 + t.len());
    }
    assert(seq![es[0]] + rest =~= es);
}

/// An array of plain values followed by a line ending is read as an expression, and the
/// structure ends after the line ending.
#[verifier::spinoff_prover]
#[verifier::rlimit(100)]
proof fn lemma_read_array_value(
    s: Seq<char>,
    st: int,
    es: Seq<ExprV>,
    pre: Seq<char>,
    ind: Seq<char>,
)
    requires
        elem_values(es),
        blanks(pre),
        blanks(ind),
        0 <= st,
        st + array_text(es, pre, ind).len() < s.len(),
        s.subrange(st, st + array_text(es, pre, ind).len()) == array_text(es, pre, ind),
        s[st + array_text(es, pre, ind).len()] == '\n',
    ensures
        expr(s, st) == Some((ExprV::Array(es), st + array_text(es, pre, ind).len())),
        structure_end(s, st + array_text(es, pre, ind).len()) == Some(
            st + array_text(es, pre, ind).len() + 1,
        ),
{
    let a = array_text(es, pre, ind);
    let j = st + a.len();
    lemma_char_at(s, st, a, 0);
    if es.len() == 0 {
        lemma_char_at(s, st, a, 1);
        lemma_items_empty(s, st + 1);
        assert(es =~= Seq::<ExprV>::empty());
        lemma_array_term(s, st, es, st + 2);
    } else {
        let t = items_text(es, pre, ind);
        assert(a =~= seq!['['] + t);
        lemma_piece_at(s, st, a, 1, t.len() as int);
        assert(a.subrange(1, (1 + t.len()) as int) =~= t);
        lemma_read_element(s, st + 1, es, pre, ind);
        let p = st + 1 + 1 + pre.len() + ind.len();
        let q = p + elem_text(es[0]).len();
        let rest = es.drop_first();
        if es.len() == 1 {
            let r = st + 1 + t.len() - 1;
            lemma_rest_end(s, r);
            assert(rest =~= Seq::<ExprV>::empty());
            lemma_items_cons(s, st + 1, p, es[0], q, rest, r + 1);
        } else {
            assert forall|x: int| 0 <= x < rest.len() implies elem_value(#[trigger] rest[x]) by {
                assert(rest[x] == es[x + 1]);
            }
            lemma_read_rest(s, q, rest, pre, ind);
            lemma_items_cons(s, st + 1, p, es[0], q, rest, st + 1 + t.len());
        }
        assert(seq![es[0]] + rest =~= es);
        lemma_array_term(s, st, es, j);
    }
    lemma_term_is_expr(s, st, ExprV::Array(es), j);
    lemma_at_line_end(s, j);
}

/// Whether an object key is read back as written: a plain name other than `for` that is read
/// as a variable, or a string.
pub open spec fn plain_obj_key(k: KeyV) -> bool {
    ||| k is Ident && plain_value(ExprV::Variable(k->Ident_0)) && k->Ident_0 != seq!['f', 'o', 'r']
    ||| k is Expr && k->Expr_0 is String
}

/// The expression that an object key is read from.
pub open spec fn key_expr(k: KeyV) -> ExprV {
    match k {
        KeyV::Ident(n) => ExprV::Variable(n),
        KeyV::Expr(e) => e,
    }
}

/// Whether an object item's value is read back as written: a plain value, a compound value, or
/// an array of plain values.
pub open spec fn item_value(v: ExprV) -> bool {
    plain_value(v) || compound_value(v) || (v is Array && elem_values(v->Array_0))
}

/// The text the formatter writes for the value of an object item whose line is indented by `pi`.
pub open spec fn item_text(v: ExprV, pi: Seq<char>, ind: Seq<char>) -> Seq<char> {
    if plain_value(v) {
        value_text(v)
    } else if v is Array {
        array_text(v->Array_0, pi, ind)
    } else {
        compound_text(v)
    }
}

/// Whether every item of an object has a plain key and a plain or compound value.
pub open spec fn plain_items(ps: Seq<(KeyV, ExprV)>) -> bool {
    forall|i: int| 0 <= i < ps.len() ==> plain_obj_key(#[trigger] ps[i].0) && item_value(ps[i].1)
}

/// The line the formatter writes for an object item.
pub open spec fn item_fmt(p: (KeyV, ExprV), pre: Seq<char>, ind: Seq<char>) -> Seq<char> {
    pre + ind + crate::format::fmt_key(p.0, pre + ind, ind, false) + seq![' ', '=', ' '] + fmt_expr(
        p.1,
        pre + ind,
        ind,
        false,
    ) + seq!['\n']
}

/// The text of the items of a non-empty object after its `{` and line ending: the item lines,
/// the indentation and the closing brace.
pub open spec fn obj_items_text(ps: Seq<(KeyV, ExprV)>, pre: Seq<char>, ind: Seq<char>) -> Seq<
    char,
> {
    crate::format::fmt_items(ps, pre, ind) + pre + seq!['}']
}

/// Object items, from the front: the first item's line and the others.
proof fn lemma_obj_front(ps: Seq<(KeyV, ExprV)>, pre: Seq<char>, ind: Seq<char>)
    requires
        ps.len() > 0,
    ensures
        crate::format::fmt_items(ps, pre, ind) == item_fmt(ps[0], pre, ind)
            + crate::format::fmt_items(ps.drop_first(), pre, ind),
    decreases ps.len(),
{
    if ps.len() == 1 {
        assert(crate::format::fmt_items(ps.drop_last(), pre, ind) == Seq::<char>::empty());
        assert(crate::format::fmt_items(ps.drop_first(), pre, ind) == Seq::<char>::empty());
        assert(crate::format::fmt_items(ps, pre, ind) =~= item_fmt(ps[0], pre, ind));
    } else {
        let init = ps.drop_last();
        lemma_obj_front(init, pre, ind);
        assert(init.drop_first() =~= ps.drop_first().drop_last());
        assert(ps.drop_first().last() == ps.last());
        assert(init[0] == ps[0]);
        assert(crate::format::fmt_items(ps, pre, ind) =~= item_fmt(ps[0], pre, ind)
            + crate::format::fmt_items(ps.drop_first(), pre, ind));
    }
}

/// The line of a plain object item is its key's text, ` = ` and its value's text.
proof fn lemma_item_fmt(p: (KeyV, ExprV), pre: Seq<char>, ind: Seq<char>)
    requires
        plain_obj_key(p.0),
        item_value(p.1),
    ensures
        item_fmt(p, pre, ind) == pre + ind + value_text(key_expr(p.0)) + seq![' ', '=', ' ']
            + item_text(p.1, pre + ind, ind) + seq!['\n'],
        plain_value(key_expr(p.0)),
        crate::parser::key_of(key_expr(p.0)) == p.0,
{
    if plain_value(p.1) {
        lemma_value_text(p.1, pre + ind, ind, false);
    } else if p.1 is Array {
        assert(fmt_expr(p.1, pre + ind, ind, false) == crate::format::fmt_array(
            p.1->Array_0,
            pre + ind,
            ind,
            false,
        ));
    } else {
        lemma_compound_text(p.1, pre + ind, ind, false);
    }
    if p.0 is Expr {
        lemma_value_text(p.0->Expr_0, pre + ind, ind, false);
    }
}

/// A term that whitespace and then `=` (not `==`) follow is the whole expression.
#[verifier::spinoff_prover]
#[verifier::rlimit(40)]
proof fn lemma_term_eq(s: Seq<char>, st: int, e: ExprV, j: int)
    requires
        0 <= st < j,
        j + 2 < s.len(),
        term(s, st) == Some((e, j)),
        s[j] == ' ',
        s[j + 1] == '=',
        s[j + 2] == ' ',
    ensures
        expr(s, st) == Some((e, j)),
{
    lemma_sp_ws(s, j);
    assert(sp(s, j + 1) == j + 1);
    assert(sp(s, j) == j + 1);
    assert(trav_step(s, j) == Some((None::<TraversalOpV>, j)));
    assert(trav_ops(s, j) == Some((Seq::<TraversalOpV>::empty(), j)));
    assert(crate::parser::binop_at(s, j + 1) is None);
}

/// The spaces and `=` between an object key and its value, and the line ending after it.
#[verifier::spinoff_prover]
#[verifier::rlimit(40)]
proof fn lemma_item_spaces(s: Seq<char>, j: int, r: int)
    requires
        0 <= j,
        j + 3 <= r < s.len(),
        s[j] == ' ',
        s[j + 1] == '=',
        s[j + 2] == ' ',
        sp(s, j + 3) == j + 3,
        s[r] == '\n',
    ensures
        sp(s, j) == j + 1,
        sp(s, j + 2) == j + 3,
        sp(s, r) == r,
{
    lemma_sp_eq(s, j);
    assert(sp(s, j + 2) == j + 3);
    assert(sp(s, r) == r);
}

/// An object item as the parser reads it.
#[verifier::spinoff_prover]
#[verifier::rlimit(100)]
proof fn lemma_obj_item(s: Seq<char>, p: int, ke: ExprV, j: int, v: ExprV, r: int)
    requires
        0 <= p < j,
        j + 3 <= r < s.len(),
        expr(s, p) == Some((ke, j)),
        s[j + 1] == '=',
        sp(s, j) == j + 1,
        sp(s, j + 2) == j + 3,
        sp(s, r) == r,
        expr(s, j + 3) == Some((v, r)),
    ensures
        crate::parser::object_item(s, p) == Some(((crate::parser::key_of(ke), v), r)),
{
}

/// Spaces before `=` are skipped up to it.
proof fn lemma_sp_eq(s: Seq<char>, j: int)
    requires
        0 <= j,
        j + 1 < s.len(),
        s[j] == ' ',
        s[j + 1] == '=',
    ensures
        sp(s, j) == j + 1,
{
    assert(sp(s, j + 1) == j + 1);
}

/// A line ending separates object items.
proof fn lemma_item_sep_nl(s: Seq<char>, r: int)
    requires
        0 <= r < s.len(),
        s[r] == '\n',
    ensures
        crate::parser::item_sep(s, r) == Some(r + 1),
{
}

/// Where `pi`, `kt`, ` = `, `vt`, a line ending and `rt` stand at `k`, the pieces stand where
/// their lengths put them.
#[verifier::spinoff_prover]
#[verifier::rlimit(60)]
proof fn lemma_item_layout(
    s: Seq<char>,
    k: int,
    pi: Seq<char>,
    kt: Seq<char>,
    vt: Seq<char>,
    rt: Seq<char>,
)
    requires
        0 <= k,
        k + (pi + kt + seq![' ', '=', ' '] + vt + seq!['\n'] + rt).len() <= s.len(),
        s.subrange(k, k + (pi + kt + seq![' ', '=', ' '] + vt + seq!['\n'] + rt).len()) == pi + kt
            + seq![' ', '=', ' '] + vt + seq!['\n'] + rt,
    ensures
        s.subrange(k, k + pi.len()) == pi,
        s.subrange(k + pi.len(), k + pi.len() + kt.len()) == kt,
        s[k + pi.len() + kt.len()] == ' ',
        s[k + pi.len() + kt.len() + 1] == '=',
        s[k + pi.len() + kt.len() + 2] == ' ',
        s.subrange(k + pi.len() + kt.len() + 3, k + pi.len() + kt.len() + 3 + vt.len()) == vt,
        s[k + pi.len() + kt.len() + 3 + vt.len()] == '\n',
        s.subrange(k + pi.len() + kt.len() + 4 + vt.len(), k + pi.len() + kt.len() + 4 + vt.len()
            + rt.len()) == rt,
{
    let t = pi + kt + seq![' ', '=', ' '] + vt + seq!['\n'] + rt;
    let pl: int = pi.len() as int;
    let kl: int = kt.len() as int;
    let vl: int = vt.len() as int;
    lemma_piece_at(s, k, t, 0, pl);
    assert(t.subrange(0, pl) =~= pi);
    lemma_piece_at(s, k, t, pl, kl);
    assert(t.subrange(pl, pl + kl) =~= kt);
    lemma_char_at(s, k, t, pl + kl);
    lemma_char_at(s, k, t, pl + kl + 1);
    lemma_char_at(s, k, t, pl + kl + 2);
    lemma_piece_at(s, k, t, pl + kl + 3, vl);
    assert(t.subrange(pl + kl + 3, pl + kl + 3 + vl) =~= vt);
    lemma_char_at(s, k, t, pl + kl + 3 + vl);
    lemma_piece_at(s, k, t, pl + kl + 4 + vl, rt.len() as int);
    assert(t.subrange(pl + kl + 4 + vl, pl + kl + 4 + vl + rt.len()) =~= rt);
}

/// Indentation made of blanks is skipped as whitespace.
proof fn lemma_skip_indent(s: Seq<char>, k: int, pi: Seq<char>)
    requires
        blanks(pi),
        0 <= k,
        k + pi.len() <= s.len(),
        s.subrange(k, k + pi.len()) == pi,
    ensures
        ws(s, k) == ws(s, k + pi.len()),
{
    assert forall|x: int| k <= x < k + pi.len() implies (#[trigger] s[x] == ' ' || s[x] == '\t'
        || s[x] == '\n') by {
        lemma_char_at(s, k, pi, x - k);
    }
    lemma_ws_skip(s, k, pi.len() as int);
}

/// A plain key that spaces and `=` follow is read as an expression.
#[verifier::spinoff_prover]
#[verifier::rlimit(60)]
proof fn lemma_read_key_expr(s: Seq<char>, p: int, ke: ExprV)
    requires
        plain_value(ke),
        ke is Variable || ke is String,
        0 <= p,
        p + value_text(ke).len() + 3 < s.len(),
        s.subrange(p, p + value_text(ke).len()) == value_text(ke),
        s[p + value_text(ke).len()] == ' ',
        s[p + value_text(ke).len() + 1] == '=',
        s[p + value_text(ke).len() + 2] == ' ',
    ensures
        expr(s, p) == Some((ke, p + value_text(ke).len())),
        ws(s, p) == p,
        value_text(ke).len() > 0,
{
    let kt = value_text(ke);
    let j = p + kt.len();
    assert(kt.len() > 0) by {
        if ke is Variable {
            assert(plain_key(ke->Variable_0));
        }
    }
    lemma_char_at(s, p, kt, 0);
    lemma_ws_stop_value(s, p, ke);
    lemma_sp_ws(s, j + 1);
    assert(ws(s, j + 1) == j + 1);
    assert(ws(s, j) == j + 1);
    assert(value_stop(s, j));
    lemma_read_scalar_term(s, p, ke);
    lemma_term_eq(s, p, ke, j);
}

/// The value of an object item that a line ending follows, where whitespace after it leads to
/// no parenthesis, is read as an expression, and no spaces stand before it.
#[verifier::spinoff_prover]
#[verifier::rlimit(60)]
proof fn lemma_read_item_value(s: Seq<char>, vs: int, v: ExprV, pi: Seq<char>, ind: Seq<char>)
    requires
        item_value(v),
        blanks(pi),
        blanks(ind),
        0 <= vs,
        vs + item_text(v, pi, ind).len() < s.len(),
        s.subrange(vs, vs + item_text(v, pi, ind).len()) == item_text(v, pi, ind),
        value_end(s, vs + item_text(v, pi, ind).len()),
        s[vs + item_text(v, pi, ind).len()] == '\n',
    ensures
        expr(s, vs) == Some((v, vs + item_text(v, pi, ind).len())),
        sp(s, vs) == vs,
{
    if plain_value(v) {
        lemma_ws_stop_value_len(v);
        lemma_char_at(s, vs, value_text(v), 0);
        lemma_ws_stop_value(s, vs, v);
        lemma_read_scalar(s, vs, v);
    } else if v is Array {
        let es = v->Array_0;
        assert(v == ExprV::Array(es));
        lemma_read_array_value(s, vs, es, pi, ind);
        lemma_char_at(s, vs, array_text(es, pi, ind), 0);
        assert(sp(s, vs) == vs);
    } else {
        lemma_read_compound(s, vs, v);
    }
}

/// The text of one plain object item, where whitespace after its line ending leads to no
/// parenthesis, is read as that item.
proof fn lemma_parse_item(s: Seq<char>, p: int, k: KeyV, v: ExprV, pi: Seq<char>, ind: Seq<char>)
    requires
        plain_obj_key(k),
        plain_value(key_expr(k)),
        item_value(v),
        blanks(pi),
        blanks(ind),
        crate::parser::key_of(key_expr(k)) == k,
        0 <= p,
        p + value_text(key_expr(k)).len() + 3 + item_text(v, pi, ind).len() < s.len(),
        s.subrange(p, p + value_text(key_expr(k)).len()) == value_text(key_expr(k)),
        s[p + value_text(key_expr(k)).len()] == ' ',
        s[p + value_text(key_expr(k)).len() + 1] == '=',
        s[p + value_text(key_expr(k)).len() + 2] == ' ',
        s.subrange(
            p + value_text(key_expr(k)).len() + 3,
            p + value_text(key_expr(k)).len() + 3 + item_text(v, pi, ind).len(),
        ) == item_text(v, pi, ind),
        value_end(s, p + value_text(key_expr(k)).len() + 3 + item_text(v, pi, ind).len()),
        s[p + value_text(key_expr(k)).len() + 3 + item_text(v, pi, ind).len()] == '\n',
    ensures
        crate::parser::object_item(s, p) == Some(
            ((k, v), p + value_text(key_expr(k)).len() + 3 + item_text(v, pi, ind).len()),
        ),
        ws(s, p) == p,
{
    let ke = key_expr(k);
    let j = p + value_text(ke).len();
    let r = j + 3 + item_text(v, pi, ind).len();
    lemma_read_key_expr(s, p, ke);
    lemma_read_item_value(s, j + 3, v, pi, ind);
    lemma_item_spaces(s, j, r);
    lemma_obj_item(s, p, ke, j, v, r);
}

/// Object items: the first item, and the items after its separator.
#[verifier::spinoff_prover]
#[verifier::rlimit(60)]
proof fn lemma_obj_items_cons(s: Seq<char>, k: int, p: int, it: (KeyV, ExprV), r: int)
    requires
        0 <= k <= p < r < s.len(),
        ws(s, k) == p,
        s[p] != '}',
        crate::parser::object_item(s, p) == Some((it, r)),
        s[r] == '\n',
    ensures
        crate::parser::object_items(s, k) == crate::parser::cons(
            it,
            crate::parser::object_items(s, r + 1),
        ),
{
    lemma_item_sep_nl(s, r);
}

/// The items of an empty object: the indentation and the closing brace.
#[verifier::spinoff_prover]
#[verifier::rlimit(60)]
proof fn lemma_obj_items_empty(s: Seq<char>, k: int, pre: Seq<char>)
    requires
        blanks(pre),
        0 <= k,
        k + pre.len() + 1 <= s.len(),
        s.subrange(k, k + pre.len() + 1) == pre + seq!['}'],
    ensures
        crate::parser::object_items(s, k) == Some(
            (Seq::<(KeyV, ExprV)>::empty(), k + pre.len() + 1),
        ),
        ws(s, k) == k + pre.len(),
        s[k + pre.len()] == '}',
{
    let t = pre + seq!['}'];
    let prl: int = pre.len() as int;
    lemma_piece_at(s, k, t, 0, prl);
    assert(t.subrange(0, prl) =~= pre);
    lemma_skip_indent(s, k, pre);
    lemma_char_at(s, k, t, prl);
    lemma_ws_stop(s, k + prl);
}

/// The items after the first of plain items are plain.
proof fn lemma_plain_items_rest(ps: Seq<(KeyV, ExprV)>)
    requires
        plain_items(ps),
        ps.len() > 0,
    ensures
        plain_items(ps.drop_first()),
        plain_obj_key(ps[0].0),
        item_value(ps[0].1),
{
    let rest = ps.drop_first();
    assert forall|i: int| 0 <= i < rest.len() implies plain_obj_key(#[trigger] rest[i].0)
        && item_value(rest[i].1) by {
        let x = i + 1;
        assert(0 <= x < ps.len());
        assert(rest[i] == ps[x]);
        assert(plain_obj_key(ps[x].0) && item_value(ps[x].1));
    }
}

/// Two runs of blanks make one.
proof fn lemma_blanks_concat(a: Seq<char>, b: Seq<char>)
    requires
        blanks(a),
        blanks(b),
    ensures
        blanks(a + b),
{
    assert forall|x: int| 0 <= x < (a + b).len() implies (#[trigger] (a + b)[x] == ' ' || (a
        + b)[x] == '\t') by {
        if x < a.len() {
            assert((a + b)[x] == a[x]);
        } else {
            assert((a + b)[x] == b[x - a.len()]);
        }
    }
}

/// The text of a key starts with neither `}` nor `(`.
proof fn lemma_key_head(k: KeyV)
    requires
        plain_obj_key(k),
    ensures
        value_text(key_expr(k)).len() > 0,
        value_text(key_expr(k))[0] != '}',
        value_text(key_expr(k))[0] != '(',
{
    let ke = key_expr(k);
    if ke is Variable {
        assert(plain_key(ke->Variable_0));
    }
}

/// Where indentation and the line of a plain item stand at `k`, the object's items from `k` are
/// that item and the items after its line ending.
#[verifier::spinoff_prover]
#[verifier::rlimit(60)]
proof fn lemma_obj_item_at(
    s: Seq<char>,
    k: int,
    it: (KeyV, ExprV),
    pi: Seq<char>,
    ind: Seq<char>,
    kt: Seq<char>,
    vt: Seq<char>,
)
    requires
        plain_obj_key(it.0),
        item_value(it.1),
        plain_value(key_expr(it.0)),
        crate::parser::key_of(key_expr(it.0)) == it.0,
        kt == value_text(key_expr(it.0)),
        vt == item_text(it.1, pi, ind),
        blanks(ind),
        blanks(pi),
        0 <= k,
        k + pi.len() + kt.len() + 3 + vt.len() < s.len(),
        s.subrange(k, k + pi.len()) == pi,
        s.subrange(k + pi.len(), k + pi.len() + kt.len()) == kt,
        s[k + pi.len() + kt.len()] == ' ',
        s[k + pi.len() + kt.len() + 1] == '=',
        s[k + pi.len() + kt.len() + 2] == ' ',
        s.subrange(k + pi.len() + kt.len() + 3, k + pi.len() + kt.len() + 3 + vt.len()) == vt,
        s[k + pi.len() + kt.len() + 3 + vt.len()] == '\n',
        ws(s, k + pi.len() + kt.len() + 4 + vt.len()) < s.len(),
        s[ws(s, k + pi.len() + kt.len() + 4 + vt.len())] != '(',
    ensures
        crate::parser::object_items(s, k) == crate::parser::cons(
            it,
            crate::parser::object_items(s, k + pi.len() + kt.len() + 4 + vt.len()),
        ),
        ws(s, k) == k + pi.len(),
        s[k + pi.len()] == kt[0],
        kt[0] != '(',
{
    let p = k + pi.len();
    let r = p + kt.len() + 3 + vt.len();
    lemma_skip_indent(s, k, pi);
    assert(spacing(s, r, 1));
    lemma_ws_skip(s, r, 1);
    assert(value_end(s, r));
    lemma_parse_item(s, p, it.0, it.1, pi, ind);
    lemma_key_head(it.0);
    lemma_char_at(s, p, kt, 0);
    lemma_obj_items_cons(s, k, p, it, r);
}

/// The items of an object that the text of plain items stands at `k` for are read as those
/// items, and whitespace from `k` leads to a key or the closing brace.
#[verifier::spinoff_prover]
#[verifier::rlimit(100)]
proof fn lemma_read_obj_items(
    s: Seq<char>,
    k: int,
    ps: Seq<(KeyV, ExprV)>,
    pre: Seq<char>,
    ind: Seq<char>,
)
    requires
        plain_items(ps),
        blanks(pre),
        blanks(ind),
        0 <= k,
        k + obj_items_text(ps, pre, ind).len() <= s.len(),
        s.subrange(k, k + obj_items_text(ps, pre, ind).len()) == obj_items_text(ps, pre, ind),
    ensures
        crate::parser::object_items(s, k) == Some((ps, k + obj_items_text(ps, pre, ind).len())),
        ws(s, k) < s.len(),
        s[ws(s, k)] != '(',
        ps.len() == 0 ==> s[ws(s, k)] == '}',
        ps.len() > 0 ==> ws(s, k) == k + pre.len() + ind.len() && s[ws(s, k)] == value_text(
            key_expr(ps[0].0),
        )[0],
    decreases ps.len(),
{
    let t = obj_items_text(ps, pre, ind);
    if ps.len() == 0 {
        assert(crate::format::fmt_items(ps, pre, ind) == Seq::<char>::empty());
        assert(t =~= pre + seq!['}']);
        lemma_obj_items_empty(s, k, pre);
        assert(ps =~= Seq::<(KeyV, ExprV)>::empty());
    } else {
        let p0 = ps[0];
        lemma_plain_items_rest(ps);
        lemma_obj_front(ps, pre, ind);
        lemma_item_fmt(p0, pre, ind);
        let ke = key_expr(p0.0);
        let kt = value_text(ke);
        let vt = item_text(p0.1, pre + ind, ind);
        let rest = ps.drop_first();
        let rt = obj_items_text(rest, pre, ind);
        let pi = pre + ind;
        assert(t =~= pi + kt + seq![' ', '=', ' '] + vt + seq!['\n'] + rt);
        lemma_item_layout(s, k, pi, kt, vt, rt);
        let p = k + pi.len();
        let r = p + kt.len() + 3 + vt.len();
        lemma_read_obj_items(s, r + 1, rest, pre, ind);
        lemma_blanks_concat(pre, ind);
        lemma_obj_item_at(s, k, p0, pi, ind, kt, vt);
        assert(seq![p0] + rest =~= ps);
        assert(r + 1 + rt.len() == k + t.len());
    }
}

/// No `for` expression starts at an object key as the formatter writes it.
proof fn lemma_key_not_for(s: Seq<char>, p: int, k: KeyV)
    requires
        plain_obj_key(k),
        0 <= p,
        p + value_text(key_expr(k)).len() < s.len(),
        s.subrange(p, p + value_text(key_expr(k)).len()) == value_text(key_expr(k)),
        s[p + value_text(key_expr(k)).len()] == ' ',
    ensures
        !crate::parser::is_for_start(s, p),
{
    let kt = value_text(key_expr(k));
    if k is Expr {
        lemma_char_at(s, p, kt, 0);
        assert(s[p] == '"');
        assert(!at(s, p, seq!['f', 'o', 'r'])) by {
            if at(s, p, seq!['f', 'o', 'r']) {
                assert(s.subrange(p, p + 3)[0] == s[p]);
            }
        }
    } else {
        let n = k->Ident_0;
        assert(kt == n);
        assert(plain_key(n));
        if crate::parser::is_for_start(s, p) {
            let f = seq!['f', 'o', 'r'];
            assert(s.subrange(p, p + 3) == f);
            assert(s[p] == 'f' && s[p + 1] == 'o' && s[p + 2] == 'r') by {
                assert(s.subrange(p, p + 3)[0] == s[p]);
                assert(s.subrange(p, p + 3)[1] == s[p + 1]);
                assert(s.subrange(p, p + 3)[2] == s[p + 2]);
            }
            if n.len() > 3 {
                lemma_char_at(s, p, kt, 3);
                assert(ident_char(n[3]));
            } else if n.len() == 3 {
                lemma_char_at(s, p, kt, 0);
                lemma_char_at(s, p, kt, 1);
                lemma_char_at(s, p, kt, 2);
                assert(n =~= f);
            } else {
                assert(s[p + n.len()] == ' ');
            }
        }
    }
}

/// The items of a non-empty object of plain items as the parser reads them after its `{`.
#[verifier::spinoff_prover]
#[verifier::rlimit(100)]
proof fn lemma_obj_braced(
    s: Seq<char>,
    st: int,
    ps: Seq<(KeyV, ExprV)>,
    pre: Seq<char>,
    ind: Seq<char>,
)
    requires
        plain_items(ps),
        blanks(pre),
        blanks(ind),
        0 <= st,
        st + crate::format::fmt_object(ps, pre, ind, false).len() < s.len(),
        s.subrange(st, st + crate::format::fmt_object(ps, pre, ind, false).len())
            == crate::format::fmt_object(ps, pre, ind, false),
        ps.len() > 0,
    ensures
        crate::parser::object_items(s, st + 1) == Some(
            (ps, st + crate::format::fmt_object(ps, pre, ind, false).len()),
        ),
        !crate::parser::is_for_start(s, ws(s, st + 1)),
{
    let a = crate::format::fmt_object(ps, pre, ind, false);
    lemma_sp_ws(s, st + 1);
    let t = obj_items_text(ps, pre, ind);
    assert(a =~= seq!['{', '\n'] + t);
    lemma_piece_at(s, st, a, 2, t.len() as int);
    assert(a.subrange(2, (2 + t.len()) as int) =~= t);
    lemma_read_obj_items(s, st + 2, ps, pre, ind);
    lemma_char_at(s, st, a, 1);
    assert(spacing(s, st + 1, 1));
    lemma_ws_skip(s, st + 1, 1);
    let p = ws(s, st + 1);
    let p0 = ps[0];
    assert(plain_obj_key(p0.0) && item_value(p0.1));
    lemma_obj_front(ps, pre, ind);
    lemma_item_fmt(p0, pre, ind);
    let kt = value_text(key_expr(p0.0));
    let pl: int = (pre + ind).len() as int;
    assert(t =~= pre + ind + kt + seq![' ', '=', ' '] + item_text(p0.1, pre + ind, ind) + seq!['\n']
        + obj_items_text(ps.drop_first(), pre, ind));
    lemma_piece_at(s, st + 2, t, pl, kt.len() as int);
    assert(t.subrange(pl, pl + kt.len()) =~= kt);
    lemma_char_at(s, st + 2, t, pl + kt.len());
    lemma_key_not_for(s, p, p0.0);
    assert(crate::parser::object_items(s, st + 1) == crate::parser::object_items(s, st + 2));
}

/// The items of an empty object as the parser reads them after its `{`.
#[verifier::spinoff_prover]
#[verifier::rlimit(60)]
proof fn lemma_obj_braced_empty(s: Seq<char>, st: int, pre: Seq<char>, ind: Seq<char>)
    requires
        0 <= st,
        st + 2 < s.len(),
        s[st + 1] == '}',
    ensures
        crate::parser::object_items(s, st + 1) == Some((Seq::<(KeyV, ExprV)>::empty(), st + 2)),
        !crate::parser::is_for_start(s, ws(s, st + 1)),
{
    lemma_sp_ws(s, st + 1);
    lemma_ws_stop(s, st + 1);
    assert(!at(s, st + 1, seq!['f', 'o', 'r'])) by {
        if at(s, st + 1, seq!['f', 'o', 'r']) {
            assert(s.subrange(st + 1, st + 4)[0] == s[st + 1]);
        }
    }
}

/// An object of plain items followed by a line ending is read as an expression, and the
/// structure ends after the line ending.
#[verifier::spinoff_prover]
#[verifier::rlimit(100)]
proof fn lemma_read_object_value(
    s: Seq<char>,
    st: int,
    ps: Seq<(KeyV, ExprV)>,
    pre: Seq<char>,
    ind: Seq<char>,
)
    requires
        plain_items(ps),
        blanks(pre),
        blanks(ind),
        0 <= st,
        st + crate::format::fmt_object(ps, pre, ind, false).len() < s.len(),
        s.subrange(st, st + crate::format::fmt_object(ps, pre, ind, false).len())
            == crate::format::fmt_object(ps, pre, ind, false),
        s[st + crate::format::fmt_object(ps, pre, ind, false).len()] == '\n',
    ensures
        expr(s, st) == Some(
            (ExprV::Object(ps), st + crate::format::fmt_object(ps, pre, ind, false).len()),
        ),
        structure_end(s, st + crate::format::fmt_object(ps, pre, ind, false).len()) == Some(
            st + crate::format::fmt_object(ps, pre, ind, false).len() + 1,
        ),
{
    let a = crate::format::fmt_object(ps, pre, ind, false);
    let j = st + a.len();
    lemma_char_at(s, st, a, 0);
    assert(s[st] == '{');
    if ps.len() == 0 {
        assert(a == seq!['{', '}']);
        lemma_char_at(s, st, a, 1);
        lemma_obj_braced_empty(s, st, pre, ind);
        assert(ps =~= Seq::<(KeyV, ExprV)>::empty());
    } else {
        lemma_obj_braced(s, st, ps, pre, ind);
    }
    assert(term(s, st) == Some((ExprV::Object(ps), j)));
    lemma_term_is_expr(s, st, ExprV::Object(ps), j);
    lemma_at_line_end(s, j);
}

/// A term that whitespace and then a closing parenthesis, a colon, a comma or a line ending
/// follow is the whole expression.
#[verifier::spinoff_prover]
#[verifier::rlimit(40)]
proof fn lemma_term_then(s: Seq<char>, st: int, e: ExprV, j: int, p: int)
    requires
        0 <= st < j <= p < s.len(),
        term(s, st) == Some((e, j)),
        sp(s, j) == p,
        s[p] == ')' || s[p] == ':' || s[p] == ',' || s[p] == '\n' || s[p] == ']',
    ensures
        expr(s, st) == Some((e, j)),
{
    lemma_sp_ws(s, j);
    assert(trav_step(s, j) == Some((None::<TraversalOpV>, j)));
    assert(trav_ops(s, j) == Some((Seq::<TraversalOpV>::empty(), j)));
}

/// A parenthesized expression as the parser reads it.
proof fn lemma_paren_term(s: Seq<char>, st: int, p: int, e: ExprV, q: int)
    requires
        0 <= st < s.len(),
        s[st] == '(',
        ws(s, st + 1) == p,
        expr(s, p) == Some((e, q)),
        p < q < s.len(),
        ws(s, q) == q,
        s[q] == ')',
    ensures
        term(s, st) == Some((ExprV::Parenthesis(Box::new(e)), q + 1)),
{
    lemma_sp_ws(s, st + 1);
}

/// A conditional as the parser reads it: a term and its traversal operators, ` ? `, the true
/// expression, ` : ` and the false expression.
#[verifier::spinoff_prover]
#[verifier::rlimit(40)]
proof fn lemma_cond_expr(
    s: Seq<char>,
    st: int,
    tm: ExprV,
    j0: int,
    ops: Seq<TraversalOpV>,
    j: int,
    p: int,
    t: ExprV,
    q: int,
    q1: int,
    f: ExprV,
    r: int,
)
    requires
        0 <= st < j0 <= j <= p,
        p + 1 < s.len(),
        term(s, st) == Some((tm, j0)),
        trav_ops(s, j0) == Some((ops, j)),
        sp(s, j) == p,
        s[p] == '?',
        expr(s, sp(s, p + 1)) == Some((t, q)),
        p < q <= s.len(),
        sp(s, q) == q1,
        q1 + 1 < s.len(),
        s[q1] == ':',
        expr(s, sp(s, q1 + 1)) == Some((f, r)),
    ensures
        expr(s, st) == Some(
            (
                ExprV::Conditional(
                    Box::new(
                        if ops.len() > 0 {
                            ExprV::Traversal(Box::new(tm), ops)
                        } else {
                            tm
                        },
                    ),
                    Box::new(t),
                    Box::new(f),
                ),
                r,
            ),
        ),
{
    lemma_sp_ws(s, j);
    lemma_sp_ws(s, p + 1);
    lemma_sp_ws(s, q);
    lemma_sp_ws(s, q1 + 1);
}

/// The term that a condition starts with: the condition itself, or the variable of a traversal.
pub open spec fn head_term(c: ExprV) -> ExprV {
    if plain_trav(c) {
        *c->Traversal_0
    } else {
        c
    }
}

/// The traversal operators of a condition: none, or the operators of a traversal.
pub open spec fn head_ops(c: ExprV) -> Seq<TraversalOpV> {
    if plain_trav(c) {
        c->Traversal_1
    } else {
        seq![]
    }
}

/// A condition that is a variable with traversal operators, then ` ? `.
#[verifier::spinoff_prover]
#[verifier::rlimit(60)]
proof fn lemma_cond_head_trav(s: Seq<char>, st: int, c: ExprV)
    requires
        plain_trav(c),
        0 <= st,
        st + head_text(c).len() + 2 < s.len(),
        s.subrange(st, st + head_text(c).len()) == head_text(c),
        s[st + head_text(c).len()] == ' ',
        s[st + head_text(c).len() + 1] == '?',
    ensures
        term(s, st) == Some((head_term(c), st + value_text(head_term(c)).len())),
        st < st + value_text(head_term(c)).len() <= st + head_text(c).len(),
        trav_ops(s, st + value_text(head_term(c)).len()) == Some(
            (head_ops(c), st + head_text(c).len()),
        ),
        sp(s, st + head_text(c).len()) == st + head_text(c).len() + 1,
        sp(s, st) == st,
{
    let w = head_text(c);
    let end = st + w.len();
    let i = *c->Traversal_0;
    let ops = c->Traversal_1;
    assert(c == ExprV::Traversal(Box::new(i), ops));
    let v = i->Variable_0;
    assert(value_text(i) == v);
    let vl: int = v.len() as int;
    let g = ops_text(ops);
    let j = st + vl;
    assert(plain_key(v));
    lemma_piece_at(s, st, w, 0, vl);
    assert(w.subrange(0, vl) =~= v);
    lemma_piece_at(s, st, w, vl, g.len() as int);
    assert(w.subrange(vl, vl + g.len()) =~= g);
    assert forall|x: int| 0 <= x < vl implies #[trigger] s[st + x] == v[x] by {
        lemma_char_at(s, st, w, x);
    }
    lemma_ops_front(ops);
    assert(plain_op(ops[0]));
    lemma_op_head(ops[0]);
    lemma_char_at(s, st, w, vl);
    lemma_read_key(s, st, v);
    assert(s[st + 0] == v[0]);
    assert(ws(s, j) == j);
    lemma_sp_ws(s, j);
    assert(term(s, st) == Some((word_expr(v), j)));
    lemma_sp_ws(s, end);
    lemma_sp_ws(s, end + 1);
    assert(sp(s, end + 1) == end + 1);
    assert(sp(s, end) == end + 1);
    lemma_read_ops(s, j, ops);
}

/// A condition, then ` ? `: its term, its operators, and the spaces up to `?`.
#[verifier::spinoff_prover]
#[verifier::rlimit(40)]
proof fn lemma_cond_head_any(s: Seq<char>, st: int, c: ExprV)
    requires
        plain_value(c) || plain_trav(c),
        0 <= st,
        st + head_text(c).len() + 2 < s.len(),
        s.subrange(st, st + head_text(c).len()) == head_text(c),
        s[st + head_text(c).len()] == ' ',
        s[st + head_text(c).len() + 1] == '?',
    ensures
        term(s, st) == Some((head_term(c), st + value_text(head_term(c)).len())),
        st < st + value_text(head_term(c)).len() <= st + head_text(c).len(),
        trav_ops(s, st + value_text(head_term(c)).len()) == Some(
            (head_ops(c), st + head_text(c).len()),
        ),
        sp(s, st + head_text(c).len()) == st + head_text(c).len() + 1,
        sp(s, st) == st,
        c == (if head_ops(c).len() > 0 {
            ExprV::Traversal(Box::new(head_term(c)), head_ops(c))
        } else {
            head_term(c)
        }),
{
    if plain_trav(c) {
        lemma_cond_head_trav(s, st, c);
        assert(c == ExprV::Traversal(Box::new(head_term(c)), head_ops(c)));
    } else {
        assert(head_text(c) == value_text(c));
        lemma_ws_stop_value_len(c);
        lemma_cond_head(s, st, c);
    }
}

/// A term with traversal operators, followed by a line ending, is the whole expression.
#[verifier::spinoff_prover]
#[verifier::rlimit(40)]
proof fn lemma_trav_expr(s: Seq<char>, st: int, tm: ExprV, j: int, ops: Seq<TraversalOpV>, k: int)
    requires
        0 <= st < j <= k < s.len(),
        term(s, st) == Some((tm, j)),
        trav_ops(s, j) == Some((ops, k)),
        ops.len() > 0,
        s[k] == '\n' || s[k] == ',',
    ensures
        expr(s, st) == Some((ExprV::Traversal(Box::new(tm), ops), k)),
{
    lemma_sp_ws(s, k);
    assert(sp(s, k) == k);
}

/// Traversal operators, from the front: the first one's text and the others'.
proof fn lemma_ops_front(ops: Seq<TraversalOpV>)
    requires
        ops.len() > 0,
    ensures
        ops_text(ops) == op_text(ops[0]) + ops_text(ops.drop_first()),
    decreases ops.len(),
{
    if ops.len() == 1 {
        assert(ops_text(ops.drop_last()) == Seq::<char>::empty());
        assert(ops_text(ops.drop_first()) == Seq::<char>::empty());
        assert(ops_text(ops) =~= op_text(ops[0]) + ops_text(ops.drop_first()));
    } else {
        lemma_ops_front(ops.drop_last());
        assert(ops.drop_last().drop_first() =~= ops.drop_first().drop_last());
        assert(ops.drop_first().last() == ops.last());
        assert(ops.drop_last()[0] == ops[0]);
        assert(ops_text(ops) =~= op_text(ops[0]) + ops_text(ops.drop_first()));
    }
}

/// The text of a plain value starts with none of `*`, `]`, `,`, `.` and `)`.
proof fn lemma_value_head(e: ExprV)
    requires
        plain_value(e),
    ensures
        value_text(e).len() > 0,
        value_text(e)[0] != '*',
        value_text(e)[0] != ']',
        value_text(e)[0] != ',',
        value_text(e)[0] != '.',
        value_text(e)[0] != ')',
{
    lemma_ws_stop_value_len(e);
    if e is Number && e->Number_0 is PosInt {
        lemma_decimal(e->Number_0->PosInt_0 as nat);
    }
    if e is Variable {
        assert(plain_key(e->Variable_0));
    }
}

/// The text of a plain traversal operator starts with `.` or `[` and has more after it.
proof fn lemma_op_head(o: TraversalOpV)
    requires
        plain_op(o),
    ensures
        op_text(o).len() >= 2,
        op_text(o)[0] == '.' || op_text(o)[0] == '[',
{
    match o {
        TraversalOpV::GetAttr(n) => {
            assert(plain_key(n));
        },
        TraversalOpV::Index(e) => {
            lemma_value_head(e);
        },
        TraversalOpV::LegacyIndex(n) => {
            lemma_decimal(n as nat);
        },
        _ => {},
    }
}

/// A splat or a legacy index as the parser reads it.
#[verifier::spinoff_prover]
#[verifier::rlimit(60)]
proof fn lemma_dot_step(s: Seq<char>, j: int, o: TraversalOpV)
    requires
        o is AttrSplat || o is LegacyIndex,
        0 <= j,
        j + op_text(o).len() < s.len(),
        s.subrange(j, j + op_text(o).len()) == op_text(o),
        s[j + op_text(o).len()] == '.' || s[j + op_text(o).len()] == '\n' || s[j + op_text(
            o,
        ).len()] == ' ' || s[j + op_text(o).len()] == '[' || s[j + op_text(o).len()] == ',',
    ensures
        trav_step(s, j) == Some((Some(o), j + op_text(o).len())),
{
    let t = op_text(o);
    lemma_char_at(s, j, t, 0);
    lemma_char_at(s, j, t, 1);
    lemma_sp_ws(s, j);
    lemma_sp_ws(s, j + 1);
    assert(sp(s, j) == j);
    if let TraversalOpV::LegacyIndex(n) = o {
        let d = decimal_digits(n as nat);
        lemma_decimal(n as nat);
        assert(t == seq!['.'] + d);
        assert(t[1] == d[0]);
        assert(is_ascii_digit(s[j + 1]));
        assert(ws(s, j + 1) == j + 1);
        assert forall|i: int| j + 1 <= i < j + 1 + d.len() implies is_ascii_digit(#[trigger] s[i]) by {
            lemma_char_at(s, j, t, i - j);
        }
        lemma_digit_run(s, j + 1, j + 1 + d.len());
        lemma_piece_at(s, j, t, 1, d.len() as int);
        assert(t.subrange(1, 1 + d.len() as int) =~= d);
        assert(!ident_start(s[j + 1]));
        assert(digits_value(s.subrange(j + 1, j + 1 + d.len())) == n as nat);
    } else {
        assert(t[1] == '*');
        assert(ws(s, j + 1) == j + 1);
    }
}

/// A full splat or an index as the parser reads it.
#[verifier::spinoff_prover]
#[verifier::rlimit(60)]
proof fn lemma_bracket_step(s: Seq<char>, j: int, o: TraversalOpV)
    requires
        o is FullSplat || (o is Index && plain_value(o->Index_0)),
        0 <= j,
        j + op_text(o).len() < s.len(),
        s.subrange(j, j + op_text(o).len()) == op_text(o),
    ensures
        trav_step(s, j) == Some((Some(o), j + op_text(o).len())),
{
    let t = op_text(o);
    let end = j + t.len();
    lemma_char_at(s, j, t, 0);
    lemma_char_at(s, j, t, 1);
    lemma_char_at(s, j, t, t.len() - 1);
    lemma_sp_ws(s, j);
    lemma_sp_ws(s, j + 1);
    assert(sp(s, j) == j);
    lemma_sp_ws(s, end - 1);
    assert(ws(s, end - 1) == end - 1);
    if o is FullSplat {
        lemma_char_at(s, j, t, 2);
        assert(ws(s, j + 1) == j + 1);
        lemma_sp_ws(s, j + 2);
    } else {
        let e = o->Index_0;
        let vt = value_text(e);
        lemma_value_head(e);
        assert(t == seq!['['] + vt + seq![']']);
        lemma_piece_at(s, j, t, 1, vt.len() as int);
        assert(t.subrange(1, 1 + vt.len() as int) =~= vt);
        lemma_ws_stop_value(s, j + 1, e);
        assert(value_stop(s, end - 1));
        lemma_read_scalar_term(s, j + 1, e);
        lemma_term_then(s, j + 1, e, end - 1, end - 1);
        assert(o == TraversalOpV::Index(e));
    }
}

/// A plain traversal operator, followed by another one, a line ending or a space, as the
/// parser reads it.
proof fn lemma_op_step(s: Seq<char>, j: int, o: TraversalOpV)
    requires
        plain_op(o),
        0 <= j,
        j + op_text(o).len() < s.len(),
        s.subrange(j, j + op_text(o).len()) == op_text(o),
        s[j + op_text(o).len()] == '.' || s[j + op_text(o).len()] == '\n' || s[j + op_text(
            o,
        ).len()] == ' ' || s[j + op_text(o).len()] == '[' || s[j + op_text(o).len()] == ',',
    ensures
        trav_step(s, j) == Some((Some(o), j + op_text(o).len())),
{
    let t = op_text(o);
    match o {
        TraversalOpV::GetAttr(n) => {
            lemma_char_at(s, j, t, 0);
            assert forall|x: int| 0 <= x < n.len() implies #[trigger] s[j + 1 + x] == n[x] by {
                lemma_char_at(s, j, t, 1 + x);
            }
            lemma_getattr_step(s, j, n);
        },
        TraversalOpV::AttrSplat => {
            lemma_dot_step(s, j, o);
        },
        TraversalOpV::LegacyIndex(_) => {
            lemma_dot_step(s, j, o);
        },
        _ => {
            lemma_bracket_step(s, j, o);
        },
    }
}

/// One attribute access as the parser reads it.
proof fn lemma_getattr_step(s: Seq<char>, j: int, n: Seq<char>)
    requires
        0 <= j,
        j + 1 + n.len() < s.len(),
        s[j] == '.',
        plain_key(n),
        forall|x: int| 0 <= x < n.len() ==> #[trigger] s[j + 1 + x] == n[x],
        s[j + 1 + n.len()] == '.' || s[j + 1 + n.len()] == '\n' || s[j + 1 + n.len()] == ' '
            || s[j + 1 + n.len()] == '[' || s[j + 1 + n.len()] == ',',
    ensures
        trav_step(s, j) == Some((Some(TraversalOpV::GetAttr(n)), j + 1 + n.len())),
{
    lemma_read_key(s, j + 1, n);
    assert(s[j + 1 + 0] == n[0]);
    assert(sp(s, j) == j);
    lemma_sp_ws(s, j);
    lemma_sp_ws(s, j + 1);
}

/// No traversal operator starts at a line ending, nor at a space before `?`.
#[verifier::spinoff_prover]
#[verifier::rlimit(40)]
proof fn lemma_no_step(s: Seq<char>, j: int)
    requires
        0 <= j < s.len(),
        s[j] == '\n' || s[j] == ',' || (s[j] == ' ' && j + 1 < s.len() && s[j + 1] == '?'),
    ensures
        trav_step(s, j) == Some((None::<TraversalOpV>, j)),
{
    lemma_sp_ws(s, j);
    if s[j] == ' ' {
        lemma_sp_ws(s, j + 1);
        assert(sp(s, j + 1) == j + 1);
        assert(sp(s, j) == j + 1);
    } else {
        assert(sp(s, j) == j);
    }
}

/// Where plain traversal operators and then a line ending, or a space before `?`, stand at `j`,
/// the parser reads them as the traversal operators from `j`.
#[verifier::spinoff_prover]
#[verifier::rlimit(60)]
proof fn lemma_read_ops(s: Seq<char>, j: int, ops: Seq<TraversalOpV>)
    requires
        plain_ops(ops),
        0 <= j,
        j + ops_text(ops).len() < s.len(),
        s.subrange(j, j + ops_text(ops).len()) == ops_text(ops),
        s[j + ops_text(ops).len()] == '\n' || s[j + ops_text(ops).len()] == ',' || (s[j
            + ops_text(ops).len()] == ' '
            && j + ops_text(ops).len() + 1 < s.len() && s[j + ops_text(ops).len() + 1]
            == '?'),
    ensures
        trav_ops(s, j) == Some((ops, j + ops_text(ops).len())),
    decreases ops.len(),
{
    let g = ops_text(ops);
    if ops.len() == 0 {
        assert(g.len() == 0);
        lemma_no_step(s, j);
    } else {
        lemma_ops_front(ops);
        let o = ops[0];
        assert(plain_op(o));
        let t = op_text(o);
        let tl: int = t.len() as int;
        let rest = ops.drop_first();
        let rg = ops_text(rest);
        lemma_op_head(o);
        lemma_piece_at(s, j, g, 0, tl);
        assert(g.subrange(0, tl) =~= t);
        lemma_piece_at(s, j, g, tl, rg.len() as int);
        assert(g.subrange(tl, tl + rg.len()) =~= rg);
        assert(plain_ops(rest)) by {
            assert forall|i: int| 0 <= i < rest.len() implies plain_op(#[trigger] rest[i]) by {
                assert(rest[i] == ops[i + 1]);
            }
        }
        if rest.len() > 0 {
            lemma_ops_front(rest);
            assert(plain_op(rest[0]));
            lemma_op_head(rest[0]);
            lemma_char_at(s, j, g, tl);
        } else {
            assert(rg.len() == 0);
        }
        lemma_op_step(s, j, o);
        lemma_read_ops(s, j + tl, rest);
        assert(seq![o] + rest =~= ops);
    }
}

/// A parenthesized plain value followed by a line ending is read as an expression.
#[verifier::spinoff_prover]
#[verifier::rlimit(60)]
proof fn lemma_read_paren_value(s: Seq<char>, st: int, e: ExprV)
    requires
        compound_value(e),
        e is Parenthesis,
        0 <= st,
        st + compound_text(e).len() < s.len(),
        s.subrange(st, st + compound_text(e).len()) == compound_text(e),
        s[st + compound_text(e).len()] == '\n' || s[st + compound_text(e).len()] == ',',
    ensures
        expr(s, st) == Some((e, st + compound_text(e).len())),
        sp(s, st) == st,
{
    let w = compound_text(e);
    let end = st + w.len();
    if s[end] == '\n' {
        lemma_at_line_end(s, end);
    } else {
        lemma_no_ops(s, end);
    }
    let i = *e->Parenthesis_0;
    let vt = value_text(i);
    let vl: int = vt.len() as int;
    let q = st + 1 + vl;
    lemma_char_at(s, st, w, 0);
    lemma_piece_at(s, st, w, 1, vl);
    assert(w.subrange(1, 1 + vl) =~= vt);
    lemma_char_at(s, st, w, 1 + vl);
    assert(end == q + 1);
    assert(vl > 0 && s[st + 1] == vt[0]) by {
        lemma_ws_stop_value_len(i);
        lemma_char_at(s, st + 1, vt, 0);
    }
    lemma_ws_stop_value(s, st + 1, i);
    assert(ws(s, q) == q);
    lemma_read_scalar_term(s, st + 1, i);
    assert(sp(s, q) == q);
    lemma_term_then(s, st + 1, i, q, q);
    lemma_paren_term(s, st, st + 1, i, q);
    assert(e == ExprV::Parenthesis(Box::new(i)));
    lemma_term_is_expr(s, st, e, end);
}

/// The condition of a conditional: a plain value, then ` ? `.
#[verifier::spinoff_prover]
#[verifier::rlimit(40)]
proof fn lemma_cond_head(s: Seq<char>, st: int, c: ExprV)
    requires
        plain_value(c),
        0 <= st,
        st + value_text(c).len() + 2 < s.len(),
        s.subrange(st, st + value_text(c).len()) == value_text(c),
        s[st + value_text(c).len()] == ' ',
        s[st + value_text(c).len() + 1] == '?',
    ensures
        term(s, st) == Some((c, st + value_text(c).len())),
        trav_ops(s, st + value_text(c).len()) == Some(
            (Seq::<TraversalOpV>::empty(), st + value_text(c).len()),
        ),
        sp(s, st + value_text(c).len()) == st + value_text(c).len() + 1,
        sp(s, st) == st,
{
    let vc = value_text(c);
    let j = st + vc.len();
    lemma_ws_stop_value_len(c);
    lemma_char_at(s, st, vc, 0);
    lemma_ws_stop_value(s, st, c);
    assert(ws(s, j + 1) == j + 1);
    assert(ws(s, j) == j + 1);
    lemma_read_scalar_term(s, st, c);
    assert(sp(s, j + 1) == j + 1);
    assert(sp(s, j) == j + 1);
    assert(trav_step(s, j) == Some((None::<TraversalOpV>, j)));
}

/// The true value of a conditional: a plain value, then ` :`.
#[verifier::spinoff_prover]
#[verifier::rlimit(40)]
proof fn lemma_cond_mid(s: Seq<char>, a: int, t: ExprV)
    requires
        plain_value(t),
        0 <= a,
        a + value_text(t).len() + 1 < s.len(),
        s.subrange(a, a + value_text(t).len()) == value_text(t),
        s[a + value_text(t).len()] == ' ',
        s[a + value_text(t).len() + 1] == ':',
    ensures
        expr(s, a) == Some((t, a + value_text(t).len())),
        sp(s, a + value_text(t).len()) == a + value_text(t).len() + 1,
        sp(s, a) == a,
{
    let vt = value_text(t);
    let q = a + vt.len();
    lemma_ws_stop_value_len(t);
    lemma_char_at(s, a, vt, 0);
    lemma_ws_stop_value(s, a, t);
    assert(ws(s, q + 1) == q + 1);
    assert(ws(s, q) == q + 1);
    lemma_read_scalar_term(s, a, t);
    assert(sp(s, q + 1) == q + 1);
    assert(sp(s, q) == q + 1);
    lemma_term_then(s, a, t, q, q + 1);
}

/// A conditional of plain values followed by a line ending is read as an expression.
#[verifier::spinoff_prover]
#[verifier::rlimit(60)]
proof fn lemma_read_cond_value(s: Seq<char>, st: int, e: ExprV)
    requires
        compound_value(e),
        e is Conditional,
        0 <= st,
        st + compound_text(e).len() < s.len(),
        s.subrange(st, st + compound_text(e).len()) == compound_text(e),
        value_end(s, st + compound_text(e).len()),
    ensures
        expr(s, st) == Some((e, st + compound_text(e).len())),
        sp(s, st) == st,
{
    let w = compound_text(e);
    let c = *e->Conditional_0;
    let t = *e->Conditional_1;
    let f = *e->Conditional_2;
    let vc = head_text(c);
    let vt = value_text(t);
    let vf = value_text(f);
    let cl: int = vc.len() as int;
    let tl: int = vt.len() as int;
    let fl: int = vf.len() as int;
    let j = st + cl;
    let p = j + 1;
    let q = j + 3 + tl;
    let q1 = q + 1;
    let r = q + 3 + fl;
    assert(w == vc + seq![' ', '?', ' '] + vt + seq![' ', ':', ' '] + vf);
    assert(st + w.len() == r);
    lemma_piece_at(s, st, w, 0, cl);
    assert(w.subrange(0, cl) =~= vc);
    lemma_piece_at(s, st, w, cl + 3, tl);
    assert(w.subrange(cl + 3, cl + 3 + tl) =~= vt);
    lemma_piece_at(s, st, w, cl + 6 + tl, fl);
    assert(w.subrange(cl + 6 + tl, cl + 6 + tl + fl) =~= vf);
    lemma_char_at(s, st, w, cl);
    lemma_char_at(s, st, w, cl + 1);
    lemma_char_at(s, st, w, cl + 2);
    lemma_char_at(s, st, w, cl + 3 + tl);
    lemma_char_at(s, st, w, cl + 4 + tl);
    lemma_char_at(s, st, w, cl + 5 + tl);
    lemma_cond_head_any(s, st, c);
    lemma_cond_mid(s, j + 3, t);
    assert(sp(s, p + 1) == j + 3) by {
        assert(sp(s, j + 3) == j + 3);
    }
    assert(sp(s, q1 + 1) == q + 3) by {
        lemma_ws_stop_value_len(f);
        lemma_char_at(s, q + 3, vf, 0);
        lemma_ws_stop_value(s, q + 3, f);
    }
    lemma_read_scalar(s, q + 3, f);
    lemma_cond_expr(
        s,
        st,
        head_term(c),
        st + value_text(head_term(c)).len(),
        head_ops(c),
        j,
        p,
        t,
        q,
        q1,
        f,
        r,
    );
    assert(e == ExprV::Conditional(Box::new(c), Box::new(t), Box::new(f)));
}

/// A variable with traversal operators followed by a line ending is read as an expression.
#[verifier::spinoff_prover]
#[verifier::rlimit(60)]
proof fn lemma_read_trav_value(s: Seq<char>, st: int, e: ExprV)
    requires
        compound_value(e),
        e is Traversal,
        0 <= st,
        st + compound_text(e).len() < s.len(),
        s.subrange(st, st + compound_text(e).len()) == compound_text(e),
        s[st + compound_text(e).len()] == '\n' || s[st + compound_text(e).len()] == ',',
    ensures
        expr(s, st) == Some((e, st + compound_text(e).len())),
        sp(s, st) == st,
{
    let w = compound_text(e);
    let end = st + w.len();
    if s[end] == '\n' {
        lemma_at_line_end(s, end);
    } else {
        lemma_no_ops(s, end);
    }
    let i = *e->Traversal_0;
    let ops = e->Traversal_1;
    assert(e == ExprV::Traversal(Box::new(i), ops));
    let v = i->Variable_0;
    assert(value_text(i) == v);
    let vl: int = v.len() as int;
    let g = ops_text(ops);
    let j = st + vl;
    assert(plain_key(v));
    lemma_piece_at(s, st, w, 0, vl);
    assert(w.subrange(0, vl) =~= v);
    lemma_piece_at(s, st, w, vl, g.len() as int);
    assert(w.subrange(vl, vl + g.len()) =~= g);
    assert forall|x: int| 0 <= x < vl implies #[trigger] s[st + x] == v[x] by {
        lemma_char_at(s, st, w, x);
    }
    lemma_ops_front(ops);
    assert(plain_op(ops[0]));
    lemma_op_head(ops[0]);
    lemma_char_at(s, st, w, vl);
    lemma_read_key(s, st, v);
    assert(s[st + 0] == v[0]);
    assert(ws(s, j) == j);
    lemma_sp_ws(s, j);
    assert(term(s, st) == Some((word_expr(v), j)));
    lemma_read_ops(s, j, ops);
    lemma_trav_expr(s, st, i, j, ops, end);
}

/// Plain values separated by `, `.
pub open spec fn joined_text(es: Seq<ExprV>) -> Seq<char>
    decreases es.len(),
{
    if es.len() == 0 {
        seq![]
    } else if es.len() == 1 {
        value_text(es[0])
    } else {
        joined_text(es.drop_last()) + seq![',', ' '] + value_text(es.last())
    }
}

/// The formatter writes the arguments of a call of plain values as their texts, separated by
/// `, `.
proof fn lemma_joined_fmt(es: Seq<ExprV>, pre: Seq<char>, ind: Seq<char>)
    requires
        plain_values(es),
    ensures
        crate::format::fmt_joined(es, pre, ind) == joined_text(es),
    decreases es.len(),
{
    if es.len() > 0 {
        assert(plain_value(es[es.len() - 1]));
        lemma_value_text(es.last(), pre, ind, true);
        if es.len() == 1 {
            lemma_value_text(es[0], pre, ind, true);
        } else {
            assert(plain_values(es.drop_last())) by {
                assert forall|i: int| 0 <= i < es.drop_last().len() implies plain_value(
                    #[trigger] es.drop_last()[i],
                ) by {
                    assert(es.drop_last()[i] == es[i]);
                }
            }
            lemma_joined_fmt(es.drop_last(), pre, ind);
        }
    }
}

/// Joined values, from the front: the first one's text, and `, ` and the others' where there
/// are more.
proof fn lemma_joined_front(es: Seq<ExprV>)
    requires
        es.len() > 1,
    ensures
        joined_text(es) == value_text(es[0]) + seq![',', ' '] + joined_text(es.drop_first()),
    decreases es.len(),
{
    if es.len() == 2 {
        assert(es.drop_last().len() == 1);
        assert(es.drop_first().len() == 1);
        assert(es.drop_first()[0] == es.last());
        assert(es.drop_last()[0] == es[0]);
        assert(joined_text(es.drop_last()) == value_text(es[0]));
        assert(joined_text(es.drop_first()) == value_text(es.last()));
        assert(joined_text(es) =~= value_text(es[0]) + seq![',', ' '] + joined_text(es.drop_first()));
    } else {
        lemma_joined_front(es.drop_last());
        assert(es.drop_last().drop_first() =~= es.drop_first().drop_last());
        assert(es.drop_first().last() == es.last());
        assert(es.drop_last()[0] == es[0]);
        assert(joined_text(es) =~= value_text(es[0]) + seq![',', ' '] + joined_text(es.drop_first()));
    }
}

/// The arguments of a call after the first one: a comma, a space and the others' text, then
/// `)`; or `)` alone.
pub open spec fn args_tail_text(es: Seq<ExprV>) -> Seq<char> {
    if es.len() == 0 {
        seq![')']
    } else {
        seq![',', ' '] + joined_text(es) + seq![')']
    }
}

/// One argument as the parser reads it: a plain value followed by `,` or `)`.
#[verifier::spinoff_prover]
#[verifier::rlimit(60)]
proof fn lemma_read_arg(s: Seq<char>, p: int, e: ExprV)
    requires
        plain_value(e),
        0 <= p,
        p + value_text(e).len() < s.len(),
        s.subrange(p, p + value_text(e).len()) == value_text(e),
        s[p + value_text(e).len()] == ',' || s[p + value_text(e).len()] == ')',
    ensures
        expr(s, p) == Some((e, p + value_text(e).len())),
        ws(s, p) == p,
        ws(s, p + value_text(e).len()) == p + value_text(e).len(),
        s[p] != ',' && s[p] != '.' && s[p] != ')',
        p < p + value_text(e).len(),
{
    let vt = value_text(e);
    let j = p + vt.len();
    lemma_value_head(e);
    lemma_char_at(s, p, vt, 0);
    lemma_ws_stop_value(s, p, e);
    lemma_sp_ws(s, j);
    assert(ws(s, j) == j);
    assert(value_stop(s, j));
    lemma_read_scalar_term(s, p, e);
    lemma_term_then(s, p, e, j, j);
}

/// A comma, a space and a plain argument followed by `,` or `)`, as the parser reads them.
#[verifier::spinoff_prover]
#[verifier::rlimit(60)]
proof fn lemma_arg_step(s: Seq<char>, k: int, e: ExprV)
    requires
        plain_value(e),
        0 <= k,
        k + 2 + value_text(e).len() < s.len(),
        s[k] == ',',
        s[k + 1] == ' ',
        s.subrange(k + 2, k + 2 + value_text(e).len()) == value_text(e),
        s[k + 2 + value_text(e).len()] == ',' || s[k + 2 + value_text(e).len()] == ')',
    ensures
        crate::parser::args_step(s, k) == Some((Some(e), false, k + 2 + value_text(e).len())),
{
    let p = k + 2;
    let r = p + value_text(e).len();
    lemma_read_arg(s, p, e);
    lemma_sp_ws(s, k + 1);
    assert(ws(s, k + 1) == p);
    assert(crate::parser::arg_after_comma(s, k + 1) == Some((Some(e), false, r)));
}

/// The remaining arguments at a closing parenthesis: none.
#[verifier::spinoff_prover]
#[verifier::rlimit(60)]
proof fn lemma_args_rest_end(s: Seq<char>, k: int)
    requires
        0 <= k < s.len(),
        s[k] == ')',
    ensures
        crate::parser::args_rest(s, k) == Some((Seq::<ExprV>::empty(), false, k + 1)),
{
    assert(!at(s, k, seq!['.', '.', '.'])) by {
        if at(s, k, seq!['.', '.', '.']) {
            assert(s.subrange(k, k + 3)[0] == s[k]);
        }
    }
    assert(crate::parser::args_step(s, k) == Some((None::<ExprV>, false, k + 1)));
}

/// The remaining arguments: the next one and those after it.
#[verifier::spinoff_prover]
#[verifier::rlimit(60)]
proof fn lemma_args_rest_cons(
    s: Seq<char>,
    k: int,
    e: ExprV,
    r: int,
    rest: Seq<ExprV>,
    end: int,
)
    requires
        0 <= k < r <= s.len(),
        crate::parser::args_step(s, k) == Some((Some(e), false, r)),
        crate::parser::args_rest(s, r) == Some((rest, false, end)),
    ensures
        crate::parser::args_rest(s, k) == Some((seq![e] + rest, false, end)),
{
}

/// Where a comma, a space, `v` and `rt` stand at `k`, each piece stands where its length puts it.
#[verifier::spinoff_prover]
proof fn lemma_comma_layout(s: Seq<char>, k: int, v: Seq<char>, rt: Seq<char>)
    requires
        0 <= k,
        k + (seq![',', ' '] + v + rt).len() <= s.len(),
        s.subrange(k, k + (seq![',', ' '] + v + rt).len()) == seq![',', ' '] + v + rt,
    ensures
        s[k] == ',',
        s[k + 1] == ' ',
        s.subrange(k + 2, k + 2 + v.len()) == v,
        s.subrange(k + 2 + v.len(), k + 2 + v.len() + rt.len()) == rt,
{
    let t = seq![',', ' '] + v + rt;
    lemma_char_at(s, k, t, 0);
    lemma_char_at(s, k, t, 1);
    lemma_piece_at(s, k, t, 2, v.len() as int);
    assert(t.subrange(2, 2 + v.len() as int) =~= v);
    lemma_piece_at(s, k, t, 2 + v.len() as int, rt.len() as int);
    assert(t.subrange(2 + v.len() as int, 2 + v.len() + rt.len() as int) =~= rt);
}

/// Where the text after an argument stands at `k`, the parser reads the remaining arguments.
#[verifier::spinoff_prover]
#[verifier::rlimit(60)]
proof fn lemma_read_args_rest(s: Seq<char>, k: int, es: Seq<ExprV>)
    requires
        plain_values(es),
        0 <= k,
        k + args_tail_text(es).len() <= s.len(),
        s.subrange(k, k + args_tail_text(es).len()) == args_tail_text(es),
    ensures
        crate::parser::args_rest(s, k) == Some((es, false, k + args_tail_text(es).len())),
    decreases es.len(),
{
    let t = args_tail_text(es);
    if es.len() == 0 {
        lemma_char_at(s, k, t, 0);
        lemma_args_rest_end(s, k);
        assert(es =~= Seq::<ExprV>::empty());
    } else {
        let e0 = es[0];
        assert(plain_value(e0));
        let rest = es.drop_first();
        let v0 = value_text(e0);
        let rt = args_tail_text(rest);
        if es.len() == 1 {
            assert(joined_text(es) == v0);
            assert(rest.len() == 0);
            assert(t =~= seq![',', ' '] + v0 + rt);
        } else {
            lemma_joined_front(es);
            assert(t =~= seq![',', ' '] + v0 + rt);
        }
        assert(plain_values(rest)) by {
            assert forall|i: int| 0 <= i < rest.len() implies plain_value(#[trigger] rest[i]) by {
                assert(rest[i] == es[i + 1]);
            }
        }
        let r = k + 2 + v0.len();
        lemma_comma_layout(s, k, v0, rt);
        lemma_char_at(s, r, rt, 0);
        assert(rt[0] == ',' || rt[0] == ')');
        lemma_arg_step(s, k, e0);
        lemma_read_args_rest(s, r, rest);
        lemma_args_rest_cons(s, k, e0, r, rest, r + rt.len());
        assert(seq![e0] + rest =~= es);
    }
}

/// The arguments of a call as the parser reads them, from its `(`.
#[verifier::spinoff_prover]
#[verifier::rlimit(60)]
proof fn lemma_read_func_args(s: Seq<char>, p: int, es: Seq<ExprV>)
    requires
        plain_values(es),
        0 <= p,
        p + 2 + joined_text(es).len() <= s.len(),
        s.subrange(p, p + 2 + joined_text(es).len()) == seq!['('] + joined_text(es) + seq![')'],
    ensures
        crate::parser::func_args(s, p) == Some((es, false, p + 2 + joined_text(es).len())),
{
    let t = seq!['('] + joined_text(es) + seq![')'];
    lemma_char_at(s, p, t, 1);
    lemma_sp_ws(s, p + 1);
    if es.len() == 0 {
        assert(joined_text(es).len() == 0);
        assert(ws(s, p + 1) == p + 1);
    } else {
        let e0 = es[0];
        assert(plain_value(e0));
        let rest = es.drop_first();
        let v0 = value_text(e0);
        let rt = args_tail_text(rest);
        if es.len() == 1 {
            assert(joined_text(es) == v0);
            assert(t =~= seq!['('] + v0 + rt);
        } else {
            lemma_joined_front(es);
            assert(t =~= seq!['('] + v0 + rt);
        }
        assert(plain_values(rest)) by {
            assert forall|i: int| 0 <= i < rest.len() implies plain_value(#[trigger] rest[i]) by {
                assert(rest[i] == es[i + 1]);
            }
        }
        let q = p + 1;
        let r = q + v0.len();
        lemma_piece_at(s, p, t, 1, v0.len() as int);
        assert(t.subrange(1, 1 + v0.len() as int) =~= v0);
        lemma_piece_at(s, p, t, 1 + v0.len() as int, rt.len() as int);
        assert(t.subrange(1 + v0.len() as int, 1 + v0.len() + rt.len() as int) =~= rt);
        lemma_char_at(s, r, rt, 0);
        lemma_read_arg(s, q, e0);
        assert(ws(s, p + 1) == q);
        lemma_read_args_rest(s, r, rest);
        assert(seq![e0] + rest =~= es);
    }
}

/// A call of a plain name with plain arguments followed by a line ending is read as an
/// expression.
#[verifier::spinoff_prover]
#[verifier::rlimit(60)]
proof fn lemma_read_call_value(s: Seq<char>, st: int, e: ExprV)
    requires
        compound_value(e),
        e is FuncCall,
        0 <= st,
        st + compound_text(e).len() < s.len(),
        s.subrange(st, st + compound_text(e).len()) == compound_text(e),
        s[st + compound_text(e).len()] == '\n' || s[st + compound_text(e).len()] == ',',
    ensures
        expr(s, st) == Some((e, st + compound_text(e).len())),
        sp(s, st) == st,
{
    let w = compound_text(e);
    let name = e->FuncCall_0;
    let es = e->FuncCall_1;
    assert(e == ExprV::FuncCall(name, es, false));
    let nl: int = name.len() as int;
    let a = seq!['('] + joined_text(es) + seq![')'];
    assert(w =~= name + a);
    assert(plain_key(name));
    assert forall|x: int| 0 <= x < nl implies #[trigger] s[st + x] == name[x] by {
        lemma_char_at(s, st, w, x);
    }
    lemma_char_at(s, st, w, nl);
    lemma_read_key(s, st, name);
    lemma_piece_at(s, st, w, nl, a.len() as int);
    assert(w.subrange(nl, nl + a.len()) =~= a);
    lemma_read_func_args(s, st + nl, es);
    assert(s[st + 0] == name[0]);
    lemma_sp_ws(s, st + nl);
    assert(term(s, st) == Some((e, st + w.len())));
    lemma_term_is_expr(s, st, e, st + w.len());
}

/// A compound value followed by a line ending, where no parenthesis follows after whitespace,
/// is read as an expression, and the structure ends after the line ending.
proof fn lemma_read_compound(s: Seq<char>, st: int, e: ExprV)
    requires
        compound_value(e),
        0 <= st,
        st + compound_text(e).len() < s.len(),
        s.subrange(st, st + compound_text(e).len()) == compound_text(e),
        s[st + compound_text(e).len()] == '\n',
        ws(s, st + compound_text(e).len() + 1) >= s.len() || s[ws(
            s,
            st + compound_text(e).len() + 1,
        )] != '(',
    ensures
        expr(s, st) == Some((e, st + compound_text(e).len())),
        structure_end(s, st + compound_text(e).len()) == Some(st + compound_text(e).len() + 1),
        sp(s, st) == st,
{
    lemma_at_line_end(s, st + compound_text(e).len());
    if e is Parenthesis {
        lemma_read_paren_value(s, st, e);
    } else if e is Conditional {
        assert(value_end(s, st + compound_text(e).len()));
        lemma_read_cond_value(s, st, e);
    } else if e is FuncCall {
        lemma_read_call_value(s, st, e);
    } else {
        lemma_read_trav_value(s, st, e);
    }
}

/// A plain value's text is not empty.
proof fn lemma_ws_stop_value_len(e: ExprV)
    requires
        plain_value(e),
    ensures
        value_text(e).len() > 0,
{
    if e is Number && e->Number_0 is PosInt {
        lemma_decimal(e->Number_0->PosInt_0 as nat);
    }
    if e is Variable {
        assert(plain_key(e->Variable_0));
    }
}

/// Where the line of the attribute `k = e` stands at `i`, and no parenthesis follows it after
/// whitespace, the parser reads that attribute as the structure at `i`, and the structure ends
/// after the line.
#[verifier::spinoff_prover]
#[verifier::rlimit(60)]
proof fn lemma_read_line(
    s: Seq<char>,
    i: int,
    k: Seq<char>,
    e: ExprV,
    pre: Seq<char>,
    ind: Seq<char>,
)
    requires
        0 <= i,
        blanks(pre),
        blanks(ind),
        i + attr_line(k, e, pre, ind).len() <= s.len(),
        s.subrange(i, i + attr_line(k, e, pre, ind).len()) == attr_line(k, e, pre, ind),
        plain_key(k),
        attr_value(e),
        ws(s, i + attr_line(k, e, pre, ind).len()) >= s.len() || s[ws(
            s,
            i + attr_line(k, e, pre, ind).len(),
        )] != '(',
    ensures
        ws(s, i) == i,
        structure(s, i) == Some(
            (StructureV::Attribute(k, e), i + attr_line(k, e, pre, ind).len() - 1),
        ),
        structure_end(s, i + attr_line(k, e, pre, ind).len() - 1) == Some(
            i + attr_line(k, e, pre, ind).len(),
        ),
{
    let line = attr_line(k, e, pre, ind);
    let w = attr_text(e, pre, ind);
    let n = k.len() as int;
    let q = i + n;
    let st = q + 3;
    assert(line.len() == n + 3 + w.len() + 1);
    assert forall|x: int| 0 <= x < line.len() implies #[trigger] s[i + x] == line[x] by {
        assert(s.subrange(i, i + line.len())[x] == s[i + x]);
    }
    assert forall|x: int| 0 <= x < n implies #[trigger] s[i + x] == k[x] by {
        assert(s[i + x] == line[x]);
    }
    assert(s[q] == ' ') by {
        assert(s[i + n] == line[n]);
    }
    assert(s[q + 1] == '=') by {
        assert(s[i + (n + 1)] == line[n + 1]);
    }
    assert(s[q + 2] == ' ') by {
        assert(s[i + (n + 2)] == line[n + 2]);
    }
    assert(s[st + w.len()] == '\n') by {
        assert(s[i + (n + 3 + w.len())] == line[n + 3 + w.len()]);
    }
    assert(s.subrange(st, st + w.len()) =~= w) by {
        assert forall|x: int| 0 <= x < w.len() implies #[trigger] s.subrange(st, st + w.len())[x]
            == w[x] by {
            assert(s[i + (n + 3 + x)] == line[n + 3 + x]);
        }
    }
    lemma_read_key(s, i, k);
    if e is Array {
        lemma_read_array_value(s, st, e->Array_0, pre, ind);
        assert(e == ExprV::Array(e->Array_0));
        assert(s[st] == '[') by {
            assert(s.subrange(st, st + w.len())[0] == s[st]);
        }
    } else if compound_value(e) {
        lemma_read_compound(s, st, e);
    } else if e is Object {
        lemma_read_object_value(s, st, e->Object_0, pre, ind);
        assert(e == ExprV::Object(e->Object_0));
        assert(s[st] == w[0]) by {
            assert(s.subrange(st, st + w.len())[0] == s[st]);
        }
        assert(w[0] == '{');
    } else {
        assert(w.len() > 0);
        assert(s[st] == w[0]) by {
            assert(s.subrange(st, st + w.len())[0] == s[st]);
        }
        lemma_read_plain_value(s, st, e);
        lemma_ws_stop_value(s, st, e);
    }
    assert(sp(s, st) == st);
    assert(sp(s, q + 1) == q + 1);
    assert(sp(s, q) == q + 1);
    assert(sp(s, q + 2) == st);
}

/// Skipping whitespace stops at the first character of a plain value.
proof fn lemma_ws_stop_value(s: Seq<char>, st: int, e: ExprV)
    requires
        plain_value(e),
        0 <= st < s.len(),
        s[st] == value_text(e)[0],
    ensures
        sp(s, st) == st,
        ws(s, st) == st,
{
    if e is Number && e->Number_0 is PosInt {
        lemma_decimal(e->Number_0->PosInt_0 as nat);
        assert(is_ascii_digit(value_text(e)[0]));
    }
}

/// Whether `p` holds only spaces and tabs.
pub open spec fn blanks(p: Seq<char>) -> bool {
    forall|i: int| 0 <= i < p.len() ==> (#[trigger] p[i] == ' ' || p[i] == '\t')
}

/// Whether the characters of `s` from `i` to `i + w` are spaces, tabs or line feeds.
pub open spec fn spacing(s: Seq<char>, i: int, w: int) -> bool {
    forall|x: int| i <= x < i + w ==> (#[trigger] s[x] == ' ' || s[x] == '\t' || s[x] == '\n')
}

/// Skipping whitespace passes over spaces, tabs and line feeds.
proof fn lemma_ws_skip(s: Seq<char>, i: int, w: int)
    requires
        0 <= i,
        0 <= w,
        i + w <= s.len(),
        spacing(s, i, w),
    ensures
        ws(s, i) == ws(s, i + w),
    decreases w,
{
    if w > 0 {
        assert(s[i] == ' ' || s[i] == '\t' || s[i] == '\n');
        lemma_ws_skip(s, i + 1, w - 1);
    }
}

/// Skipping whitespace stops at a character that starts no whitespace or comment.
proof fn lemma_ws_stop(s: Seq<char>, p: int)
    requires
        0 <= p < s.len(),
        ident_start(s[p]) || s[p] == '"' || s[p] == '{' || s[p] == '}' || s[p] == ']',
    ensures
        ws(s, p) == p,
        sp(s, p) == p,
{
}

/// The text of a body is the text of its first structure, an empty line where the formatter
/// separates the first two, and the text of the others.
proof fn lemma_fmt_front_sep(ss: Seq<StructureV>, pre: Seq<char>, ind: Seq<char>, dense: bool)
    requires
        ss.len() > 0,
    ensures
        fmt_body(ss, pre, ind, dense) == fmt_structure(ss[0], pre, ind, dense) + (if ss.len() > 1
            && separated(ss[0], ss[1], dense) {
            seq!['\n']
        } else {
            seq![]
        }) + fmt_body(ss.drop_first(), pre, ind, dense),
    decreases ss.len(),
{
    let last = ss.last();
    assert(ss[ss.len() - 1] == last);
    let tail = ss.drop_first();
    if ss.len() == 1 {
        assert(ss.drop_last().len() == 0);
        assert(tail.len() == 0);
        assert(fmt_body(ss.drop_last(), pre, ind, dense) == Seq::<char>::empty());
        assert(fmt_body(tail, pre, ind, dense) == Seq::<char>::empty());
        assert(fmt_body(ss, pre, ind, dense) =~= fmt_structure(ss[0], pre, ind, dense));
    } else {
        let init = ss.drop_last();
        lemma_fmt_front_sep(init, pre, ind, dense);
        assert(init.drop_first() =~= tail.drop_last());
        assert(init[0] == ss[0]);
        assert(init.len() > 1 ==> init[1] == ss[1]);
        assert(tail.last() == last);
        assert(tail.len() > 1 ==> tail[tail.len() - 2] == ss[ss.len() - 2]);
        assert(tail[0] == ss[1]);
        if ss.len() == 2 {
            assert(tail.drop_last().len() == 0);
            assert(init.drop_first().len() == 0);
            assert(fmt_body(tail.drop_last(), pre, ind, dense) == Seq::<char>::empty());
            assert(fmt_body(init.drop_first(), pre, ind, dense) == Seq::<char>::empty());
        }
        assert(fmt_body(ss, pre, ind, dense) =~= fmt_structure(ss[0], pre, ind, dense) + (if ss.len()
            > 1 && separated(ss[0], ss[1], dense) {
            seq!['\n']
        } else {
            seq![]
        }) + fmt_body(tail, pre, ind, dense));
    }
}

/// The labels of a block are, one after the other, a space and the text of the label.
proof fn lemma_fmt_labels_front(ls: Seq<LabelV>)
    requires
        ls.len() > 0,
    ensures
        fmt_labels(ls) == seq![' '] + fmt_label(ls[0]) + fmt_labels(ls.drop_first()),
    decreases ls.len(),
{
    if ls.len() == 1 {
        assert(fmt_labels(ls.drop_last()) == Seq::<char>::empty());
        assert(fmt_labels(ls.drop_first()) == Seq::<char>::empty());
        assert(fmt_labels(ls) =~= seq![' '] + fmt_label(ls[0]) + fmt_labels(ls.drop_first()));
    } else {
        let init = ls.drop_last();
        lemma_fmt_labels_front(init);
        assert(init.drop_first() =~= ls.drop_first().drop_last());
        assert(ls.drop_first().last() == ls.last());
        assert(init[0] == ls[0]);
        assert(fmt_labels(ls) =~= seq![' '] + fmt_label(ls[0]) + fmt_labels(ls.drop_first()));
    }
}

/// Whether a block label is read back as written: a string, or an identifier as the parser
/// reads one.
pub open spec fn plain_label(l: LabelV) -> bool {
    match l {
        LabelV::Ident(n) => plain_key(n),
        LabelV::Str(_) => true,
    }
}

/// Whether all block labels are read back as written.
pub open spec fn plain_labels(ls: Seq<LabelV>) -> bool {
    forall|i: int| 0 <= i < ls.len() ==> plain_label(#[trigger] ls[i])
}

/// Where the text of the labels `ls` and then ` {` stands at `q`, the parser reads the labels
/// from the first character after the space at `q`, and stops at the brace.
proof fn lemma_read_labels(s: Seq<char>, q: int, ls: Seq<LabelV>)
    requires
        0 <= q,
        plain_labels(ls),
        q + fmt_labels(ls).len() + 2 <= s.len(),
        s.subrange(q, q + fmt_labels(ls).len() + 2) == fmt_labels(ls) + seq![' ', '{'],
    ensures
        sp(s, q) == q + 1,
        s[q + 1] != '=',
        labels(s, q + 1) == Some((ls, q + fmt_labels(ls).len() + 1)),
    decreases ls.len(),
{
    let text = fmt_labels(ls) + seq![' ', '{'];
    let l = fmt_labels(ls).len() as int;
    assert forall|x: int| 0 <= x < text.len() implies #[trigger] s[q + x] == text[x] by {
        assert(s.subrange(q, q + text.len())[x] == s[q + x]);
    }
    if ls.len() == 0 {
        assert(s[q + 0] == text[0]);
        assert(s[q + 1] == text[1]);
        lemma_ws_stop(s, q + 1);
    } else {
        lemma_fmt_labels_front(ls);
        let lab = fmt_label(ls[0]);
        let rest = ls.drop_first();
        let q2 = q + 1 + lab.len();
        let lr = fmt_labels(rest).len() as int;
        assert(text =~= seq![' '] + lab + (fmt_labels(rest) + seq![' ', '{']));
        assert(s[q + 0] == text[0]);
        assert(s[q + 1] == lab[0]) by {
            assert(s[q + 1] == text[1]);
        }
        assert forall|x: int| 0 <= x < lab.len() implies #[trigger] s[q + 1 + x] == lab[x] by {
            assert(s[q + (1 + x)] == text[1 + x]);
        }
        assert(s.subrange(q2, q2 + lr + 2) =~= fmt_labels(rest) + seq![' ', '{']) by {
            assert forall|x: int| 0 <= x < lr + 2 implies #[trigger] s.subrange(q2, q2 + lr + 2)[x]
                == (fmt_labels(rest) + seq![' ', '{'])[x] by {
                assert(s[q + (1 + lab.len() + x)] == text[1 + lab.len() + x]);
            }
        }
        assert forall|x: int| 0 <= x < rest.len() implies plain_label(#[trigger] rest[x]) by {
            assert(rest[x] == ls[x + 1]);
        }
        assert(plain_label(ls[0]));
        lemma_read_labels(s, q2, rest);
        match ls[0] {
            LabelV::Str(t) => {
                let m = encode_str(t).len() as int;
                assert(lab == quoted(t));
                assert(s[q + 1] == '"');
                lemma_ws_stop(s, q + 1);
                assert(s.subrange(q + 2, q + 2 + m) =~= encode_str(t)) by {
                    assert forall|x: int| 0 <= x < m implies #[trigger] s.subrange(q + 2, q + 2 + m)[x]
                        == encode_str(t)[x] by {
                        assert(s[q + 1 + (1 + x)] == lab[1 + x]);
                    }
                }
                assert(s[q + 2 + m] == '"') by {
                    assert(s[q + 1 + (1 + m)] == lab[1 + m]);
                }
                crate::laws::lemma_read_encoded(s, q + 2, t);
                assert(q2 == q + 3 + m);
            },
            LabelV::Ident(n) => {
                assert(lab == n);
                assert(ident_start(s[q + 1]));
                lemma_ws_stop(s, q + 1);
                assert forall|x: int| 0 <= x < n.len() implies #[trigger] s[(q + 1) + x] == n[x] by {
                    assert(s[q + 1 + x] == lab[x]);
                }
                assert(s[q2] == ' ') by {
                    assert(s.subrange(q2, q2 + lr + 2)[0] == s[q2]);
                    if rest.len() > 0 {
                        lemma_fmt_labels_front(rest);
                    }
                }
                lemma_read_key(s, q + 1, n);
            },
        }
        assert(seq![ls[0]] + rest =~= ls);
    }
}

/// Whether the formatter's text of a structure is read back as the same structure: an
/// attribute with a plain key and a plain value, or a block with a plain identifier, labels
/// that are read back as written and a body of such structures.
pub open spec fn plain_structure(st: StructureV) -> bool
    decreases st,
{
    match st {
        StructureV::Attribute(k, e) => plain_key(k) && attr_value(e),
        StructureV::Block(id, ls, b) => plain_key(id) && plain_labels(ls) && forall|i: int|
            0 <= i < b.len() ==> plain_structure(#[trigger] b[i]),
    }
}

/// Whether every structure of a body is read back as written.
pub open spec fn plain_body(ss: Seq<StructureV>) -> bool {
    forall|i: int| 0 <= i < ss.len() ==> plain_structure(#[trigger] ss[i])
}

/// The formatter's text of a block at indentation `pre`, without the indentation itself.
pub open spec fn block_text(
    id: Seq<char>,
    ls: Seq<LabelV>,
    b: Seq<StructureV>,
    pre: Seq<char>,
    ind: Seq<char>,
    dense: bool,
) -> Seq<char> {
    id + fmt_labels(ls) + seq![' ', '{'] + (if b.len() == 0 {
        seq!['}']
    } else {
        seq!['\n'] + fmt_body(b, pre + ind, ind, dense) + pre + seq!['}']
    }) + seq!['\n']
}

/// A body ends where whitespace leads to the end of the input or a closing brace.
proof fn lemma_body_empty(s: Seq<char>, i: int)
    requires
        0 <= i <= s.len(),
        ws(s, i) >= s.len() || s[ws(s, i)] == '}',
    ensures
        body(s, i) == Some((Seq::<StructureV>::empty(), ws(s, i))),
{
}

/// A body that starts with a structure is that structure followed by the body after it.
proof fn lemma_body_cons(
    s: Seq<char>,
    i: int,
    p: int,
    st: StructureV,
    q: int,
    n: int,
    rest: Seq<StructureV>,
    e: int,
)
    requires
        0 <= i <= s.len(),
        ws(s, i) == p,
        p < s.len(),
        s[p] != '}',
        structure(s, p) == Some((st, q)),
        p < q <= s.len(),
        structure_end(s, q) == Some(n),
        q <= n <= s.len(),
        body(s, n) == Some((rest, e)),
    ensures
        body(s, i) == Some((seq![st] + rest, e)),
{
}

/// A block as the parser reads it: an identifier, labels, and a body in braces.
proof fn lemma_structure_block(
    s: Seq<char>,
    p: int,
    id: Seq<char>,
    q: int,
    ls: Seq<LabelV>,
    bq: int,
    b: Seq<StructureV>,
    t: int,
)
    requires
        0 <= p,
        ident(s, p) == Some((id, q)),
        p < q <= s.len(),
        sp(s, q) == q + 1,
        q + 1 < s.len(),
        s[q + 1] != '=',
        labels(s, q + 1) == Some((ls, bq)),
        q + 1 <= bq < s.len(),
        s[bq] == '{',
        body(s, bq + 1) == Some((b, t)),
        t < s.len(),
        s[t] == '}',
    ensures
        structure(s, p) == Some((StructureV::Block(id, ls, b), t + 1)),
{
}

/// A character of `t` where `t` stands at `a` in `s`.
proof fn lemma_char_at(s: Seq<char>, a: int, t: Seq<char>, k: int)
    requires
        0 <= a,
        a + t.len() <= s.len(),
        s.subrange(a, a + t.len()) == t,
        0 <= k < t.len(),
    ensures
        s[a + k] == t[k],
{
    assert(s.subrange(a, a + t.len())[k] == s[a + k]);
}

/// A piece of `t` where `t` stands at `a` in `s`.
proof fn lemma_piece_at(s: Seq<char>, a: int, t: Seq<char>, k: int, l: int)
    requires
        0 <= a,
        a + t.len() <= s.len(),
        s.subrange(a, a + t.len()) == t,
        0 <= k,
        0 <= l,
        k + l <= t.len(),
    ensures
        s.subrange(a + k, a + k + l) == t.subrange(k, k + l),
{
    assert(s.subrange(a + k, a + k + l) =~= s.subrange(a, a + t.len()).subrange(k, k + l));
}

/// Where `t` stands at `a` in `s` and holds only spaces, tabs and line feeds between `k` and
/// `k + l`, so does `s` from `a + k`.
proof fn lemma_spacing_at(s: Seq<char>, a: int, t: Seq<char>, k: int, l: int)
    requires
        0 <= a,
        a + t.len() <= s.len(),
        s.subrange(a, a + t.len()) == t,
        0 <= k,
        0 <= l,
        k + l <= t.len(),
        forall|x: int| k <= x < k + l ==> (#[trigger] t[x] == ' ' || t[x] == '\t' || t[x] == '\n'),
    ensures
        spacing(s, a + k, l),
{
    assert forall|x: int| a + k <= x < a + k + l implies (#[trigger] s[x] == ' ' || s[x] == '\t'
        || s[x] == '\n') by {
        lemma_char_at(s, a, t, x - a);
    }
}

/// The formatter's text of a structure at indentation `pre`, without the indentation itself.
pub open spec fn structure_text(st: StructureV, pre: Seq<char>, ind: Seq<char>, dense: bool) -> Seq<
    char,
> {
    match st {
        StructureV::Attribute(k, e) => attr_line(k, e, pre, ind),
        StructureV::Block(id, ls, b) => block_text(id, ls, b, pre, ind, dense),
    }
}

/// The formatter writes a structure as its indentation and then its text.
proof fn lemma_structure_text(st: StructureV, pre: Seq<char>, ind: Seq<char>, dense: bool)
    requires
        plain_structure(st),
    ensures
        fmt_structure(st, pre, ind, dense) == pre + structure_text(st, pre, ind, dense),
        structure_text(st, pre, ind, dense).len() > 1,
        ident_start(structure_text(st, pre, ind, dense)[0]),
{
    match st {
        StructureV::Attribute(k, e) => {
            lemma_attr_text(e, pre, ind);
            assert(fmt_structure(st, pre, ind, dense) =~= pre + attr_line(k, e, pre, ind));
        },
        StructureV::Block(id, ls, b) => {
            assert(fmt_structure(st, pre, ind, dense) =~= pre + block_text(id, ls, b, pre, ind, dense));
        },
    }
}

/// Where the text of a structure stands at `p`, the parser reads that structure there, and
/// the structure ends after its last line.
proof fn lemma_read_structure(
    s: Seq<char>,
    p: int,
    st: StructureV,
    pre: Seq<char>,
    ind: Seq<char>,
    dense: bool,
)
    requires
        0 <= p,
        plain_structure(st),
        blanks(pre),
        blanks(ind),
        p + structure_text(st, pre, ind, dense).len() <= s.len(),
        s.subrange(p, p + structure_text(st, pre, ind, dense).len()) == structure_text(
            st,
            pre,
            ind,
            dense,
        ),
        ws(s, p + structure_text(st, pre, ind, dense).len()) >= s.len() || s[ws(
            s,
            p + structure_text(st, pre, ind, dense).len(),
        )] != '(',
    ensures
        structure(s, p) == Some((st, p + structure_text(st, pre, ind, dense).len() - 1)),
        structure_end(s, p + structure_text(st, pre, ind, dense).len() - 1) == Some(
            p + structure_text(st, pre, ind, dense).len(),
        ),
    decreases st, 1nat,
{
    match st {
        StructureV::Attribute(k, e) => {
            lemma_read_line(s, p, k, e, pre, ind);
        },
        StructureV::Block(id, ls, b) => {
            lemma_read_block(s, p, st, pre, ind, dense);
        },
    }
}

/// After the text of a structure in a body, whitespace leads to the next structure or to
/// what ends the body: never to a parenthesis.
proof fn lemma_next_not_paren(
    s: Seq<char>,
    n: int,
    w: int,
    rest: Seq<StructureV>,
    pre: Seq<char>,
    ind: Seq<char>,
    dense: bool,
)
    requires
        0 <= n,
        0 <= w,
        blanks(pre),
        plain_body(rest),
        spacing(s, n, w),
        n + w + fmt_body(rest, pre, ind, dense).len() <= s.len(),
        s.subrange(n + w, n + w + fmt_body(rest, pre, ind, dense).len()) == fmt_body(
            rest,
            pre,
            ind,
            dense,
        ),
        ws(s, n + w + fmt_body(rest, pre, ind, dense).len()) >= s.len() || s[ws(
            s,
            n + w + fmt_body(rest, pre, ind, dense).len(),
        )] == '}',
    ensures
        ws(s, n) >= s.len() || s[ws(s, n)] != '(',
{
    let r = fmt_body(rest, pre, ind, dense);
    lemma_ws_skip(s, n, w);
    if rest.len() > 0 {
        lemma_fmt_front_sep(rest, pre, ind, dense);
        assert(plain_structure(rest[0]));
        lemma_structure_text(rest[0], pre, ind, dense);
        let tail = structure_text(rest[0], pre, ind, dense);
        let sep = if rest.len() > 1 && separated(rest[0], rest[1], dense) {
            seq!['\n']
        } else {
            seq![]
        };
        assert(r == pre + tail + sep + fmt_body(rest.drop_first(), pre, ind, dense));
        assert forall|x: int| 0 <= x < pre.len() implies (#[trigger] r[x] == ' ' || r[x] == '\t'
            || r[x] == '\n') by {
            assert(r[x] == pre[x]);
        }
        lemma_spacing_at(s, n + w, r, 0, pre.len() as int);
        lemma_ws_skip(s, n + w, pre.len() as int);
        lemma_char_at(s, n + w, r, pre.len() as int);
        assert(r[pre.len() as int] == tail[0]);
        lemma_ws_stop(s, n + w + pre.len());
    }
}

/// Where the text of a body stands after `w` characters of whitespace from `i`, and what
/// follows it ends a body, the parser reads that body from `i`.
#[verifier::spinoff_prover]
#[verifier::rlimit(100)]
proof fn lemma_read_body(
    s: Seq<char>,
    i: int,
    w: int,
    ss: Seq<StructureV>,
    pre: Seq<char>,
    ind: Seq<char>,
    dense: bool,
)
    requires
        0 <= i,
        0 <= w,
        blanks(pre),
        blanks(ind),
        plain_body(ss),
        spacing(s, i, w),
        i + w + fmt_body(ss, pre, ind, dense).len() <= s.len(),
        s.subrange(i + w, i + w + fmt_body(ss, pre, ind, dense).len()) == fmt_body(
            ss,
            pre,
            ind,
            dense,
        ),
        ws(s, i + w + fmt_body(ss, pre, ind, dense).len()) >= s.len() || s[ws(
            s,
            i + w + fmt_body(ss, pre, ind, dense).len(),
        )] == '}',
    ensures
        body(s, i) == Some((ss, ws(s, i + w + fmt_body(ss, pre, ind, dense).len()))),
    decreases ss, 2nat,
{
    let text = fmt_body(ss, pre, ind, dense);
    let e = i + w + text.len();
    let a = i + w;
    lemma_ws_skip(s, i, w);
    lemma_sp_ws(s, i);
    if ss.len() == 0 {
        lemma_body_empty(s, i);
    } else {
        lemma_fmt_front_sep(ss, pre, ind, dense);
        let st = ss[0];
        assert(plain_structure(st));
        lemma_structure_text(st, pre, ind, dense);
        let tail = structure_text(st, pre, ind, dense);
        let first = pre + tail;
        let sep = if ss.len() > 1 && separated(st, ss[1], dense) {
            seq!['\n']
        } else {
            seq![]
        };
        let rest = ss.drop_first();
        let rtext = fmt_body(rest, pre, ind, dense);
        let n = a + first.len();
        let p = a + pre.len();
        assert(text == first + sep + rtext);
        lemma_piece_at(s, a, text, (first.len() + sep.len()) as int, rtext.len() as int);
        assert(text.subrange((first.len() + sep.len()) as int, text.len() as int) =~= rtext);
        assert forall|x: int| first.len() <= x < first.len() + sep.len() implies (#[trigger] text[x]
            == ' ' || text[x] == '\t' || text[x] == '\n') by {
            assert(text[x] == sep[x - first.len()]);
        }
        lemma_spacing_at(s, a, text, first.len() as int, sep.len() as int);
        assert forall|x: int| 0 <= x < pre.len() implies (#[trigger] text[x] == ' ' || text[x]
            == '\t' || text[x] == '\n') by {
            assert(text[x] == first[x]);
            assert(first[x] == pre[x]);
        }
        lemma_spacing_at(s, a, text, 0, pre.len() as int);
        lemma_ws_skip(s, a, pre.len() as int);
        lemma_piece_at(s, a, text, pre.len() as int, tail.len() as int);
        assert(text.subrange(pre.len() as int, first.len() as int) =~= tail);
        assert forall|x: int| 0 <= x < rest.len() implies plain_structure(#[trigger] rest[x]) by {
            assert(rest[x] == ss[x + 1]);
        }
        lemma_next_not_paren(s, n, sep.len() as int, rest, pre, ind, dense);
        lemma_read_structure(s, p, st, pre, ind, dense);
        lemma_char_at(s, p, tail, 0);
        lemma_ws_stop(s, p);
        assert forall|x: int| 0 <= x < rest.len() implies plain_structure(#[trigger] rest[x]) by {
            assert(rest[x] == ss[x + 1]);
        }
        lemma_read_body(s, n, sep.len() as int, rest, pre, ind, dense);
        lemma_body_cons(s, i, p, st, n - 1, n, rest, ws(s, e));
        assert(seq![st] + rest =~= ss);
    }
}

/// Where the text of a block (without its indentation) stands at `p`, the parser reads that
/// block as the structure at `p`, and the structure ends after its last line.
#[verifier::spinoff_prover]
#[verifier::rlimit(100)]
proof fn lemma_read_block(
    s: Seq<char>,
    p: int,
    st: StructureV,
    pre: Seq<char>,
    ind: Seq<char>,
    dense: bool,
)
    requires
        0 <= p,
        st is Block,
        plain_structure(st),
        blanks(pre),
        blanks(ind),
        p + block_text(st->Block_0, st->Block_1, st->Block_2, pre, ind, dense).len() <= s.len(),
        s.subrange(p, p + block_text(st->Block_0, st->Block_1, st->Block_2, pre, ind, dense).len())
            == block_text(st->Block_0, st->Block_1, st->Block_2, pre, ind, dense),
    ensures
        structure(s, p) == Some(
            (st, p + block_text(st->Block_0, st->Block_1, st->Block_2, pre, ind, dense).len() - 1),
        ),
        structure_end(
            s,
            p + block_text(st->Block_0, st->Block_1, st->Block_2, pre, ind, dense).len() - 1,
        ) == Some(p + block_text(st->Block_0, st->Block_1, st->Block_2, pre, ind, dense).len()),
    decreases st, 0nat,
{
    let id = st->Block_0;
    let ls = st->Block_1;
    let b = st->Block_2;
    let bt = block_text(id, ls, b, pre, ind, dense);
    let q = p + id.len();
    let lt = fmt_labels(ls) + seq![' ', '{'];
    let l = fmt_labels(ls).len() as int;
    let bq = q + l + 1;
    let close = if b.len() == 0 {
        seq!['}']
    } else {
        seq!['\n'] + fmt_body(b, pre + ind, ind, dense) + pre + seq!['}']
    };
    assert(bt =~= id + lt + close + seq!['\n']);
    // The identifier and the labels.
    lemma_piece_at(s, p, bt, 0, id.len() as int);
    assert(bt.subrange(0, id.len() as int) =~= id);
    assert forall|x: int| 0 <= x < id.len() implies #[trigger] s[p + x] == id[x] by {
        lemma_char_at(s, p, bt, x);
    }
    lemma_piece_at(s, p, bt, id.len() as int, l + 2);
    assert(bt.subrange(id.len() as int, id.len() + l + 2) =~= lt);
    lemma_char_at(s, q, lt, 0);
    if ls.len() > 0 {
        lemma_fmt_labels_front(ls);
    }
    assert(lt[0] == ' ');
    lemma_read_key(s, p, id);
    lemma_read_labels(s, q, ls);
    lemma_char_at(s, q, lt, l + 1);
    lemma_char_at(s, p, bt, id.len() + l + 2);
    assert(bt[id.len() + l + 2] == close[0]);
    if b.len() == 0 {
        lemma_char_at(s, p, bt, id.len() + l + 3);
        assert(b =~= Seq::<StructureV>::empty());
        lemma_ws_stop(s, bq + 1);
        lemma_body_empty(s, bq + 1);
        lemma_structure_block(s, p, id, q, ls, bq, b, bq + 1);
        lemma_at_line_end(s, bq + 2);
    } else {
        let inner = fmt_body(b, pre + ind, ind, dense);
        let f = inner.len() as int;
        let e = bq + 2 + f;
        let t = e + pre.len();
        let c0 = id.len() + l + 2;
        lemma_piece_at(s, p, bt, c0 + 1, f);
        assert(bt.subrange(c0 + 1, c0 + 1 + f) =~= inner);
        assert forall|x: int| c0 + 1 + f <= x < c0 + 1 + f + pre.len() implies (#[trigger] bt[x]
            == ' ' || bt[x] == '\t' || bt[x] == '\n') by {
            assert(bt[x] == pre[x - (c0 + 1 + f)]);
        }
        lemma_spacing_at(s, p, bt, c0 + 1 + f, pre.len() as int);
        lemma_char_at(s, p, bt, t - p);
        lemma_char_at(s, p, bt, t + 1 - p);
        lemma_ws_skip(s, e, pre.len() as int);
        lemma_ws_stop(s, t);
        assert(spacing(s, bq + 1, 1));
        assert(blanks(pre + ind)) by {
            assert forall|x: int| 0 <= x < (pre + ind).len() implies (#[trigger] (pre + ind)[x]
                == ' ' || (pre + ind)[x] == '\t') by {
                if x < pre.len() {
                    assert((pre + ind)[x] == pre[x]);
                } else {
                    assert((pre + ind)[x] == ind[x - pre.len()]);
                }
            }
        }
        assert(plain_body(b));
        lemma_read_body(s, bq + 1, 1, b, pre + ind, ind, dense);
        lemma_structure_block(s, p, id, q, ls, bq, b, t);
        lemma_at_line_end(s, t + 1);
    }
}

/// The text that the formatter writes for a body is parsed back into the same body, where every
/// attribute has a plain key and a value that is a scalar (a string, `null`, a boolean, an
/// integer, a variable, or a quoted template whose first `${` or `%{` is not doubled), a
/// compound value (a scalar in parentheses; a variable followed by one or more traversal
/// operators, each an attribute access with a plain name, a splat, a legacy index or an index
/// by a scalar; a call of a plain name with scalar arguments and no expansion; or a conditional
/// whose condition is a scalar or such a traversal and whose other two parts are scalars), an
/// array whose elements are scalars or compound values (but no conditional on a variable named
/// `for`), or an object
/// whose keys are strings or plain names other than `for` and whose values are scalars,
/// compound values or such arrays; every block has a plain identifier and labels that are read
/// back as written, and the indentation is made of spaces and tabs.
pub proof fn format_parse_roundtrip(ss: Seq<StructureV>, ind: Seq<char>, dense: bool)
    requires
        plain_body(ss),
        blanks(ind),
    ensures
        parse_body(fmt_body(ss, seq![], ind, dense)) == Some(ss),
{
    let s = fmt_body(ss, seq![], ind, dense);
    assert(s.subrange(0, s.len() as int) =~= s);
    assert(blanks(seq![]));
    assert(spacing(s, 0, 0));
    assert(ws(s, s.len() as int) == s.len());
    lemma_read_body(s, 0, 0, ss, seq![], ind, dense);
}

} // verus!
