//! The conversion of expressions and bodies into values. A body becomes an object as the HCL
//! JSON specification lays it out: attributes are keys, blocks nest under their identifier and
//! labels, and blocks with the same identifier and labels are merged into an array of bodies.
use vstd::prelude::*;
use crate::expr::{ExprV, Expression, HeredocStripMode, TemplateExpr, KeyV, ObjectKey, TemplateV, exprs_view, lemma_exprs_view, lemma_pairs_view, pairs_view};
use crate::value::{Value, entries_view, values_view};
use crate::format::fmt_expr;
use crate::structure::{BlockLabel, LabelV, Structure, StructureV, label_view, labels_view, lemma_structures_view_len, structures_view};
use crate::util::dedent_seq;
use crate::lexer::{heredoc_text, heredoc_text_exec};
use crate::value::ValueV;
use crate::error::Error;
use crate::parser::parse_body;

verus! {

// ---------------------------------------------------------------------------------------------
// Keyed entries
// ---------------------------------------------------------------------------------------------

/// The index of the first entry from `j` on whose key is `key`.
pub open spec fn find_key<V>(s: Seq<(Seq<char>, V)>, key: Seq<char>, j: int) -> Option<int>
    decreases s.len() - j,
{
    if j < 0 || j >= s.len() {
        None
    } else if s[j].0 == key {
        Some(j)
    } else {
        find_key(s, key, j + 1)
    }
}

/// Where [`find_key`] finds a key.
pub proof fn lemma_find_key<V>(s: Seq<(Seq<char>, V)>, key: Seq<char>, j: int)
    requires
        0 <= j,
    ensures
        find_key(s, key, j) matches Some(i) ==> j <= i < s.len() && s[i].0 == key,
        find_key(s, key, j) is None ==> forall|i: int| j <= i < s.len() ==> s[i].0 != key,
    decreases s.len() - j,
{
    if j < s.len() && s[j].0 != key {
        lemma_find_key(s, key, j + 1);
    }
}

/// The entries with `key` set to `v`: replaced in place where the key is present, appended at
/// the end otherwise (the insertion of an ordered map).
pub open spec fn insert_entry<V>(s: Seq<(Seq<char>, V)>, key: Seq<char>, v: V) -> Seq<
    (Seq<char>, V),
> {
    match find_key(s, key, 0) {
        Some(i) => s.update(i, (key, v)),
        None => s.push((key, v)),
    }
}

// ---------------------------------------------------------------------------------------------
// Expressions
// ---------------------------------------------------------------------------------------------

/// `t` inside an interpolation: `${t}`.
pub open spec fn interpolated(t: Seq<char>) -> Seq<char> {
    seq!['$', '{'] + t + seq!['}']
}

/// The text of an expression as the formatter writes it.
pub open spec fn expr_text(e: ExprV) -> Seq<char> {
    fmt_expr(e, seq![], seq![' ', ' '], false)
}

/// The text that an object key stands for: an identifier or a string as it is, any other
/// expression as its text.
pub open spec fn key_text(k: KeyV) -> Seq<char> {
    match k {
        KeyV::Ident(i) => i,
        KeyV::Expr(ExprV::String(s)) => s,
        KeyV::Expr(e) => expr_text(e),
    }
}

/// The text of a template expression: a quoted template as written, a heredoc with its strip
/// mode applied.
pub open spec fn template_text(t: TemplateV) -> Seq<char> {
    match t {
        TemplateV::Quoted(s) => s,
        TemplateV::Heredoc(_, t, m) => heredoc_text(
            match m {
                HeredocStripMode::NoStrip => t,
                HeredocStripMode::Indent => dedent_seq(t, false),
            },
        ),
    }
}

/// The value of an expression. Literals, arrays and objects keep their shape (an object keeps
/// the last value of a key given twice, at the key's first position); templates become their
/// text; a parenthesized expression is its inner expression; any other expression becomes a
/// string holding its text in an interpolation.
pub open spec fn expr_value(e: ExprV) -> ValueV
    decreases e,
{
    match e {
        ExprV::Null => ValueV::Null,
        ExprV::Bool(b) => ValueV::Bool(b),
        ExprV::Number(n) => ValueV::Number(n),
        ExprV::String(s) => ValueV::String(s),
        ExprV::Array(a) => ValueV::Array(values_of(a)),
        ExprV::Object(o) => ValueV::Object(object_entries(o)),
        ExprV::Template(t) => ValueV::String(template_text(t)),
        ExprV::Parenthesis(inner) => expr_value(*inner),
        ExprV::Raw(r) => ValueV::String(interpolated(r)),
        _ => ValueV::String(interpolated(expr_text(e))),
    }
}

/// The values of a sequence of expressions.
pub open spec fn values_of(a: Seq<ExprV>) -> Seq<ValueV>
    decreases a,
{
    if a.len() == 0 {
        seq![]
    } else {
        values_of(a.drop_last()).push(expr_value(a.last()))
    }
}

/// The entries of an object expression: each key's text with the value of its expression,
/// inserted in order.
pub open spec fn object_entries(o: Seq<(KeyV, ExprV)>) -> Seq<(Seq<char>, ValueV)>
    decreases o,
{
    if o.len() == 0 {
        seq![]
    } else {
        insert_entry(object_entries(o.drop_last()), key_text(o.last().0), expr_value(o.last().1))
    }
}

// ---------------------------------------------------------------------------------------------
// Bodies
// ---------------------------------------------------------------------------------------------

/// An intermediate node of the conversion of a body: a map of nodes by key, the values of the
/// bodies of one or more blocks, or the value of an attribute.
pub enum JsonV {
    Keyed(Seq<(Seq<char>, JsonV)>),
    Bodies(Seq<ValueV>),
    Leaf(ValueV),
}

/// The text of a block label.
pub open spec fn label_text(l: LabelV) -> Seq<char> {
    match l {
        LabelV::Ident(i) => i,
        LabelV::Str(s) => s,
    }
}

/// The node of a block under its identifier: one map level per label, then the value of its
/// body.
pub open spec fn block_node(ls: Seq<LabelV>, v: ValueV) -> JsonV
    decreases ls.len(),
{
    if ls.len() == 0 {
        JsonV::Bodies(seq![v])
    } else {
        JsonV::Keyed(seq![(label_text(ls[0]), block_node(ls.drop_first(), v))])
    }
}

/// Merges the node `r` into the node `l`: maps are merged key by key, block bodies are
/// collected, and anything else is replaced by `r`.
pub open spec fn deep_merge(l: JsonV, r: JsonV) -> JsonV
    decreases r, 0nat,
{
    match (l, r) {
        (JsonV::Keyed(lm), JsonV::Keyed(rm)) => JsonV::Keyed(merge_all(lm, rm)),
        (JsonV::Bodies(a), JsonV::Bodies(b)) => JsonV::Bodies(a + b),
        _ => r,
    }
}

/// Merges every entry of `rm`, in order, into the map `lm`.
pub open spec fn merge_all(lm: Seq<(Seq<char>, JsonV)>, rm: Seq<(Seq<char>, JsonV)>) -> Seq<
    (Seq<char>, JsonV),
>
    decreases rm, 2nat,
{
    if rm.len() == 0 {
        lm
    } else {
        merge_into(merge_all(lm, rm.drop_last()), rm.last().0, rm.last().1)
    }
}

/// Merges `node` into the map `m` under `key`: merged with the node already there, or added at
/// the end.
pub open spec fn merge_into(m: Seq<(Seq<char>, JsonV)>, key: Seq<char>, node: JsonV) -> Seq<
    (Seq<char>, JsonV),
>
    decreases node, 1nat,
{
    match find_key(m, key, 0) {
        Some(i) => if 0 <= i < m.len() {
            m.update(i, (key, deep_merge(m[i].1, node)))
        } else {
            m
        },
        None => m.push((key, node)),
    }
}

/// The nodes of a body: each attribute sets its key, each block is merged in under its
/// identifier.
pub open spec fn body_nodes(b: Seq<StructureV>) -> Seq<(Seq<char>, JsonV)>
    decreases b, 0nat,
{
    if b.len() == 0 {
        seq![]
    } else {
        let m = body_nodes(b.drop_last());
        match b.last() {
            StructureV::Attribute(k, e) => insert_entry(m, k, JsonV::Leaf(expr_value(e))),
            StructureV::Block(id, ls, bd) => merge_into(m, id, block_node(ls, body_value(bd))),
        }
    }
}

/// The value of a body: an object of the values of its nodes.
pub open spec fn body_value(b: Seq<StructureV>) -> ValueV
    decreases b, 1nat,
{
    ValueV::Object(nodes_value(body_nodes(b)))
}

/// The value of a node: a map becomes an object, the bodies of a single block become its
/// value and those of several blocks an array, and an attribute's value stays as it is.
pub open spec fn node_value(n: JsonV) -> ValueV
    decreases n,
{
    match n {
        JsonV::Keyed(m) => ValueV::Object(nodes_value(m)),
        JsonV::Bodies(vs) => if vs.len() == 1 {
            vs[0]
        } else {
            ValueV::Array(vs)
        },
        JsonV::Leaf(v) => v,
    }
}

/// The values of the nodes of a map, under the same keys.
pub open spec fn nodes_value(m: Seq<(Seq<char>, JsonV)>) -> Seq<(Seq<char>, ValueV)>
    decreases m,
{
    if m.len() == 0 {
        seq![]
    } else {
        nodes_value(m.drop_last()).push((m.last().0, node_value(m.last().1)))
    }
}

// ---------------------------------------------------------------------------------------------
// Executable conversion of expressions
// ---------------------------------------------------------------------------------------------

/// The index of the first entry whose key is `key`.
fn find_value_key(es: &Vec<(String, Value)>, key: &String) -> (r: Option<usize>)
    ensures
        match find_key(entries_view(es@), key@, 0) {
            Some(i) => r == Some(i as usize),
            None => r is None,
        },
{
    let ghost ev = entries_view(es@);
    let mut j: usize = 0;
    while j < es.len()
        invariant
            j <= es@.len(),
            ev == entries_view(es@),
            ev.len() == es@.len(),
            find_key(ev, key@, 0) == find_key(ev, key@, j as int),
        decreases es@.len() - j,
    {
        assert(ev[j as int].0 == es@[j as int].0@);
        if es[j].0 == *key {
            return Some(j);
        }
        j += 1;
    }
    None
}

/// Sets `key` to `v` in the entries, as [`insert_entry`] describes.
pub fn insert_value(es: &mut Vec<(String, Value)>, key: String, v: Value)
    ensures
        entries_view(final(es)@) == insert_entry(entries_view(old(es)@), key@, v@),
{
    let ghost old_v = entries_view(es@);
    let ghost kv = (key@, v@);
    proof {
        lemma_find_key(old_v, key@, 0);
    }
    match find_value_key(es, &key) {
        Some(i) => {
            es.set(i, (key, v));
            assert(entries_view(es@) =~= old_v.update(i as int, kv));
        },
        None => {
            es.push((key, v));
            assert(entries_view(es@) =~= old_v.push(kv));
        },
    }
}

/// `t` inside an interpolation, as a string.
fn interpolate(t: &str) -> (r: String)
    ensures
        r@ == interpolated(t@),
{
    let mut v: Vec<char> = Vec::new();
    v.push('$');
    v.push('{');
    crate::text::push_str_chars(&mut v, t);
    v.push('}');
    assert(v@ =~= interpolated(t@));
    crate::text::string_of(v.as_slice())
}

/// The text of an object key, as [`key_text`] describes.
pub fn key_to_string(k: &ObjectKey) -> (r: String)
    ensures
        r@ == key_text(k@),
{
    match k {
        ObjectKey::Identifier(i) => i.as_str().to_owned(),
        ObjectKey::Expression(Expression::String(s)) => s.clone(),
        ObjectKey::Expression(e) => crate::format::expression_to_string(e),
    }
}

/// The text of a template expression as a value: the quoted string, or the heredoc with its
/// strip mode and then its escapes applied.
pub fn template_to_string(t: &TemplateExpr) -> (r: String)
    ensures
        r@ == template_text(t@),
{
    match t {
        TemplateExpr::QuotedString(s) => s.clone(),
        TemplateExpr::Heredoc(h) => {
            let c = h.to_cow_str();
            let v = crate::text::chars_of(c.as_str());
            let w = heredoc_text_exec(&v);
            crate::text::string_of(w.as_slice())
        },
    }
}

/// Converts an expression into a value, as [`expr_value`] describes.
pub fn expr_to_value(e: &Expression) -> (r: Value)
    ensures
        r@ == expr_value(e@),
    decreases e, 2nat,
{
    match e {
        Expression::Null => Value::Null,
        Expression::Bool(b) => Value::Bool(*b),
        Expression::Number(n) => Value::Number(n.duplicate()),
        Expression::String(s) => Value::String(s.clone()),
        Expression::Array(a) => Value::Array(values_to_vec(a)),
        Expression::Object(o) => Value::Object(entries_to_vec(o)),
        Expression::TemplateExpr(t) => Value::String(template_to_string(t)),
        Expression::Parenthesis(inner) => expr_to_value(inner),
        Expression::Raw(r) => Value::String(interpolate(r.as_str())),
        _ => {
            let t = crate::format::expression_to_string(e);
            Value::String(interpolate(t.as_str()))
        },
    }
}

/// The values of the expressions.
fn values_to_vec(es: &Vec<Expression>) -> (r: Vec<Value>)
    ensures
        values_view(r@) == values_of(exprs_view(es@)),
    decreases es, 1nat,
{
    let mut out: Vec<Value> = Vec::new();
    let mut i: usize = 0;
    proof {
        lemma_exprs_view(es@);
    }
    while i < es.len()
        invariant
            i <= es@.len(),
            exprs_view(es@).len() == es@.len(),
            forall|k: int| 0 <= k < es@.len() ==> exprs_view(es@)[k] == (#[trigger] es@[k])@,
            values_view(out@) == values_of(exprs_view(es@).take(i as int)),
        decreases es@.len() - i,
    {
        let v = expr_to_value(&es[i]);
        proof {
            let t = exprs_view(es@).take(i + 1);
            assert(t.drop_last() =~= exprs_view(es@).take(i as int));
            assert(t.last() == es@[i as int]@);
            assert(values_view(out@.push(v)) =~= values_view(out@).push(v@));
        }
        out.push(v);
        i += 1;
    }
    assert(exprs_view(es@).take(es@.len() as int) =~= exprs_view(es@));
    out
}

/// The entries of an object expression, as [`object_entries`] describes.
fn entries_to_vec(ps: &Vec<(ObjectKey, Expression)>) -> (r: Vec<(String, Value)>)
    ensures
        entries_view(r@) == object_entries(pairs_view(ps@)),
    decreases ps, 1nat,
{
    let mut out: Vec<(String, Value)> = Vec::new();
    let mut i: usize = 0;
    proof {
        lemma_pairs_view(ps@);
        assert(entries_view(out@) =~= object_entries(pairs_view(ps@).take(0)));
    }
    while i < ps.len()
        invariant
            i <= ps@.len(),
            pairs_view(ps@).len() == ps@.len(),
            forall|k: int| 0 <= k < ps@.len() ==> pairs_view(ps@)[k] == (
                (#[trigger] ps@[k]).0@,
                ps@[k].1@,
            ),
            entries_view(out@) == object_entries(pairs_view(ps@).take(i as int)),
        decreases ps@.len() - i,
    {
        let key = key_to_string(&ps[i].0);
        let v = expr_to_value(&ps[i].1);
        proof {
            let t = pairs_view(ps@).take(i + 1);
            assert(t.drop_last() =~= pairs_view(ps@).take(i as int));
            assert(t.last() == pairs_view(ps@)[i as int]);
        }
        insert_value(&mut out, key, v);
        i += 1;
    }
    assert(pairs_view(ps@).take(ps@.len() as int) =~= pairs_view(ps@));
    out
}

// ---------------------------------------------------------------------------------------------
// Executable conversion of bodies
// ---------------------------------------------------------------------------------------------

/// An intermediate node of the conversion of a body (see [`JsonV`]).
pub enum JsonNode {
    /// A map of nodes by key.
    Keyed(Vec<(String, JsonNode)>),
    /// The values of the bodies of one or more blocks.
    Bodies(Vec<Value>),
    /// The value of an attribute.
    Leaf(Value),
}

/// The content of a node.
pub open spec fn json_view(n: JsonNode) -> JsonV
    decreases n,
{
    match n {
        JsonNode::Keyed(m) => JsonV::Keyed(node_entries_view(m@)),
        JsonNode::Bodies(vs) => JsonV::Bodies(values_view(vs@)),
        JsonNode::Leaf(v) => JsonV::Leaf(v@),
    }
}

/// The contents of the entries of a map of nodes.
pub open spec fn node_entries_view(m: Seq<(String, JsonNode)>) -> Seq<(Seq<char>, JsonV)>
    decreases m,
{
    Seq::new(
        m.len(),
        |i: int|
            if 0 <= i < m.len() {
                (m[i].0@, json_view(m[i].1))
            } else {
                (Seq::empty(), JsonV::Leaf(ValueV::Null))
            },
    )
}

/// The index of the first node entry whose key is `key`.
fn find_node_key(es: &Vec<(String, JsonNode)>, key: &String) -> (r: Option<usize>)
    ensures
        match find_key(node_entries_view(es@), key@, 0) {
            Some(i) => r == Some(i as usize),
            None => r is None,
        },
{
    let ghost ev = node_entries_view(es@);
    let mut j: usize = 0;
    while j < es.len()
        invariant
            j <= es@.len(),
            ev == node_entries_view(es@),
            ev.len() == es@.len(),
            find_key(ev, key@, 0) == find_key(ev, key@, j as int),
        decreases es@.len() - j,
    {
        assert(ev[j as int].0 == es@[j as int].0@);
        if es[j].0 == *key {
            return Some(j);
        }
        j += 1;
    }
    None
}

/// Sets `key` to `node` in the map, as [`insert_entry`] describes.
fn insert_node(es: &mut Vec<(String, JsonNode)>, key: String, node: JsonNode)
    ensures
        node_entries_view(final(es)@) == insert_entry(node_entries_view(old(es)@), key@, json_view(node)),
{
    let ghost old_v = node_entries_view(es@);
    let ghost kv = (key@, json_view(node));
    proof {
        lemma_find_key(old_v, key@, 0);
    }
    match find_node_key(es, &key) {
        Some(i) => {
            es.set(i, (key, node));
            assert(node_entries_view(es@) =~= old_v.update(i as int, kv));
        },
        None => {
            es.push((key, node));
            assert(node_entries_view(es@) =~= old_v.push(kv));
        },
    }
}

/// Merges `node` into the map under `key`, as [`merge_into`] describes.
fn merge_into_exec(m: &mut Vec<(String, JsonNode)>, key: String, node: JsonNode)
    ensures
        node_entries_view(final(m)@) == merge_into(node_entries_view(old(m)@), key@, json_view(node)),
    decreases node, 1nat,
{
    let ghost old_v = node_entries_view(m@);
    proof {
        lemma_find_key(old_v, key@, 0);
    }
    match find_node_key(m, &key) {
        Some(i) => {
            let ghost before = m@;
            let (_, old_node) = m.remove(i);
            assert(json_view(old_node) == old_v[i as int].1);
            let merged = deep_merge_exec(old_node, node);
            let ghost mv = json_view(merged);
            m.insert(i, (key, merged));
            assert(m@ =~= before.update(i as int, (key, merged)));
            assert(node_entries_view(m@) =~= old_v.update(i as int, (key@, mv)));
        },
        None => {
            let ghost kv = (key@, json_view(node));
            m.push((key, node));
            assert(node_entries_view(m@) =~= old_v.push(kv));
        },
    }
}

/// Merges the node `r` into the node `l`, as [`deep_merge`] describes.
fn deep_merge_exec(l: JsonNode, r: JsonNode) -> (res: JsonNode)
    ensures
        json_view(res) == deep_merge(json_view(l), json_view(r)),
    decreases r, 0nat,
{
    match (l, r) {
        (JsonNode::Keyed(lm), JsonNode::Keyed(rm)) => JsonNode::Keyed(merge_all_exec(lm, rm)),
        (JsonNode::Bodies(a), JsonNode::Bodies(b)) => {
            let ghost av = values_view(a@);
            let ghost bv = values_view(b@);
            let mut a = a;
            let mut b = b;
            let ghost a0 = a@;
            let ghost b0 = b@;
            a.append(&mut b);
            assert(values_view(a@) =~= av + bv);
            JsonNode::Bodies(a)
        },
        (_, r) => r,
    }
}

/// Merges every entry of `rm`, in order, into `lm`, as [`merge_all`] describes.
fn merge_all_exec(lm: Vec<(String, JsonNode)>, rm: Vec<(String, JsonNode)>) -> (res: Vec<
    (String, JsonNode),
>)
    ensures
        node_entries_view(res@) == merge_all(node_entries_view(lm@), node_entries_view(rm@)),
    decreases rm, 2nat,
{
    let ghost rv = node_entries_view(rm@);
    let ghost r0 = rm@;
    let n0 = rm.len();
    let mut acc = lm;
    let ghost lv = node_entries_view(acc@);
    let mut rest = rm;
    let mut k: usize = 0;
    assert(rv.take(0) =~= Seq::<(Seq<char>, JsonV)>::empty());
    while rest.len() > 0
        invariant
            k <= r0.len() == n0,
            r0 == rm@,
            rv == node_entries_view(r0),
            rest@ == r0.skip(k as int),
            node_entries_view(acc@) == merge_all(lv, rv.take(k as int)),
        decreases rest@.len(),
    {
        let (key, node) = rest.remove(0);
        assert(r0[k as int] == (key, node));
        assert(decreases_to!(rm => rm@));
        assert(decreases_to!(rm@ => rm@[k as int]));
        assert(decreases_to!(rm@[k as int] => rm@[k as int].1));
        assert(decreases_to!(rm => node));
        proof {
            let t = rv.take(k + 1);
            assert(t.drop_last() =~= rv.take(k as int));
            assert(t.last() == rv[k as int]);
            assert(rv[k as int] == (key@, json_view(node)));
        }
        merge_into_exec(&mut acc, key, node);
        assert(rest@ =~= r0.skip(k + 1));
        k += 1;
    }
    assert(k == r0.len());
    assert(rv.take(k as int) =~= rv);
    acc
}

/// The text of a block label.
fn label_to_string(l: &BlockLabel) -> (r: String)
    ensures
        r@ == label_text(label_view(*l)),
{
    match l {
        BlockLabel::Identifier(i) => i.as_str().to_owned(),
        BlockLabel::String(t) => t.clone(),
    }
}

/// The node of a block under its identifier, as [`block_node`] describes.
fn block_node_exec(ls: &Vec<BlockLabel>, v: Value) -> (r: JsonNode)
    ensures
        json_view(r) == block_node(labels_view(ls@), v@),
{
    let ghost lv = labels_view(ls@);
    let ghost vv = v@;
    let mut bodies: Vec<Value> = Vec::new();
    bodies.push(v);
    assert(values_view(bodies@) =~= seq![vv]);
    let mut node = JsonNode::Bodies(bodies);
    let mut j: usize = ls.len();
    assert(lv.skip(j as int) =~= Seq::<LabelV>::empty());
    while j > 0
        invariant
            j <= ls@.len(),
            lv == labels_view(ls@),
            lv.len() == ls@.len(),
            json_view(node) == block_node(lv.skip(j as int), vv),
        decreases j,
    {
        j -= 1;
        let key = label_to_string(&ls[j]);
        let ghost inner = json_view(node);
        let mut entries: Vec<(String, JsonNode)> = Vec::new();
        entries.push((key, node));
        proof {
            assert(lv[j as int] == label_view(ls@[j as int]));
            assert(lv.skip(j as int).drop_first() =~= lv.skip(j + 1));
            assert(node_entries_view(entries@) =~= seq![(label_text(lv[j as int]), inner)]);
        }
        node = JsonNode::Keyed(entries);
    }
    assert(lv.skip(0) =~= lv);
    node
}

/// Sets `key` to the node of a block in the map, as [`merge_into`] describes.
fn body_nodes_exec(b: &Vec<Structure>) -> (r: Vec<(String, JsonNode)>)
    ensures
        node_entries_view(r@) == body_nodes(structures_view(b@)),
    decreases b, 0nat,
{
    let ghost bv = structures_view(b@);
    proof {
        lemma_structures_view_len(b@);
    }
    let mut m: Vec<(String, JsonNode)> = Vec::new();
    let mut i: usize = 0;
    assert(node_entries_view(m@) =~= body_nodes(bv.take(0)));
    while i < b.len()
        invariant
            i <= b@.len(),
            bv == structures_view(b@),
            bv.len() == b@.len(),
            forall|k: int| 0 <= k < b@.len() ==> bv[k] == (#[trigger] b@[k])@,
            node_entries_view(m@) == body_nodes(bv.take(i as int)),
        decreases b@.len() - i,
    {
        proof {
            let t = bv.take(i + 1);
            assert(t.drop_last() =~= bv.take(i as int));
            assert(t.last() == b@[i as int]@);
        }
        match &b[i] {
            Structure::Attribute(a) => {
                let key = a.key.as_str().to_owned();
                let v = expr_to_value(&a.expr);
                insert_node(&mut m, key, JsonNode::Leaf(v));
            },
            Structure::Block(blk) => {
                let v = body_to_value(&blk.body.0);
                let node = block_node_exec(&blk.labels, v);
                let key = blk.identifier.as_str().to_owned();
                merge_into_exec(&mut m, key, node);
            },
        }
        i += 1;
    }
    assert(bv.take(b@.len() as int) =~= bv);
    m
}

/// Converts the structures of a body into a value, as [`body_value`] describes.
pub fn body_to_value(b: &Vec<Structure>) -> (r: Value)
    ensures
        r@ == body_value(structures_view(b@)),
    decreases b, 1nat,
{
    let m = body_nodes_exec(b);
    Value::Object(nodes_to_values(m))
}

/// Converts a node into a value, as [`node_value`] describes.
fn node_to_value(n: JsonNode) -> (r: Value)
    ensures
        r@ == node_value(json_view(n)),
    decreases n,
{
    match n {
        JsonNode::Keyed(m) => Value::Object(nodes_to_values(m)),
        JsonNode::Bodies(vs) => {
            if vs.len() == 1 {
                let mut vs = vs;
                let ghost vv = values_view(vs@);
                assert(vv[0] == vs@[0]@);
                vs.remove(0)
            } else {
                Value::Array(vs)
            }
        },
        JsonNode::Leaf(v) => v,
    }
}

/// Converts the nodes of a map into values, as [`nodes_value`] describes.
fn nodes_to_values(m: Vec<(String, JsonNode)>) -> (r: Vec<(String, Value)>)
    ensures
        entries_view(r@) == nodes_value(node_entries_view(m@)),
    decreases m,
{
    let ghost mv = node_entries_view(m@);
    let ghost m0 = m@;
    let n0 = m.len();
    let mut out: Vec<(String, Value)> = Vec::new();
    let mut rest = m;
    let mut k: usize = 0;
    assert(entries_view(out@) =~= nodes_value(mv.take(0)));
    while rest.len() > 0
        invariant
            k <= m0.len() == n0,
            m0 == m@,
            mv == node_entries_view(m0),
            rest@ == m0.skip(k as int),
            entries_view(out@) == nodes_value(mv.take(k as int)),
        decreases rest@.len(),
    {
        let (key, node) = rest.remove(0);
        assert(m0[k as int] == (key, node));
        assert(decreases_to!(m => m@));
        assert(decreases_to!(m@ => m@[k as int]));
        assert(decreases_to!(m@[k as int] => m@[k as int].1));
        assert(decreases_to!(m => node));
        let ghost kv = key@;
        let v = node_to_value(node);
        proof {
            let t = mv.take(k + 1);
            assert(t.drop_last() =~= mv.take(k as int));
            assert(t.last() == mv[k as int]);
        }
        let ghost prev = entries_view(out@);
        out.push((key, v));
        assert(entries_view(out@) =~= prev.push((kv, v@)));
        assert(rest@ =~= m0.skip(k + 1));
        k += 1;
    }
    assert(mv.take(k as int) =~= mv);
    out
}

/// Parses an HCL document into a value: the object that [`body_value`] makes of its body.
/// Fails with [`Error::Parse`] exactly where the text is not a document.
pub fn from_str(input: &str) -> (r: Result<Value, Error>)
    ensures
        match parse_body(input@) {
            Some(b) => r matches Ok(v) && v@ == body_value(b),
            None => r == Err::<Value, Error>(Error::Parse),
        },
{
    match crate::read::parse(input) {
        Ok(body) => Ok(body_to_value(&body.0)),
        Err(e) => Err(e),
    }
}

} // verus!
