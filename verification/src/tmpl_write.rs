//! Writing templates as text, and reading them from text.
use vstd::prelude::*;
use crate::error::Error;
use crate::expr::{Expression, HeredocStripMode, TemplateExpr};
use crate::template::{Directive, Element, ElementV, ForDirective, IfDirective, StripMode, Template, element_view, elements_view};
use crate::text::{push_chars, push_str_chars, string_of};
use crate::tmpl_grammar::{close_text, keyword_text, open_text, parse_template, render_element, render_elements, tmpl_expr_text};

verus! {

fn write_open(out: &mut Vec<char>, marker: char, strip: StripMode)
    ensures
        final(out)@ == old(out)@ + open_text(marker, strip),
{
    out.push(marker);
    out.push('{');
    if strip.strip_start() {
        out.push('~');
    }
}

fn write_close(out: &mut Vec<char>, strip: StripMode)
    ensures
        final(out)@ == old(out)@ + close_text(strip),
{
    if strip.strip_end() {
        out.push('~');
    }
    out.push('}');
}

fn write_keyword(out: &mut Vec<char>, kw: &[char], strip: StripMode)
    ensures
        final(out)@ == old(out)@ + keyword_text(kw@, strip),
{
    let ghost o = out@;
    write_open(out, '%', strip);
    out.push(' ');
    push_chars(out, kw);
    out.push(' ');
    write_close(out, strip);
    assert(out@ =~= o + keyword_text(kw@, strip));
}

fn write_tmpl_expr(out: &mut Vec<char>, e: &Expression)
    ensures
        final(out)@ == old(out)@ + tmpl_expr_text(e@),
{
    let pre: Vec<char> = Vec::new();
    let mut ind: Vec<char> = Vec::new();
    ind.push(' ');
    ind.push(' ');
    assert(ind@ =~= seq![' ', ' ']);
    assert(pre@ =~= Seq::<char>::empty());
    crate::format::write_expr(out, e, &pre, &ind, false);
}

/// Appends the text of a template element, as [`render_element`] describes.
pub fn write_element(out: &mut Vec<char>, e: &Element)
    ensures
        final(out)@ == old(out)@ + render_element(e@),
    decreases e, 2nat,
{
    let ghost o = out@;
    match e {
        Element::Literal(t) => {
            push_str_chars(out, t.as_str());
        },
        Element::Interpolation(i) => {
            write_open(out, '$', i.strip);
            write_tmpl_expr(out, &i.expr);
            write_close(out, i.strip);
            assert(out@ =~= o + render_element(e@));
        },
        Element::Directive(Directive::If(d)) => {
            write_if(out, d);
        },
        Element::Directive(Directive::For(d)) => {
            write_for(out, d);
        },
    }
}

/// The text of the `else` part of an `if` directive.
spec fn else_text(f: Option<Template>, strip: StripMode) -> Seq<char> {
    match f {
        Some(t) => keyword_text(seq!['e', 'l', 's', 'e'], strip) + render_elements(t@),
        None => seq![],
    }
}

/// Appends the text of an `if` directive.
#[verifier::rlimit(80)]
#[verifier::spinoff_prover]
fn write_if(out: &mut Vec<char>, d: &IfDirective)
    ensures
        final(out)@ == old(out)@ + render_element(element_view(Element::Directive(Directive::If(*d)))),
    decreases d, 1nat,
{
    let ghost o = out@;
    let ghost then_v = elements_view(d.true_template.elements@);
    let ghost else_v = else_text(d.false_template, d.else_strip);
    let ghost head = open_text('%', d.if_strip) + seq![' ', 'i', 'f', ' '] + tmpl_expr_text(d.cond_expr@) + seq![' '] + close_text(d.if_strip);
    let ghost ev = element_view(Element::Directive(Directive::If(*d)));
    assert(render_element(ev) == head + render_elements(then_v) + else_v + keyword_text(seq!['e', 'n', 'd', 'i', 'f'], d.endif_strip)) by {
        assert(ev is If);
    }
    write_open(out, '%', d.if_strip);
    push_chars(out, &[' ', 'i', 'f', ' ']);
    write_tmpl_expr(out, &d.cond_expr);
    out.push(' ');
    write_close(out, d.if_strip);
    assert(out@ =~= o + head);
    write_elements(out, &d.true_template.elements);
    let ghost mid = out@;
    match &d.false_template {
        Some(t) => {
            write_keyword(out, &['e', 'l', 's', 'e'], d.else_strip);
            write_elements(out, &t.elements);
            assert(out@ =~= mid + else_v);
        },
        None => {
            assert(out@ =~= mid + else_v);
        },
    }
    write_keyword(out, &['e', 'n', 'd', 'i', 'f'], d.endif_strip);
    assert(out@ =~= o + render_element(ev));
}

/// Appends the text of a `for` directive.
#[verifier::rlimit(40)]
fn write_for(out: &mut Vec<char>, d: &ForDirective)
    ensures
        final(out)@ == old(out)@ + render_element(element_view(Element::Directive(Directive::For(*d)))),
    decreases d, 1nat,
{
    let ghost o = out@;
    write_open(out, '%', d.for_strip);
    push_chars(out, &[' ', 'f', 'o', 'r', ' ']);
    match &d.key_var {
        Some(k) => {
            push_str_chars(out, k.as_str());
            push_chars(out, &[',', ' ']);
        },
        None => {},
    }
    push_str_chars(out, d.value_var.as_str());
    push_chars(out, &[' ', 'i', 'n', ' ']);
    write_tmpl_expr(out, &d.collection_expr);
    out.push(' ');
    write_close(out, d.for_strip);
    write_elements(out, &d.template.elements);
    write_keyword(out, &['e', 'n', 'd', 'f', 'o', 'r'], d.endfor_strip);
    assert(out@ =~= o + render_element(element_view(Element::Directive(Directive::For(*d)))));
}

/// Appends the text of a sequence of template elements, as [`render_elements`] describes.
pub fn write_elements(out: &mut Vec<char>, es: &Vec<Element>)
    ensures
        final(out)@ == old(out)@ + render_elements(elements_view(es@)),
    decreases es, 0nat,
{
    let ghost o = out@;
    let mut i: usize = 0;
    assert(elements_view(es@.take(0)) =~= Seq::<ElementV>::empty());
    assert(o + seq![] =~= o);
    while i < es.len()
        invariant
            i <= es@.len(),
            out@ == o + render_elements(elements_view(es@.take(i as int))),
        decreases es@.len() - i,
    {
        let ghost prev = elements_view(es@.take(i as int));
        proof {
            assert(es@.take(i + 1).drop_last() =~= es@.take(i as int));
            assert(elements_view(es@.take(i + 1)) == prev.push(es@[i as int]@));
            assert(prev.push(es@[i as int]@).drop_last() =~= prev);
        }
        write_element(out, &es[i]);
        proof {
            let cur = prev.push(es@[i as int]@);
            assert(out@ =~= o + render_elements(cur));
        }
        i += 1;
    }
    assert(es@.take(es@.len() as int) =~= es@);
}

impl Template {
    /// The text of the template.
    pub fn to_text(&self) -> (r: String)
        ensures
            r@ == render_elements(self@),
    {
        let mut out: Vec<char> = Vec::new();
        write_elements(&mut out, &self.elements);
        assert(seq![] + render_elements(self@) =~= render_elements(self@));
        string_of(out.as_slice())
    }

    /// Parses a template from its text. Fails with [`Error::Parse`] exactly where the text is
    /// not a template.
    pub fn from_text(s: &str) -> (r: Result<Template, Error>)
        ensures
            match parse_template(s@) {
                Some(es) => r matches Ok(t) && t@ == es,
                None => r == Err::<Template, Error>(Error::Parse),
            },
    {
        let v = crate::text::chars_of(s);
        match crate::read::tmpl_elems::tmpl_elems_exec(&v, 0) {
            Some((es, e)) => if e == v.len() {
                Ok(Template { elements: es })
            } else {
                Err(Error::Parse)
            },
            None => Err(Error::Parse),
        }
    }

    /// Expands a template expression to a template: its text (the quoted string, or the heredoc
    /// with its strip mode applied) parsed as a template.
    pub fn from_expr(expr: &TemplateExpr) -> (r: Result<Template, Error>)
        ensures
            match parse_template(template_expr_text(*expr)) {
                Some(es) => r matches Ok(t) && t@ == es,
                None => r == Err::<Template, Error>(Error::Parse),
            },
    {
        let text = expr.to_cow_str();
        Template::from_text(text.as_str())
    }
}

/// The text of a template expression: the quoted string, or the heredoc with its strip mode
/// applied.
pub open spec fn template_expr_text(e: TemplateExpr) -> Seq<char> {
    match e {
        TemplateExpr::QuotedString(s) => s@,
        TemplateExpr::Heredoc(h) => match h.strip {
            HeredocStripMode::NoStrip => h.template@,
            HeredocStripMode::Indent => crate::util::dedent_seq(h.template@, false),
        },
    }
}

} // verus!
