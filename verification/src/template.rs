//! The HCL template sub-language: literals, interpolations and directives.
use vstd::prelude::*;
use crate::expr::{ExprV, Expression};
use crate::ident::Identifier;

verus! {

/// Controls the whitespace strip behaviour on adjacent string literals.
#[derive(Debug, Clone, Copy, PartialEq, Eq, Structural)]
pub enum StripMode {
    /// Don't strip adjacent spaces (the variant `None` of the HCL specification).
    NoStrip,
    /// Strip any adjacent spaces from the immediately preceding string literal.
    Start,
    /// Strip any adjacent spaces from the immediately following string literal.
    End,
    /// Strip any adjacent spaces from the preceding and the following string literals.
    Both,
}

impl StripMode {
    /// The strip mode of a tag from whether it strips at its start and at its end.
    pub open spec fn of(start: bool, end: bool) -> StripMode {
        if start && end {
            StripMode::Both
        } else if start {
            StripMode::Start
        } else if end {
            StripMode::End
        } else {
            StripMode::NoStrip
        }
    }

    /// Whether the mode strips before the tag.
    pub open spec fn strips_start(self) -> bool {
        self is Start || self is Both
    }

    /// Whether the mode strips after the tag.
    pub open spec fn strips_end(self) -> bool {
        self is End || self is Both
    }

    /// The strip mode of a tag from whether it strips at its start and at its end.
    pub fn from_bools(start: bool, end: bool) -> (r: StripMode)
        ensures
            r == StripMode::of(start, end),
    {
        if start && end {
            StripMode::Both
        } else if start {
            StripMode::Start
        } else if end {
            StripMode::End
        } else {
            StripMode::NoStrip
        }
    }

    /// Whether the mode strips before the tag.
    pub fn strip_start(&self) -> (r: bool)
        ensures
            r == self.strips_start(),
    {
        matches!(self, StripMode::Start | StripMode::Both)
    }

    /// Whether the mode strips after the tag.
    pub fn strip_end(&self) -> (r: bool)
        ensures
            r == self.strips_end(),
    {
        matches!(self, StripMode::End | StripMode::Both)
    }
}

/// A template: a sequence of elements.
#[derive(Debug, PartialEq, Eq)]
pub struct Template {
    /// The elements of the template, in order.
    pub elements: Vec<Element>,
}

/// An element of a template.
#[derive(Debug, PartialEq, Eq)]
pub enum Element {
    /// A literal sequence of characters to include in the resulting string.
    Literal(String),
    /// An interpolation sequence that evaluates an expression (written `${ ... }`) and
    /// converts its result to a string.
    Interpolation(Interpolation),
    /// A template directive that supports conditional results and iteration (written
    /// `%{ ... }`).
    Directive(Directive),
}

/// An interpolation sequence.
#[derive(Debug, PartialEq, Eq)]
pub struct Interpolation {
    /// The interpolated expression.
    pub expr: Expression,
    /// The whitespace strip mode to use on the template elements preceding and following this
    /// interpolation sequence.
    pub strip: StripMode,
}

/// A template directive.
#[derive(Debug, PartialEq, Eq)]
pub enum Directive {
    /// An `if` directive.
    If(IfDirective),
    /// A `for` directive.
    For(ForDirective),
}

/// The template `if` directive: chooses one of two templates by a condition.
#[derive(Debug, PartialEq, Eq)]
pub struct IfDirective {
    /// The condition.
    pub cond_expr: Expression,
    /// The template used where the condition holds.
    pub true_template: Template,
    /// The template used where it does not, if any.
    pub false_template: Option<Template>,
    /// The strip mode of the `if` tag.
    pub if_strip: StripMode,
    /// The strip mode of the `else` tag.
    pub else_strip: StripMode,
    /// The strip mode of the `endif` tag.
    pub endif_strip: StripMode,
}

/// The template `for` directive: repeats a template for the elements of a collection.
#[derive(Debug, PartialEq, Eq)]
pub struct ForDirective {
    /// The variable that holds the key of each element, if any.
    pub key_var: Option<Identifier>,
    /// The variable that holds the value of each element.
    pub value_var: Identifier,
    /// The collection.
    pub collection_expr: Expression,
    /// The template repeated for each element.
    pub template: Template,
    /// The strip mode of the `for` tag.
    pub for_strip: StripMode,
    /// The strip mode of the `endfor` tag.
    pub endfor_strip: StripMode,
}

/// The content of a template element.
pub enum ElementV {
    Literal(Seq<char>),
    Interp(ExprV, StripMode),
    If(IfV),
    For(ForDirV),
}

/// The content of an `if` directive.
pub struct IfV {
    pub cond: ExprV,
    pub then_t: Seq<ElementV>,
    pub else_t: Option<Seq<ElementV>>,
    pub if_strip: StripMode,
    pub else_strip: StripMode,
    pub endif_strip: StripMode,
}

/// The content of a `for` directive.
pub struct ForDirV {
    pub key_var: Option<Seq<char>>,
    pub value_var: Seq<char>,
    pub collection: ExprV,
    pub body: Seq<ElementV>,
    pub for_strip: StripMode,
    pub endfor_strip: StripMode,
}

/// The content of a template element.
pub open spec fn element_view(e: Element) -> ElementV
    decreases e,
{
    match e {
        Element::Literal(s) => ElementV::Literal(s@),
        Element::Interpolation(i) => ElementV::Interp(i.expr@, i.strip),
        Element::Directive(Directive::If(d)) => ElementV::If(
            IfV {
                cond: d.cond_expr@,
                then_t: elements_view(d.true_template.elements@),
                else_t: match d.false_template {
                    Some(t) => Some(elements_view(t.elements@)),
                    None => None,
                },
                if_strip: d.if_strip,
                else_strip: d.else_strip,
                endif_strip: d.endif_strip,
            },
        ),
        Element::Directive(Directive::For(d)) => ElementV::For(
            ForDirV {
                key_var: match d.key_var {
                    Some(k) => Some(k@),
                    None => None,
                },
                value_var: d.value_var@,
                collection: d.collection_expr@,
                body: elements_view(d.template.elements@),
                for_strip: d.for_strip,
                endfor_strip: d.endfor_strip,
            },
        ),
    }
}

/// The contents of a sequence of template elements.
pub open spec fn elements_view(s: Seq<Element>) -> Seq<ElementV>
    decreases s,
{
    if s.len() == 0 {
        seq![]
    } else {
        elements_view(s.drop_last()).push(element_view(s.last()))
    }
}

impl View for Template {
    type V = Seq<ElementV>;

    open spec fn view(&self) -> Seq<ElementV> {
        elements_view(self.elements@)
    }
}

impl View for Element {
    type V = ElementV;

    open spec fn view(&self) -> ElementV {
        element_view(*self)
    }
}

impl Template {
    /// Creates an empty template.
    pub fn new() -> (r: Template)
        ensures
            r@ == Seq::<ElementV>::empty(),
    {
        Template { elements: Vec::new() }
    }

    /// The template elements.
    pub fn elements(&self) -> (r: &[Element])
        ensures
            r@ == self.elements@,
    {
        self.elements.as_slice()
    }

    /// The template elements, to change in place.
    pub fn elements_mut(&mut self) -> (r: &mut Vec<Element>)
        ensures
            *r == old(self).elements,
            final(self).elements == *final(r),
    {
        &mut self.elements
    }

    /// Adds an element to the end of the template.
    pub fn add_element(self, element: Element) -> (r: Template)
        ensures
            r@ == self@.push(element@),
    {
        let mut elements = self.elements;
        let ghost old_elems = elements@;
        elements.push(element);
        assert(elements@.drop_last() =~= old_elems);
        Template { elements }
    }

    /// Adds a literal to the end of the template.
    pub fn add_literal(self, literal: String) -> (r: Template)
        ensures
            r@ == self@.push(ElementV::Literal(literal@)),
    {
        self.add_element(Element::Literal(literal))
    }

    /// Adds an interpolation to the end of the template.
    pub fn add_interpolation(self, interpolation: Interpolation) -> (r: Template)
        ensures
            r@ == self@.push(ElementV::Interp(interpolation.expr@, interpolation.strip)),
    {
        self.add_element(Element::Interpolation(interpolation))
    }

    /// Adds a directive to the end of the template.
    pub fn add_directive(self, directive: Directive) -> (r: Template)
        ensures
            r@ == self@.push(element_view(Element::Directive(directive))),
    {
        self.add_element(Element::Directive(directive))
    }
}

impl Interpolation {
    /// Creates an interpolation of an expression that strips nothing.
    pub fn new(expr: Expression) -> (r: Interpolation)
        ensures
            r.expr == expr,
            r.strip == StripMode::NoStrip,
    {
        Interpolation { expr, strip: StripMode::NoStrip }
    }

    /// Sets the strip mode.
    pub fn with_strip(self, strip: StripMode) -> (r: Interpolation)
        ensures
            r.expr == self.expr,
            r.strip == strip,
    {
        Interpolation { expr: self.expr, strip }
    }
}

impl IfDirective {
    /// Creates an `if` directive without an `else` template that strips nothing.
    pub fn new(cond_expr: Expression, true_template: Template) -> (r: IfDirective)
        ensures
            r.cond_expr == cond_expr,
            r.true_template == true_template,
            r.false_template is None,
            r.if_strip == StripMode::NoStrip,
            r.else_strip == StripMode::NoStrip,
            r.endif_strip == StripMode::NoStrip,
    {
        IfDirective {
            cond_expr,
            true_template,
            false_template: None,
            if_strip: StripMode::NoStrip,
            else_strip: StripMode::NoStrip,
            endif_strip: StripMode::NoStrip,
        }
    }

    /// Sets the `else` template.
    pub fn with_false_template(self, else_template: Template) -> (r: IfDirective)
        ensures
            r.cond_expr == self.cond_expr,
            r.true_template == self.true_template,
            r.false_template == Some(else_template),
            r.if_strip == self.if_strip,
            r.else_strip == self.else_strip,
            r.endif_strip == self.endif_strip,
    {
        IfDirective { false_template: Some(else_template), ..self }
    }

    /// Sets the strip mode of the `if` tag.
    pub fn with_if_strip(self, strip: StripMode) -> (r: IfDirective)
        ensures
            r == (IfDirective { if_strip: strip, ..self }),
    {
        IfDirective { if_strip: strip, ..self }
    }

    /// Sets the strip mode of the `else` tag.
    pub fn with_else_strip(self, strip: StripMode) -> (r: IfDirective)
        ensures
            r == (IfDirective { else_strip: strip, ..self }),
    {
        IfDirective { else_strip: strip, ..self }
    }

    /// Sets the strip mode of the `endif` tag.
    pub fn with_endif_strip(self, strip: StripMode) -> (r: IfDirective)
        ensures
            r == (IfDirective { endif_strip: strip, ..self }),
    {
        IfDirective { endif_strip: strip, ..self }
    }
}

impl ForDirective {
    /// Creates a `for` directive without a key variable that strips nothing.
    pub fn new(value_var: Identifier, collection_expr: Expression, template: Template) -> (r:
        ForDirective)
        ensures
            r.key_var is None,
            r.value_var == value_var,
            r.collection_expr == collection_expr,
            r.template == template,
            r.for_strip == StripMode::NoStrip,
            r.endfor_strip == StripMode::NoStrip,
    {
        ForDirective {
            key_var: None,
            value_var,
            collection_expr,
            template,
            for_strip: StripMode::NoStrip,
            endfor_strip: StripMode::NoStrip,
        }
    }

    /// Sets the key variable.
    pub fn with_key_var(self, key_var: Identifier) -> (r: ForDirective)
        ensures
            r == (ForDirective { key_var: Some(key_var), ..self }),
    {
        ForDirective { key_var: Some(key_var), ..self }
    }

    /// Sets the strip mode of the `for` tag.
    pub fn with_for_strip(self, strip: StripMode) -> (r: ForDirective)
        ensures
            r == (ForDirective { for_strip: strip, ..self }),
    {
        ForDirective { for_strip: strip, ..self }
    }

    /// Sets the strip mode of the `endfor` tag.
    pub fn with_endfor_strip(self, strip: StripMode) -> (r: ForDirective)
        ensures
            r == (ForDirective { endfor_strip: strip, ..self }),
    {
        ForDirective { endfor_strip: strip, ..self }
    }
}

} // verus!
