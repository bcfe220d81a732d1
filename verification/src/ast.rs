//! Syntax details that the parser recognizes but that the structure types do not keep: how
//! object items are written, where template tags end, and a body read with its whitespace,
//! comments and positions, which prints back to the text it was read from.
use vstd::prelude::*;
use vstd::string::StringExecFns;
use crate::template::StripMode;
use crate::structure::{StructureV, structure_view, structures_view};

verus! {

/// The separator between the key and the value of an object item.
#[derive(Debug, Clone, Copy, PartialEq, Eq, Structural)]
pub enum ObjectKeyValueSeparator {
    /// `:`
    Colon,
    /// `=`
    Equals,
}

/// What ends the value of an object item.
#[derive(Debug, Clone, Copy, PartialEq, Eq, Structural)]
pub enum ObjectValueTerminator {
    /// Nothing: the item is the last one before the closing brace (the variant `None` of the
    /// HCL specification).
    NoTerminator,
    /// A line ending.
    Newline,
    /// A comma.
    Comma,
}

impl ObjectKeyValueSeparator {
    /// The separator as written.
    pub fn as_char(&self) -> (r: char)
        ensures
            r == (match self {
                ObjectKeyValueSeparator::Colon => ':',
                ObjectKeyValueSeparator::Equals => '=',
            }),
    {
        match self {
            ObjectKeyValueSeparator::Colon => ':',
            ObjectKeyValueSeparator::Equals => '=',
        }
    }
}

/// The `endif` tag of an `if` directive: its strip mode and the whitespace written before and
/// after the keyword.
#[derive(Debug, Clone, PartialEq, Eq)]
pub struct EndifTemplateExpr {
    preamble: String,
    trailing: String,
    strip: StripMode,
}

impl EndifTemplateExpr {
    /// Creates the tag with the given strip mode and no surrounding whitespace.
    pub fn new(strip: StripMode) -> (r: EndifTemplateExpr)
        ensures
            r.strip_view() == strip,
            r.preamble_view() == Seq::<char>::empty(),
            r.trailing_view() == Seq::<char>::empty(),
    {
        EndifTemplateExpr { preamble: String::new(), trailing: String::new(), strip }
    }

    /// The whitespace before the keyword.
    pub closed spec fn preamble_view(&self) -> Seq<char> {
        self.preamble@
    }

    /// The whitespace after the keyword.
    pub closed spec fn trailing_view(&self) -> Seq<char> {
        self.trailing@
    }

    /// The strip mode of the tag.
    pub fn strip(&self) -> (r: StripMode)
        ensures
            r == self.strip_view(),
    {
        self.strip
    }

    /// The strip mode of the tag.
    pub closed spec fn strip_view(&self) -> StripMode {
        self.strip
    }

    /// The whitespace before the keyword.
    pub fn preamble(&self) -> (r: &str)
        ensures
            r@ == self.preamble_view(),
    {
        self.preamble.as_str()
    }

    /// Sets the whitespace before the keyword.
    pub fn set_preamble(&mut self, preamble: String)
        ensures
            final(self).preamble_view() == preamble@,
            final(self).trailing_view() == old(self).trailing_view(),
            final(self).strip_view() == old(self).strip_view(),
    {
        self.preamble = preamble;
    }

    /// The whitespace after the keyword.
    pub fn trailing(&self) -> (r: &str)
        ensures
            r@ == self.trailing_view(),
    {
        self.trailing.as_str()
    }

    /// Sets the whitespace after the keyword.
    pub fn set_trailing(&mut self, trailing: String)
        ensures
            final(self).trailing_view() == trailing@,
            final(self).preamble_view() == old(self).preamble_view(),
            final(self).strip_view() == old(self).strip_view(),
    {
        self.trailing = trailing;
    }
}

/// The `endfor` tag of a `for` directive: its strip mode and the whitespace written before and
/// after the keyword.
#[derive(Debug, Clone, PartialEq, Eq)]
pub struct EndforTemplateExpr {
    preamble: String,
    trailing: String,
    strip: StripMode,
}

impl EndforTemplateExpr {
    /// Creates the tag with the given strip mode and no surrounding whitespace.
    pub fn new(strip: StripMode) -> (r: EndforTemplateExpr)
        ensures
            r.strip_view() == strip,
            r.preamble_view() == Seq::<char>::empty(),
            r.trailing_view() == Seq::<char>::empty(),
    {
        EndforTemplateExpr { preamble: String::new(), trailing: String::new(), strip }
    }

    /// The whitespace before the keyword.
    pub closed spec fn preamble_view(&self) -> Seq<char> {
        self.preamble@
    }

    /// The whitespace after the keyword.
    pub closed spec fn trailing_view(&self) -> Seq<char> {
        self.trailing@
    }

    /// The strip mode of the tag.
    pub closed spec fn strip_view(&self) -> StripMode {
        self.strip
    }

    /// The strip mode of the tag.
    pub fn strip(&self) -> (r: StripMode)
        ensures
            r == self.strip_view(),
    {
        self.strip
    }

    /// The whitespace before the keyword.
    pub fn preamble(&self) -> (r: &str)
        ensures
            r@ == self.preamble_view(),
    {
        self.preamble.as_str()
    }

    /// Sets the whitespace before the keyword.
    pub fn set_preamble(&mut self, preamble: String)
        ensures
            final(self).preamble_view() == preamble@,
            final(self).trailing_view() == old(self).trailing_view(),
            final(self).strip_view() == old(self).strip_view(),
    {
        self.preamble = preamble;
    }

    /// The whitespace after the keyword.
    pub fn trailing(&self) -> (r: &str)
        ensures
            r@ == self.trailing_view(),
    {
        self.trailing.as_str()
    }

    /// Sets the whitespace after the keyword.
    pub fn set_trailing(&mut self, trailing: String)
        ensures
            final(self).trailing_view() == trailing@,
            final(self).preamble_view() == old(self).preamble_view(),
            final(self).strip_view() == old(self).strip_view(),
    {
        self.trailing = trailing;
    }
}

/// A structure of a body as it was read: the whitespace and comments before it, its own text
/// and where that text lies in the input, the rest of its line (spaces, a comment and the line
/// ending), and what it means.
#[derive(Debug, PartialEq, Eq)]
pub struct Structure {
    /// The whitespace and comments between the previous structure and this one.
    pub prefix: String,
    /// Where the structure's own text starts and ends in the input, counted in characters.
    pub span: (usize, usize),
    /// The structure's own text.
    pub text: String,
    /// What follows the structure on its line: spaces, a comment and the line ending.
    pub suffix: String,
    /// The attribute or block that the text holds.
    pub value: crate::structure::Structure,
}

/// A body as it was read: its structures, and the whitespace and comments after the last one.
#[derive(Debug, PartialEq, Eq)]
pub struct Body {
    /// The structures in order.
    pub structures: Vec<Structure>,
    /// The whitespace and comments after the last structure.
    pub suffix: String,
}

/// The model of a [`Structure`].
pub struct StructureRawV {
    pub prefix: Seq<char>,
    pub start: int,
    pub end: int,
    pub text: Seq<char>,
    pub suffix: Seq<char>,
    pub value: StructureV,
}

/// The model of a [`Body`].
pub struct BodyRawV {
    pub structures: Seq<StructureRawV>,
    pub suffix: Seq<char>,
}

impl View for Structure {
    type V = StructureRawV;

    open spec fn view(&self) -> StructureRawV {
        StructureRawV {
            prefix: self.prefix@,
            start: self.span.0 as int,
            end: self.span.1 as int,
            text: self.text@,
            suffix: self.suffix@,
            value: structure_view(self.value),
        }
    }
}

impl View for Body {
    type V = BodyRawV;

    open spec fn view(&self) -> BodyRawV {
        BodyRawV { structures: self.structures@.map_values(|x: Structure| x@), suffix: self.suffix@ }
    }
}

/// The text of a sequence of read structures: each one's prefix, text and suffix in turn.
pub open spec fn raw_items_text(items: Seq<StructureRawV>) -> Seq<char>
    decreases items.len(),
{
    if items.len() == 0 {
        seq![]
    } else {
        raw_items_text(items.drop_last()) + items.last().prefix + items.last().text
            + items.last().suffix
    }
}

/// The text of a read body.
pub open spec fn raw_text(b: BodyRawV) -> Seq<char> {
    raw_items_text(b.structures) + b.suffix
}

/// What a sequence of read structures means.
pub open spec fn raw_values(items: Seq<StructureRawV>) -> Seq<StructureV> {
    items.map_values(|x: StructureRawV| x.value)
}

impl Body {
    /// The text of the body: every piece that was read, in order.
    pub fn to_text(&self) -> (r: String)
        ensures
            r@ == raw_text(self@),
    {
        let mut out = String::new();
        let mut i: usize = 0;
        while i < self.structures.len()
            invariant
                i <= self.structures@.len(),
                out@ == raw_items_text(self@.structures.take(i as int)),
            decreases self.structures@.len() - i,
        {
            let st = &self.structures[i];
            out.append(st.prefix.as_str());
            out.append(st.text.as_str());
            out.append(st.suffix.as_str());
            proof {
                let t = self@.structures.take(i + 1);
                assert(t.drop_last() =~= self@.structures.take(i as int));
                assert(t.last() == self.structures@[i as int]@);
            }
            i += 1;
        }
        out.append(self.suffix.as_str());
        assert(self@.structures.take(i as int) =~= self@.structures);
        out
    }

    /// The body that the read structures mean, without their whitespace and comments.
    pub fn into_body(self) -> (r: crate::structure::Body)
        ensures
            r@ == raw_values(self@.structures),
    {
        let mut out: Vec<crate::structure::Structure> = Vec::new();
        let ghost items = self@.structures;
        let ghost orig = self.structures@;
        let mut rest = self.structures;
        proof {
            assert(structures_view(out@) =~= raw_values(items.take(0)));
            assert(rest@ =~= orig.subrange(0, orig.len() as int));
        }
        while rest.len() > 0
            invariant
                out@.len() + rest@.len() == orig.len(),
                items == orig.map_values(|x: Structure| x@),
                rest@ == orig.subrange(out@.len() as int, orig.len() as int),
                structures_view(out@) =~= raw_values(items.take(out@.len() as int)),
            decreases rest@.len(),
        {
            let st = rest.remove(0);
            proof {
                let n = out@.len() as int;
                assert(st == orig[n]);
                assert(raw_values(items.take(n + 1)) =~= raw_values(items.take(n)).push(items[n].value));
                assert(out@.push(st.value).drop_last() =~= out@);
                assert(rest@ =~= orig.subrange(n + 1, orig.len() as int));
            }
            out.push(st.value);
        }
        proof {
            assert(items.take(items.len() as int) =~= items);
        }
        crate::structure::Body(out)
    }
}

} // verus!
