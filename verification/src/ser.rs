//! Serializing HCL structures to text.
use vstd::prelude::*;
use crate::format::{Formatter, fmt_body};
use crate::structure::Body;

verus! {

/// Serializes bodies as HCL text into an output buffer, formatted by its formatter.
#[derive(Debug)]
pub struct Serializer {
    /// The formatter that lays out the text.
    pub formatter: Formatter,
    /// The text written so far.
    pub output: String,
}

impl Serializer {
    /// Creates a serializer with the default formatter and an empty output.
    pub fn new() -> (r: Serializer)
        ensures
            r.formatter.indent@ == seq![' ', ' '],
            !r.formatter.dense,
            r.output@ == Seq::<char>::empty(),
    {
        Serializer::with_formatter(Formatter::new())
    }

    /// Creates a serializer that uses the given formatter, with an empty output.
    pub fn with_formatter(formatter: Formatter) -> (r: Serializer)
        ensures
            r.formatter == formatter,
            r.output@ == Seq::<char>::empty(),
    {
        Serializer { formatter, output: String::new() }
    }

    /// Appends the text of `body` to the output.
    pub fn serialize(&mut self, body: &Body)
        ensures
            final(self).formatter == old(self).formatter,
            final(self).output@ == old(self).output@ + fmt_body(
                body@,
                seq![],
                old(self).formatter.indent@,
                old(self).formatter.dense,
            ),
    {
        let text = self.formatter.format_body(body);
        let mut v = crate::text::chars_of(self.output.as_str());
        crate::text::push_str_chars(&mut v, text.as_str());
        self.output = crate::text::string_of(v.as_slice());
    }

    /// Consumes the serializer and returns the text written.
    pub fn into_inner(self) -> (r: String)
        ensures
            r == self.output,
    {
        self.output
    }
}

} // verus!
