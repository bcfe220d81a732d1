//! HCL identifiers.
use vstd::prelude::*;
use crate::error::Error;
use crate::util::{all_ascii, ascii_ident, is_ident_chars, valid_ident};

verus! {

/// Represents an HCL identifier.
#[derive(Debug, Clone, PartialEq, Eq)]
pub struct Identifier(String);

/// Variables are named by identifiers.
pub type Variable = Identifier;

impl View for Identifier {
    type V = Seq<char>;

    closed spec fn view(&self) -> Seq<char> {
        self.0@
    }
}

impl Identifier {
    /// Creates a new `Identifier` from a string. Fails if the string is not a valid HCL
    /// identifier.
    pub fn new(ident: String) -> (r: Result<Identifier, Error>)
        ensures
            valid_ident(ident@) ==> (r matches Ok(i) && i@ == ident@),
            !valid_ident(ident@) ==> (r matches Err(Error::Message(m)) && m@ == ident@),
            all_ascii(ident@) ==> (r is Ok <==> ascii_ident(ident@)),
    {
        let v = crate::text::chars_of(ident.as_str());
        if is_ident_chars(v.as_slice()) {
            Ok(Identifier(ident))
        } else {
            Err(Error::Message(ident))
        }
    }

    /// Creates a new `Identifier` without checking that the string is a valid identifier.
    pub fn unchecked(ident: String) -> (r: Identifier)
        ensures
            r@ == ident@,
    {
        Identifier(ident)
    }

    /// Returns the identifier as a string slice.
    pub fn as_str(&self) -> (r: &str)
        ensures
            r@ == self@,
    {
        self.0.as_str()
    }

    /// Consumes the identifier and returns the wrapped string.
    pub fn into_inner(self) -> (r: String)
        ensures
            r@ == self@,
    {
        self.0
    }
}

} // verus!
