use vstd::prelude::*;

pub mod ast;
pub mod convert;
pub mod error;
pub mod expr;
pub mod format;
pub mod ident;
pub mod laws;
pub mod lexer;
pub mod number;
pub mod operation;
pub mod parser;
pub mod read;
pub mod roundtrip;
pub mod ser;
pub mod structure;
pub mod template;
pub mod text;
pub mod text_laws;
pub mod tmpl_grammar;
pub mod tmpl_write;
pub mod util;
pub mod value;

pub use convert::from_str;
pub use read::{parse, parse_expr};
pub use read::raw::parse_raw;

verus! {
} // verus!
