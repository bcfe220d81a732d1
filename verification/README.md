# hcl

A verified library for the HashiCorp Configuration Language (HCL): a parser for HCL
documents, expressions and templates, a formatter that writes them back as text, and the
conversion of a document into a JSON-like value. Every executable function of the library is
written in Verus and carries a contract that Verus proves.

## Layout

- `src/parser.rs`, `src/lexer.rs`, `src/tmpl_grammar.rs`: the grammar, as spec functions over
  sequences of characters.
- `src/read.rs` and `src/read/`: the executable parser, one function per grammar rule, each
  proved to compute its rule.
- `src/expr.rs`, `src/structure.rs`, `src/template.rs`, `src/ident.rs`, `src/number.rs`,
  `src/value.rs`, `src/ast.rs`: the data types, their views and their builders.
- `src/format.rs`, `src/ser.rs`, `src/tmpl_write.rs`: the formatter, specified by spec functions
  that give the text of each construct.
- `src/convert.rs`: the conversion of a body into a `Value`.
- `src/operation.rs`: operator precedence and the normalization of binary operations.
- `src/util.rs`, `src/text.rs`: escaping, dedenting and string helpers.
- `src/laws.rs`, `src/roundtrip.rs`, `src/text_laws.rs`: properties that relate several
  functions. The round trip from the formatter's text back to a body is proved for bodies whose
  attributes have plain keys and values that are scalars (strings, `null`, booleans, integers,
  variables, quoted templates whose first `${` or `%{` is not doubled), a scalar in
  parentheses, variables followed by traversal operators (`a.b`, `a.*`, `a[*]`, `a.0`,
  `a[scalar]`), calls with scalar arguments (`f(a, 1)`), conditionals whose condition is a
  scalar or such a traversal and whose branches are scalars, arrays of any of these, and
  objects of any of these under string keys or plain names, with blocks of such attributes
  nested to any depth. It is not proved for objects inside collections, arrays inside arrays,
  heredocs, calls with other arguments or a final `...`, operations, `for` expressions, or
  traversals of anything but a variable. Dedenting twice is proved to change nothing more than
  dedenting once, where every line that takes part holds a character that is not whitespace.
- `src/ast.rs`, `src/read/raw.rs`: a body read with its whitespace, comments and positions,
  which prints back to exactly the text it was read from (proved), and means what `parse`
  reads (proved).
- `app/`: reading and writing through `std::io` and `serde`, around the library.

## Trusted code

The library calls `unicode_ident::is_xid_start`, `unicode_ident::is_xid_continue`,
`char::from_u32` and `String::push` through small wrappers whose contracts are stated in
`src/util.rs` and `src/text.rs`; nothing else is assumed.
