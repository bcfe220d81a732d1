//! The HCL grammar, stated as spec functions over the characters of the input.
//!
//! Each function takes the input `s` and a position `i` and gives what it reads there with the
//! position after it, or `None` where the input does not match. The executable parser in
//! [`crate::parse`] is proved to compute exactly these functions.
use vstd::prelude::*;
use crate::expr::{BinaryOperator, ExprV, ForV, KeyV, TemplateV, TraversalOpV, UnaryOperator};
use crate::lexer::{at, digits_end, digits_value, heredoc, ident, ident_start, lemma_sp_ws, line_end, number, sp, str_content, ws};
use crate::structure::{LabelV, StructureV};
use crate::util::is_ascii_digit;

verus! {

/// An object key read as an expression: a bare variable names the key, anything else is
/// evaluated.
pub open spec fn key_of(e: ExprV) -> KeyV {
    match e {
        ExprV::Variable(v) => KeyV::Ident(v),
        _ => KeyV::Expr(e),
    }
}

/// Whether a `for` expression starts at `p`: the word `for` followed by a space, a tab or the
/// start of a comment.
pub open spec fn is_for_start(s: Seq<char>, p: int) -> bool {
    at(s, p, seq!['f', 'o', 'r']) && p + 3 < s.len() && (s[p + 3] == ' ' || s[p + 3] == '\t'
        || s[p + 3] == '#' || s[p + 3] == '/')
}

/// Whether `c` can start a binary operator.
pub open spec fn binop_start(c: char) -> bool {
    c == '=' || c == '!' || c == '<' || c == '>' || c == '+' || c == '-' || c == '*' || c == '/'
        || c == '%' || c == '&' || c == '|'
}

/// The binary operator at `p` and the position after it, if the characters there form one. A
/// `/` that starts a comment (`//` or `/*`) is no operator.
pub open spec fn binop_at(s: Seq<char>, p: int) -> Option<(BinaryOperator, int)> {
    if p < 0 || p >= s.len() {
        None
    } else {
        let c = s[p];
        let eq_next = p + 1 < s.len() && s[p + 1] == '=';
        if c == '=' {
            if eq_next {
                Some((BinaryOperator::Eq, p + 2))
            } else {
                None
            }
        } else if c == '!' {
            if eq_next {
                Some((BinaryOperator::NotEq, p + 2))
            } else {
                None
            }
        } else if c == '<' {
            if eq_next {
                Some((BinaryOperator::LessEq, p + 2))
            } else {
                Some((BinaryOperator::Less, p + 1))
            }
        } else if c == '>' {
            if eq_next {
                Some((BinaryOperator::GreaterEq, p + 2))
            } else {
                Some((BinaryOperator::Greater, p + 1))
            }
        } else if c == '+' {
            Some((BinaryOperator::Plus, p + 1))
        } else if c == '-' {
            Some((BinaryOperator::Minus, p + 1))
        } else if c == '*' {
            Some((BinaryOperator::Mul, p + 1))
        } else if c == '/' {
            if p + 1 < s.len() && (s[p + 1] == '/' || s[p + 1] == '*') {
                None
            } else {
                Some((BinaryOperator::Div, p + 1))
            }
        } else if c == '%' {
            Some((BinaryOperator::Mod, p + 1))
        } else if c == '&' {
            if p + 1 < s.len() && s[p + 1] == '&' {
                Some((BinaryOperator::And, p + 2))
            } else {
                None
            }
        } else if c == '|' {
            if p + 1 < s.len() && s[p + 1] == '|' {
                Some((BinaryOperator::Or, p + 2))
            } else {
                None
            }
        } else {
            None
        }
    }
}

/// The expression that a bare word stands for: `null`, `true`, `false` or a variable.
pub open spec fn word_expr(name: Seq<char>) -> ExprV {
    if name == seq!['n', 'u', 'l', 'l'] {
        ExprV::Null
    } else if name == seq!['t', 'r', 'u', 'e'] {
        ExprV::Bool(true)
    } else if name == seq!['f', 'a', 'l', 's', 'e'] {
        ExprV::Bool(false)
    } else {
        ExprV::Variable(name)
    }
}

/// The position after the separator that ends an object item at `r`: a comma, a line ending,
/// or a line comment and the line ending after it.
pub open spec fn item_sep(s: Seq<char>, r: int) -> Option<int> {
    if r < 0 || r >= s.len() {
        None
    } else if s[r] == ',' || s[r] == '\n' {
        Some(r + 1)
    } else if at(s, r, seq!['\r', '\n']) {
        Some(r + 2)
    } else if s[r] == '#' || at(s, r, seq!['/', '/']) {
        let e = line_end(s, r + 1);
        if e < s.len() {
            Some(e + 1)
        } else {
            None
        }
    } else {
        None
    }
}

/// Puts one item in front of the items of a successful read.
pub open spec fn cons<T>(x: T, r: Option<(Seq<T>, int)>) -> Option<(Seq<T>, int)> {
    match r {
        Some((xs, k)) => Some((seq![x] + xs, k)),
        None => None,
    }
}

/// An expression at `i`: a term, the traversal operators that follow it, and then either a
/// conditional (`? :`) or a binary operator and the right-hand expression.
pub open spec fn expr(s: Seq<char>, i: int) -> Option<(ExprV, int)>
    decreases s.len() - i, 10nat,
{
    if i < 0 || i > s.len() {
        None
    } else {
        match term(s, i) {
            Some((t, j)) => if i < j <= s.len() {
                match trav_ops(s, j) {
                    Some((ops, k)) => if j <= k <= s.len() {
                        let e = if ops.len() > 0 {
                            ExprV::Traversal(Box::new(t), ops)
                        } else {
                            t
                        };
                        proof {
                            lemma_sp_ws(s, k);
                        }
                        let p = sp(s, k);
                        if p < s.len() && s[p] == '?' {
                            proof {
                                lemma_sp_ws(s, p + 1);
                            }
                            match expr(s, sp(s, p + 1)) {
                                Some((te, q)) => if p < q <= s.len() {
                                    proof {
                                        lemma_sp_ws(s, q);
                                    }
                                    let q1 = sp(s, q);
                                    if q1 < s.len() && s[q1] == ':' {
                                        proof {
                                            lemma_sp_ws(s, q1 + 1);
                                        }
                                        match expr(s, sp(s, q1 + 1)) {
                                            Some((fe, r)) => Some(
                                                (
                                                    ExprV::Conditional(
                                                        Box::new(e),
                                                        Box::new(te),
                                                        Box::new(fe),
                                                    ),
                                                    r,
                                                ),
                                            ),
                                            None => None,
                                        }
                                    } else {
                                        None
                                    }
                                } else {
                                    None
                                },
                                None => None,
                            }
                        } else if p < s.len() && binop_start(s[p]) {
                            match binop_at(s, p) {
                                Some((op, q)) => {
                                    proof {
                                        lemma_sp_ws(s, q);
                                    }
                                    match expr(s, sp(s, q)) {
                                        Some((rhs, r)) => Some(
                                            (ExprV::Binary(Box::new(e), op, Box::new(rhs)), r),
                                        ),
                                        None => None,
                                    }
                                },
                                None => Some((e, k)),
                            }
                        } else {
                            Some((e, k))
                        }
                    } else {
                        None
                    },
                    None => None,
                }
            } else {
                None
            },
            None => None,
        }
    }
}

/// A term at `i`: a literal, a collection, a template, a heredoc, a unary operation, a
/// parenthesized expression, a function call or a variable.
pub open spec fn term(s: Seq<char>, i: int) -> Option<(ExprV, int)>
    decreases s.len() - i, 9nat,
{
    if i < 0 || i >= s.len() {
        None
    } else {
        let c = s[i];
        proof {
            lemma_sp_ws(s, i + 1);
        }
        if c == '"' {
            match str_content(s, i + 1, true) {
                Some((t, e)) => Some((ExprV::String(t), e + 1)),
                None => match str_content(s, i + 1, false) {
                    Some((t, e)) => Some((ExprV::Template(TemplateV::Quoted(t)), e + 1)),
                    None => None,
                },
            }
        } else if c == '[' {
            let p = ws(s, i + 1);
            if is_for_start(s, p) {
                for_list(s, p + 3)
            } else {
                match array_items(s, i + 1) {
                    Some((items, e)) => Some((ExprV::Array(items), e)),
                    None => None,
                }
            }
        } else if c == '{' {
            let p = ws(s, i + 1);
            if is_for_start(s, p) {
                for_object(s, p + 3)
            } else {
                match object_items(s, i + 1) {
                    Some((items, e)) => Some((ExprV::Object(items), e)),
                    None => None,
                }
            }
        } else if is_ascii_digit(c) {
            match number(s, i) {
                Some((n, j)) => Some((ExprV::Number(n), j)),
                None => None,
            }
        } else if c == '<' {
            match heredoc(s, i) {
                Some((d, t, m, e)) => Some((ExprV::Template(TemplateV::Heredoc(d, t, m)), e)),
                None => None,
            }
        } else if c == '-' {
            let p = sp(s, i + 1);
            if p < s.len() && is_ascii_digit(s[p]) {
                match number(s, p) {
                    Some((n, j)) => Some((ExprV::Number(n.negate()), j)),
                    None => None,
                }
            } else {
                match term(s, p) {
                    Some((t, j)) => Some((ExprV::Unary(UnaryOperator::Neg, Box::new(t)), j)),
                    None => None,
                }
            }
        } else if c == '!' {
            match term(s, sp(s, i + 1)) {
                Some((t, j)) => Some((ExprV::Unary(UnaryOperator::Not, Box::new(t)), j)),
                None => None,
            }
        } else if c == '(' {
            let p = ws(s, i + 1);
            match expr(s, p) {
                Some((e, q)) => if p < q <= s.len() {
                    proof {
                        lemma_sp_ws(s, q);
                    }
                    let r = ws(s, q);
                    if r < s.len() && s[r] == ')' {
                        Some((ExprV::Parenthesis(Box::new(e)), r + 1))
                    } else {
                        None
                    }
                } else {
                    None
                },
                None => None,
            }
        } else if ident_start(c) {
            match ident(s, i) {
                Some((name, j)) => if i < j <= s.len() {
                    proof {
                        lemma_sp_ws(s, j);
                    }
                    let p = ws(s, j);
                    if p < s.len() && s[p] == '(' {
                        match func_args(s, p) {
                            Some((args, expand, q)) => Some(
                                (ExprV::FuncCall(name, args, expand), q),
                            ),
                            None => None,
                        }
                    } else {
                        Some((word_expr(name), j))
                    }
                } else {
                    None
                },
                None => None,
            }
        } else {
            None
        }
    }
}

/// One traversal operator at `j`, after optional spaces: the operator and the position after
/// it, or no operator (with `j` itself) where none starts there, including before `..`.
pub open spec fn trav_step(s: Seq<char>, j: int) -> Option<(Option<TraversalOpV>, int)>
    decreases s.len() - j, 7nat,
{
    if j < 0 || j > s.len() {
        None
    } else {
        proof {
            lemma_sp_ws(s, j);
        }
        let p = sp(s, j);
        if p < s.len() && s[p] == '.' {
            proof {
                lemma_sp_ws(s, p + 1);
            }
            let q = ws(s, p + 1);
            if q < s.len() && s[q] == '.' {
                Some((None, j))
            } else if q < s.len() && s[q] == '*' {
                Some((Some(TraversalOpV::AttrSplat), q + 1))
            } else if q < s.len() && ident_start(s[q]) {
                match ident(s, q) {
                    Some((n, r)) => Some((Some(TraversalOpV::GetAttr(n)), r)),
                    None => None,
                }
            } else if q < s.len() && is_ascii_digit(s[q]) {
                let d = digits_end(s, q);
                let v = digits_value(s.subrange(q, d));
                if v <= u64::MAX {
                    Some((Some(TraversalOpV::LegacyIndex(v as u64)), d))
                } else {
                    None
                }
            } else {
                None
            }
        } else if p < s.len() && s[p] == '[' {
            proof {
                lemma_sp_ws(s, p + 1);
            }
            let q = ws(s, p + 1);
            if q < s.len() && s[q] == '*' {
                proof {
                    lemma_sp_ws(s, q + 1);
                }
                let r = ws(s, q + 1);
                if r < s.len() && s[r] == ']' {
                    Some((Some(TraversalOpV::FullSplat), r + 1))
                } else {
                    None
                }
            } else {
                match expr(s, q) {
                    Some((e, r)) => if q < r <= s.len() {
                        proof {
                            lemma_sp_ws(s, r);
                        }
                        let r2 = ws(s, r);
                        if r2 < s.len() && s[r2] == ']' {
                            Some((Some(TraversalOpV::Index(e)), r2 + 1))
                        } else {
                            None
                        }
                    } else {
                        None
                    },
                    None => None,
                }
            }
        } else {
            Some((None, j))
        }
    }
}

/// The traversal operators from `j` on, and the position after the last one.
pub open spec fn trav_ops(s: Seq<char>, j: int) -> Option<(Seq<TraversalOpV>, int)>
    decreases s.len() - j, 8nat,
{
    if j < 0 || j > s.len() {
        None
    } else {
        match trav_step(s, j) {
            Some((None, e)) => Some((seq![], e)),
            Some((Some(o), n)) => if j < n <= s.len() {
                cons(o, trav_ops(s, n))
            } else {
                None
            },
            None => None,
        }
    }
}

/// The elements of an array from `k` (just after `[`), separated by commas with an optional
/// trailing comma, and the position after the closing `]`.
pub open spec fn array_items(s: Seq<char>, k: int) -> Option<(Seq<ExprV>, int)>
    decreases s.len() - k, 11nat,
{
    if k < 0 || k > s.len() {
        None
    } else {
        proof {
            lemma_sp_ws(s, k);
        }
        let p = ws(s, k);
        if p < s.len() && s[p] == ']' {
            Some((seq![], p + 1))
        } else {
            match expr(s, p) {
                Some((e, q)) => if p < q <= s.len() {
                    proof {
                        lemma_sp_ws(s, q);
                    }
                    cons(e, array_rest(s, ws(s, q)))
                } else {
                    None
                },
                None => None,
            }
        }
    }
}

/// What follows an array element at `k` (after its whitespace): a comma and the next element
/// with the position after its whitespace, or the end of the array with the position after the
/// `]` (a trailing comma is allowed).
pub open spec fn elem_step(s: Seq<char>, k: int) -> Option<(Option<ExprV>, int)>
    decreases s.len() - k, 6nat,
{
    if k < 0 || k >= s.len() {
        None
    } else if s[k] == ',' {
        proof {
            lemma_sp_ws(s, k + 1);
        }
        let p = ws(s, k + 1);
        if p < s.len() && s[p] == ']' {
            Some((None, p + 1))
        } else {
            match expr(s, p) {
                Some((e, q)) => if p < q <= s.len() {
                    proof {
                        lemma_sp_ws(s, q);
                    }
                    Some((Some(e), ws(s, q)))
                } else {
                    None
                },
                None => None,
            }
        }
    } else if s[k] == ']' {
        Some((None, k + 1))
    } else {
        None
    }
}

/// The remaining elements of an array from `k`, which follows an element and its whitespace.
pub open spec fn array_rest(s: Seq<char>, k: int) -> Option<(Seq<ExprV>, int)>
    decreases s.len() - k, 7nat,
{
    if k < 0 || k > s.len() {
        None
    } else {
        match elem_step(s, k) {
            Some((None, e)) => Some((seq![], e)),
            Some((Some(x), n)) => if k < n <= s.len() {
                cons(x, array_rest(s, n))
            } else {
                None
            },
            None => None,
        }
    }
}

/// One object item at `p`: the key, `=` or `:`, and the value; the result is the item and the
/// position after the value and the spaces that follow it.
pub open spec fn object_item(s: Seq<char>, p: int) -> Option<((KeyV, ExprV), int)>
    decreases s.len() - p, 11nat,
{
    if p < 0 || p > s.len() {
        None
    } else {
        match expr(s, p) {
            Some((ke, q)) => if p < q <= s.len() {
                proof {
                    lemma_sp_ws(s, q);
                }
                let q1 = sp(s, q);
                if q1 < s.len() && (s[q1] == '=' || s[q1] == ':') {
                    proof {
                        lemma_sp_ws(s, q1 + 1);
                    }
                    match expr(s, sp(s, q1 + 1)) {
                        Some((ve, r)) => if q1 < r <= s.len() {
                            proof {
                                lemma_sp_ws(s, r);
                            }
                            Some(((key_of(ke), ve), sp(s, r)))
                        } else {
                            None
                        },
                        None => None,
                    }
                } else {
                    None
                }
            } else {
                None
            },
            None => None,
        }
    }
}

/// The items of an object from `k` (just after `{`), and the position after the closing `}`.
/// Each item is ended by a comma, a line ending, a line comment or the closing brace.
pub open spec fn object_items(s: Seq<char>, k: int) -> Option<(Seq<(KeyV, ExprV)>, int)>
    decreases s.len() - k, 12nat,
{
    if k < 0 || k > s.len() {
        None
    } else {
        proof {
            lemma_sp_ws(s, k);
        }
        let p = ws(s, k);
        if p >= s.len() {
            None
        } else if s[p] == '}' {
            Some((seq![], p + 1))
        } else {
            match object_item(s, p) {
                Some((item, r1)) => if p < r1 <= s.len() {
                    if r1 < s.len() && s[r1] == '}' {
                        Some((seq![item], r1 + 1))
                    } else {
                        match item_sep(s, r1) {
                            Some(n) => if r1 < n <= s.len() {
                                cons(item, object_items(s, n))
                            } else {
                                None
                            },
                            None => None,
                        }
                    }
                } else {
                    None
                },
                None => None,
            }
        }
    }
}

/// The introduction of a `for` expression from `k` (just after the word `for`): one or two
/// variables, `in`, the collection and `:`. The result is the key variable (where there are
/// two), the value variable, the collection and the position after the `:`.
pub open spec fn for_intro(s: Seq<char>, k: int) -> Option<
    (Option<Seq<char>>, Seq<char>, ExprV, int),
>
    decreases s.len() - k, 12nat,
{
    if k < 0 || k > s.len() {
        None
    } else {
        proof {
            lemma_sp_ws(s, k);
        }
        match ident(s, ws(s, k)) {
            Some((first, q1)) => if k < q1 <= s.len() {
                proof {
                    lemma_sp_ws(s, q1);
                }
                let q2 = ws(s, q1);
                if q2 < s.len() && s[q2] == ',' {
                    proof {
                        lemma_sp_ws(s, q2 + 1);
                    }
                    match ident(s, ws(s, q2 + 1)) {
                        Some((second, r)) => if q2 < r <= s.len() {
                            proof {
                                lemma_sp_ws(s, r);
                            }
                            match for_in(s, ws(s, r)) {
                                Some((c, e)) => Some((Some(first), second, c, e)),
                                None => None,
                            }
                        } else {
                            None
                        },
                        None => None,
                    }
                } else {
                    match for_in(s, q2) {
                        Some((c, e)) => Some((None, first, c, e)),
                        None => None,
                    }
                }
            } else {
                None
            },
            None => None,
        }
    }
}

/// The collection part of a `for` introduction at `k`: `in`, the collection expression and
/// `:`; the result is the collection and the position after the `:`.
pub open spec fn for_in(s: Seq<char>, k: int) -> Option<(ExprV, int)>
    decreases s.len() - k, 11nat,
{
    if k < 0 || k > s.len() || !at(s, k, seq!['i', 'n']) {
        None
    } else {
        proof {
            lemma_sp_ws(s, k + 2);
        }
        let p = ws(s, k + 2);
        match expr(s, p) {
            Some((c, r)) => if p < r <= s.len() {
                proof {
                    lemma_sp_ws(s, r);
                }
                let r2 = ws(s, r);
                if r2 < s.len() && s[r2] == ':' {
                    Some((c, r2 + 1))
                } else {
                    None
                }
            } else {
                None
            },
            None => None,
        }
    }
}

/// The optional condition of a `for` expression at `k`: whitespace, `if` and an expression. The
/// result is the condition and the position after it and its whitespace, or no condition and
/// `k` itself.
pub open spec fn for_cond(s: Seq<char>, k: int) -> Option<(Option<ExprV>, int)>
    decreases s.len() - k, 5nat,
{
    if k < 0 || k > s.len() {
        None
    } else {
        proof {
            lemma_sp_ws(s, k);
        }
        let p = ws(s, k);
        if at(s, p, seq!['i', 'f']) {
            proof {
                lemma_sp_ws(s, p + 2);
            }
            let q = ws(s, p + 2);
            match expr(s, q) {
                Some((c, r)) => if q < r <= s.len() {
                    proof {
                        lemma_sp_ws(s, r);
                    }
                    Some((Some(c), ws(s, r)))
                } else {
                    None
                },
                None => None,
            }
        } else {
            Some((None, k))
        }
    }
}

/// A `for` expression that builds a list, from `k` (just after the word `for`), up to and
/// including the closing `]`.
pub open spec fn for_list(s: Seq<char>, k: int) -> Option<(ExprV, int)>
    decreases s.len() - k, 13nat,
{
    if k < 0 || k > s.len() {
        None
    } else {
        match for_intro(s, k) {
            Some((kv, vv, coll, p)) => if k < p <= s.len() {
                proof {
                    lemma_sp_ws(s, p);
                }
                let p1 = ws(s, p);
                match expr(s, p1) {
                    Some((val, q)) => if p1 < q <= s.len() {
                        proof {
                            lemma_sp_ws(s, q);
                        }
                        match for_cond(s, ws(s, q)) {
                            Some((cond, r)) => if r < s.len() && s[r] == ']' {
                                Some(
                                    (
                                        ExprV::For(
                                            ForV {
                                                key_var: kv,
                                                value_var: vv,
                                                collection: Box::new(coll),
                                                key_expr: None,
                                                value_expr: Box::new(val),
                                                grouping: false,
                                                cond: match cond {
                                                    Some(c) => Some(Box::new(c)),
                                                    None => None,
                                                },
                                            },
                                        ),
                                        r + 1,
                                    ),
                                )
                            } else {
                                None
                            },
                            None => None,
                        }
                    } else {
                        None
                    },
                    None => None,
                }
            } else {
                None
            },
            None => None,
        }
    }
}

/// A `for` expression that builds an object, from `k` (just after the word `for`), up to and
/// including the closing `}`: the introduction, the key expression, then (see
/// [`for_object_tail`]) `=>`, the value expression, an optional `...` for grouping and an
/// optional condition.
pub open spec fn for_object(s: Seq<char>, k: int) -> Option<(ExprV, int)>
    decreases s.len() - k, 13nat,
{
    if k < 0 || k > s.len() {
        None
    } else {
        match for_intro(s, k) {
            Some((kv, vv, coll, p)) => if k < p <= s.len() {
                proof {
                    lemma_sp_ws(s, p);
                }
                let p1 = ws(s, p);
                match expr(s, p1) {
                    Some((ke, q)) => if p1 < q <= s.len() {
                        proof {
                            lemma_sp_ws(s, q);
                        }
                        match for_object_tail(s, ws(s, q)) {
                            Some((ve, grouping, cond, t)) => Some(
                                (
                                    ExprV::For(
                                        ForV {
                                            key_var: kv,
                                            value_var: vv,
                                            collection: Box::new(coll),
                                            key_expr: Some(Box::new(ke)),
                                            value_expr: Box::new(ve),
                                            grouping,
                                            cond: match cond {
                                                Some(c) => Some(Box::new(c)),
                                                None => None,
                                            },
                                        },
                                    ),
                                    t,
                                ),
                            ),
                            None => None,
                        }
                    } else {
                        None
                    },
                    None => None,
                }
            } else {
                None
            },
            None => None,
        }
    }
}

/// The part of an object `for` expression after the key expression, from `q1`: `=>`, the
/// value expression, an optional `...`, an optional condition and the closing `}`. The result
/// is the value expression, whether grouping is on, the condition and the position after the
/// `}`.
pub open spec fn for_object_tail(s: Seq<char>, q1: int) -> Option<
    (ExprV, bool, Option<ExprV>, int),
>
    decreases s.len() - q1, 12nat,
{
    if q1 < 0 || q1 > s.len() || !at(s, q1, seq!['=', '>']) {
        None
    } else {
        proof {
            lemma_sp_ws(s, q1 + 2);
        }
        let p2 = ws(s, q1 + 2);
        match expr(s, p2) {
            Some((ve, r)) => if p2 < r <= s.len() {
                proof {
                    lemma_sp_ws(s, r);
                }
                let r1 = ws(s, r);
                let grouping = at(s, r1, seq!['.', '.', '.']);
                let r2 = if grouping {
                    r1 + 3
                } else {
                    r1
                };
                match for_cond(s, r2) {
                    Some((cond, t)) => if t < s.len() && s[t] == '}' {
                        Some((ve, grouping, cond, t + 1))
                    } else {
                        None
                    },
                    None => None,
                }
            } else {
                None
            },
            None => None,
        }
    }
}

/// The arguments of a function call at `p` (which holds `(`): the arguments, whether the last
/// one is expanded (`...`), and the position after the closing `)`.
pub open spec fn func_args(s: Seq<char>, p: int) -> Option<(Seq<ExprV>, bool, int)>
    decreases s.len() - p, 7nat,
{
    if p < 0 || p >= s.len() {
        None
    } else {
        proof {
            lemma_sp_ws(s, p + 1);
        }
        let q = ws(s, p + 1);
        if q < s.len() && (s[q] == ',' || s[q] == '.' || s[q] == ')') {
            if s[q] == ')' {
                Some((seq![], false, q + 1))
            } else {
                None
            }
        } else {
            match expr(s, q) {
                Some((e, r)) => if q < r <= s.len() {
                    proof {
                        lemma_sp_ws(s, r);
                    }
                    match args_rest(s, ws(s, r)) {
                        Some((rest, expand, t)) => Some((seq![e] + rest, expand, t)),
                        None => None,
                    }
                } else {
                    None
                },
                None => None,
            }
        }
    }
}

/// What follows a function argument at `k` (after its whitespace): a comma and the next
/// argument with the position after its whitespace, or the end of the arguments with whether
/// the last one is expanded (`...`) and the position after the `)`.
pub open spec fn args_step(s: Seq<char>, k: int) -> Option<(Option<ExprV>, bool, int)>
    decreases s.len() - k, 5nat,
{
    if k < 0 || k >= s.len() {
        None
    } else if s[k] == ',' {
        arg_after_comma(s, k + 1)
    } else if at(s, k, seq!['.', '.', '.']) {
        proof {
            lemma_sp_ws(s, k + 3);
        }
        let p = ws(s, k + 3);
        if p < s.len() && s[p] == ')' {
            Some((None, true, p + 1))
        } else {
            None
        }
    } else if s[k] == ')' {
        Some((None, false, k + 1))
    } else {
        None
    }
}

/// What follows the comma after a function argument, from `k`: the next argument with the
/// position after its whitespace, or the closing `)` of a trailing comma.
pub open spec fn arg_after_comma(s: Seq<char>, k: int) -> Option<(Option<ExprV>, bool, int)>
    decreases s.len() - k, 11nat,
{
    if k < 0 || k > s.len() {
        None
    } else {
        proof {
            lemma_sp_ws(s, k);
        }
        let p = ws(s, k);
        if p < s.len() && (s[p] == ',' || s[p] == '.' || s[p] == ')') {
            if s[p] == ')' {
                Some((None, false, p + 1))
            } else {
                None
            }
        } else {
            match expr(s, p) {
                Some((e, r)) => if p < r <= s.len() {
                    proof {
                        lemma_sp_ws(s, r);
                    }
                    Some((Some(e), false, ws(s, r)))
                } else {
                    None
                },
                None => None,
            }
        }
    }
}

/// The remaining arguments of a function call from `k`, which follows an argument and its
/// whitespace.
pub open spec fn args_rest(s: Seq<char>, k: int) -> Option<(Seq<ExprV>, bool, int)>
    decreases s.len() - k, 6nat,
{
    if k < 0 || k > s.len() {
        None
    } else {
        match args_step(s, k) {
            Some((None, x, e)) => Some((seq![], x, e)),
            Some((Some(a), _, n)) => if k < n <= s.len() {
                match args_rest(s, n) {
                    Some((rest, x, e)) => Some((seq![a] + rest, x, e)),
                    None => None,
                }
            } else {
                None
            },
            None => None,
        }
    }
}

// ---------------------------------------------------------------------------------------------
// Bodies, attributes and blocks
// ---------------------------------------------------------------------------------------------

/// The end of a structure at `q`: spaces and inline comments, an optional line comment, then the
/// end of the input, a line ending, or a `}` that is left for the enclosing block. The result is
/// the position where the next structure may start.
pub open spec fn structure_end(s: Seq<char>, q: int) -> Option<int> {
    let r = sp(s, q);
    let r2 = if r < s.len() && (s[r] == '#' || at(s, r, seq!['/', '/'])) {
        line_end(s, r + 1)
    } else {
        r
    };
    if r2 >= s.len() {
        Some(r2)
    } else if s[r2] == '\n' {
        Some(r2 + 1)
    } else if at(s, r2, seq!['\r', '\n']) {
        Some(r2 + 2)
    } else if s[r2] == '}' {
        Some(r2)
    } else {
        None
    }
}

/// The labels of a block from `k`: string literals and identifiers, each followed by spaces.
/// Reading stops before anything else.
pub open spec fn labels(s: Seq<char>, k: int) -> Option<(Seq<LabelV>, int)>
    decreases s.len() - k,
{
    if k < 0 || k > s.len() {
        None
    } else if k < s.len() && s[k] == '"' {
        match str_content(s, k + 1, true) {
            Some((t, e)) => if k < e < s.len() {
                proof {
                    lemma_sp_ws(s, e + 1);
                }
                cons(LabelV::Str(t), labels(s, sp(s, e + 1)))
            } else {
                None
            },
            None => None,
        }
    } else if k < s.len() && ident_start(s[k]) {
        match ident(s, k) {
            Some((n, q)) => if k < q <= s.len() {
                proof {
                    lemma_sp_ws(s, q);
                }
                cons(LabelV::Ident(n), labels(s, sp(s, q)))
            } else {
                None
            },
            None => None,
        }
    } else {
        Some((seq![], k))
    }
}

/// The structures of a body from `i`, up to the end of the input or a `}`; the result ends at
/// that position. Structures are separated by whitespace and comments, and each ends as
/// [`structure_end`] says.
pub open spec fn body(s: Seq<char>, i: int) -> Option<(Seq<StructureV>, int)>
    decreases s.len() - i, 1nat,
{
    if i < 0 || i > s.len() {
        None
    } else {
        proof {
            lemma_sp_ws(s, i);
        }
        let p = ws(s, i);
        if p >= s.len() || s[p] == '}' {
            Some((seq![], p))
        } else {
            match structure(s, p) {
                Some((st, q)) => if p < q <= s.len() {
                    match structure_end(s, q) {
                        Some(n) => if q <= n <= s.len() {
                            cons(st, body(s, n))
                        } else {
                            None
                        },
                        None => None,
                    }
                } else {
                    None
                },
                None => None,
            }
        }
    }
}

/// A structure at `p`: an attribute (an identifier, `=` and an expression) or a block (an
/// identifier, labels and a body in braces).
pub open spec fn structure(s: Seq<char>, p: int) -> Option<(StructureV, int)>
    decreases s.len() - p, 0nat,
{
    if p < 0 || p > s.len() {
        None
    } else {
        match ident(s, p) {
            Some((id, q)) => if p < q <= s.len() {
                proof {
                    lemma_sp_ws(s, q);
                }
                let q1 = sp(s, q);
                if q1 < s.len() && s[q1] == '=' {
                    proof {
                        lemma_sp_ws(s, q1 + 1);
                    }
                    match expr(s, sp(s, q1 + 1)) {
                        Some((e, r)) => Some((StructureV::Attribute(id, e), r)),
                        None => None,
                    }
                } else {
                    match labels(s, q1) {
                        Some((ls, b)) => if q1 <= b < s.len() && s[b] == '{' {
                            match body(s, b + 1) {
                                Some((bd, t)) => if t < s.len() && s[t] == '}' {
                                    Some((StructureV::Block(id, ls, bd), t + 1))
                                } else {
                                    None
                                },
                                None => None,
                            }
                        } else {
                            None
                        },
                        None => None,
                    }
                }
            } else {
                None
            },
            None => None,
        }
    }
}

/// The structures of a whole HCL document, where it is one.
pub open spec fn parse_body(s: Seq<char>) -> Option<Seq<StructureV>> {
    match body(s, 0) {
        Some((b, e)) => if e == s.len() {
            Some(b)
        } else {
            None
        },
        None => None,
    }
}

} // verus!
