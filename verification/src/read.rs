//! The executable HCL parser. Each function computes the grammar function of
//! [`crate::parser`] that it is named after; this module holds what they share, and each
//! submodule one parsing function.
use vstd::prelude::*;
use crate::expr::{BinaryOperator, ExprV, Expression, exprs_view};
use crate::ident::Identifier;
use crate::lexer::{at, ident};
use crate::parser::{
    args_rest, binop_at, binop_start, cons, elem_step, expr, for_cond, for_in, for_intro,
    for_list, for_object, is_for_start, term, trav_ops, trav_step, word_expr,
};
use crate::text::string_of;
use crate::error::Error;
use crate::parser::parse_body;
use crate::structure::Body;

pub mod expr;
pub mod structure;
pub mod term;
pub mod tmpl_lex;
pub mod tmpl_elems;
pub mod tmpl_element;
pub mod if_dir;
pub mod for_dir;
pub mod trav_step;
pub mod trav_ops;
pub mod elem_step;
pub mod array;
pub mod body;
pub mod item;
pub mod labels;
pub mod object;
pub mod arg_comma;
pub mod arg_step;
pub mod args;
pub mod args_rest;
pub mod for_in;
pub mod for_intro;
pub mod for_cond;
pub mod for_list;
pub mod for_object;
pub mod for_object_tail;
pub mod raw;

verus! {

/// The items of a read with `xs` put in front.
pub open spec fn with_prefix<T>(xs: Seq<T>, r: Option<(Seq<T>, int)>) -> Option<(Seq<T>, int)> {
    match r {
        Some((ys, k)) => Some((xs + ys, k)),
        None => None,
    }
}

pub proof fn lemma_with_prefix_cons<T>(a: Seq<T>, x: T, r: Option<(Seq<T>, int)>)
    ensures
        with_prefix(a, cons(x, r)) == with_prefix(a.push(x), r),
{
    if let Some((ys, k)) = r {
        assert(a + (seq![x] + ys) =~= a.push(x) + ys);
    }
}

pub proof fn lemma_with_prefix_empty<T>(r: Option<(Seq<T>, int)>)
    ensures
        with_prefix(Seq::<T>::empty(), r) == r,
{
    if let Some((ys, k)) = r {
        assert(Seq::<T>::empty() + ys =~= ys);
    }
}

/// What an executable parse of an expression gives back: the value of the grammar function,
/// and a position past `i`.
pub open spec fn yields(r: Option<(Expression, usize)>, g: Option<(ExprV, int)>, i: int, len: int) -> bool {
    match g {
        Some((v, j)) => r matches Some((e, k)) && e@ == v && k == j && i < j <= len,
        None => r is None,
    }
}

/// The content of an optional identifier.
pub open spec fn opt_ident_view(o: Option<Identifier>) -> Option<Seq<char>> {
    match o {
        Some(i) => Some(i@),
        None => None,
    }
}

/// The content of an optional expression.
pub open spec fn opt_expr_view(o: Option<Expression>) -> Option<ExprV> {
    match o {
        Some(e) => Some(e@),
        None => None,
    }
}

/// An optional boxed expression content.
pub open spec fn box_opt(o: Option<ExprV>) -> Option<Box<ExprV>> {
    match o {
        Some(c) => Some(Box::new(c)),
        None => None,
    }
}

/// An identifier holding the characters of `v`.
pub fn ident_of(v: &Vec<char>) -> (r: Identifier)
    ensures
        r@ == v@,
{
    Identifier::unchecked(string_of(v.as_slice()))
}

/// Exec form of [`binop_start`].
pub fn binop_start_exec(c: char) -> (r: bool)
    ensures
        r == binop_start(c),
{
    c == '=' || c == '!' || c == '<' || c == '>' || c == '+' || c == '-' || c == '*' || c == '/'
        || c == '%' || c == '&' || c == '|'
}

/// Exec form of [`binop_at`].
pub fn binop_at_exec(s: &Vec<char>, p: usize) -> (r: Option<(BinaryOperator, usize)>)
    requires
        p < s@.len(),
    ensures
        match binop_at(s@, p as int) {
            Some((op, q)) => r == Some((op, q as usize)) && p < q <= s@.len(),
            None => r is None,
        },
{
    let c = s[p];
    let eq_next = s.len() - p > 1 && s[p + 1] == '=';
    if c == '=' {
        if eq_next {
            Some((BinaryOperator::Eq, p + 2))
        } else {
            None
        }
    } else if c == '!' {
        if eq_next {
            Some((BinaryOperator::NotEq, p + 2))
        } else {
            None
        }
    } else if c == '<' {
        if eq_next {
            Some((BinaryOperator::LessEq, p + 2))
        } else {
            Some((BinaryOperator::Less, p + 1))
        }
    } else if c == '>' {
        if eq_next {
            Some((BinaryOperator::GreaterEq, p + 2))
        } else {
            Some((BinaryOperator::Greater, p + 1))
        }
    } else if c == '+' {
        Some((BinaryOperator::Plus, p + 1))
    } else if c == '-' {
        Some((BinaryOperator::Minus, p + 1))
    } else if c == '*' {
        Some((BinaryOperator::Mul, p + 1))
    } else if c == '/' {
        if s.len() - p > 1 && (s[p + 1] == '/' || s[p + 1] == '*') {
            None
        } else {
            Some((BinaryOperator::Div, p + 1))
        }
    } else if c == '%' {
        Some((BinaryOperator::Mod, p + 1))
    } else if c == '&' {
        if s.len() - p > 1 && s[p + 1] == '&' {
            Some((BinaryOperator::And, p + 2))
        } else {
            None
        }
    } else if c == '|' {
        if s.len() - p > 1 && s[p + 1] == '|' {
            Some((BinaryOperator::Or, p + 2))
        } else {
            None
        }
    } else {
        None
    }
}

/// Whether `v` holds exactly the characters of `t`.
pub fn chars_are(v: &Vec<char>, t: &[char]) -> (r: bool)
    ensures
        r == (v@ == t@),
{
    if v.len() != t.len() {
        return false;
    }
    let mut k: usize = 0;
    while k < v.len()
        invariant
            v@.len() == t@.len(),
            k <= v@.len(),
            forall|m: int| 0 <= m < k ==> v@[m] == t@[m],
        decreases v@.len() - k,
    {
        if v[k] != t[k] {
            return false;
        }
        k += 1;
    }
    assert(v@ =~= t@);
    true
}

/// Exec form of [`word_expr`].
pub fn word_expr_exec(name: &Vec<char>) -> (r: Expression)
    ensures
        r@ == word_expr(name@),
{
    let null = ['n', 'u', 'l', 'l'];
    let tru = ['t', 'r', 'u', 'e'];
    let fals = ['f', 'a', 'l', 's', 'e'];
    assert(null@ =~= seq!['n', 'u', 'l', 'l']);
    assert(tru@ =~= seq!['t', 'r', 'u', 'e']);
    assert(fals@ =~= seq!['f', 'a', 'l', 's', 'e']);
    if chars_are(name, &null) {
        Expression::Null
    } else if chars_are(name, &tru) {
        Expression::Bool(true)
    } else if chars_are(name, &fals) {
        Expression::Bool(false)
    } else {
        Expression::Variable(ident_of(name))
    }
}

/// Exec form of [`is_for_start`].
pub fn is_for_start_exec(s: &Vec<char>, p: usize) -> (r: bool)
    requires
        p <= s@.len(),
    ensures
        r == is_for_start(s@, p as int),
{
    if s.len() - p > 3 && s[p] == 'f' && s[p + 1] == 'o' && s[p + 2] == 'r' {
        let c = s[p + 3];
        assert(s@.subrange(p as int, p + 3) =~= seq!['f', 'o', 'r']);
        c == ' ' || c == '\t' || c == '#' || c == '/'
    } else {
        proof {
            if at(s@, p as int, seq!['f', 'o', 'r']) && p + 3 < s@.len() {
                assert(s@.subrange(p as int, p + 3)[0] == s@[p as int]);
                assert(s@.subrange(p as int, p + 3)[1] == s@[p + 1]);
                assert(s@.subrange(p as int, p + 3)[2] == s@[p + 2]);
            }
        }
        false
    }
}

/// Whether the characters at `p` are those of `t` (a short literal).
pub fn at_chars(s: &Vec<char>, p: usize, t: &[char]) -> (r: bool)
    requires
        p <= s@.len(),
    ensures
        r == at(s@, p as int, t@),
        r ==> p + t@.len() <= s.len(),
{
    crate::lexer::at_exec(s, p, t)
}

/// The expressions `rest` with `e` put in front.
pub fn prepend_expr(e: Expression, rest: Vec<Expression>) -> (r: Vec<Expression>)
    ensures
        exprs_view(r@) == seq![e@] + exprs_view(rest@),
{
    let ghost ev = e@;
    let mut all: Vec<Expression> = Vec::new();
    all.push(e);
    let ghost first = all@;
    assert(first[0]@ == ev);
    let ghost old_rest = rest@;
    let mut rest = rest;
    all.append(&mut rest);
    proof {
        crate::expr::lemma_exprs_view(all@);
        crate::expr::lemma_exprs_view(old_rest);
        assert(all@ =~= first + old_rest);
        assert forall|i: int| 0 <= i < all@.len() implies exprs_view(all@)[i] == (seq![ev]
            + exprs_view(old_rest))[i] by {
            if i > 0 {
                assert(all@[i] == old_rest[i - 1]);
            } else {
                assert(all@[0] == first[0]);
            }
        }
        assert(exprs_view(all@) =~= seq![ev] + exprs_view(old_rest));
    }
    all
}

/// The expression that the whole of `s` spells, if any.
pub open spec fn parse_expression(s: Seq<char>) -> Option<ExprV> {
    match expr(s, 0) {
        Some((e, k)) => if k == s.len() {
            Some(e)
        } else {
            None
        },
        None => None,
    }
}

/// Parses an `Expression` from a string that holds nothing else. Fails with [`Error::Parse`]
/// exactly where the whole text is not an expression of the grammar in [`crate::parser`].
pub fn parse_expr(input: &str) -> (r: Result<Expression, Error>)
    ensures
        match parse_expression(input@) {
            Some(e) => r matches Ok(x) && x@ == e,
            None => r == Err::<Expression, Error>(Error::Parse),
        },
{
    let s = crate::text::chars_of(input);
    match crate::read::expr::expr_exec(&s, 0) {
        Some((e, k)) => if k == s.len() {
            Ok(e)
        } else {
            Err(Error::Parse)
        },
        None => Err(Error::Parse),
    }
}

/// Parses a `Body` from a string: the attributes and blocks of an HCL document. Fails with
/// [`Error::Parse`] exactly where the text is not a document of the grammar in
/// [`crate::parser`].
pub fn parse(input: &str) -> (r: Result<Body, Error>)
    ensures
        match parse_body(input@) {
            Some(b) => r matches Ok(body) && body@ == b,
            None => r == Err::<Body, Error>(Error::Parse),
        },
{
    let s = crate::text::chars_of(input);
    match crate::read::body::body_exec(&s, 0) {
        Some((v, e)) => if e == s.len() {
            Ok(Body(v))
        } else {
            Err(Error::Parse)
        },
        None => Err(Error::Parse),
    }
}

} // verus!
