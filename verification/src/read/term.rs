//! Executable parsing of terms.
use vstd::prelude::*;
use crate::expr::{Expression, FuncCall, Heredoc, Operation, TemplateExpr, UnaryOp, UnaryOperator};
use crate::lexer::{
    heredoc_exec, ident, ident_exec, ident_start_exec, lemma_sp_ws, number_exec, sp_exec,
    str_content_exec, ws_exec,
};
use crate::parser::{expr, for_list, for_object, term};
use crate::text::string_of;
use crate::read::{ident_of, is_for_start_exec, word_expr_exec, yields};
use crate::read::expr::expr_exec;
use crate::read::array::array_items_exec;
use crate::read::object::object_items_exec;
use crate::read::args::func_args_exec;
use crate::read::for_list::for_list_exec;
use crate::read::for_object::for_object_exec;

verus! {

/// Exec form of [`term`].
#[verifier::rlimit(50)]
#[verifier::spinoff_prover]
pub fn term_exec(s: &Vec<char>, i: usize) -> (r: Option<(Expression, usize)>)
    requires
        i <= s@.len(),
    ensures
        yields(r, term(s@, i as int), i as int, s@.len() as int),
    decreases s@.len() - i, 9nat,
{
    if i >= s.len() {
        return None;
    }
    let c = s[i];
    proof {
        lemma_sp_ws(s@, i + 1);
    }
    if c == '"' {
        match str_content_exec(s, i + 1, true) {
            Some((t, e)) => Some((Expression::String(string_of(t.as_slice())), e + 1)),
            None => match str_content_exec(s, i + 1, false) {
                Some((t, e)) => Some(
                    (
                        Expression::TemplateExpr(
                            Box::new(TemplateExpr::QuotedString(string_of(t.as_slice()))),
                        ),
                        e + 1,
                    ),
                ),
                None => None,
            },
        }
    } else if c == '[' {
        let p = ws_exec(s, i + 1);
        if is_for_start_exec(s, p) {
            for_list_exec(s, p + 3)
        } else {
            match array_items_exec(s, i + 1) {
                Some((items, e)) => Some((Expression::Array(items), e)),
                None => None,
            }
        }
    } else if c == '{' {
        let p = ws_exec(s, i + 1);
        if is_for_start_exec(s, p) {
            for_object_exec(s, p + 3)
        } else {
            match object_items_exec(s, i + 1) {
                Some((items, e)) => Some((Expression::Object(items), e)),
                None => None,
            }
        }
    } else if '0' <= c && c <= '9' {
        match number_exec(s, i) {
            Some((n, j)) => Some((Expression::Number(n), j)),
            None => None,
        }
    } else if c == '<' {
        match heredoc_exec(s, i) {
            Some((d, t, m, e)) => Some(
                (
                    Expression::TemplateExpr(
                        Box::new(
                            TemplateExpr::Heredoc(
                                Heredoc {
                                    delimiter: ident_of(&d),
                                    template: string_of(t.as_slice()),
                                    strip: m,
                                },
                            ),
                        ),
                    ),
                    e,
                ),
            ),
            None => None,
        }
    } else if c == '-' {
        let p = sp_exec(s, i + 1);
        if p < s.len() && '0' <= s[p] && s[p] <= '9' {
            match number_exec(s, p) {
                Some((n, j)) => Some((Expression::Number(n.neg()), j)),
                None => None,
            }
        } else {
            match term_exec(s, p) {
                Some((t, j)) => Some(
                    (
                        Expression::Operation(
                            Box::new(
                                Operation::Unary(UnaryOp { operator: UnaryOperator::Neg, expr: t }),
                            ),
                        ),
                        j,
                    ),
                ),
                None => None,
            }
        }
    } else if c == '!' {
        let p = sp_exec(s, i + 1);
        match term_exec(s, p) {
            Some((t, j)) => Some(
                (
                    Expression::Operation(
                        Box::new(
                            Operation::Unary(UnaryOp { operator: UnaryOperator::Not, expr: t }),
                        ),
                    ),
                    j,
                ),
            ),
            None => None,
        }
    } else if c == '(' {
        let p = ws_exec(s, i + 1);
        match expr_exec(s, p) {
            Some((e, q)) => {
                proof {
                    lemma_sp_ws(s@, q as int);
                }
                let r = ws_exec(s, q);
                if r < s.len() && s[r] == ')' {
                    Some((Expression::Parenthesis(Box::new(e)), r + 1))
                } else {
                    None
                }
            },
            None => None,
        }
    } else if ident_start_exec(c) {
        match ident_exec(s, i) {
            Some((name, j)) => {
                proof {
                    lemma_sp_ws(s@, j as int);
                }
                let p = ws_exec(s, j);
                if p < s.len() && s[p] == '(' {
                    match func_args_exec(s, p) {
                        Some((args, expand, q)) => Some(
                            (
                                Expression::FuncCall(
                                    Box::new(
                                        FuncCall {
                                            name: ident_of(&name),
                                            args,
                                            expand_final: expand,
                                        },
                                    ),
                                ),
                                q,
                            ),
                        ),
                        None => None,
                    }
                } else {
                    Some((word_expr_exec(&name), j))
                }
            },
            None => None,
        }
    } else {
        None
    }
}

} // verus!
