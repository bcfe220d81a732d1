//! Executable parsing of the arguments of a function call after the first one.
use vstd::prelude::*;
use crate::expr::{Expression, exprs_view};
use crate::lexer::ident;
use crate::parser::{args_rest, expr};
use crate::read::arg_step::args_step_exec;


verus! {

/// Exec form of [`args_rest`].
#[verifier::rlimit(60)]
#[verifier::spinoff_prover]
pub fn args_rest_exec(s: &Vec<char>, j0: usize) -> (r: Option<(Vec<Expression>, bool, usize)>)
    requires
        j0 <= s@.len(),
    ensures
        match args_rest(s@, j0 as int) {
            Some((args, expand, e)) => r matches Some((v, x, e2)) && exprs_view(v@) == args && x
                == expand && e2 == e && j0 < e <= s@.len(),
            None => r is None,
        },
    decreases s@.len() - j0, 6nat,
{
    let mut args: Vec<Expression> = Vec::new();
    let mut j = j0;
    proof {
        if let Some((rest, x, t)) = args_rest(s@, j0 as int) {
            assert(exprs_view(args@) + rest =~= rest);
        }
    }
    loop
        invariant
            j0 <= j <= s@.len(),
            args_rest(s@, j0 as int) == match args_rest(s@, j as int) {
                Some((rest, x, t)) => Some((exprs_view(args@) + rest, x, t)),
                None => None,
            },
        decreases s@.len() - j,
    {
        match args_step_exec(s, j) {
            Some((None, x, e)) => {
                assert(exprs_view(args@) + seq![] =~= exprs_view(args@));
                return Some((args, x, e));
            },
            Some((Some(a), _, n)) => {
                proof {
                    assert(args@.push(a).drop_last() =~= args@);
                    if let Some((rest, x, t)) = args_rest(s@, n as int) {
                        assert(exprs_view(args@) + (seq![a@] + rest) =~= exprs_view(args@).push(a@)
                            + rest);
                    }
                }
                args.push(a);
                j = n;
            },
            None => return None,
        }
    }
}

} // verus!
