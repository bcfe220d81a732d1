//! Normalization of binary operations according to operator precedence.
use vstd::prelude::*;
use crate::expr::{BinaryOp, BinaryOperator, ExprV, Expression, Operation, precedence_of};

verus! {

/// The size of an operator tree: the number of binary operation nodes plus one per operand.
pub open spec fn op_size(e: ExprV) -> nat
    decreases e,
{
    match e {
        ExprV::Binary(a, _, b) => 1 + op_size(*a) + op_size(*b),
        _ => 1,
    }
}

/// A binary operation node.
pub open spec fn bin(lhs: ExprV, op: BinaryOperator, rhs: ExprV) -> ExprV {
    ExprV::Binary(Box::new(lhs), op, Box::new(rhs))
}

/// Rebalances `(a lo b) op rhs` when the inner operator binds weaker.
pub open spec fn norm_lhs(lhs: ExprV, op: BinaryOperator, rhs: ExprV) -> ExprV {
    match lhs {
        ExprV::Binary(a, lo, b) => if precedence_of(lo) < precedence_of(op) {
            bin(*a, lo, bin(*b, op, rhs))
        } else {
            bin(lhs, op, rhs)
        },
        _ => bin(lhs, op, rhs),
    }
}

/// Rebalances `lhs op (c ro d)` when the inner operator binds weaker.
pub open spec fn norm_rhs(lhs: ExprV, op: BinaryOperator, rhs: ExprV) -> ExprV {
    match rhs {
        ExprV::Binary(c, ro, d) => if precedence_of(ro) < precedence_of(op) {
            bin(bin(lhs, op, *c), ro, *d)
        } else {
            bin(lhs, op, rhs)
        },
        _ => bin(lhs, op, rhs),
    }
}

/// Rebalances `(a lo b) op (c ro d)`.
pub open spec fn norm_both(lhs: ExprV, op: BinaryOperator, rhs: ExprV) -> ExprV {
    match (lhs, rhs) {
        (ExprV::Binary(a, lo, b), ExprV::Binary(_, ro, _)) => if precedence_of(lo)
            < precedence_of(op) {
            bin(*a, lo, norm_rhs(*b, op, rhs))
        } else if precedence_of(ro) < precedence_of(op) {
            match rhs {
                ExprV::Binary(c, _, d) => bin(norm_lhs(lhs, op, *c), ro, *d),
                _ => bin(lhs, op, rhs),
            }
        } else {
            bin(lhs, op, rhs)
        },
        _ => bin(lhs, op, rhs),
    }
}

/// The normalized form of the binary operation `lhs op rhs`: operand trees that are binary
/// operations are normalized first, then the node is rebalanced so that it can be evaluated
/// from left to right without looking at operator precedence.
pub open spec fn normalize_spec(lhs: ExprV, op: BinaryOperator, rhs: ExprV) -> ExprV
    decreases op_size(lhs) + op_size(rhs),
{
    match (lhs, rhs) {
        (ExprV::Binary(la, lo, lb), ExprV::Binary(ra, ro, rb)) => norm_both(
            normalize_spec(*la, lo, *lb),
            op,
            normalize_spec(*ra, ro, *rb),
        ),
        (ExprV::Binary(la, lo, lb), _) => norm_lhs(normalize_spec(*la, lo, *lb), op, rhs),
        (_, ExprV::Binary(ra, ro, rb)) => norm_rhs(lhs, op, normalize_spec(*ra, ro, *rb)),
        _ => bin(lhs, op, rhs),
    }
}

/// An element of the in-order reading of an operator tree.
pub enum OpToken {
    /// An operand that is not a binary operation.
    Operand(ExprV),
    /// A binary operator.
    Operator(BinaryOperator),
}

/// The operands and operators of an operator tree, read from left to right.
pub open spec fn tokens(e: ExprV) -> Seq<OpToken>
    decreases e,
{
    match e {
        ExprV::Binary(a, op, b) => tokens(*a) + seq![OpToken::Operator(op)] + tokens(*b),
        _ => seq![OpToken::Operand(e)],
    }
}

proof fn lemma_norm_lhs_tokens(lhs: ExprV, op: BinaryOperator, rhs: ExprV)
    ensures
        tokens(norm_lhs(lhs, op, rhs)) == tokens(bin(lhs, op, rhs)),
{
    if let ExprV::Binary(a, lo, b) = lhs {
        if precedence_of(lo) < precedence_of(op) {
            let inner = bin(*b, op, rhs);
            assert(tokens(inner) == tokens(*b) + seq![OpToken::Operator(op)] + tokens(rhs));
            assert(tokens(bin(*a, lo, inner)) == tokens(*a) + seq![OpToken::Operator(lo)] + tokens(
                inner,
            ));
            assert(tokens(lhs) == tokens(*a) + seq![OpToken::Operator(lo)] + tokens(*b));
            assert(tokens(bin(lhs, op, rhs)) == tokens(lhs) + seq![OpToken::Operator(op)] + tokens(
                rhs,
            ));
            assert(tokens(norm_lhs(lhs, op, rhs)) =~= tokens(bin(lhs, op, rhs)));
        }
    }
}

proof fn lemma_norm_rhs_tokens(lhs: ExprV, op: BinaryOperator, rhs: ExprV)
    ensures
        tokens(norm_rhs(lhs, op, rhs)) == tokens(bin(lhs, op, rhs)),
{
    if let ExprV::Binary(c, ro, d) = rhs {
        if precedence_of(ro) < precedence_of(op) {
            let inner = bin(lhs, op, *c);
            assert(tokens(inner) == tokens(lhs) + seq![OpToken::Operator(op)] + tokens(*c));
            assert(tokens(bin(inner, ro, *d)) == tokens(inner) + seq![OpToken::Operator(ro)]
                + tokens(*d));
            assert(tokens(rhs) == tokens(*c) + seq![OpToken::Operator(ro)] + tokens(*d));
            assert(tokens(bin(lhs, op, rhs)) == tokens(lhs) + seq![OpToken::Operator(op)] + tokens(
                rhs,
            ));
            assert(tokens(norm_rhs(lhs, op, rhs)) =~= tokens(bin(lhs, op, rhs)));
        }
    }
}

#[verifier::rlimit(40)]
proof fn lemma_norm_both_tokens(lhs: ExprV, op: BinaryOperator, rhs: ExprV)
    ensures
        tokens(norm_both(lhs, op, rhs)) == tokens(bin(lhs, op, rhs)),
{
    if let (ExprV::Binary(a, lo, b), ExprV::Binary(c, ro, d)) = (lhs, rhs) {
        let t_op = seq![OpToken::Operator(op)];
        assert(tokens(lhs) == tokens(*a) + seq![OpToken::Operator(lo)] + tokens(*b));
        assert(tokens(rhs) == tokens(*c) + seq![OpToken::Operator(ro)] + tokens(*d));
        assert(tokens(bin(lhs, op, rhs)) == tokens(lhs) + t_op + tokens(rhs));
        if precedence_of(lo) < precedence_of(op) {
            lemma_norm_rhs_tokens(*b, op, rhs);
            let n = norm_rhs(*b, op, rhs);
            assert(tokens(bin(*b, op, rhs)) == tokens(*b) + t_op + tokens(rhs));
            assert(tokens(bin(*a, lo, n)) == tokens(*a) + seq![OpToken::Operator(lo)] + tokens(n));
            assert(tokens(norm_both(lhs, op, rhs)) =~= tokens(bin(lhs, op, rhs)));
        } else if precedence_of(ro) < precedence_of(op) {
            lemma_norm_lhs_tokens(lhs, op, *c);
            let n = norm_lhs(lhs, op, *c);
            assert(tokens(bin(lhs, op, *c)) == tokens(lhs) + t_op + tokens(*c));
            assert(tokens(bin(n, ro, *d)) == tokens(n) + seq![OpToken::Operator(ro)] + tokens(*d));
            assert(tokens(norm_both(lhs, op, rhs)) =~= tokens(bin(lhs, op, rhs)));
        }
    }
}

/// Normalizing a binary operation keeps its operands and operators in the same left-to-right
/// order; only the grouping changes.
pub proof fn normalize_keeps_order(lhs: ExprV, op: BinaryOperator, rhs: ExprV)
    ensures
        tokens(normalize_spec(lhs, op, rhs)) == tokens(bin(lhs, op, rhs)),
    decreases op_size(lhs) + op_size(rhs),
{
    match (lhs, rhs) {
        (ExprV::Binary(la, lo, lb), ExprV::Binary(ra, ro, rb)) => {
            normalize_keeps_order(*la, lo, *lb);
            normalize_keeps_order(*ra, ro, *rb);
            lemma_norm_both_tokens(normalize_spec(*la, lo, *lb), op, normalize_spec(*ra, ro, *rb));
            assert(tokens(normalize_spec(lhs, op, rhs)) =~= tokens(bin(lhs, op, rhs)));
        },
        (ExprV::Binary(la, lo, lb), _) => {
            normalize_keeps_order(*la, lo, *lb);
            lemma_norm_lhs_tokens(normalize_spec(*la, lo, *lb), op, rhs);
            assert(tokens(normalize_spec(lhs, op, rhs)) =~= tokens(bin(lhs, op, rhs)));
        },
        (_, ExprV::Binary(ra, ro, rb)) => {
            normalize_keeps_order(*ra, ro, *rb);
            lemma_norm_rhs_tokens(lhs, op, normalize_spec(*ra, ro, *rb));
            assert(tokens(normalize_spec(lhs, op, rhs)) =~= tokens(bin(lhs, op, rhs)));
        },
        _ => {},
    }
}

/// The normalized form of a binary operation is a binary operation.
pub proof fn normalize_is_binary(lhs: ExprV, op: BinaryOperator, rhs: ExprV)
    ensures
        normalize_spec(lhs, op, rhs) is Binary,
{
}

/// Binary operators bind in the order of the HCL specification: `*`, `/` and `%` tightest, then
/// `+` and `-`, then the comparisons `<`, `<=`, `>` and `>=`, then `==` and `!=`, then `&&`, and
/// `||` loosest; operators of one group bind equally.
pub proof fn operator_precedence_order()
    ensures
        precedence_of(BinaryOperator::Mul) == precedence_of(BinaryOperator::Div),
        precedence_of(BinaryOperator::Div) == precedence_of(BinaryOperator::Mod),
        precedence_of(BinaryOperator::Mod) > precedence_of(BinaryOperator::Plus),
        precedence_of(BinaryOperator::Plus) == precedence_of(BinaryOperator::Minus),
        precedence_of(BinaryOperator::Minus) > precedence_of(BinaryOperator::Less),
        precedence_of(BinaryOperator::Less) == precedence_of(BinaryOperator::LessEq),
        precedence_of(BinaryOperator::LessEq) == precedence_of(BinaryOperator::Greater),
        precedence_of(BinaryOperator::Greater) == precedence_of(BinaryOperator::GreaterEq),
        precedence_of(BinaryOperator::GreaterEq) > precedence_of(BinaryOperator::Eq),
        precedence_of(BinaryOperator::Eq) == precedence_of(BinaryOperator::NotEq),
        precedence_of(BinaryOperator::NotEq) > precedence_of(BinaryOperator::And),
        precedence_of(BinaryOperator::And) > precedence_of(BinaryOperator::Or),
{
}

/// Normalizing `(a || b) && c`, read from left to right, groups it as `a || (b && c)`, since
/// `&&` binds tighter than `||`; and `(a + b) * c` as `a + (b * c)`.
pub proof fn normalize_and_over_or(a: ExprV, b: ExprV, c: ExprV)
    requires
        !(a is Binary),
        !(b is Binary),
        !(c is Binary),
    ensures
        normalize_spec(bin(a, BinaryOperator::Or, b), BinaryOperator::And, c) == bin(
            a,
            BinaryOperator::Or,
            bin(b, BinaryOperator::And, c),
        ),
        normalize_spec(bin(a, BinaryOperator::Plus, b), BinaryOperator::Mul, c) == bin(
            a,
            BinaryOperator::Plus,
            bin(b, BinaryOperator::Mul, c),
        ),
{
    assert(normalize_spec(a, BinaryOperator::Or, b) == bin(a, BinaryOperator::Or, b));
    assert(normalize_spec(a, BinaryOperator::Plus, b) == bin(a, BinaryOperator::Plus, b));
}

/// Normalizing `(a && b) || c` leaves it as it is, since `&&` already binds tighter; and
/// `a && (b || c)`, written with the `||` on the right, becomes `(a && b) || c`.
pub proof fn normalize_or_over_and(a: ExprV, b: ExprV, c: ExprV)
    requires
        !(a is Binary),
        !(b is Binary),
        !(c is Binary),
    ensures
        normalize_spec(bin(a, BinaryOperator::And, b), BinaryOperator::Or, c) == bin(
            bin(a, BinaryOperator::And, b),
            BinaryOperator::Or,
            c,
        ),
        normalize_spec(a, BinaryOperator::And, bin(b, BinaryOperator::Or, c)) == bin(
            bin(a, BinaryOperator::And, b),
            BinaryOperator::Or,
            c,
        ),
{
    assert(normalize_spec(a, BinaryOperator::And, b) == bin(a, BinaryOperator::And, b));
    assert(normalize_spec(b, BinaryOperator::Or, c) == bin(b, BinaryOperator::Or, c));
}

/// For operands that are no binary operations, normalizing `(a lo b) op c` regroups it as
/// `a lo (b op c)` exactly when `op` binds tighter than `lo`, and leaves it otherwise.
pub proof fn normalize_left_nested(a: ExprV, lo: BinaryOperator, b: ExprV, op: BinaryOperator, c: ExprV)
    requires
        !(a is Binary),
        !(b is Binary),
        !(c is Binary),
    ensures
        normalize_spec(bin(a, lo, b), op, c) == (if precedence_of(lo) < precedence_of(op) {
            bin(a, lo, bin(b, op, c))
        } else {
            bin(bin(a, lo, b), op, c)
        }),
{
    assert(normalize_spec(a, lo, b) == bin(a, lo, b));
}

} // verus!

verus! {

/// The content of a binary operation.
pub open spec fn binop_view(b: BinaryOp) -> ExprV {
    bin(b.lhs_expr@, b.operator, b.rhs_expr@)
}

/// Separates binary operations from all other expressions.
fn into_operand(e: Expression) -> (r: Result<BinaryOp, Expression>)
    ensures
        match r {
            Ok(b) => e@ == binop_view(b),
            Err(x) => x == e && !(e@ is Binary),
        },
{
    match e {
        Expression::Operation(op) => match *op {
            Operation::Binary(b) => Ok(b),
            Operation::Unary(u) => Err(Expression::Operation(Box::new(Operation::Unary(u)))),
        },
        other => Err(other),
    }
}

fn normalize_lhs(lhs: BinaryOp, operator: BinaryOperator, rhs_expr: Expression) -> (r: BinaryOp)
    ensures
        binop_view(r) == norm_lhs(binop_view(lhs), operator, rhs_expr@),
{
    if lhs.operator.precedence() < operator.precedence() {
        let BinaryOp { lhs_expr: a, operator: lo, rhs_expr: b } = lhs;
        BinaryOp::new(a, lo, Expression::binary(BinaryOp::new(b, operator, rhs_expr)))
    } else {
        BinaryOp::new(Expression::binary(lhs), operator, rhs_expr)
    }
}

fn normalize_rhs(lhs_expr: Expression, operator: BinaryOperator, rhs: BinaryOp) -> (r: BinaryOp)
    ensures
        binop_view(r) == norm_rhs(lhs_expr@, operator, binop_view(rhs)),
{
    if rhs.operator.precedence() < operator.precedence() {
        let BinaryOp { lhs_expr: c, operator: ro, rhs_expr: d } = rhs;
        BinaryOp::new(Expression::binary(BinaryOp::new(lhs_expr, operator, c)), ro, d)
    } else {
        BinaryOp::new(lhs_expr, operator, Expression::binary(rhs))
    }
}

fn normalize_both(lhs: BinaryOp, operator: BinaryOperator, rhs: BinaryOp) -> (r: BinaryOp)
    ensures
        binop_view(r) == norm_both(binop_view(lhs), operator, binop_view(rhs)),
{
    if lhs.operator.precedence() < operator.precedence() {
        let BinaryOp { lhs_expr: a, operator: lo, rhs_expr: b } = lhs;
        BinaryOp::new(a, lo, Expression::binary(normalize_rhs(b, operator, rhs)))
    } else if rhs.operator.precedence() < operator.precedence() {
        let BinaryOp { lhs_expr: c, operator: ro, rhs_expr: d } = rhs;
        BinaryOp::new(Expression::binary(normalize_lhs(lhs, operator, c)), ro, d)
    } else {
        BinaryOp::new(Expression::binary(lhs), operator, Expression::binary(rhs))
    }
}

impl BinaryOp {
    /// Normalizes the binary operation following operator precedence rules: the result can be
    /// evaluated from left to right without checking operator precedence. Sub-expressions in
    /// parentheses are left as they are.
    pub fn normalize(self) -> (r: BinaryOp)
        ensures
            binop_view(r) == normalize_spec(self.lhs_expr@, self.operator, self.rhs_expr@),
        decreases op_size(self.lhs_expr@) + op_size(self.rhs_expr@),
    {
        let BinaryOp { lhs_expr, operator, rhs_expr } = self;
        let ghost lv = lhs_expr@;
        let ghost rv = rhs_expr@;
        match (into_operand(lhs_expr), into_operand(rhs_expr)) {
            (Ok(l), Ok(r)) => {
                let nl = l.normalize();
                let nr = r.normalize();
                normalize_both(nl, operator, nr)
            },
            (Ok(l), Err(r)) => {
                let nl = l.normalize();
                normalize_lhs(nl, operator, r)
            },
            (Err(l), Ok(r)) => {
                let nr = r.normalize();
                normalize_rhs(l, operator, nr)
            },
            (Err(l), Err(r)) => BinaryOp::new(l, operator, r),
        }
    }
}

} // verus!
