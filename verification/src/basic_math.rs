use crate::errors::Error;
use crate::stack::{
    drop_model, get_spec, push_model, window, AcceptedTypes, Stack, StackModel,
};
use crate::value::{flt_is_zero, lemma_norm_fits_pos_denom, Flt, StackValue};
use vstd::prelude::*;

verus! {

/// The four arithmetic commands, over exact fractions when both operands are
/// fractions, handed out for native evaluation when they are doubles.
#[derive(Clone, Copy, Debug, PartialEq, Eq)]
pub enum ArithOp {
    Add,
    Sub,
    Mul,
    Div,
}

/// What an arithmetic command reports on success: either the exact result
/// was computed and pushed, or the two operands are doubles and their
/// combination is left to the caller, who evaluates it natively and then
/// drops two and pushes the result, as every operator does.
#[derive(Clone, Copy, Debug, PartialEq, Eq)]
pub enum OpOutcome {
    Applied,
    PendingFloat(Flt, Flt),
}

/// The representations the arithmetic commands accept.
pub open spec fn arith_mask() -> AcceptedTypes {
    AcceptedTypes { integers: false, fractions: true, float: true }
}

pub open spec fn in_i128(x: int) -> bool {
    i128::MIN <= x <= i128::MAX
}

/// The exact result of an arithmetic command on two fraction pairs, before
/// any sign fix, as unbounded integers. The first operand is the deeper one.
pub open spec fn frac_op_pair(op: ArithOp, a: (i128, i128), b: (i128, i128)) -> (int, int) {
    match op {
        ArithOp::Add => (a.0 * b.1 + b.0 * a.1, a.1 * b.1),
        ArithOp::Sub => (a.0 * b.1 - b.0 * a.1, a.1 * b.1),
        ArithOp::Mul => (a.0 * b.0, a.1 * b.1),
        ArithOp::Div => (a.0 * b.1, a.1 * b.0),
    }
}

/// The sign fix a division may need: a negative denominator moves the sign
/// to the numerator.
pub open spec fn pos_denom(p: (int, int)) -> (int, int) {
    if p.1 < 0 {
        (-p.0, -p.1)
    } else {
        p
    }
}

/// Whether the exact result, including every intermediate product, fits the
/// machine's integers.
pub open spec fn frac_op_ok(op: ArithOp, a: (i128, i128), b: (i128, i128)) -> bool {
    match op {
        ArithOp::Add => in_i128(a.0 * b.1) && in_i128(b.0 * a.1) && in_i128(a.0 * b.1 + b.0 * a.1)
            && in_i128(a.1 * b.1),
        ArithOp::Sub => in_i128(a.0 * b.1) && in_i128(b.0 * a.1) && in_i128(a.0 * b.1 - b.0 * a.1)
            && in_i128(a.1 * b.1),
        ArithOp::Mul => in_i128(a.0 * b.0) && in_i128(a.1 * b.1),
        ArithOp::Div => in_i128(a.0 * b.1) && in_i128(a.1 * b.0) && in_i128(
            pos_denom(frac_op_pair(op, a, b)).0,
        ) && in_i128(pos_denom(frac_op_pair(op, a, b)).1),
    }
}

/// The whole contract of an arithmetic command. Reading the two operands in
/// fraction-or-float representation decides everything: no operands, an
/// error and nothing changed; two fractions, the exact result pushed after
/// dropping both (or a division-by-zero or overflow error with nothing
/// changed); two doubles, the pair handed back for native evaluation with
/// nothing changed, a zero divisor already rejected here.
pub open spec fn arith_ensures(
    op: ArithOp,
    m: StackModel,
    m2: StackModel,
    r: Result<OpOutcome, Error>,
) -> bool {
    match get_spec(m.values, 2, arith_mask()) {
        None => r == Err::<OpOutcome, Error>(Error::InsufficientOperands) && m2 == m,
        Some(vals) => match (vals[0], vals[1]) {
            (StackValue::Fraction(a), StackValue::Fraction(b)) => {
                if op is Div && b.0 == 0 {
                    r == Err::<OpOutcome, Error>(Error::DivisionByZero) && m2 == m
                } else if frac_op_ok(op, a, b) {
                    let p = pos_denom(frac_op_pair(op, a, b));
                    r == Ok::<OpOutcome, Error>(OpOutcome::Applied) && m2 == push_model(
                        drop_model(m, 2),
                        StackValue::Fraction((p.0 as i128, p.1 as i128)),
                    )
                } else {
                    r == Err::<OpOutcome, Error>(Error::Unrepresentable) && m2 == m
                }
            },
            (StackValue::Float(f1), StackValue::Float(f2)) => {
                if op is Div && flt_is_zero(f2) {
                    r == Err::<OpOutcome, Error>(Error::DivisionByZero) && m2 == m
                } else {
                    r == Ok::<OpOutcome, Error>(OpOutcome::PendingFloat(f1, f2)) && m2 == m
                }
            },
            _ => r == Err::<OpOutcome, Error>(Error::TypeMismatch) && m2 == m,
        },
    }
}

fn arith_binop(stack: &mut Stack, op: ArithOp) -> (r: Result<OpOutcome, Error>)
    requires
        old(stack).wf(),
    ensures
        final(stack).wf(),
        arith_ensures(op, old(stack)@, final(stack)@, r),
{
    let ghost m = stack@;
    let types = AcceptedTypes { integers: false, fractions: true, float: true };
    let got = stack.get(2, types);
    match got {
        None => Err(Error::InsufficientOperands),
        Some(values) => {
            proof {
                let win = window(m.values, 2);
                assert(values@.len() == 2);
                assert(win[0] == m.values[m.values.len() - 2]);
                assert(win[1] == m.values[m.values.len() - 1]);
            }
            match (values[0], values[1]) {
                (StackValue::Fraction(a), StackValue::Fraction(b)) => {
                    proof {
                        // The fraction pass hands stored cells through
                        // unchanged, so both denominators are positive.
                        let win = window(m.values, 2);
                        assert(values@ == crate::stack::fracs_seq(win));
                        assert(values@[0] == crate::stack::frac_view(win[0]).unwrap());
                        assert(values@[1] == crate::stack::frac_view(win[1]).unwrap());
                    }
                    assert(a.1 > 0 && b.1 > 0);
                    let is_div = match op {
                        ArithOp::Div => true,
                        _ => false,
                    };
                    if is_div && b.0 == 0 {
                        return Err(Error::DivisionByZero);
                    }
                    let (rn_opt, rd_opt): (Option<i128>, Option<i128>) = match op {
                        ArithOp::Add => {
                            let x = a.0.checked_mul(b.1);
                            let y = b.0.checked_mul(a.1);
                            match (x, y) {
                                (Some(x), Some(y)) => (x.checked_add(y), a.1.checked_mul(b.1)),
                                _ => (None, None),
                            }
                        },
                        ArithOp::Sub => {
                            let x = a.0.checked_mul(b.1);
                            let y = b.0.checked_mul(a.1);
                            match (x, y) {
                                (Some(x), Some(y)) => (x.checked_sub(y), a.1.checked_mul(b.1)),
                                _ => (None, None),
                            }
                        },
                        ArithOp::Mul => (a.0.checked_mul(b.0), a.1.checked_mul(b.1)),
                        ArithOp::Div => (a.0.checked_mul(b.1), a.1.checked_mul(b.0)),
                    };
                    match (rn_opt, rd_opt) {
                        (Some(rn), Some(rd)) => {
                            proof {
                                assert(a.1 as int * b.1 as int > 0) by (nonlinear_arith)
                                    requires
                                        a.1 > 0,
                                        b.1 > 0,
                                ;
                                if op is Div {
                                    assert(a.1 as int * b.0 as int != 0) by (nonlinear_arith)
                                        requires
                                            a.1 > 0,
                                            b.0 != 0,
                                    ;
                                }
                                assert(rd != 0);
                            }
                            let (rn, rd) = if rd < 0 {
                                if rn == i128::MIN || rd == i128::MIN {
                                    return Err(Error::Unrepresentable);
                                }
                                (-rn, -rd)
                            } else {
                                (rn, rd)
                            };
                            assert(rd > 0);
                            proof {
                                lemma_norm_fits_pos_denom(rn as int, rd as int);
                            }
                            stack.drop(2);
                            stack.push(StackValue::Fraction((rn, rd)));
                            Ok(OpOutcome::Applied)
                        },
                        _ => Err(Error::Unrepresentable),
                    }
                },
                (StackValue::Float(f1), StackValue::Float(f2)) => {
                    let is_div = match op {
                        ArithOp::Div => true,
                        _ => false,
                    };
                    if is_div && f2.is_zero() {
                        return Err(Error::DivisionByZero);
                    }
                    Ok(OpOutcome::PendingFloat(f1, f2))
                },
                _ => Err(Error::TypeMismatch),
            }
        },
    }
}

/// Add the top two values.
pub fn add(stack: &mut Stack) -> (r: Result<OpOutcome, Error>)
    requires
        old(stack).wf(),
    ensures
        final(stack).wf(),
        arith_ensures(ArithOp::Add, old(stack)@, final(stack)@, r),
{
    arith_binop(stack, ArithOp::Add)
}

/// Subtract the top value from the one below it.
pub fn sub(stack: &mut Stack) -> (r: Result<OpOutcome, Error>)
    requires
        old(stack).wf(),
    ensures
        final(stack).wf(),
        arith_ensures(ArithOp::Sub, old(stack)@, final(stack)@, r),
{
    arith_binop(stack, ArithOp::Sub)
}

/// Multiply the top two values.
pub fn mul(stack: &mut Stack) -> (r: Result<OpOutcome, Error>)
    requires
        old(stack).wf(),
    ensures
        final(stack).wf(),
        arith_ensures(ArithOp::Mul, old(stack)@, final(stack)@, r),
{
    arith_binop(stack, ArithOp::Mul)
}

/// Divide the value below the top by the top value.
pub fn div(stack: &mut Stack) -> (r: Result<OpOutcome, Error>)
    requires
        old(stack).wf(),
    ensures
        final(stack).wf(),
        arith_ensures(ArithOp::Div, old(stack)@, final(stack)@, r),
{
    arith_binop(stack, ArithOp::Div)
}

} // verus!
