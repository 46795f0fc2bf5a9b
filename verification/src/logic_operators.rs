use crate::errors::Error;
use crate::stack::{drop_model, get_spec, push_model, window, AcceptedTypes, Stack, StackModel};
use crate::value::StackValue;
use vstd::prelude::*;

verus! {

/// The bitwise commands over two operands.
#[derive(Clone, Copy, Debug, PartialEq, Eq)]
pub enum LogicOp {
    And,
    Or,
    Xor,
}

/// The representation the bitwise commands accept: integers only, which on
/// this stack means fractions over 1.
pub open spec fn int_mask() -> AcceptedTypes {
    AcceptedTypes { integers: true, fractions: false, float: false }
}

pub open spec fn logic_val(op: LogicOp, a: i128, b: i128) -> i128 {
    match op {
        LogicOp::And => a & b,
        LogicOp::Or => a | b,
        LogicOp::Xor => a ^ b,
    }
}

/// The whole contract of a two-operand bitwise command: with two integers on
/// top, both are dropped and the combination pushed; otherwise an error and
/// nothing changed.
pub open spec fn logic2_ensures(
    op: LogicOp,
    m: StackModel,
    m2: StackModel,
    r: Result<(), Error>,
) -> bool {
    match get_spec(m.values, 2, int_mask()) {
        None => r == Err::<(), Error>(Error::InsufficientOperands) && m2 == m,
        Some(vals) => match (vals[0], vals[1]) {
            (StackValue::Integer(a), StackValue::Integer(b)) => r == Ok::<(), Error>(()) && m2
                == push_model(drop_model(m, 2), StackValue::Integer(logic_val(op, a, b))),
            _ => r == Err::<(), Error>(Error::TypeMismatch) && m2 == m,
        },
    }
}

/// The contract of bitwise complement: with one integer on top, it is
/// dropped and its complement pushed.
pub open spec fn not_ensures(m: StackModel, m2: StackModel, r: Result<(), Error>) -> bool {
    match get_spec(m.values, 1, int_mask()) {
        None => r == Err::<(), Error>(Error::InsufficientOperands) && m2 == m,
        Some(vals) => match vals[0] {
            StackValue::Integer(a) => r == Ok::<(), Error>(()) && m2 == push_model(
                drop_model(m, 1),
                StackValue::Integer(!a),
            ),
            _ => r == Err::<(), Error>(Error::TypeMismatch) && m2 == m,
        },
    }
}

fn logic_binop(stack: &mut Stack, op: LogicOp) -> (r: Result<(), Error>)
    requires
        old(stack).wf(),
    ensures
        final(stack).wf(),
        logic2_ensures(op, old(stack)@, final(stack)@, r),
{
    let got = stack.get(2, AcceptedTypes { integers: true, fractions: false, float: false });
    match got {
        None => Err(Error::InsufficientOperands),
        Some(values) => {
            assert(values@.len() == 2);
            match (values[0], values[1]) {
                (StackValue::Integer(a), StackValue::Integer(b)) => {
                    let result = match op {
                        LogicOp::And => a & b,
                        LogicOp::Or => a | b,
                        LogicOp::Xor => a ^ b,
                    };
                    stack.drop(2);
                    stack.push(StackValue::Integer(result));
                    Ok(())
                },
                _ => Err(Error::TypeMismatch),
            }
        },
    }
}

/// Bitwise and of the top two integers.
pub fn and(stack: &mut Stack) -> (r: Result<(), Error>)
    requires
        old(stack).wf(),
    ensures
        final(stack).wf(),
        logic2_ensures(LogicOp::And, old(stack)@, final(stack)@, r),
{
    logic_binop(stack, LogicOp::And)
}

/// Bitwise or of the top two integers.
pub fn or(stack: &mut Stack) -> (r: Result<(), Error>)
    requires
        old(stack).wf(),
    ensures
        final(stack).wf(),
        logic2_ensures(LogicOp::Or, old(stack)@, final(stack)@, r),
{
    logic_binop(stack, LogicOp::Or)
}

/// Bitwise exclusive or of the top two integers.
pub fn xor(stack: &mut Stack) -> (r: Result<(), Error>)
    requires
        old(stack).wf(),
    ensures
        final(stack).wf(),
        logic2_ensures(LogicOp::Xor, old(stack)@, final(stack)@, r),
{
    logic_binop(stack, LogicOp::Xor)
}

/// Bitwise complement of the top integer.
pub fn not(stack: &mut Stack) -> (r: Result<(), Error>)
    requires
        old(stack).wf(),
    ensures
        final(stack).wf(),
        not_ensures(old(stack)@, final(stack)@, r),
{
    let got = stack.get(1, AcceptedTypes { integers: true, fractions: false, float: false });
    match got {
        None => Err(Error::InsufficientOperands),
        Some(values) => {
            assert(values@.len() == 1);
            match values[0] {
                StackValue::Integer(a) => {
                    let result = !a;
                    stack.drop(1);
                    stack.push(StackValue::Integer(result));
                    Ok(())
                },
                _ => Err(Error::TypeMismatch),
            }
        },
    }
}

} // verus!
