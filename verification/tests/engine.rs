use rpn_stack::basic_math::OpOutcome;
use rpn_stack::errors::Error;
use rpn_stack::stack::{AcceptedTypes, Stack};
use rpn_stack::value::{Flt, StackValue};

fn flt(f: f64) -> Flt {
    let scaled = f * 1000.0;
    let milli = if scaled.fract() == 0.0 && scaled >= i128::MIN as f64 && scaled <= i128::MAX as f64
    {
        Some(scaled as i128)
    } else {
        None
    };
    Flt::Native { bits: f.to_bits(), milli }
}

fn all_types() -> AcceptedTypes {
    AcceptedTypes { integers: true, fractions: true, float: true }
}

fn integers_only() -> AcceptedTypes {
    AcceptedTypes { integers: true, fractions: false, float: false }
}

fn fractions_only() -> AcceptedTypes {
    AcceptedTypes { integers: false, fractions: true, float: false }
}

fn float_only() -> AcceptedTypes {
    AcceptedTypes { integers: false, fractions: false, float: true }
}

#[test]
fn test_push_and_drop() {
    let mut stack = Stack::new();
    stack.push(StackValue::Integer(42));
    stack.push(StackValue::Fraction((3, 4)));
    stack.push(StackValue::Float(flt(2.5)));

    let values = stack.get_values(3).unwrap();
    assert_eq!(values.len(), 3);

    stack.drop(3);
    assert!(stack.get_values(1).is_none());

    assert_eq!(stack.get_stackbackup_length(), 4);
}

#[test]
fn fraction_canonical_form() {
    let mut stack = Stack::new();
    stack.push(StackValue::Fraction((6, -4)));
    assert_eq!(stack.get_values(1).unwrap()[0], StackValue::Fraction((-3, 2)));
    stack.push(StackValue::Fraction((2, 4)));
    assert_eq!(stack.get_values(1).unwrap()[0], StackValue::Fraction((1, 2)));
    stack.push(StackValue::Fraction((0, -7)));
    assert_eq!(stack.get_values(1).unwrap()[0], StackValue::Fraction((0, 1)));
}

#[test]
fn normalization_is_idempotent_on_stored_values() {
    let mut stack = Stack::new();
    stack.push(StackValue::Fraction((10, -15)));
    let stored = stack.get_values(1).unwrap()[0];
    assert_eq!(stored, StackValue::Fraction((-2, 3)));
    // Pushing the stored value again changes nothing about it.
    stack.push(stored);
    assert_eq!(stack.get_values(1).unwrap()[0], stored);
}

#[test]
fn integer_transparency() {
    let mut stack = Stack::new();
    stack.push(StackValue::Integer(7));
    assert_eq!(stack.get(1, integers_only()).unwrap(), vec![StackValue::Integer(7)]);
    stack.push(StackValue::Integer(-9));
    assert_eq!(stack.get(1, integers_only()).unwrap(), vec![StackValue::Integer(-9)]);
    stack.push(StackValue::Integer(i128::MIN));
    assert_eq!(stack.get(1, integers_only()).unwrap(), vec![StackValue::Integer(i128::MIN)]);
}

#[test]
fn float_snap() {
    let mut stack = Stack::new();
    stack.push(StackValue::Float(flt(2.5)));
    assert_eq!(stack.get(1, fractions_only()).unwrap(), vec![StackValue::Fraction((5, 2))]);
}

#[test]
fn lossy_float_rejection() {
    let third = 1.0f64 / 3.0f64;
    let mut stack = Stack::new();
    stack.push(StackValue::Float(flt(third)));
    assert!(stack.get(1, fractions_only()).is_none());
    let got = stack.get(1, float_only()).unwrap();
    assert_eq!(got, vec![StackValue::Float(Flt::Native { bits: third.to_bits(), milli: None })]);
}

#[test]
fn get_priority_order() {
    let mut stack = Stack::new();
    stack.push(StackValue::Fraction((4, 1)));
    stack.push(StackValue::Integer(6));
    let got = stack.get(2, all_types()).unwrap();
    assert_eq!(got, vec![StackValue::Integer(4), StackValue::Integer(6)]);
}

#[test]
fn depth_guard() {
    let mut stack = Stack::new();
    stack.push(StackValue::Integer(1));
    stack.push(StackValue::Integer(2));
    assert!(stack.get(3, all_types()).is_none());
    stack.drop(3);
    let values = stack.get_values(2).unwrap();
    assert_eq!(values, vec![StackValue::Fraction((1, 1)), StackValue::Fraction((2, 1))]);
}

#[test]
fn undo_round_trip() {
    let mut stack = Stack::new();
    stack.push(StackValue::Integer(1));
    stack.push(StackValue::Integer(2));
    stack.drop(1);
    assert_eq!(stack.get_values(1).unwrap(), vec![StackValue::Fraction((1, 1))]);
    stack.undo();
    let values = stack.get_values(2).unwrap();
    assert_eq!(values, vec![StackValue::Fraction((1, 1)), StackValue::Fraction((2, 1))]);
}

#[test]
fn history_bound_and_fifo_eviction() {
    let mut stack = Stack::new();
    for i in 0..15i128 {
        stack.push(StackValue::Integer(i));
    }
    assert_eq!(stack.get_stackbackup_length(), 10);
    // The ten snapshots are the states before each of the last ten pushes;
    // undoing through all of them lands on the first five values, the five
    // older snapshots having been evicted oldest-first.
    for _ in 0..10 {
        stack.undo();
    }
    assert_eq!(stack.get_stackbackup_length(), 0);
    let values = stack.get_values(5).unwrap();
    for (i, v) in values.iter().enumerate() {
        assert_eq!(*v, StackValue::Fraction((i as i128, 1)));
    }
    assert!(stack.get_values(6).is_none());
    // A further undo is a silent no-op.
    stack.undo();
    assert!(stack.get_values(5).is_some());
}

#[test]
fn end_to_end_add_then_division_by_zero() {
    let mut stack = Stack::new();
    stack.push(StackValue::Integer(3));
    stack.push(StackValue::Integer(4));
    let r = rpn_stack::basic_math::add(&mut stack);
    assert_eq!(r, Ok(OpOutcome::Applied));
    assert_eq!(stack.get_values(1).unwrap(), vec![StackValue::Fraction((7, 1))]);
    stack.push(StackValue::Fraction((0, 5)));
    let r = rpn_stack::basic_math::div(&mut stack);
    assert_eq!(r, Err(Error::DivisionByZero));
    let values = stack.get_values(2).unwrap();
    assert_eq!(values, vec![StackValue::Fraction((7, 1)), StackValue::Fraction((0, 1))]);
}

#[test]
fn exact_fraction_arithmetic() {
    let mut stack = Stack::new();
    stack.push(StackValue::Integer(10));
    stack.push(StackValue::Integer(4));
    assert_eq!(rpn_stack::basic_math::sub(&mut stack), Ok(OpOutcome::Applied));
    assert_eq!(stack.get_values(1).unwrap(), vec![StackValue::Fraction((6, 1))]);

    let mut stack = Stack::new();
    stack.push(StackValue::Fraction((1, 2)));
    stack.push(StackValue::Fraction((2, 3)));
    assert_eq!(rpn_stack::basic_math::mul(&mut stack), Ok(OpOutcome::Applied));
    assert_eq!(stack.get_values(1).unwrap(), vec![StackValue::Fraction((1, 3))]);

    let mut stack = Stack::new();
    stack.push(StackValue::Fraction((1, 2)));
    stack.push(StackValue::Fraction((3, 4)));
    assert_eq!(rpn_stack::basic_math::div(&mut stack), Ok(OpOutcome::Applied));
    assert_eq!(stack.get_values(1).unwrap(), vec![StackValue::Fraction((2, 3))]);

    let mut stack = Stack::new();
    stack.push(StackValue::Fraction((1, 6)));
    stack.push(StackValue::Fraction((1, 4)));
    assert_eq!(rpn_stack::basic_math::add(&mut stack), Ok(OpOutcome::Applied));
    assert_eq!(stack.get_values(1).unwrap(), vec![StackValue::Fraction((5, 12))]);
}

#[test]
fn division_by_negative_fraction_keeps_denominator_positive() {
    let mut stack = Stack::new();
    stack.push(StackValue::Fraction((1, 2)));
    stack.push(StackValue::Fraction((-3, 4)));
    assert_eq!(rpn_stack::basic_math::div(&mut stack), Ok(OpOutcome::Applied));
    assert_eq!(stack.get_values(1).unwrap(), vec![StackValue::Fraction((-2, 3))]);
}

#[test]
fn arithmetic_error_cases() {
    let mut stack = Stack::new();
    assert_eq!(rpn_stack::basic_math::add(&mut stack), Err(Error::InsufficientOperands));
    stack.push(StackValue::Integer(1));
    assert_eq!(rpn_stack::basic_math::add(&mut stack), Err(Error::InsufficientOperands));

    let mut stack = Stack::new();
    stack.push(StackValue::Integer(i128::MAX));
    stack.push(StackValue::Integer(2));
    assert_eq!(rpn_stack::basic_math::mul(&mut stack), Err(Error::Unrepresentable));
    // The failed operation leaves the stack unchanged.
    let values = stack.get_values(2).unwrap();
    assert_eq!(
        values,
        vec![StackValue::Fraction((i128::MAX, 1)), StackValue::Fraction((2, 1))]
    );
}

#[test]
fn float_operands_are_handed_out_for_native_arithmetic() {
    let third = 1.0f64 / 3.0f64;
    let mut stack = Stack::new();
    stack.push(StackValue::Float(flt(third)));
    stack.push(StackValue::Float(flt(third)));
    let r = rpn_stack::basic_math::add(&mut stack);
    let (a, b) = match r {
        Ok(OpOutcome::PendingFloat(a, b)) => (a, b),
        other => panic!("expected a pending float operation, got {:?}", other),
    };
    // Finish the operation the way every operator does: combine natively,
    // drop the operands, push the result.
    let fa = match a {
        Flt::Native { bits, .. } => f64::from_bits(bits),
        Flt::Quotient { num, denom } => num as f64 / denom as f64,
    };
    let fb = match b {
        Flt::Native { bits, .. } => f64::from_bits(bits),
        Flt::Quotient { num, denom } => num as f64 / denom as f64,
    };
    let sum = fa + fb;
    stack.drop(2);
    stack.push(StackValue::Float(flt(sum)));
    let got = stack.get(1, float_only()).unwrap();
    assert_eq!(got, vec![StackValue::Float(Flt::Native { bits: sum.to_bits(), milli: None })]);
}

#[test]
fn float_division_by_zero_quotient() {
    let third = 1.0f64 / 3.0f64;
    let mut stack = Stack::new();
    stack.push(StackValue::Float(flt(third)));
    stack.push(StackValue::Fraction((0, 3)));
    let r = rpn_stack::basic_math::div(&mut stack);
    assert_eq!(r, Err(Error::DivisionByZero));
    assert_eq!(stack.get_values(2).unwrap().len(), 2);
}

#[test]
fn mixed_fraction_and_float_read_as_floats() {
    let third = 1.0f64 / 3.0f64;
    let mut stack = Stack::new();
    stack.push(StackValue::Fraction((1, 2)));
    stack.push(StackValue::Float(flt(third)));
    let got = stack.get(2, all_types()).unwrap();
    assert_eq!(
        got,
        vec![
            StackValue::Float(Flt::Quotient { num: 1, denom: 2 }),
            StackValue::Float(Flt::Native { bits: third.to_bits(), milli: None }),
        ]
    );
}

#[test]
fn logic_operators_work_on_integers() {
    let mut stack = Stack::new();
    stack.push(StackValue::Integer(6));
    stack.push(StackValue::Integer(3));
    assert_eq!(rpn_stack::logic_operators::and(&mut stack), Ok(()));
    assert_eq!(stack.get_values(1).unwrap(), vec![StackValue::Fraction((2, 1))]);

    let mut stack = Stack::new();
    stack.push(StackValue::Integer(6));
    stack.push(StackValue::Integer(3));
    assert_eq!(rpn_stack::logic_operators::or(&mut stack), Ok(()));
    assert_eq!(stack.get_values(1).unwrap(), vec![StackValue::Fraction((7, 1))]);

    let mut stack = Stack::new();
    stack.push(StackValue::Integer(6));
    stack.push(StackValue::Integer(3));
    assert_eq!(rpn_stack::logic_operators::xor(&mut stack), Ok(()));
    assert_eq!(stack.get_values(1).unwrap(), vec![StackValue::Fraction((5, 1))]);

    let mut stack = Stack::new();
    stack.push(StackValue::Integer(0));
    assert_eq!(rpn_stack::logic_operators::not(&mut stack), Ok(()));
    assert_eq!(stack.get_values(1).unwrap(), vec![StackValue::Fraction((-1, 1))]);
}

#[test]
fn logic_operators_reject_non_integers() {
    let mut stack = Stack::new();
    stack.push(StackValue::Fraction((1, 2)));
    stack.push(StackValue::Integer(3));
    assert_eq!(rpn_stack::logic_operators::and(&mut stack), Err(Error::InsufficientOperands));
    let mut stack = Stack::new();
    assert_eq!(rpn_stack::logic_operators::not(&mut stack), Err(Error::InsufficientOperands));
}

#[test]
fn stack_manipulation_commands() {
    let mut stack = Stack::new();
    stack.push(StackValue::Integer(1));
    stack.push(StackValue::Integer(2));

    assert_eq!(rpn_stack::stack_manipulations::dup(&mut stack), Ok(()));
    assert_eq!(
        stack.get_values(3).unwrap(),
        vec![
            StackValue::Fraction((1, 1)),
            StackValue::Fraction((2, 1)),
            StackValue::Fraction((2, 1)),
        ]
    );

    assert_eq!(rpn_stack::stack_manipulations::drop(&mut stack), Ok(()));
    assert_eq!(
        stack.get_values(2).unwrap(),
        vec![StackValue::Fraction((1, 1)), StackValue::Fraction((2, 1))]
    );

    assert_eq!(rpn_stack::stack_manipulations::swap(&mut stack), Ok(()));
    assert_eq!(
        stack.get_values(2).unwrap(),
        vec![StackValue::Fraction((2, 1)), StackValue::Fraction((1, 1))]
    );

    assert_eq!(rpn_stack::stack_manipulations::undo(&mut stack), Ok(()));
    // The swap pushed twice after dropping; one undo steps back to the state
    // just before its final push.
    assert_eq!(stack.get_values(1).unwrap(), vec![StackValue::Fraction((2, 1))]);
}

#[test]
fn dup_and_swap_on_short_stacks_are_no_ops() {
    let mut stack = Stack::new();
    assert_eq!(rpn_stack::stack_manipulations::dup(&mut stack), Ok(()));
    assert!(stack.get_values(1).is_none());
    stack.push(StackValue::Integer(5));
    assert_eq!(rpn_stack::stack_manipulations::swap(&mut stack), Ok(()));
    assert_eq!(stack.get_values(1).unwrap(), vec![StackValue::Fraction((5, 1))]);
}

#[test]
fn large_float_with_integral_scaling_is_snapped() {
    let mut stack = Stack::new();
    // 1.5 thousandths-scales to 1500 exactly.
    stack.push(StackValue::Float(flt(1.5)));
    assert_eq!(stack.get(1, fractions_only()).unwrap(), vec![StackValue::Fraction((3, 2))]);
    // A huge float scales beyond i128 and stays a float.
    let huge = 1.0e40f64;
    stack.push(StackValue::Float(flt(huge)));
    assert!(stack.get(1, fractions_only()).is_none());
}
