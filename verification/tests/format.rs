use rpn_stack::binary::get_binary_representation;
use rpn_stack::help::{CmdResult, HelpState};
use rpn_stack::modes::Modes;
use rpn_stack::parse::{parse_input, Command, lookup_command, ParseResult};
use rpn_stack::stack::{Stack, StackLine};
use rpn_stack::value::{Flt, StackValue};

#[test]
fn binary_formatter_width_boundary() {
    let mut modes = Modes::new();
    assert_eq!(modes.set_binary_mode_unsigned(), Ok(()));
    assert_eq!(modes.set_binary_width_8(), Ok(()));
    assert_eq!(get_binary_representation(256, &modes).as_str(), "");
    assert_eq!(modes.set_binary_width_16(), Ok(()));
    assert_eq!(get_binary_representation(256, &modes).as_str(), " = 0100 0000000100000000");
}

#[test]
fn binary_formatter_signed_patterns() {
    let mut modes = Modes::new();
    assert_eq!(modes.set_binary_mode_signed(), Ok(()));
    assert_eq!(modes.set_binary_width_8(), Ok(()));
    assert_eq!(get_binary_representation(-1, &modes).as_str(), " = ff 11111111");
    assert_eq!(get_binary_representation(127, &modes).as_str(), " = 7f 01111111");
    assert_eq!(get_binary_representation(128, &modes).as_str(), "");
    assert_eq!(get_binary_representation(-128, &modes).as_str(), " = 80 10000000");
    assert_eq!(get_binary_representation(-129, &modes).as_str(), "");
}

#[test]
fn binary_formatter_unsigned_rejects_negatives() {
    let mut modes = Modes::new();
    assert_eq!(modes.set_binary_mode_unsigned(), Ok(()));
    assert_eq!(modes.set_binary_width_64(), Ok(()));
    assert_eq!(get_binary_representation(-1, &modes).as_str(), "");
    assert_eq!(
        get_binary_representation(255, &modes).as_str(),
        " = 00000000000000ff 0000000000000000000000000000000000000000000000000000000011111111"
    );
}

#[test]
fn modes_string_reflects_configuration() {
    let mut modes = Modes::new();
    assert_eq!(modes.get_modes_string().as_str(), "32bit Unsigned");
    assert_eq!(modes.set_binary_mode_signed(), Ok(()));
    assert_eq!(modes.set_binary_width_8(), Ok(()));
    assert_eq!(modes.get_modes_string().as_str(), "8bit Signed");
    assert_eq!(modes.set_binary_width_64(), Ok(()));
    assert_eq!(modes.get_modes_string().as_str(), "64bit Signed");
}

#[test]
fn stack_contents_renders_integers_with_annotation() {
    let modes = Modes::new();
    let mut stack = Stack::new();
    stack.push(StackValue::Integer(255));
    let lines = stack.get_stack_contents(&modes);
    assert_eq!(lines.len(), 1);
    match &lines[0] {
        StackLine::Done(s) => {
            assert_eq!(s.as_str(), "   0: 255 = 000000ff 00000000000000000000000011111111");
        }
        other => panic!("expected a finished line, got {:?}", other),
    }
}

#[test]
fn stack_contents_lists_top_first() {
    let modes = Modes::new();
    let mut stack = Stack::new();
    stack.push(StackValue::Integer(1));
    stack.push(StackValue::Fraction((1, 2)));
    let third = 1.0f64 / 3.0f64;
    stack.push(StackValue::Float(Flt::Native { bits: third.to_bits(), milli: None }));
    let lines = stack.get_stack_contents(&modes);
    assert_eq!(lines.len(), 3);
    // The top of the stack comes first, labelled 0, labels incrementing
    // downward.
    match &lines[0] {
        StackLine::NeedsFloat { prefix, value } => {
            assert_eq!(prefix.as_str(), "   0: ");
            assert_eq!(*value, Flt::Native { bits: third.to_bits(), milli: None });
        }
        other => panic!("expected a float line awaiting its value, got {:?}", other),
    }
    match &lines[1] {
        StackLine::NeedsFloat { prefix, value } => {
            assert_eq!(prefix.as_str(), "   1: 1/2 = ");
            assert_eq!(*value, Flt::Quotient { num: 1, denom: 2 });
        }
        other => panic!("expected a fraction line awaiting its quotient, got {:?}", other),
    }
    match &lines[2] {
        StackLine::Done(s) => assert_eq!(s.as_str(), "   2: 1 = 00000001 00000000000000000000000000000001"),
        other => panic!("expected a finished line, got {:?}", other),
    }
}

#[test]
fn help_state_toggles() {
    let mut help = HelpState::new();
    assert!(!help.display_help());
    assert_eq!(help.commands("help"), CmdResult::Success);
    assert!(help.display_help());
    assert_eq!(help.commands("quit"), CmdResult::NoMatch);
    assert!(help.display_help());
    help.clear_help();
    assert!(!help.display_help());
}

#[test]
fn help_lines_follow_the_registry() {
    let lines = rpn_stack::help::get_help();
    assert_eq!(lines[0].as_str(), "Category: Arithmetic");
    assert_eq!(lines[1].as_str(), "  add: Add the top two values");
    assert!(lines.contains(&"Category: Stack".to_string()));
    assert_eq!(lines.last().unwrap().as_str(), "");
    let categories = rpn_stack::help::help_categories();
    let expected: usize = categories.iter().map(|c| c.commands.len() + 2).sum();
    assert_eq!(lines.len(), expected);
}

#[test]
fn parse_commands_and_numbers() {
    assert_eq!(lookup_command("add"), Some(Command::Add));
    assert_eq!(lookup_command("width64"), Some(Command::Width64));
    assert_eq!(lookup_command("quit"), None);

    let mut stack = Stack::new();
    let mut modes = Modes::new();

    assert_eq!(parse_input(&mut stack, &mut modes, "3"), ParseResult::Handled);
    assert_eq!(parse_input(&mut stack, &mut modes, "4"), ParseResult::Handled);
    assert_eq!(parse_input(&mut stack, &mut modes, "add"), ParseResult::Handled);
    assert_eq!(stack.get_values(1).unwrap(), vec![StackValue::Fraction((7, 1))]);

    assert_eq!(parse_input(&mut stack, &mut modes, "h1f"), ParseResult::Handled);
    assert_eq!(stack.get_values(1).unwrap(), vec![StackValue::Fraction((31, 1))]);

    assert_eq!(parse_input(&mut stack, &mut modes, "b101"), ParseResult::Handled);
    assert_eq!(stack.get_values(1).unwrap(), vec![StackValue::Fraction((5, 1))]);

    assert_eq!(parse_input(&mut stack, &mut modes, "-42"), ParseResult::Handled);
    assert_eq!(stack.get_values(1).unwrap(), vec![StackValue::Fraction((-42, 1))]);
}

#[test]
fn parse_leaves_float_literals_and_noise_to_the_caller() {
    let mut stack = Stack::new();
    let mut modes = Modes::new();
    assert_eq!(parse_input(&mut stack, &mut modes, "2.5"), ParseResult::TryFloat);
    assert_eq!(parse_input(&mut stack, &mut modes, "junk"), ParseResult::TryFloat);
    assert_eq!(parse_input(&mut stack, &mut modes, ""), ParseResult::TryFloat);
    assert_eq!(parse_input(&mut stack, &mut modes, "h"), ParseResult::TryFloat);
    assert_eq!(
        parse_input(&mut stack, &mut modes, "99999999999999999999999999999999999999999"),
        ParseResult::TryFloat
    );
    assert!(stack.get_values(1).is_none());
}

#[test]
fn parse_mode_commands_update_modes() {
    let mut stack = Stack::new();
    let mut modes = Modes::new();
    assert_eq!(parse_input(&mut stack, &mut modes, "signed"), ParseResult::Handled);
    assert_eq!(parse_input(&mut stack, &mut modes, "width8"), ParseResult::Handled);
    assert_eq!(modes.get_modes_string().as_str(), "8bit Signed");
    assert_eq!(parse_input(&mut stack, &mut modes, "unsigned"), ParseResult::Handled);
    assert_eq!(modes.get_modes_string().as_str(), "8bit Unsigned");
}

#[test]
fn parse_pending_float_operation() {
    let third = 1.0f64 / 3.0f64;
    let mut stack = Stack::new();
    let mut modes = Modes::new();
    stack.push(StackValue::Float(Flt::Native { bits: third.to_bits(), milli: None }));
    stack.push(StackValue::Fraction((1, 2)));
    match parse_input(&mut stack, &mut modes, "mul") {
        ParseResult::PendingFloat(op, a, b) => {
            assert_eq!(op, rpn_stack::basic_math::ArithOp::Mul);
            assert_eq!(a, Flt::Native { bits: third.to_bits(), milli: None });
            assert_eq!(b, Flt::Quotient { num: 1, denom: 2 });
        }
        other => panic!("expected a pending float operation, got {:?}", other),
    }
}

#[test]
fn parse_operator_error_is_reported() {
    let mut stack = Stack::new();
    let mut modes = Modes::new();
    assert_eq!(
        parse_input(&mut stack, &mut modes, "add"),
        ParseResult::Failed(rpn_stack::errors::Error::InsufficientOperands)
    );
    stack.push(StackValue::Integer(1));
    stack.push(StackValue::Integer(0));
    assert_eq!(
        parse_input(&mut stack, &mut modes, "div"),
        ParseResult::Failed(rpn_stack::errors::Error::DivisionByZero)
    );
}
