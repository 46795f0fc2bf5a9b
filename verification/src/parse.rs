use crate::basic_math::{arith_ensures, ArithOp, OpOutcome};
use crate::errors::Error;
use crate::logic_operators::{logic2_ensures, not_ensures, LogicOp};
use crate::modes::{BinaryMode, BinaryWidth, Modes};
use crate::numerals::{parse_i128_radix, parse_int_spec, str_eq};
use crate::stack::{drop_model, push_model, undo_model, Stack, StackModel};
use crate::stack_manipulations::{dup_model, swap_model};
use crate::value::{lemma_norm_fits_pos_denom, Flt, StackValue};
use vstd::prelude::*;
use vstd::string::StrSliceExecFns;

verus! {

/// A recognized command token.
#[derive(Clone, Copy, Debug, PartialEq, Eq)]
pub enum Command {
    Add,
    Sub,
    Mul,
    Div,
    And,
    Not,
    Or,
    Xor,
    Drop,
    Dup,
    Swap,
    Undo,
    Signed,
    Unsigned,
    Width8,
    Width16,
    Width32,
    Width64,
}

/// What handling one input token produced. A pending float operation is a
/// decision the engine has taken whose arithmetic only native floating point
/// can finish: the caller combines the two doubles, then drops two cells and
/// pushes the result. An unrecognized token is handed back for one last
/// attempt at reading it as a float literal.
#[derive(Clone, Copy, Debug, PartialEq, Eq)]
pub enum ParseResult {
    Handled,
    PendingFloat(ArithOp, Flt, Flt),
    TryFloat,
    Failed(Error),
}

pub open spec fn command_spec(s: Seq<char>) -> Option<Command> {
    if s == "add"@ {
        Some(Command::Add)
    } else if s == "sub"@ {
        Some(Command::Sub)
    } else if s == "mul"@ {
        Some(Command::Mul)
    } else if s == "div"@ {
        Some(Command::Div)
    } else if s == "and"@ {
        Some(Command::And)
    } else if s == "not"@ {
        Some(Command::Not)
    } else if s == "or"@ {
        Some(Command::Or)
    } else if s == "xor"@ {
        Some(Command::Xor)
    } else if s == "drop"@ {
        Some(Command::Drop)
    } else if s == "dup"@ {
        Some(Command::Dup)
    } else if s == "swap"@ {
        Some(Command::Swap)
    } else if s == "undo"@ {
        Some(Command::Undo)
    } else if s == "signed"@ {
        Some(Command::Signed)
    } else if s == "unsigned"@ {
        Some(Command::Unsigned)
    } else if s == "width8"@ {
        Some(Command::Width8)
    } else if s == "width16"@ {
        Some(Command::Width16)
    } else if s == "width32"@ {
        Some(Command::Width32)
    } else if s == "width64"@ {
        Some(Command::Width64)
    } else {
        None
    }
}

/// Look a token up in the command table.
pub fn lookup_command(input: &str) -> (r: Option<Command>)
    ensures
        r == command_spec(input@),
{
    if str_eq(input, "add") {
        Some(Command::Add)
    } else if str_eq(input, "sub") {
        Some(Command::Sub)
    } else if str_eq(input, "mul") {
        Some(Command::Mul)
    } else if str_eq(input, "div") {
        Some(Command::Div)
    } else if str_eq(input, "and") {
        Some(Command::And)
    } else if str_eq(input, "not") {
        Some(Command::Not)
    } else if str_eq(input, "or") {
        Some(Command::Or)
    } else if str_eq(input, "xor") {
        Some(Command::Xor)
    } else if str_eq(input, "drop") {
        Some(Command::Drop)
    } else if str_eq(input, "dup") {
        Some(Command::Dup)
    } else if str_eq(input, "swap") {
        Some(Command::Swap)
    } else if str_eq(input, "undo") {
        Some(Command::Undo)
    } else if str_eq(input, "signed") {
        Some(Command::Signed)
    } else if str_eq(input, "unsigned") {
        Some(Command::Unsigned)
    } else if str_eq(input, "width8") {
        Some(Command::Width8)
    } else if str_eq(input, "width16") {
        Some(Command::Width16)
    } else if str_eq(input, "width32") {
        Some(Command::Width32)
    } else if str_eq(input, "width64") {
        Some(Command::Width64)
    } else {
        None
    }
}

pub open spec fn as_parse_result(op: ArithOp, res: Result<OpOutcome, Error>) -> ParseResult {
    match res {
        Ok(OpOutcome::Applied) => ParseResult::Handled,
        Ok(OpOutcome::PendingFloat(a, b)) => ParseResult::PendingFloat(op, a, b),
        Err(e) => ParseResult::Failed(e),
    }
}

pub open spec fn simple_result(res: Result<(), Error>) -> ParseResult {
    match res {
        Ok(u) => ParseResult::Handled,
        Err(e) => ParseResult::Failed(e),
    }
}

/// What executing one recognized command does: each command behaves exactly
/// as the operator it names, with its outcome translated to a parse result.
pub open spec fn apply_ensures(
    cmd: Command,
    m: StackModel,
    modes: Modes,
    m2: StackModel,
    modes2: Modes,
    r: ParseResult,
) -> bool {
    match cmd {
        Command::Add => modes2 == modes && exists|res: Result<OpOutcome, Error>|
            #[trigger] arith_ensures(ArithOp::Add, m, m2, res) && r == as_parse_result(
                ArithOp::Add,
                res,
            ),
        Command::Sub => modes2 == modes && exists|res: Result<OpOutcome, Error>|
            #[trigger] arith_ensures(ArithOp::Sub, m, m2, res) && r == as_parse_result(
                ArithOp::Sub,
                res,
            ),
        Command::Mul => modes2 == modes && exists|res: Result<OpOutcome, Error>|
            #[trigger] arith_ensures(ArithOp::Mul, m, m2, res) && r == as_parse_result(
                ArithOp::Mul,
                res,
            ),
        Command::Div => modes2 == modes && exists|res: Result<OpOutcome, Error>|
            #[trigger] arith_ensures(ArithOp::Div, m, m2, res) && r == as_parse_result(
                ArithOp::Div,
                res,
            ),
        Command::And => modes2 == modes && exists|res: Result<(), Error>|
            #[trigger] logic2_ensures(LogicOp::And, m, m2, res) && r == simple_result(res),
        Command::Or => modes2 == modes && exists|res: Result<(), Error>|
            #[trigger] logic2_ensures(LogicOp::Or, m, m2, res) && r == simple_result(res),
        Command::Xor => modes2 == modes && exists|res: Result<(), Error>|
            #[trigger] logic2_ensures(LogicOp::Xor, m, m2, res) && r == simple_result(res),
        Command::Not => modes2 == modes && exists|res: Result<(), Error>|
            #[trigger] not_ensures(m, m2, res) && r == simple_result(res),
        Command::Drop => modes2 == modes && m2 == drop_model(m, 1) && r == ParseResult::Handled,
        Command::Dup => modes2 == modes && m2 == dup_model(m) && r == ParseResult::Handled,
        Command::Swap => modes2 == modes && m2 == swap_model(m) && r == ParseResult::Handled,
        Command::Undo => modes2 == modes && m2 == undo_model(m) && r == ParseResult::Handled,
        Command::Signed => m2 == m && modes2.spec_mode() == BinaryMode::Signed
            && modes2.spec_width() == modes.spec_width() && r == ParseResult::Handled,
        Command::Unsigned => m2 == m && modes2.spec_mode() == BinaryMode::Unsigned
            && modes2.spec_width() == modes.spec_width() && r == ParseResult::Handled,
        Command::Width8 => m2 == m && modes2.spec_width() == BinaryWidth::W8 && modes2.spec_mode()
            == modes.spec_mode() && r == ParseResult::Handled,
        Command::Width16 => m2 == m && modes2.spec_width() == BinaryWidth::W16
            && modes2.spec_mode() == modes.spec_mode() && r == ParseResult::Handled,
        Command::Width32 => m2 == m && modes2.spec_width() == BinaryWidth::W32
            && modes2.spec_mode() == modes.spec_mode() && r == ParseResult::Handled,
        Command::Width64 => m2 == m && modes2.spec_width() == BinaryWidth::W64
            && modes2.spec_mode() == modes.spec_mode() && r == ParseResult::Handled,
    }
}

/// Execute one recognized command against the engine and the mode state.
pub fn apply_command(stack: &mut Stack, modes: &mut Modes, cmd: Command) -> (r: ParseResult)
    requires
        old(stack).wf(),
    ensures
        final(stack).wf(),
        apply_ensures(cmd, old(stack)@, *old(modes), final(stack)@, *final(modes), r),
{
    match cmd {
        Command::Add => {
            let res = crate::basic_math::add(stack);
            match res {
                Ok(OpOutcome::Applied) => ParseResult::Handled,
                Ok(OpOutcome::PendingFloat(a, b)) => ParseResult::PendingFloat(ArithOp::Add, a, b),
                Err(e) => ParseResult::Failed(e),
            }
        },
        Command::Sub => {
            let res = crate::basic_math::sub(stack);
            match res {
                Ok(OpOutcome::Applied) => ParseResult::Handled,
                Ok(OpOutcome::PendingFloat(a, b)) => ParseResult::PendingFloat(ArithOp::Sub, a, b),
                Err(e) => ParseResult::Failed(e),
            }
        },
        Command::Mul => {
            let res = crate::basic_math::mul(stack);
            match res {
                Ok(OpOutcome::Applied) => ParseResult::Handled,
                Ok(OpOutcome::PendingFloat(a, b)) => ParseResult::PendingFloat(ArithOp::Mul, a, b),
                Err(e) => ParseResult::Failed(e),
            }
        },
        Command::Div => {
            let res = crate::basic_math::div(stack);
            match res {
                Ok(OpOutcome::Applied) => ParseResult::Handled,
                Ok(OpOutcome::PendingFloat(a, b)) => ParseResult::PendingFloat(ArithOp::Div, a, b),
                Err(e) => ParseResult::Failed(e),
            }
        },
        Command::And => {
            let res = crate::logic_operators::and(stack);
            match res {
                Ok(u) => ParseResult::Handled,
                Err(e) => ParseResult::Failed(e),
            }
        },
        Command::Or => {
            let res = crate::logic_operators::or(stack);
            match res {
                Ok(u) => ParseResult::Handled,
                Err(e) => ParseResult::Failed(e),
            }
        },
        Command::Xor => {
            let res = crate::logic_operators::xor(stack);
            match res {
                Ok(u) => ParseResult::Handled,
                Err(e) => ParseResult::Failed(e),
            }
        },
        Command::Not => {
            let res = crate::logic_operators::not(stack);
            match res {
                Ok(u) => ParseResult::Handled,
                Err(e) => ParseResult::Failed(e),
            }
        },
        Command::Drop => {
            let res = crate::stack_manipulations::drop(stack);
            ParseResult::Handled
        },
        Command::Dup => {
            let res = crate::stack_manipulations::dup(stack);
            ParseResult::Handled
        },
        Command::Swap => {
            let res = crate::stack_manipulations::swap(stack);
            ParseResult::Handled
        },
        Command::Undo => {
            let res = crate::stack_manipulations::undo(stack);
            ParseResult::Handled
        },
        Command::Signed => {
            let res = modes.set_binary_mode_signed();
            ParseResult::Handled
        },
        Command::Unsigned => {
            let res = modes.set_binary_mode_unsigned();
            ParseResult::Handled
        },
        Command::Width8 => {
            let res = modes.set_binary_width_8();
            ParseResult::Handled
        },
        Command::Width16 => {
            let res = modes.set_binary_width_16();
            ParseResult::Handled
        },
        Command::Width32 => {
            let res = modes.set_binary_width_32();
            ParseResult::Handled
        },
        Command::Width64 => {
            let res = modes.set_binary_width_64();
            ParseResult::Handled
        },
    }
}

/// A token read as a number: `h` introduces hexadecimal, `b` binary, and
/// anything else is tried as decimal; whole numbers enter the stack as
/// fractions over 1.
pub open spec fn number_entry_spec(s: Seq<char>) -> Option<StackValue> {
    if s.len() > 0 && s[0] == 'h' && parse_int_spec(s.skip(1), 16) is Some {
        Some(StackValue::Fraction((parse_int_spec(s.skip(1), 16).unwrap() as i128, 1)))
    } else if s.len() > 0 && s[0] == 'b' && parse_int_spec(s.skip(1), 2) is Some {
        Some(StackValue::Fraction((parse_int_spec(s.skip(1), 2).unwrap() as i128, 1)))
    } else if parse_int_spec(s, 10) is Some {
        Some(StackValue::Fraction((parse_int_spec(s, 10).unwrap() as i128, 1)))
    } else {
        None
    }
}

/// Handle one cleaned input token: a command from the table, else a number
/// pushed onto the stack, else `TryFloat`, leaving the last word — a float
/// literal or a typo — to the caller.
pub fn parse_input(stack: &mut Stack, modes: &mut Modes, input: &str) -> (r: ParseResult)
    requires
        old(stack).wf(),
    ensures
        final(stack).wf(),
        command_spec(input@) matches Some(cmd) ==> apply_ensures(
            cmd,
            old(stack)@,
            *old(modes),
            final(stack)@,
            *final(modes),
            r,
        ),
        command_spec(input@) is None ==> *final(modes) == *old(modes) && match number_entry_spec(
            input@,
        ) {
            Some(v) => r == ParseResult::Handled && final(stack)@ == push_model(old(stack)@, v),
            None => r == ParseResult::TryFloat && final(stack)@ == old(stack)@,
        },
{
    let cmd = lookup_command(input);
    match cmd {
        Some(c) => apply_command(stack, modes, c),
        None => {
            let len = input.unicode_len();
            if len > 0 {
                let c0 = input.get_char(0);
                if c0 == 'h' {
                    let rest = input.substring_char(1, len);
                    proof {
                        assert(rest@ =~= input@.skip(1));
                    }
                    if let Some(v) = parse_i128_radix(rest, 16) {
                        proof {
                            lemma_norm_fits_pos_denom(v as int, 1);
                        }
                        stack.push(StackValue::Fraction((v, 1)));
                        return ParseResult::Handled;
                    }
                } else if c0 == 'b' {
                    let rest = input.substring_char(1, len);
                    proof {
                        assert(rest@ =~= input@.skip(1));
                    }
                    if let Some(v) = parse_i128_radix(rest, 2) {
                        proof {
                            lemma_norm_fits_pos_denom(v as int, 1);
                        }
                        stack.push(StackValue::Fraction((v, 1)));
                        return ParseResult::Handled;
                    }
                }
            }
            if let Some(v) = parse_i128_radix(input, 10) {
                proof {
                    lemma_norm_fits_pos_denom(v as int, 1);
                }
                stack.push(StackValue::Fraction((v, 1)));
                return ParseResult::Handled;
            }
            ParseResult::TryFloat
        },
    }
}

} // verus!
