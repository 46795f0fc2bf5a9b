//! The value-stack engine of a stack-based calculator: a typed value model
//! with exact rationals, the normalization applied on every push, operand
//! fetching by representation, a bounded undo history, the arithmetic and
//! bitwise operators built on the engine, and the fixed-width binary
//! annotation of integral values. Floating-point numbers are carried as
//! plain data and never computed with here; the thin front end around this
//! crate evaluates them natively where an operation calls for it.

pub mod basic_math;
pub mod binary;
pub mod errors;
pub mod help;
pub mod logic_operators;
pub mod modes;
pub mod numerals;
pub mod parse;
pub mod stack;
pub mod stack_manipulations;
pub mod value;
