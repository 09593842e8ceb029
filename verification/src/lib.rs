//! An interactive arithmetic expression evaluator.
//!
//! A line of text is tokenized, converted from infix to postfix order by
//! the shunting-yard algorithm, and evaluated against a persistent variable
//! environment.  Numbers are 64-bit floating-point values, carried through
//! the verified code as their IEEE-754 bit patterns.

pub mod calculator;
pub mod enums;
pub mod numeric;
pub mod shunting_yard;
pub mod text;
pub mod tokenize;

pub use calculator::Calculator;
