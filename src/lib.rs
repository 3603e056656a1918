//! An infix arithmetic expression engine: a single-pass shunting-yard parser
//! that turns text into postfix order, and a postfix reducer that turns that
//! order into an expression tree, with the reasons it can fail.

use vstd::prelude::*;

pub mod operators;
pub mod operand;
pub mod expression;
pub mod evaluation;
pub mod infix;

verus! {

} // verus!
