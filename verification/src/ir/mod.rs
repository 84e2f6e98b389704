//! The intermediate representation: variable identifiers, primitive
//! operations, the A-Normal Form tree, lowering from the syntax tree, constant
//! folding and the optimizer.

pub mod base;
pub mod tree;
pub mod optimize;
pub mod fold;
pub mod lower;
