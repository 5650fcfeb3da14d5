//! Operators and functions of the registry: each carries a flat set of
//! overloads, kept an antichain under bindability.

use vstd::prelude::*;

use crate::types::Type;

verus! {

/// One overload of an operator or function: a template parameter
/// count, an argument pattern (a product for more than one argument), a
/// return type and an optional implementation handle.
pub struct Operation {
    pub templates: usize,
    pub args: Type,
    pub ret: Type,
    pub operation: Option<usize>,
}

/// A unary operator and its overloads.
pub struct UnaryOperator {
    pub id: usize,
    pub representation: String,
    pub prefix: bool,
    pub operations: Vec<Operation>,
}

/// A binary operator and its overloads; each overload's `args` is a
/// two-element product.
pub struct BinaryOperator {
    pub id: usize,
    pub representation: String,
    pub operations: Vec<Operation>,
}

/// An n-ary operator, written between an opening and a closing
/// representation; each overload's `args` is a product of the first
/// argument and the bracketed ones.
pub struct NaryOperator {
    pub id: usize,
    pub open_rep: String,
    pub close_rep: String,
    pub operations: Vec<Operation>,
}

/// A function and its overloads; each overload's `args` is a product of
/// the parameter types.
pub struct Function {
    pub id: usize,
    pub name: String,
    pub overloads: Vec<Operation>,
}

} // verus!
