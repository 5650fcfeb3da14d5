//! Semantic-analysis core of a statically-typed language with ad-hoc
//! polymorphism: a type algebra with a directional bindability relation,
//! an operator/function registry with subsumption checks, an overload
//! resolver, type inference over an AST, and a multi-pass static checker.

use vstd::prelude::*;

mod annotations;
mod ast;
mod bindable;
mod checks;
mod context;
mod inference;
mod interfaces;
mod operations;
mod types;

pub use annotations::Annotation;
pub use ast::{Location, MacroBody, NessaError, NessaExpr, Pattern};
pub use context::{standard_ctx, NessaContext, TypeTemplate};
pub use interfaces::{Interface, InterfaceImpl};
pub use operations::{BinaryOperator, Function, NaryOperator, Operation, UnaryOperator};
pub use types::{InterfaceConstraint, Type, TypeSubs};

verus! {

} // verus!
