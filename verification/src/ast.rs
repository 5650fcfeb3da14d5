//! The abstract syntax the checker walks: expressions after name
//! resolution, source locations, the compiler error record, and the
//! marker-bearing patterns of implicit syntaxes and macros.

use vstd::prelude::*;

use crate::annotations::Annotation;
use crate::types::Type;

verus! {

/// A source location attached to every node and error.
pub struct Location {
    pub module: String,
    pub row: usize,
    pub column: usize,
    pub span: usize,
}

impl Location {
    /// A location pointing nowhere, for synthesized nodes.
    pub fn none() -> (r: Location)
        ensures
            r.row == 0,
            r.column == 0,
            r.span == 0,
    {
        Location { module: String::new(), row: 0, column: 0, span: 0 }
    }
}

/// A structured compiler error: a message, the offending location, and
/// a list of hints.
pub struct NessaError {
    pub message: String,
    pub location: Location,
    pub hints: Vec<String>,
}

impl NessaError {
    /// Build an error at a location.
    pub fn compiler_error(message: String, location: &Location, hints: Vec<String>) -> (r:
        NessaError)
        ensures
            r.message == message,
            r.hints == hints,
    {
        NessaError {
            message,
            location: Location {
                module: crate::types::clone_string(&location.module),
                row: location.row,
                column: location.column,
                span: location.span,
            },
            hints,
        }
    }
}

/// A surface-syntax pattern attached to a class; only its named
/// markers matter to the checker.
pub struct Pattern {
    pub markers: Vec<String>,
}

impl Pattern {
    /// The marker names the pattern mentions.
    pub fn get_markers(&self) -> (r: &Vec<String>)
        ensures
            r == &self.markers,
    {
        &self.markers
    }
}

/// A macro body; its markers carry a flag that is true for markers
/// generated by the body itself rather than taken from the pattern.
pub struct MacroBody {
    pub markers: Vec<(bool, String)>,
}

/// Expressions after compilation: variables are resolved to indices,
/// calls to registry ids.
pub enum NessaExpr {
    /// A literal, carrying its type.
    Literal(Location, Type),
    /// A tuple of expressions.
    Tuple(Location, Vec<NessaExpr>),
    /// A resolved variable: id, name and declared type.
    Variable(Location, usize, String, Type),
    /// A bare reference to a function by name, resolved to its id.
    QualifiedName(Location, String, Option<usize>),
    /// `let name: Type = value`, resolved.
    CompiledVariableDefinition(Location, usize, String, Type, Box<NessaExpr>),
    /// `name = value`, resolved.
    CompiledVariableAssignment(Location, usize, String, Type, Box<NessaExpr>),
    /// Access to the attribute at the given index.
    AttributeAccess(Location, Box<NessaExpr>, usize),
    /// Assignment to the attribute at the given index.
    AttributeAssignment(Location, Box<NessaExpr>, Box<NessaExpr>, usize),
    /// A call to the function with the given id, with explicit
    /// template arguments.
    FunctionCall(Location, usize, Vec<Type>, Vec<NessaExpr>),
    /// A unary operator application.
    UnaryOperation(Location, usize, Vec<Type>, Box<NessaExpr>),
    /// A binary operator application.
    BinaryOperation(Location, usize, Vec<Type>, Box<NessaExpr>, Box<NessaExpr>),
    /// An n-ary operator application: first argument, then the
    /// bracketed ones.
    NaryOperation(Location, usize, Vec<Type>, Box<NessaExpr>, Vec<NessaExpr>),
    /// `if` with a chain of `else if` arms and an optional `else`.
    If(
        Location,
        Box<NessaExpr>,
        Vec<NessaExpr>,
        Vec<(NessaExpr, Vec<NessaExpr>)>,
        Option<Vec<NessaExpr>>,
    ),
    /// `while` with condition and body.
    While(Location, Box<NessaExpr>, Vec<NessaExpr>),
    /// A compiled `for`: iterator variable id, element variable id,
    /// name, container and body.
    CompiledFor(Location, usize, usize, String, Box<NessaExpr>, Vec<NessaExpr>),
    /// A block with its own declared result type.
    DoBlock(Location, Vec<NessaExpr>, Type),
    /// `return` with its value.
    Return(Location, Box<NessaExpr>),
    /// `break`.
    Break(Location),
    /// `continue`.
    Continue(Location),
    /// A compiled lambda: id, captures, parameters, return type, body.
    CompiledLambda(
        Location,
        usize,
        Vec<(String, NessaExpr)>,
        Vec<(String, Type)>,
        Type,
        Vec<NessaExpr>,
    ),
    /// A function definition: annotations, function id, template
    /// parameter names, parameters, return type, body.
    FunctionDefinition(
        Location,
        Vec<Annotation>,
        usize,
        Vec<String>,
        Vec<(String, Type)>,
        Type,
        Vec<NessaExpr>,
    ),
    /// A prefix operation definition: annotations, operator id,
    /// template names, argument name and type, return type, body.
    PrefixOperationDefinition(
        Location,
        Vec<Annotation>,
        usize,
        Vec<String>,
        String,
        Type,
        Type,
        Vec<NessaExpr>,
    ),
    /// A postfix operation definition, shaped as the prefix one.
    PostfixOperationDefinition(
        Location,
        Vec<Annotation>,
        usize,
        Vec<String>,
        String,
        Type,
        Type,
        Vec<NessaExpr>,
    ),
    /// A binary operation definition: the two named arguments, return
    /// type and body.
    BinaryOperationDefinition(
        Location,
        Vec<Annotation>,
        usize,
        Vec<String>,
        (String, Type),
        (String, Type),
        Type,
        Vec<NessaExpr>,
    ),
    /// An n-ary operation definition: the first named argument, the
    /// bracketed ones, return type and body.
    NaryOperationDefinition(
        Location,
        Vec<Annotation>,
        usize,
        Vec<String>,
        (String, Type),
        Vec<(String, Type)>,
        Type,
        Vec<NessaExpr>,
    ),
    /// A prefix operator declaration: representation and precedence.
    PrefixOperatorDefinition(Location, String, usize),
    /// A postfix operator declaration.
    PostfixOperatorDefinition(Location, String, usize),
    /// A binary operator declaration: representation, right
    /// associativity, precedence.
    BinaryOperatorDefinition(Location, String, bool, usize),
    /// An n-ary operator declaration: opening and closing
    /// representations and precedence.
    NaryOperatorDefinition(Location, String, String, usize),
    /// A class definition: annotations, name, template names,
    /// attributes, optional alias, implicit syntaxes.
    ClassDefinition(
        Location,
        Vec<Annotation>,
        String,
        Vec<String>,
        Vec<(String, Type)>,
        Option<Type>,
        Vec<Pattern>,
    ),
    /// An interface definition: annotations, name, template names and
    /// the four member lists.
    InterfaceDefinition(
        Location,
        Vec<Annotation>,
        String,
        Vec<String>,
        Vec<crate::interfaces::InterfaceFn>,
        Vec<crate::interfaces::InterfaceUnaryOp>,
        Vec<crate::interfaces::InterfaceBinaryOp>,
        Vec<crate::interfaces::InterfaceNaryOp>,
    ),
    /// An interface implementation: template names, implementing type,
    /// interface name, interface arguments.
    InterfaceImplementation(Location, Vec<String>, Type, String, Vec<Type>),
    /// A macro definition: annotations, name, kind, pattern and body.
    Macro(Location, Vec<Annotation>, String, String, Pattern, MacroBody),
    /// An uncompiled lambda; never reaches the checker.
    Lambda(
        Location,
        Vec<(String, NessaExpr)>,
        Vec<(String, Type)>,
        Type,
        Vec<NessaExpr>,
    ),
    /// An unresolved name; never reaches the checker.
    NameReference(Location, String),
    /// An unresolved variable definition; never reaches the checker.
    VariableDefinition(Location, String, Type, Box<NessaExpr>),
    /// An unresolved variable assignment; never reaches the checker.
    VariableAssignment(Location, String, Box<NessaExpr>),
    /// An unresolved `for`; never reaches the checker.
    For(Location, String, Box<NessaExpr>, Vec<NessaExpr>),
}

} // verus!
