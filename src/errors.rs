use vstd::prelude::*;

use crate::ast::Span;
use crate::input::Token;

verus! {

/// Errors of the input-file parser.
#[derive(Clone, Copy, Debug, PartialEq, Eq, Structural)]
pub enum ParserError {
    UnexpectedToken(Token, Span),
    UnexpectedEof,
    InputsNoVariableTypeSpecified,
    InputsMultipleVariableTypesSpecified,
}

} // verus!

verus! {

/// Errors of statement enforcement; each carries the statement's source span.
#[derive(Clone, Copy, Debug, PartialEq, Eq, Structural)]
pub enum StatementError {
    UndefinedVariable(Span),
    ImmutableAssign(Span),
    /// The target member is a method or a constant.
    ImmutableCircuitMember(Span),
    UndefinedCircuit(Span),
    UndefinedCircuitMember(Span),
    TypeMismatch(Span),
    ArrayAssignIndex(Span),
    ArrayAssignRange(Span),
    IndexOutOfRange(Span),
    NonConcreteIndex(Span),
    Overflow(Span),
    SelectFail(Span),
    ConditionalBoolean(Span),
    AssertionFailed(Span),
    Unassigned(Span),
}

/// Errors of function enforcement.
#[derive(Clone, Copy, Debug, PartialEq, Eq, Structural)]
pub enum FunctionError {
    Statement(StatementError),
    /// Declared and actual number of returned values.
    ReturnArgumentsLength(usize, usize, Span),
    /// A returned value is not of its declared type.
    ReturnTypeMismatch(Span),
}

} // verus!
