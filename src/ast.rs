use vstd::prelude::*;

verus! {

/// Interned name of the `main` section of an input file.
pub const SYM_MAIN: u32 = 0;

/// Interned name of the `input` keyword parameter.
pub const SYM_INPUT: u32 = 1;

/// Interned name of the `self` keyword parameter.
pub const SYM_SELF: u32 = 2;

/// A source location: line and column of the first character.
#[derive(Clone, Copy, Debug, PartialEq, Eq, Structural)]
pub struct Span {
    pub line: u32,
    pub start: u32,
}

/// Declared types of the language.
#[derive(Debug)]
pub enum Type {
    Integer,
    Boolean,
    Field,
    Group,
    Array(Box<Type>, usize),
    Tuple(Vec<Type>),
    Circuit(u32),
}

/// Expressions; identifiers are interned names.
#[derive(Debug)]
pub enum Expression {
    Integer(u32),
    Boolean(bool),
    Field(u64),
    Identifier(u32),
    Add(Box<Expression>, Box<Expression>),
    Not(Box<Expression>),
    /// `e[from..to]`, either bound optional.
    Slice(Box<Expression>, Option<Box<Expression>>, Option<Box<Expression>>),
}

/// A single index or a range `from..to`, either bound optional.
#[derive(Debug)]
pub enum RangeOrExpression {
    Range(Option<Box<Expression>>, Option<Box<Expression>>),
    Expression(Expression),
}

/// The target of an assignment: a variable, an element or range of an
/// array variable, or a member of a circuit variable.
#[derive(Debug)]
pub enum Assignee {
    Identifier(u32),
    Array(u32, RangeOrExpression),
    CircuitField(u32, u32),
}

#[derive(Debug)]
pub enum Statement {
    Return(Vec<Expression>, Span),
    /// `let [mut] name = expression;`
    Definition(bool, u32, Expression, Span),
    Assign(Assignee, Expression, Span),
    /// `let ([mut] a, [mut] b, ...) = expression;` over a tuple value.
    MultipleAssign(Vec<(bool, u32)>, Expression, Span),
    Conditional(ConditionalStatement, Span),
    /// `for index in start..stop { statements }`
    For(u32, Expression, Expression, Vec<Statement>, Span),
    AssertEq(Expression, Expression, Span),
    Expression(Expression, Span),
}

/// `if condition { statements }` and what follows it.
#[derive(Debug)]
pub struct ConditionalStatement {
    pub condition: Expression,
    pub statements: Vec<Statement>,
    pub next: Option<ConditionalNestedOrEndStatement>,
}

#[derive(Debug)]
pub enum ConditionalNestedOrEndStatement {
    /// `else if ...`
    Nested(Box<ConditionalStatement>),
    /// `else { ... }`
    End(Vec<Statement>),
}

/// A formal parameter of a function.
#[derive(Debug)]
pub enum FunctionInput {
    InputKeyword,
    SelfKeyword,
    MutSelfKeyword,
    /// `[mut] name: type`
    Variable(bool, u32, Type),
}

#[derive(Debug)]
pub struct Function {
    pub name: u32,
    pub input: Vec<FunctionInput>,
    pub statements: Vec<Statement>,
    pub output: Option<Type>,
    pub span: Span,
}

} // verus!
