//! Abstract syntax tree nodes for the Python-like surface language. The tree
//! arrives already validated in shape from a front end; the compiler walks it
//! and either lowers it or rejects an unsupported construct explicitly.

use vstd::prelude::*;

verus! {

/// A parsed program: the ordered top-level statements of one source text.
#[derive(Debug, PartialEq)]
pub struct Program {
    pub statements: Vec<Statement>,
}

/// One statement. The compiler lowers the structured kinds and rejects the
/// rest with a named unsupported-construct condition, never an undefined trap.
#[derive(Debug, PartialEq)]
pub enum Statement {
    Break,
    Continue,
    Pass,
    /// An expression evaluated for its effect; its value is discarded.
    Expression { expression: Expression },
    If { test: Expression, body: Vec<Statement> },
    While { test: Expression, body: Vec<Statement> },
    /// `for <target> in <iter>: <body>`. Several iterable expressions stand
    /// for iterating their tuple, as in the surface language.
    For { target: Vec<Expression>, iter: Vec<Expression>, body: Vec<Statement> },
    With { items: Vec<Expression>, body: Vec<Statement> },
    FunctionDef { name: String, body: Vec<Statement> },
    ClassDef { name: String },
    Assert { test: Expression, msg: Option<Expression> },
    /// `return` with zero or more value expressions.
    Return { value: Vec<Expression> },
    /// One computed value bound to each target in turn.
    Assign { targets: Vec<Expression>, value: Expression },
    Delete { targets: Vec<Expression> },
    Import { name: String },
}

/// One expression. `NoneLiteral` is the surface `None`.
#[derive(Debug, PartialEq)]
pub enum Expression {
    Binop { a: Box<Expression>, op: Operator, b: Box<Expression> },
    Call { function: Box<Expression>, args: Vec<Expression> },
    Number { value: i32 },
    String { value: String },
    Identifier { name: String },
    List { elements: Vec<Expression> },
    Tuple { elements: Vec<Expression> },
    True,
    False,
    NoneLiteral,
}

/// A surface binary operator. The mapping onto bytecode operators is total
/// and exhaustive: every surface operator lowers to exactly one opcode.
#[derive(Debug, Clone, Copy, PartialEq, Eq, Structural)]
pub enum Operator {
    Add,
    Sub,
    Mult,
    MatMult,
    Div,
    Mod,
    Pow,
    LShift,
    RShift,
    BitOr,
    BitXor,
    BitAnd,
    FloorDiv,
}

} // verus!
