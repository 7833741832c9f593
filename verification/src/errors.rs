//! The error taxonomy. Compile-time rejections are kept apart from the three
//! runtime kinds, and user-facing failures (unbound names, type mismatches)
//! are kept distinguishable from internal consistency defects of the
//! compiler/machine pair.

use vstd::prelude::*;

use crate::bytecode::BinaryOperator;

verus! {

/// Which variant of the object model a value carries. Failures carry tags so
/// that an offending operand pair can be diagnosed without the values.
#[derive(Debug, Clone, Copy, PartialEq, Eq, Structural)]
pub enum ValueTag {
    Integer,
    String,
    List,
    Tuple,
    Dict,
    Function,
    Iterator,
    NoValue,
}

/// An operator, call or rendering was applied to operand variants the
/// language subset gives no meaning to; nothing is coerced implicitly.
#[derive(Debug, Clone, Copy, PartialEq, Eq, Structural)]
pub enum TypeErrorKind {
    /// `op` is undefined for this pair of operand variants.
    BinaryMismatch { op: BinaryOperator, lhs: ValueTag, rhs: ValueTag },
    /// Call of a value that is not callable.
    NotCallable { tag: ValueTag },
    /// Iteration over a value that is not an iterable sequence.
    NotIterable { tag: ValueTag },
    /// Text rendering of a variant that has no defined rendering.
    NotRenderable { tag: ValueTag },
    /// A branch test on a value with no defined truth value.
    NoTruthValue { tag: ValueTag },
}

/// A defect of the compiler or machine, not of the user program: the operand
/// stack, the block stack or a jump target violated its discipline.
#[derive(Debug, Clone, Copy, PartialEq, Eq, Structural)]
pub enum InternalErrorKind {
    /// An instruction asked for more operands than the stack holds.
    StackUnderflow,
    /// A loop-control instruction ran with no active block.
    BlockUnderflow,
    /// A jump aimed past the end of the instruction sequence.
    InvalidJumpTarget { target: usize },
    /// `ForIter` found something other than a live iterator on top.
    IteratorMismatch,
    /// A mapping was built from an odd number of stack slots.
    UnpairedMapEntries,
}

/// A fatal condition of one evaluation. User-facing kinds (`NameError`,
/// `TypeError`) report what the program did wrong; `InternalError` reports a
/// defect of the runtime itself and is kept distinguishable from them.
#[derive(Debug, Clone, PartialEq, Eq)]
pub enum VmError {
    /// A name was read before any binding was made for it.
    NameError { name: String },
    /// An operation was applied to operands it is not defined for.
    TypeError { kind: TypeErrorKind },
    /// The machine or the compiled code broke its own discipline.
    InternalError { kind: InternalErrorKind },
}

/// Which unsupported statement shape the compiler refused.
#[derive(Debug, Clone, Copy, PartialEq, Eq, Structural)]
pub enum ConstructKind {
    With,
    ClassDef,
    Assert,
    Delete,
    Import,
}

/// Why compilation rejected the program before any execution began. These
/// surface at the compile boundary; execution never starts after one.
#[derive(Debug, Clone, Copy, PartialEq, Eq, Structural)]
pub enum CompileError {
    /// An assignment or loop target is not a simple name.
    NonNameAssignTarget,
    /// A `for` loop binds anything other than exactly one target.
    MultipleLoopTargets,
    /// A `for` loop names nothing to iterate over.
    MissingIterable,
    /// `break` outside any lexically enclosing loop body.
    BreakOutsideLoop,
    /// `continue` outside any lexically enclosing loop body.
    ContinueOutsideLoop,
    /// A statement shape the subset does not lower.
    UnsupportedConstruct { construct: ConstructKind },
}

} // verus!
