//! The bytecode instruction set: the fixed vocabulary of operations and the
//! code-object container. It is the shared contract between the compiler and
//! the virtual machine.

use vstd::prelude::*;

verus! {

/// An absolute index into a code object's instruction sequence. Labels are
/// resolved at compile time by back-patching; there is no runtime symbol
/// table. A label equal to the sequence length is a jump past the end, which
/// halts the machine normally.
pub type Label = usize;

/// The compiled, immutable instruction sequence for one program: an ordered,
/// append-only sequence produced by one compilation pass, handed by value to
/// the machine and never changed once execution begins.
#[derive(Debug)]
pub struct CodeObject {
    pub instructions: Vec<Instruction>,
}

impl View for CodeObject {
    type V = Seq<Instruction>;

    open spec fn view(&self) -> Seq<Instruction> {
        self.instructions@
    }
}

impl CodeObject {
    /// A fresh, empty code object, ready for one compilation pass to fill.
    pub fn new() -> (r: CodeObject)
        ensures
            r@ == Seq::<Instruction>::empty(),
    {
        CodeObject { instructions: Vec::new() }
    }
}

/// One machine operation. The set is a closed tagged variant: the compiler
/// emits nothing outside it and the machine dispatches on every listed case.
/// Each variant's comment states its exact stack arity (values popped,
/// values pushed); the machine treats any violation as an internal
/// consistency failure, never something to ignore silently.
#[derive(Debug, Clone, PartialEq)]
pub enum Instruction {
    /// Pops nothing; pushes the value bound to `name` in the scope.
    /// An unbound name is a name failure.
    LoadName { name: String },
    /// Pops one value and binds it to `name`, shadowing any prior binding.
    StoreName { name: String },
    /// Pushes the integer constant `value`.
    LoadConst { value: i32 },
    /// Pushes the string constant `value`.
    LoadStringConstant { value: String },
    /// Pushes the no-value sentinel, so that a bare return still leaves
    /// exactly one well-defined value for `ReturnValue` to pop.
    LoadNone,
    /// Pops the right then the left operand and pushes the one result of
    /// applying `op` to them.
    BinaryOperation { op: BinaryOperator },
    /// Pops one value and discards it.
    Pop,
    /// Pops an iterable (a list or a tuple) and pushes a fresh iterator
    /// positioned before its first element.
    GetIter,
    /// Pops and pushes nothing.
    Pass,
    /// Resumes the innermost active block at its start label; the block
    /// stays on the block stack. Pops and pushes nothing.
    Continue,
    /// Pops the innermost active block and jumps to its end label.
    /// Pops and pushes nothing from the operand stack.
    Break,
    /// Pops `count` argument values (pushed left to right) and then the
    /// callee beneath them; pushes exactly one result value, the no-value
    /// sentinel when the callee yields nothing.
    CallFunction { count: usize },
    /// Reads the iterator on top of the stack. While elements remain it
    /// advances the iterator in place and pushes the next element; once
    /// exhausted it acts exactly like `Break` against the enclosing block,
    /// leaving the iterator for the code at the block's end label to discard.
    ForIter,
    /// Pops exactly one value and halts execution with it as the result.
    ReturnValue,
    /// Pushes the `(start, end)` pair onto the block stack, marking entry
    /// into a loop body. Pops and pushes nothing from the operand stack.
    PushBlock { start: Label, end: Label },
    /// Pops the top entry of the block stack when a loop body completes
    /// normally. Pops and pushes nothing from the operand stack.
    PopBlock,
    /// Pops one integer truth value; when it is zero, jumps to `target`.
    /// Any non-integer operand is a type failure: no implicit coercion.
    JumpIfFalse { target: Label },
    /// Pops `size` values (pushed left to right) and pushes one tuple of them.
    BuildTuple { size: usize },
    /// Pops `size` values (pushed left to right) and pushes one list of them.
    BuildList { size: usize },
    /// Pops `size` values forming key/value pairs (key pushed before its
    /// value) and pushes one mapping of them; an odd `size` is an internal
    /// consistency failure.
    BuildMap { size: usize },
}

/// The arithmetic and bitwise operators the instruction set names. The
/// object model defines a meaning for only a few operator/operand pairs;
/// every other combination fails with a type mismatch.
#[derive(Debug, Clone, Copy, PartialEq, Eq, Structural)]
pub enum BinaryOperator {
    Power,
    Multiply,
    MatrixMultiply,
    Divide,
    FloorDivide,
    Modulo,
    Add,
    Subtract,
    Lshift,
    Rshift,
    And,
    Xor,
    Or,
}

} // verus!
