//! The compiler: lowers an abstract syntax tree into a code object. It is
//! total and deterministic — the same tree always yields the same instruction
//! sequence or the same rejection — and it emits expressions in post-order
//! (operands before operators) so the machine's stack discipline matches
//! emission order.
//!
//! Forward jump targets (the exit of an `if`, a `while` or a `for`) are
//! unknown while the jump itself is emitted. The compiler emits the
//! instruction with a placeholder label, remembers its index, and rewrites
//! the label field once the target index is known; no unresolved label ever
//! survives into execution.
//!
//! The specification side, `compile_*_spec`, states the emitted sequence
//! compositionally from each construct's offset; every executable method is
//! proved to append exactly that sequence.

use vstd::prelude::*;

use crate::ast::{Expression, Operator, Program, Statement};
use crate::bytecode::{BinaryOperator, CodeObject, Instruction};
use crate::errors::{CompileError, ConstructKind};

verus! {

/// The bytecode operator for a surface operator: a total, exhaustive map.
pub open spec fn op_code(op: Operator) -> BinaryOperator {
    match op {
        Operator::Add => BinaryOperator::Add,
        Operator::Sub => BinaryOperator::Subtract,
        Operator::Mult => BinaryOperator::Multiply,
        Operator::MatMult => BinaryOperator::MatrixMultiply,
        Operator::Div => BinaryOperator::Divide,
        Operator::Mod => BinaryOperator::Modulo,
        Operator::Pow => BinaryOperator::Power,
        Operator::LShift => BinaryOperator::Lshift,
        Operator::RShift => BinaryOperator::Rshift,
        Operator::BitOr => BinaryOperator::Or,
        Operator::BitXor => BinaryOperator::Xor,
        Operator::BitAnd => BinaryOperator::And,
        Operator::FloorDiv => BinaryOperator::FloorDivide,
    }
}

/// The instructions one expression lowers to. Expressions contain no jumps,
/// so the sequence does not depend on where it will stand. Literals map to
/// constant loads; `True` maps to 1 and `False` and `None` to 0, a documented
/// simplification of the subset. Each sequence leaves exactly one extra value
/// on the stack.
pub open spec fn compile_expr_spec(e: Expression) -> Result<Seq<Instruction>, CompileError>
    decreases e,
{
    match e {
        Expression::Binop { a, op, b } => match compile_expr_spec(*a) {
            Err(er) => Err(er),
            Ok(ca) => match compile_expr_spec(*b) {
                Err(er) => Err(er),
                Ok(cb) => Ok(ca + cb + seq![Instruction::BinaryOperation { op: op_code(op) }]),
            },
        },
        Expression::Call { function, args } => match compile_expr_spec(*function) {
            Err(er) => Err(er),
            Ok(cf) => match compile_exprs_spec(args@) {
                Err(er) => Err(er),
                Ok(cargs) => Ok(
                    cf + cargs + seq![
                        Instruction::CallFunction { count: args@.len() as usize },
                    ],
                ),
            },
        },
        Expression::Number { value } => Ok(seq![Instruction::LoadConst { value }]),
        Expression::String { value } => Ok(seq![Instruction::LoadStringConstant { value }]),
        Expression::Identifier { name } => Ok(seq![Instruction::LoadName { name }]),
        Expression::List { elements } => match compile_exprs_spec(elements@) {
            Err(er) => Err(er),
            Ok(ce) => Ok(ce + seq![Instruction::BuildList { size: elements@.len() as usize }]),
        },
        Expression::Tuple { elements } => match compile_exprs_spec(elements@) {
            Err(er) => Err(er),
            Ok(ce) => Ok(ce + seq![Instruction::BuildTuple { size: elements@.len() as usize }]),
        },
        Expression::True => Ok(seq![Instruction::LoadConst { value: 1 }]),
        Expression::False => Ok(seq![Instruction::LoadConst { value: 0 }]),
        Expression::NoneLiteral => Ok(seq![Instruction::LoadConst { value: 0 }]),
    }
}

/// The instructions a row of expressions lowers to, left to right; the
/// leftmost failing expression's rejection otherwise.
pub open spec fn compile_exprs_spec(es: Seq<Expression>) -> Result<Seq<Instruction>, CompileError>
    decreases es,
{
    if es.len() == 0 {
        Ok(Seq::<Instruction>::empty())
    } else {
        match compile_expr_spec(es[0]) {
            Err(er) => Err(er),
            Ok(c0) => match compile_exprs_spec(es.subrange(1, es.len() as int)) {
                Err(er) => Err(er),
                Ok(rest) => Ok(c0 + rest),
            },
        }
    }
}

/// The stores for the assignment targets after the first: each one reloads
/// the value just bound to the previous target and binds it to the next, so
/// all targets bind the one computed value with no extra stack residue.
pub open spec fn store_rest_spec(ts: Seq<Expression>, prev: String) -> Result<
    Seq<Instruction>,
    CompileError,
>
    decreases ts,
{
    if ts.len() == 0 {
        Ok(Seq::<Instruction>::empty())
    } else {
        match ts[0] {
            Expression::Identifier { name } => match store_rest_spec(
                ts.subrange(1, ts.len() as int),
                name,
            ) {
                Err(er) => Err(er),
                Ok(rest) => Ok(
                    seq![
                        Instruction::LoadName { name: prev },
                        Instruction::StoreName { name },
                    ] + rest,
                ),
            },
            _ => Err(CompileError::NonNameAssignTarget),
        }
    }
}

/// The stores for a non-empty row of assignment targets: the computed value
/// is bound to the first target, then handed on to each further one. Only
/// simple name targets are supported; anything else is rejected.
pub open spec fn store_targets_spec(ts: Seq<Expression>) -> Result<Seq<Instruction>, CompileError> {
    if ts.len() == 0 {
        Err(CompileError::NonNameAssignTarget)
    } else {
        match ts[0] {
            Expression::Identifier { name } => match store_rest_spec(
                ts.subrange(1, ts.len() as int),
                name,
            ) {
                Err(er) => Err(er),
                Ok(rest) => Ok(seq![Instruction::StoreName { name }] + rest),
            },
            _ => Err(CompileError::NonNameAssignTarget),
        }
    }
}

/// The instructions one statement lowers to when it stands at instruction
/// index `offset`. `in_loop` says whether a loop body lexically encloses the
/// statement; `break` and `continue` outside one are rejected here, at
/// compile time, never deferred to a runtime stack failure.
///
/// Control-flow layout. `if`: the test, a conditional jump past the body,
/// the body. `while`: a block entry, the test, a conditional jump to the
/// block exit, the body, `Continue` back to the test, `PopBlock` at the
/// exit. `for`: the iterables (several iterate their tuple), `GetIter`, a
/// block entry, `ForIter`, the target store, the body, `Continue` back to
/// `ForIter`, and a final `Pop` — the block's end label — that discards the
/// iterator however the loop was left. A function definition's body is
/// compiled inline, a temporary simplification of this subset (a full design
/// gives each body its own code object).
pub open spec fn compile_stmt_spec(s: Statement, offset: int, in_loop: bool) -> Result<
    Seq<Instruction>,
    CompileError,
>
    decreases s,
{
    match s {
        Statement::Break => if in_loop {
            Ok(seq![Instruction::Break])
        } else {
            Err(CompileError::BreakOutsideLoop)
        },
        Statement::Continue => if in_loop {
            Ok(seq![Instruction::Continue])
        } else {
            Err(CompileError::ContinueOutsideLoop)
        },
        Statement::Pass => Ok(seq![Instruction::Pass]),
        Statement::Expression { expression } => match compile_expr_spec(expression) {
            Err(er) => Err(er),
            Ok(c) => Ok(c + seq![Instruction::Pop]),
        },
        Statement::If { test, body } => match compile_expr_spec(test) {
            Err(er) => Err(er),
            Ok(ct) => match compile_stmts_spec(body@, offset + ct.len() + 1, in_loop) {
                Err(er) => Err(er),
                Ok(cb) => Ok(
                    ct + seq![
                        Instruction::JumpIfFalse {
                            target: (offset + ct.len() + 1 + cb.len()) as usize,
                        },
                    ] + cb,
                ),
            },
        },
        Statement::While { test, body } => match compile_expr_spec(test) {
            Err(er) => Err(er),
            Ok(ct) => match compile_stmts_spec(body@, offset + 1 + ct.len() + 1, true) {
                Err(er) => Err(er),
                Ok(cb) => Ok(
                    seq![
                        Instruction::PushBlock {
                            start: (offset + 1) as usize,
                            end: (offset + ct.len() + cb.len() + 4) as usize,
                        },
                    ] + ct + seq![
                        Instruction::JumpIfFalse {
                            target: (offset + ct.len() + cb.len() + 3) as usize,
                        },
                    ] + cb + seq![Instruction::Continue] + seq![Instruction::PopBlock],
                ),
            },
        },
        Statement::For { target, iter, body } => if iter@.len() == 0 {
            Err(CompileError::MissingIterable)
        } else if target@.len() != 1 {
            Err(CompileError::MultipleLoopTargets)
        } else {
            match target@[0] {
                Expression::Identifier { name } => match compile_exprs_spec(iter@) {
                    Err(er) => Err(er),
                    Ok(ci) => {
                        let prefix = ci + (if iter@.len() == 1 {
                            Seq::<Instruction>::empty()
                        } else {
                            seq![Instruction::BuildTuple { size: iter@.len() as usize }]
                        }) + seq![Instruction::GetIter];
                        match compile_stmts_spec(body@, offset + prefix.len() + 3, true) {
                            Err(er) => Err(er),
                            Ok(cb) => Ok(
                                prefix + seq![
                                    Instruction::PushBlock {
                                        start: (offset + prefix.len() + 1) as usize,
                                        end: (offset + prefix.len() + cb.len() + 4) as usize,
                                    },
                                ] + seq![Instruction::ForIter] + seq![
                                    Instruction::StoreName { name },
                                ] + cb + seq![Instruction::Continue] + seq![Instruction::Pop],
                            ),
                        }
                    },
                },
                _ => Err(CompileError::NonNameAssignTarget),
            }
        },
        Statement::FunctionDef { name: _, body } => compile_stmts_spec(body@, offset, false),
        Statement::Return { value } => if value@.len() == 0 {
            Ok(seq![Instruction::LoadNone, Instruction::ReturnValue])
        } else {
            match compile_exprs_spec(value@) {
                Err(er) => Err(er),
                Ok(cv) => Ok(
                    cv + (if value@.len() > 1 {
                        seq![Instruction::BuildTuple { size: value@.len() as usize }]
                    } else {
                        Seq::<Instruction>::empty()
                    }) + seq![Instruction::ReturnValue],
                ),
            }
        },
        Statement::Assign { targets, value } => match compile_expr_spec(value) {
            Err(er) => Err(er),
            Ok(cv) => match store_targets_spec(targets@) {
                Err(er) => Err(er),
                Ok(st) => Ok(cv + st),
            },
        },
        Statement::With { .. } => Err(
            CompileError::UnsupportedConstruct { construct: ConstructKind::With },
        ),
        Statement::ClassDef { .. } => Err(
            CompileError::UnsupportedConstruct { construct: ConstructKind::ClassDef },
        ),
        Statement::Assert { .. } => Err(
            CompileError::UnsupportedConstruct { construct: ConstructKind::Assert },
        ),
        Statement::Delete { .. } => Err(
            CompileError::UnsupportedConstruct { construct: ConstructKind::Delete },
        ),
        Statement::Import { .. } => Err(
            CompileError::UnsupportedConstruct { construct: ConstructKind::Import },
        ),
    }
}

/// The instructions a row of statements lowers to when the row starts at
/// instruction index `offset`; the first failing statement's rejection
/// otherwise.
pub open spec fn compile_stmts_spec(ss: Seq<Statement>, offset: int, in_loop: bool) -> Result<
    Seq<Instruction>,
    CompileError,
>
    decreases ss,
{
    if ss.len() == 0 {
        Ok(Seq::<Instruction>::empty())
    } else {
        match compile_stmt_spec(ss[0], offset, in_loop) {
            Err(er) => Err(er),
            Ok(c0) => match compile_stmts_spec(
                ss.subrange(1, ss.len() as int),
                offset + c0.len(),
                in_loop,
            ) {
                Err(er) => Err(er),
                Ok(rest) => Ok(c0 + rest),
            },
        }
    }
}

/// The whole program's instruction sequence: its statements from index 0,
/// outside any loop.
pub open spec fn compile_program_spec(p: Program) -> Result<Seq<Instruction>, CompileError> {
    compile_stmts_spec(p.statements@, 0, false)
}

/// `rest` appended after the already-emitted `done`, rejections passed
/// through: the glue for loop invariants over partially emitted rows.
spec fn stitched(done: Seq<Instruction>, rest: Result<Seq<Instruction>, CompileError>) -> Result<
    Seq<Instruction>,
    CompileError,
> {
    match rest {
        Ok(r) => Ok(done + r),
        Err(er) => Err(er),
    }
}

/// The emitted-and-patched layout of an `if` equals its specified lowering.
proof fn lemma_if_layout(
    code0: Seq<Instruction>,
    ct: Seq<Instruction>,
    cb: Seq<Instruction>,
    fin: Seq<Instruction>,
    j: usize,
    exit: usize,
)
    requires
        j == code0.len() + ct.len(),
        exit == j + 1 + cb.len(),
        fin == ((code0 + ct).push((Instruction::JumpIfFalse { target: 0 })) + cb).update(
            j as int,
            (Instruction::JumpIfFalse { target: exit }),
        ),
    ensures
        fin == code0 + (ct + seq![
            (Instruction::JumpIfFalse {
                target: (code0.len() + ct.len() + 1 + cb.len()) as usize,
            }),
        ] + cb),
{
    assert(fin =~= code0 + (ct + seq![
        (Instruction::JumpIfFalse { target: (code0.len() + ct.len() + 1 + cb.len()) as usize }),
    ] + cb));
}

/// The emitted-and-patched layout of a `while` equals its specified lowering.
proof fn lemma_while_layout(
    code0: Seq<Instruction>,
    ct: Seq<Instruction>,
    cb: Seq<Instruction>,
    fin: Seq<Instruction>,
    start: usize,
    j: usize,
    cleanup: usize,
    exit: usize,
)
    requires
        start == code0.len() + 1,
        j == code0.len() + 1 + ct.len(),
        cleanup == code0.len() + ct.len() + cb.len() + 3,
        exit == cleanup + 1,
        fin == ((code0.push((Instruction::PushBlock { start: 0, end: 0 })) + ct).push(
            (Instruction::JumpIfFalse { target: 0 }),
        ) + cb).push(Instruction::Continue).push(Instruction::PopBlock).update(
            j as int,
            (Instruction::JumpIfFalse { target: cleanup }),
        ).update(start - 1, (Instruction::PushBlock { start, end: exit })),
    ensures
        fin == code0 + (seq![
            (Instruction::PushBlock {
                start: (code0.len() + 1) as usize,
                end: (code0.len() + ct.len() + cb.len() + 4) as usize,
            }),
        ] + ct + seq![
            (Instruction::JumpIfFalse {
                target: (code0.len() + ct.len() + cb.len() + 3) as usize,
            }),
        ] + cb + seq![Instruction::Continue] + seq![Instruction::PopBlock]),
{
    assert(fin =~= code0 + (seq![
        (Instruction::PushBlock {
            start: (code0.len() + 1) as usize,
            end: (code0.len() + ct.len() + cb.len() + 4) as usize,
        }),
    ] + ct + seq![
        (Instruction::JumpIfFalse { target: (code0.len() + ct.len() + cb.len() + 3) as usize }),
    ] + cb + seq![Instruction::Continue] + seq![Instruction::PopBlock]));
}

/// The emitted-and-patched layout of a `for` equals its specified lowering.
proof fn lemma_for_layout(
    code0: Seq<Instruction>,
    prefix: Seq<Instruction>,
    cb: Seq<Instruction>,
    fin: Seq<Instruction>,
    name: String,
    start: usize,
    cleanup: usize,
)
    requires
        start == code0.len() + prefix.len() + 1,
        cleanup == code0.len() + prefix.len() + cb.len() + 4,
        fin == ((code0 + prefix).push((Instruction::PushBlock { start: 0, end: 0 })).push(
            Instruction::ForIter,
        ).push((Instruction::StoreName { name })) + cb).push(Instruction::Continue).push(
            Instruction::Pop,
        ).update(start - 1, (Instruction::PushBlock { start, end: cleanup })),
    ensures
        fin == code0 + (prefix + seq![
            (Instruction::PushBlock {
                start: (code0.len() + prefix.len() + 1) as usize,
                end: (code0.len() + prefix.len() + cb.len() + 4) as usize,
            }),
        ] + seq![Instruction::ForIter] + seq![(Instruction::StoreName { name })] + cb + seq![
            Instruction::Continue,
        ] + seq![Instruction::Pop]),
{
    assert(fin =~= code0 + (prefix + seq![
        (Instruction::PushBlock {
            start: (code0.len() + prefix.len() + 1) as usize,
            end: (code0.len() + prefix.len() + cb.len() + 4) as usize,
        }),
    ] + seq![Instruction::ForIter] + seq![(Instruction::StoreName { name })] + cb + seq![
        Instruction::Continue,
    ] + seq![Instruction::Pop]));
}

/// One compilation pass: owns the code object it appends to.
struct Compiler {
    codeobject: CodeObject,
}

impl Compiler {
    /// Appends one instruction.
    fn emit(&mut self, instruction: Instruction)
        ensures
            final(self).codeobject@ == old(self).codeobject@.push(instruction),
    {
        self.codeobject.instructions.push(instruction);
    }

    /// Rewrites the placeholder instruction at `index`, resolving a forward
    /// label that was unknown when the placeholder was emitted.
    fn patch(&mut self, index: usize, instruction: Instruction)
        requires
            index < old(self).codeobject@.len(),
        ensures
            final(self).codeobject@ == old(self).codeobject@.update(index as int, instruction),
    {
        self.codeobject.instructions[index] = instruction;
    }

    /// Lowers one expression, appending exactly its specified sequence.
    fn compile_expression(&mut self, expression: &Expression) -> (r: Result<(), CompileError>)
        ensures
            match compile_expr_spec(*expression) {
                Ok(c) => r is Ok && final(self).codeobject@ == old(self).codeobject@ + c,
                Err(er) => r is Err && r->Err_0 == er,
            },
        decreases expression,
    {
        let ghost code0: Seq<Instruction> = self.codeobject@;
        match expression {
            Expression::Binop { a, op, b } => {
                match self.compile_expression(&**a) {
                    Ok(()) => {},
                    Err(er) => {
                        return Err(er);
                    },
                }
                match self.compile_expression(&**b) {
                    Ok(()) => {},
                    Err(er) => {
                        return Err(er);
                    },
                }
                let code: BinaryOperator = match op {
                    Operator::Add => BinaryOperator::Add,
                    Operator::Sub => BinaryOperator::Subtract,
                    Operator::Mult => BinaryOperator::Multiply,
                    Operator::MatMult => BinaryOperator::MatrixMultiply,
                    Operator::Div => BinaryOperator::Divide,
                    Operator::Mod => BinaryOperator::Modulo,
                    Operator::Pow => BinaryOperator::Power,
                    Operator::LShift => BinaryOperator::Lshift,
                    Operator::RShift => BinaryOperator::Rshift,
                    Operator::BitOr => BinaryOperator::Or,
                    Operator::BitXor => BinaryOperator::Xor,
                    Operator::BitAnd => BinaryOperator::And,
                    Operator::FloorDiv => BinaryOperator::FloorDivide,
                };
                self.emit(Instruction::BinaryOperation { op: code });
                proof {
                    let ca = compile_expr_spec(**a)->Ok_0;
                    let cb = compile_expr_spec(**b)->Ok_0;
                    assert(self.codeobject@ =~= code0 + (ca + cb + seq![
                        Instruction::BinaryOperation { op: op_code(*op) },
                    ]));
                }
                Ok(())
            },
            Expression::Call { function, args } => {
                match self.compile_expression(&**function) {
                    Ok(()) => {},
                    Err(er) => {
                        return Err(er);
                    },
                }
                match self.compile_expressions(args) {
                    Ok(()) => {},
                    Err(er) => {
                        return Err(er);
                    },
                }
                self.emit(Instruction::CallFunction { count: args.len() });
                proof {
                    let cf = compile_expr_spec(**function)->Ok_0;
                    let cargs = compile_exprs_spec(args@)->Ok_0;
                    assert(self.codeobject@ =~= code0 + (cf + cargs + seq![
                        Instruction::CallFunction { count: args@.len() as usize },
                    ]));
                }
                Ok(())
            },
            Expression::Number { value } => {
                self.emit(Instruction::LoadConst { value: *value });
                proof {
                    assert(self.codeobject@ =~= code0 + seq![
                        Instruction::LoadConst { value: *value },
                    ]);
                }
                Ok(())
            },
            Expression::String { value } => {
                self.emit(Instruction::LoadStringConstant { value: value.clone() });
                proof {
                    assert(self.codeobject@ =~= code0 + seq![
                        Instruction::LoadStringConstant { value: *value },
                    ]);
                }
                Ok(())
            },
            Expression::Identifier { name } => {
                self.emit(Instruction::LoadName { name: name.clone() });
                proof {
                    assert(self.codeobject@ =~= code0 + seq![
                        Instruction::LoadName { name: *name },
                    ]);
                }
                Ok(())
            },
            Expression::List { elements } => {
                match self.compile_expressions(elements) {
                    Ok(()) => {},
                    Err(er) => {
                        return Err(er);
                    },
                }
                self.emit(Instruction::BuildList { size: elements.len() });
                proof {
                    let ce = compile_exprs_spec(elements@)->Ok_0;
                    assert(self.codeobject@ =~= code0 + (ce + seq![
                        Instruction::BuildList { size: elements@.len() as usize },
                    ]));
                }
                Ok(())
            },
            Expression::Tuple { elements } => {
                match self.compile_expressions(elements) {
                    Ok(()) => {},
                    Err(er) => {
                        return Err(er);
                    },
                }
                self.emit(Instruction::BuildTuple { size: elements.len() });
                proof {
                    let ce = compile_exprs_spec(elements@)->Ok_0;
                    assert(self.codeobject@ =~= code0 + (ce + seq![
                        Instruction::BuildTuple { size: elements@.len() as usize },
                    ]));
                }
                Ok(())
            },
            Expression::True => {
                self.emit(Instruction::LoadConst { value: 1 });
                proof {
                    assert(self.codeobject@ =~= code0 + seq![Instruction::LoadConst { value: 1 }]);
                }
                Ok(())
            },
            Expression::False => {
                self.emit(Instruction::LoadConst { value: 0 });
                proof {
                    assert(self.codeobject@ =~= code0 + seq![Instruction::LoadConst { value: 0 }]);
                }
                Ok(())
            },
            Expression::NoneLiteral => {
                self.emit(Instruction::LoadConst { value: 0 });
                proof {
                    assert(self.codeobject@ =~= code0 + seq![Instruction::LoadConst { value: 0 }]);
                }
                Ok(())
            },
        }
    }

    /// Lowers a row of expressions left to right.
    fn compile_expressions(&mut self, expressions: &Vec<Expression>) -> (r: Result<
        (),
        CompileError,
    >)
        ensures
            match compile_exprs_spec(expressions@) {
                Ok(c) => r is Ok && final(self).codeobject@ == old(self).codeobject@ + c,
                Err(er) => r is Err && r->Err_0 == er,
            },
        decreases expressions,
    {
        let ghost code0: Seq<Instruction> = self.codeobject@;
        let ghost es: Seq<Expression> = expressions@;
        let mut index: usize = 0;
        proof {
            assert(code0.skip(code0.len() as int) =~= Seq::<Instruction>::empty());
            assert(es.skip(0) =~= es);
            assert(code0.take(code0.len() as int) =~= code0);
            match compile_exprs_spec(es) {
                Ok(c) => {
                    assert(Seq::<Instruction>::empty() + c =~= c);
                },
                Err(_) => {},
            }
        }
        while index < expressions.len()
            invariant
                index <= es.len(),
                es == expressions@,
                code0.len() <= self.codeobject@.len(),
                code0 =~= self.codeobject@.take(code0.len() as int),
                compile_exprs_spec(es) == stitched(
                    self.codeobject@.skip(code0.len() as int),
                    compile_exprs_spec(es.skip(index as int)),
                ),
            decreases es.len() - index,
        {
            let ghost done0: Seq<Instruction> = self.codeobject@.skip(code0.len() as int);
            match self.compile_expression(&expressions[index]) {
                Ok(()) => {},
                Err(er) => {
                    proof {
                        assert(es.skip(index as int)[0] == es[index as int]);
                    }
                    return Err(er);
                },
            }
            proof {
                let c0 = compile_expr_spec(es[index as int])->Ok_0;
                assert(es.skip(index as int)[0] == es[index as int]);
                assert(es.skip(index as int).subrange(
                    1,
                    es.skip(index as int).len() as int,
                ) =~= es.skip(index as int + 1));
                assert(self.codeobject@.skip(code0.len() as int) =~= done0 + c0);
                assert(code0 =~= self.codeobject@.take(code0.len() as int));
                match compile_exprs_spec(es.skip(index as int + 1)) {
                    Ok(rest) => {
                        assert(done0 + (c0 + rest) =~= (done0 + c0) + rest);
                    },
                    Err(_) => {},
                }
            }
            index = index + 1;
        }
        proof {
            assert(es.skip(es.len() as int) =~= Seq::<Expression>::empty());
            let done = self.codeobject@.skip(code0.len() as int);
            assert(done + Seq::<Instruction>::empty() =~= done);
            assert(self.codeobject@ =~= code0 + done);
        }
        Ok(())
    }

    /// Emits the stores that bind one computed value to every target of an
    /// assignment, left to right.
    fn compile_store_targets(&mut self, targets: &Vec<Expression>) -> (r: Result<(), CompileError>)
        ensures
            match store_targets_spec(targets@) {
                Ok(c) => r is Ok && final(self).codeobject@ == old(self).codeobject@ + c,
                Err(er) => r is Err && r->Err_0 == er,
            },
    {
        let ghost code0: Seq<Instruction> = self.codeobject@;
        let ghost ts: Seq<Expression> = targets@;
        if targets.len() == 0 {
            return Err(CompileError::NonNameAssignTarget);
        }
        match &targets[0] {
            Expression::Identifier { name } => {
                self.emit(Instruction::StoreName { name: name.clone() });
            },
            _ => {
                return Err(CompileError::NonNameAssignTarget);
            },
        }
        let mut index: usize = 1;
        proof {
            match ts[0] {
                Expression::Identifier { name } => {
                    assert(self.codeobject@.skip(code0.len() as int) =~= seq![
                        Instruction::StoreName { name },
                    ]);
                    match store_rest_spec(ts.subrange(1, ts.len() as int), name) {
                        Ok(rest) => {
                            assert(seq![Instruction::StoreName { name }] + rest
                                =~= self.codeobject@.skip(code0.len() as int) + rest);
                        },
                        Err(_) => {},
                    }
                    assert(ts.subrange(1, ts.len() as int) =~= ts.skip(1));
                },
                _ => {
                    assert(false);
                },
            }
            assert(code0 =~= self.codeobject@.take(code0.len() as int));
        }
        while index < targets.len()
            invariant
                1 <= index <= ts.len(),
                ts == targets@,
                code0.len() <= self.codeobject@.len(),
                code0 =~= self.codeobject@.take(code0.len() as int),
                ts[index - 1] is Identifier,
                store_targets_spec(ts) == stitched(
                    self.codeobject@.skip(code0.len() as int),
                    store_rest_spec(ts.skip(index as int), ts[index - 1]->Identifier_name),
                ),
            decreases ts.len() - index,
        {
            let ghost done0: Seq<Instruction> = self.codeobject@.skip(code0.len() as int);
            let prev: String = match &targets[index - 1] {
                Expression::Identifier { name } => name.clone(),
                _ => vstd::pervasive::unreached(),
            };
            match &targets[index] {
                Expression::Identifier { name } => {
                    self.emit(Instruction::LoadName { name: prev });
                    self.emit(Instruction::StoreName { name: name.clone() });
                },
                _ => {
                    proof {
                        assert(ts.skip(index as int)[0] == ts[index as int]);
                    }
                    return Err(CompileError::NonNameAssignTarget);
                },
            }
            proof {
                let gprev = ts[index - 1]->Identifier_name;
                let gname = ts[index as int]->Identifier_name;
                assert(ts.skip(index as int)[0] == ts[index as int]);
                assert(ts.skip(index as int).subrange(
                    1,
                    ts.skip(index as int).len() as int,
                ) =~= ts.skip(index as int + 1));
                assert(self.codeobject@.skip(code0.len() as int) =~= done0 + seq![
                    Instruction::LoadName { name: gprev },
                    Instruction::StoreName { name: gname },
                ]);
                assert(code0 =~= self.codeobject@.take(code0.len() as int));
                match store_rest_spec(ts.skip(index as int + 1), gname) {
                    Ok(rest) => {
                        assert(done0 + (seq![
                            Instruction::LoadName { name: gprev },
                            Instruction::StoreName { name: gname },
                        ] + rest) =~= (done0 + seq![
                            Instruction::LoadName { name: gprev },
                            Instruction::StoreName { name: gname },
                        ]) + rest);
                    },
                    Err(_) => {},
                }
            }
            index = index + 1;
        }
        proof {
            assert(ts.skip(ts.len() as int) =~= Seq::<Expression>::empty());
            let done = self.codeobject@.skip(code0.len() as int);
            assert(done + Seq::<Instruction>::empty() =~= done);
            assert(self.codeobject@ =~= code0 + done);
        }
        Ok(())
    }

    /// Lowers one statement standing at the current end of the code object.
    fn compile_statement(&mut self, statement: &Statement, in_loop: bool) -> (r: Result<
        (),
        CompileError,
    >)
        ensures
            match compile_stmt_spec(*statement, old(self).codeobject@.len() as int, in_loop) {
                Ok(c) => r is Ok && final(self).codeobject@ == old(self).codeobject@ + c,
                Err(er) => r is Err && r->Err_0 == er,
            },
        decreases statement, 1int,
    {
        let ghost code0: Seq<Instruction> = self.codeobject@;
        match statement {
            Statement::Break => {
                if in_loop {
                    self.emit(Instruction::Break);
                    proof {
                        assert(self.codeobject@ =~= code0 + seq![Instruction::Break]);
                    }
                    Ok(())
                } else {
                    Err(CompileError::BreakOutsideLoop)
                }
            },
            Statement::Continue => {
                if in_loop {
                    self.emit(Instruction::Continue);
                    proof {
                        assert(self.codeobject@ =~= code0 + seq![Instruction::Continue]);
                    }
                    Ok(())
                } else {
                    Err(CompileError::ContinueOutsideLoop)
                }
            },
            Statement::Pass => {
                self.emit(Instruction::Pass);
                proof {
                    assert(self.codeobject@ =~= code0 + seq![Instruction::Pass]);
                }
                Ok(())
            },
            Statement::Expression { expression } => {
                match self.compile_expression(expression) {
                    Ok(()) => {},
                    Err(er) => {
                        return Err(er);
                    },
                }
                self.emit(Instruction::Pop);
                proof {
                    let c = compile_expr_spec(*expression)->Ok_0;
                    assert(self.codeobject@ =~= code0 + (c + seq![Instruction::Pop]));
                }
                Ok(())
            },
            Statement::If { .. } => self.compile_if(statement, in_loop),
            Statement::While { .. } => self.compile_while(statement, in_loop),
            Statement::For { .. } => self.compile_for(statement, in_loop),
            Statement::FunctionDef { name: _, body } => {
                // The body is compiled inline, a temporary simplification of
                // this subset; its statements stand outside any loop.
                self.compile_statements(body, false)
            },
            Statement::Return { .. } => self.compile_return(statement, in_loop),
            Statement::Assign { .. } => self.compile_assign(statement, in_loop),
            Statement::With { .. } => Err(
                CompileError::UnsupportedConstruct { construct: ConstructKind::With },
            ),
            Statement::ClassDef { .. } => Err(
                CompileError::UnsupportedConstruct { construct: ConstructKind::ClassDef },
            ),
            Statement::Assert { .. } => Err(
                CompileError::UnsupportedConstruct { construct: ConstructKind::Assert },
            ),
            Statement::Delete { .. } => Err(
                CompileError::UnsupportedConstruct { construct: ConstructKind::Delete },
            ),
            Statement::Import { .. } => Err(
                CompileError::UnsupportedConstruct { construct: ConstructKind::Import },
            ),
        }
    }

    /// Lowers an `if`: the test, a conditional jump past the body, the body.
    fn compile_if(&mut self, statement: &Statement, in_loop: bool) -> (r: Result<
        (),
        CompileError,
    >)
        requires
            statement is If,
        ensures
            match compile_stmt_spec(*statement, old(self).codeobject@.len() as int, in_loop) {
                Ok(c) => r is Ok && final(self).codeobject@ == old(self).codeobject@ + c,
                Err(er) => r is Err && r->Err_0 == er,
            },
        decreases statement, 0int,
    {
        let ghost code0: Seq<Instruction> = self.codeobject@;
        let ghost offset: int = code0.len() as int;
        match statement {
            Statement::If { test, body } => {
                match self.compile_expression(test) {
                    Ok(()) => {},
                    Err(er) => {
                        return Err(er);
                    },
                }
                let j: usize = self.codeobject.instructions.len();
                self.emit(Instruction::JumpIfFalse { target: 0 });
                match self.compile_statements(body, in_loop) {
                    Ok(()) => {},
                    Err(er) => {
                        return Err(er);
                    },
                }
                let exit: usize = self.codeobject.instructions.len();
                self.patch(j, Instruction::JumpIfFalse { target: exit });
                proof {
                    let ct = compile_expr_spec(*test)->Ok_0;
                    let cb = compile_stmts_spec(body@, offset + ct.len() + 1, in_loop)->Ok_0;
                    lemma_if_layout(code0, ct, cb, self.codeobject@, j, exit);
                }
                Ok(())
            },
            _ => vstd::pervasive::unreached(),
        }
    }

    /// Lowers a `while`: a block entry, the test, a conditional jump to the
    /// block's exit, the body, a jump back to the test, and the block's exit.
    fn compile_while(&mut self, statement: &Statement, in_loop: bool) -> (r: Result<
        (),
        CompileError,
    >)
        requires
            statement is While,
        ensures
            match compile_stmt_spec(*statement, old(self).codeobject@.len() as int, in_loop) {
                Ok(c) => r is Ok && final(self).codeobject@ == old(self).codeobject@ + c,
                Err(er) => r is Err && r->Err_0 == er,
            },
        decreases statement, 0int,
    {
        let ghost code0: Seq<Instruction> = self.codeobject@;
        let ghost offset: int = code0.len() as int;
        match statement {
            Statement::While { test, body } => {
                self.emit(Instruction::PushBlock { start: 0, end: 0 });
                let start: usize = self.codeobject.instructions.len();
                match self.compile_expression(test) {
                    Ok(()) => {},
                    Err(er) => {
                        return Err(er);
                    },
                }
                let j: usize = self.codeobject.instructions.len();
                self.emit(Instruction::JumpIfFalse { target: 0 });
                match self.compile_statements(body, true) {
                    Ok(()) => {},
                    Err(er) => {
                        return Err(er);
                    },
                }
                self.emit(Instruction::Continue);
                let cleanup: usize = self.codeobject.instructions.len();
                self.emit(Instruction::PopBlock);
                let exit: usize = self.codeobject.instructions.len();
                self.patch(j, Instruction::JumpIfFalse { target: cleanup });
                self.patch(start - 1, Instruction::PushBlock { start, end: exit });
                proof {
                    let ct = compile_expr_spec(*test)->Ok_0;
                    let cb = compile_stmts_spec(body@, offset + 1 + ct.len() + 1, true)->Ok_0;
                    lemma_while_layout(code0, ct, cb, self.codeobject@, start, j, cleanup, exit);
                }
                Ok(())
            },
            _ => vstd::pervasive::unreached(),
        }
    }

    /// Lowers a `for`: the iterables, `GetIter`, a block entry, the loop head
    /// (`ForIter`, the target store), the body, a jump back to the head, and
    /// the block-exit `Pop` that discards the iterator.
    fn compile_for(&mut self, statement: &Statement, in_loop: bool) -> (r: Result<
        (),
        CompileError,
    >)
        requires
            statement is For,
        ensures
            match compile_stmt_spec(*statement, old(self).codeobject@.len() as int, in_loop) {
                Ok(c) => r is Ok && final(self).codeobject@ == old(self).codeobject@ + c,
                Err(er) => r is Err && r->Err_0 == er,
            },
        decreases statement, 0int,
    {
        let ghost code0: Seq<Instruction> = self.codeobject@;
        let ghost offset: int = code0.len() as int;
        match statement {
            Statement::For { target, iter, body } => {
                if iter.len() == 0 {
                    return Err(CompileError::MissingIterable);
                }
                if target.len() != 1 {
                    return Err(CompileError::MultipleLoopTargets);
                }
                let name: String = match &target[0] {
                    Expression::Identifier { name } => name.clone(),
                    _ => {
                        return Err(CompileError::NonNameAssignTarget);
                    },
                };
                match self.compile_expressions(iter) {
                    Ok(()) => {},
                    Err(er) => {
                        return Err(er);
                    },
                }
                if iter.len() > 1 {
                    self.emit(Instruction::BuildTuple { size: iter.len() });
                }
                self.emit(Instruction::GetIter);
                self.emit(Instruction::PushBlock { start: 0, end: 0 });
                let start: usize = self.codeobject.instructions.len();
                self.emit(Instruction::ForIter);
                self.emit(Instruction::StoreName { name });
                match self.compile_statements(body, true) {
                    Ok(()) => {},
                    Err(er) => {
                        return Err(er);
                    },
                }
                self.emit(Instruction::Continue);
                let cleanup: usize = self.codeobject.instructions.len();
                self.emit(Instruction::Pop);
                self.patch(start - 1, Instruction::PushBlock { start, end: cleanup });
                proof {
                    let gname = target@[0]->Identifier_name;
                    let ci = compile_exprs_spec(iter@)->Ok_0;
                    let prefix = ci + (if iter@.len() == 1 {
                        Seq::<Instruction>::empty()
                    } else {
                        seq![Instruction::BuildTuple { size: iter@.len() as usize }]
                    }) + seq![Instruction::GetIter];
                    let cb = compile_stmts_spec(body@, offset + prefix.len() + 3, true)->Ok_0;
                    if iter@.len() == 1 {
                        assert((code0 + ci).push(Instruction::GetIter) =~= code0 + prefix);
                    } else {
                        assert((code0 + ci).push(
                            Instruction::BuildTuple { size: iter@.len() as usize },
                        ).push(Instruction::GetIter) =~= code0 + prefix);
                    }
                    lemma_for_layout(code0, prefix, cb, self.codeobject@, gname, start, cleanup);
                }
                Ok(())
            },
            _ => vstd::pervasive::unreached(),
        }
    }

    /// Lowers a `return`: zero values return the no-value sentinel, several
    /// are packed into one tuple, and exactly one value is handed to
    /// `ReturnValue` in every case.
    fn compile_return(&mut self, statement: &Statement, in_loop: bool) -> (r: Result<
        (),
        CompileError,
    >)
        requires
            statement is Return,
        ensures
            match compile_stmt_spec(*statement, old(self).codeobject@.len() as int, in_loop) {
                Ok(c) => r is Ok && final(self).codeobject@ == old(self).codeobject@ + c,
                Err(er) => r is Err && r->Err_0 == er,
            },
    {
        let ghost code0: Seq<Instruction> = self.codeobject@;
        match statement {
            Statement::Return { value } => {
                if value.len() == 0 {
                    self.emit(Instruction::LoadNone);
                    self.emit(Instruction::ReturnValue);
                    proof {
                        assert(self.codeobject@ =~= code0 + seq![
                            Instruction::LoadNone,
                            Instruction::ReturnValue,
                        ]);
                    }
                    return Ok(());
                }
                match self.compile_expressions(value) {
                    Ok(()) => {},
                    Err(er) => {
                        return Err(er);
                    },
                }
                if value.len() > 1 {
                    self.emit(Instruction::BuildTuple { size: value.len() });
                }
                self.emit(Instruction::ReturnValue);
                proof {
                    let cv = compile_exprs_spec(value@)->Ok_0;
                    assert(self.codeobject@ =~= code0 + (cv + (if value@.len() > 1 {
                        seq![Instruction::BuildTuple { size: value@.len() as usize }]
                    } else {
                        Seq::<Instruction>::empty()
                    }) + seq![Instruction::ReturnValue]));
                }
                Ok(())
            },
            _ => vstd::pervasive::unreached(),
        }
    }

    /// Lowers an assignment: the value once, then its binding to each target.
    fn compile_assign(&mut self, statement: &Statement, in_loop: bool) -> (r: Result<
        (),
        CompileError,
    >)
        requires
            statement is Assign,
        ensures
            match compile_stmt_spec(*statement, old(self).codeobject@.len() as int, in_loop) {
                Ok(c) => r is Ok && final(self).codeobject@ == old(self).codeobject@ + c,
                Err(er) => r is Err && r->Err_0 == er,
            },
    {
        let ghost code0: Seq<Instruction> = self.codeobject@;
        match statement {
            Statement::Assign { targets, value } => {
                match self.compile_expression(value) {
                    Ok(()) => {},
                    Err(er) => {
                        return Err(er);
                    },
                }
                match self.compile_store_targets(targets) {
                    Ok(()) => {},
                    Err(er) => {
                        return Err(er);
                    },
                }
                proof {
                    let cv = compile_expr_spec(*value)->Ok_0;
                    let st = store_targets_spec(targets@)->Ok_0;
                    assert(self.codeobject@ =~= code0 + (cv + st));
                }
                Ok(())
            },
            _ => vstd::pervasive::unreached(),
        }
    }

    /// Lowers a row of statements in order.
    fn compile_statements(&mut self, statements: &Vec<Statement>, in_loop: bool) -> (r: Result<
        (),
        CompileError,
    >)
        ensures
            match compile_stmts_spec(
                statements@,
                old(self).codeobject@.len() as int,
                in_loop,
            ) {
                Ok(c) => r is Ok && final(self).codeobject@ == old(self).codeobject@ + c,
                Err(er) => r is Err && r->Err_0 == er,
            },
        decreases statements, 1int,
    {
        let ghost code0: Seq<Instruction> = self.codeobject@;
        let ghost ss: Seq<Statement> = statements@;
        let mut index: usize = 0;
        proof {
            assert(code0.skip(code0.len() as int) =~= Seq::<Instruction>::empty());
            assert(ss.skip(0) =~= ss);
            assert(code0.take(code0.len() as int) =~= code0);
            match compile_stmts_spec(ss, code0.len() as int, in_loop) {
                Ok(c) => {
                    assert(Seq::<Instruction>::empty() + c =~= c);
                },
                Err(_) => {},
            }
        }
        while index < statements.len()
            invariant
                index <= ss.len(),
                ss == statements@,
                code0 == old(self).codeobject@,
                code0.len() <= self.codeobject@.len(),
                code0 =~= self.codeobject@.take(code0.len() as int),
                compile_stmts_spec(ss, code0.len() as int, in_loop) == stitched(
                    self.codeobject@.skip(code0.len() as int),
                    compile_stmts_spec(
                        ss.skip(index as int),
                        self.codeobject@.len() as int,
                        in_loop,
                    ),
                ),
            decreases ss.len() - index,
        {
            let ghost done0: Seq<Instruction> = self.codeobject@.skip(code0.len() as int);
            let ghost len_head: int = self.codeobject@.len() as int;
            match self.compile_statement(&statements[index], in_loop) {
                Ok(()) => {},
                Err(er) => {
                    proof {
                        assert(ss.skip(index as int).len() > 0);
                        assert(ss.skip(index as int)[0] == ss[index as int]);
                        assert(compile_stmt_spec(ss[index as int], len_head, in_loop) == Err::<
                            Seq<Instruction>,
                            CompileError,
                        >(er));
                        assert(compile_stmts_spec(ss.skip(index as int), len_head, in_loop)
                            == Err::<Seq<Instruction>, CompileError>(er));
                    }
                    return Err(er);
                },
            }
            proof {
                let at = done0.len() + code0.len();
                let c0 = compile_stmt_spec(ss[index as int], at as int, in_loop)->Ok_0;
                assert(ss.skip(index as int)[0] == ss[index as int]);
                assert(ss.skip(index as int).subrange(
                    1,
                    ss.skip(index as int).len() as int,
                ) =~= ss.skip(index as int + 1));
                assert(self.codeobject@.skip(code0.len() as int) =~= done0 + c0);
                assert(code0 =~= self.codeobject@.take(code0.len() as int));
                match compile_stmts_spec(
                    ss.skip(index as int + 1),
                    self.codeobject@.len() as int,
                    in_loop,
                ) {
                    Ok(rest) => {
                        assert(done0 + (c0 + rest) =~= (done0 + c0) + rest);
                    },
                    Err(_) => {},
                }
            }
            index = index + 1;
        }
        proof {
            assert(ss.skip(ss.len() as int) =~= Seq::<Statement>::empty());
            let done = self.codeobject@.skip(code0.len() as int);
            assert(done + Seq::<Instruction>::empty() =~= done);
            assert(self.codeobject@ =~= code0 + done);
        }
        Ok(())
    }

    /// Lowers the whole program.
    fn compile_program(&mut self, program: &Program) -> (r: Result<(), CompileError>)
        requires
            old(self).codeobject@.len() == 0,
        ensures
            match compile_program_spec(*program) {
                Ok(c) => r is Ok && final(self).codeobject@ == c,
                Err(er) => r is Err && r->Err_0 == er,
            },
    {
        let r = self.compile_statements(&program.statements, false);
        proof {
            match compile_program_spec(*program) {
                Ok(c) => {
                    assert(old(self).codeobject@ + c =~= c);
                },
                Err(_) => {},
            }
        }
        r
    }
}

/// Compiles a program into a code object: total and deterministic, yielding
/// exactly the specified lowering of every statement from instruction index
/// zero, or the specified rejection — in which case execution never starts.
pub fn compile(p: Program) -> (r: Result<CodeObject, CompileError>)
    ensures
        match compile_program_spec(p) {
            Ok(c) => r is Ok && r->Ok_0@ == c,
            Err(er) => r is Err && r->Err_0 == er,
        },
{
    let mut compiler = Compiler { codeobject: CodeObject::new() };
    match compiler.compile_program(&p) {
        Ok(()) => Ok(compiler.codeobject),
        Err(er) => Err(er),
    }
}

} // verus!
