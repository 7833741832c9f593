//! Laws of the runtime, stated and proved over the same specification
//! functions that the compiler's and machine's contracts use: a finished run
//! is stable under any larger step budget; the compiled-and-executed path
//! computes the host's wrapping arithmetic, so adding and then subtracting
//! recovers the first operand exactly; and, for the loop-free fragment,
//! compiling then executing any statement row leaves the operand stack
//! exactly as deep as it started.

use vstd::prelude::*;

use crate::ast::{Expression, Operator, Program, Statement};
use crate::bytecode::Instruction;
use crate::compile::{compile_expr_spec, compile_exprs_spec, compile_program_spec, compile_stmt_spec, compile_stmts_spec, op_code, store_rest_spec, store_targets_spec};
use crate::pyobject::{binop_spec, Val};
use crate::vm::{
    init_machine_view, run_spec, step_spec, MachineView, RunView, StepView, STEP_BUDGET,
};

verus! {

/// Once a run has finished or failed within `f` steps, any larger budget `g`
/// yields the very same outcome: the budget is only a counting limit, never
/// part of the meaning of a program that halts.
pub proof fn lemma_run_extends(code: Seq<Instruction>, m: MachineView, f: nat, g: nat)
    requires
        f <= g,
        !(run_spec(code, m, f) is Stopped),
    ensures
        run_spec(code, m, g) == run_spec(code, m, f),
    decreases f,
{
    if m.pc >= code.len() {
    } else {
        match step_spec(code, m) {
            StepView::Going { next } => {
                lemma_run_extends(code, next, (f - 1) as nat, (g - 1) as nat);
            },
            StepView::Done { .. } => {},
            StepView::Failed { .. } => {},
        }
    }
}

/// The machine takes `n` consecutive ordinary steps from `m0` to `m1`: each
/// step fetches a real instruction and continues (no halt, no failure).
pub open spec fn advances(code: Seq<Instruction>, m0: MachineView, m1: MachineView, n: nat) -> bool
    decreases n,
{
    if n == 0 {
        m0 == m1
    } else {
        &&& m0.pc < code.len()
        &&& step_spec(code, m0) matches StepView::Going { next } && advances(
            code,
            next,
            m1,
            (n - 1) as nat,
        )
    }
}

/// Step chains compose.
pub proof fn lemma_advances_trans(
    code: Seq<Instruction>,
    m0: MachineView,
    m1: MachineView,
    m2: MachineView,
    a: nat,
    b: nat,
)
    requires
        advances(code, m0, m1, a),
        advances(code, m1, m2, b),
    ensures
        advances(code, m0, m2, a + b),
    decreases a,
{
    if a == 0 {
    } else {
        match step_spec(code, m0) {
            StepView::Going { next } => {
                lemma_advances_trans(code, next, m1, m2, (a - 1) as nat, b);
            },
            StepView::Done { .. } => {},
            StepView::Failed { .. } => {},
        }
    }
}

/// A run with enough budget follows a step chain to its end.
pub proof fn lemma_advances_run(
    code: Seq<Instruction>,
    m0: MachineView,
    m1: MachineView,
    n: nat,
    fuel: nat,
)
    requires
        advances(code, m0, m1, n),
        n <= fuel,
    ensures
        run_spec(code, m0, fuel) == run_spec(code, m1, (fuel - n) as nat),
    decreases n,
{
    if n == 0 {
    } else {
        match step_spec(code, m0) {
            StepView::Going { next } => {
                lemma_advances_run(code, next, m1, (n - 1) as nat, (fuel - 1) as nat);
            },
            StepView::Done { .. } => {},
            StepView::Failed { .. } => {},
        }
    }
}

/// A run with too small a budget for a step chain stops short.
pub proof fn lemma_advances_run_short(
    code: Seq<Instruction>,
    m0: MachineView,
    m1: MachineView,
    n: nat,
    fuel: nat,
)
    requires
        advances(code, m0, m1, n),
        fuel < n,
    ensures
        run_spec(code, m0, fuel) is Stopped,
    decreases n,
{
    if fuel == 0 {
    } else {
        match step_spec(code, m0) {
            StepView::Going { next } => {
                lemma_advances_run_short(code, next, m1, (n - 1) as nat, (fuel - 1) as nat);
            },
            StepView::Done { .. } => {},
            StepView::Failed { .. } => {},
        }
    }
}

/// A sub-window of a window of `code` is itself a window of `code`.
proof fn lemma_window_split(
    code: Seq<Instruction>,
    p: int,
    c: Seq<Instruction>,
    q: int,
    d: Seq<Instruction>,
)
    requires
        0 <= p,
        p + c.len() <= code.len(),
        code.subrange(p, p + c.len()) == c,
        p <= q,
        (q - p) + d.len() <= c.len(),
        c.subrange(q - p, q - p + d.len()) == d,
    ensures
        code.subrange(q, q + d.len()) == d,
{
    assert(code.subrange(q, q + d.len()) =~= d);
}

/// How executing one compiled expression window turns out: it pushes exactly
/// one value (with whatever output the evaluation emitted), or it reaches a
/// failing state.
pub enum SegmentRun {
    Pushes { steps: nat, value: Val, out: Seq<Seq<char>> },
    Fails { steps: nat, at: MachineView },
}

/// How executing a compiled row of expressions turns out.
pub enum RowRun {
    Pushes { steps: nat, values: Seq<Val>, out: Seq<Seq<char>> },
    Fails { steps: nat, at: MachineView },
}

/// Executing the compiled code of one expression, standing as a window of
/// `code` at the machine's program counter, either pushes exactly one value
/// — the scope, the block stack and the rest of the operand stack untouched
/// — or reaches a failing state. This is the expression half of the stack
/// discipline: expression code leaves exactly one extra value.
#[verifier::rlimit(100)]
pub proof fn lemma_expr_segment(
    e: Expression,
    code: Seq<Instruction>,
    p: int,
    m: MachineView,
) -> (r: SegmentRun)
    requires
        compile_expr_spec(e) is Ok,
        0 <= p,
        p + compile_expr_spec(e)->Ok_0.len() <= code.len(),
        code.subrange(p, p + compile_expr_spec(e)->Ok_0.len()) == compile_expr_spec(e)->Ok_0,
        m.pc == p,
    ensures
        match r {
            SegmentRun::Pushes { steps, value, out } => advances(
                code,
                m,
                MachineView {
                    stack: m.stack.push(value),
                    pc: (p + compile_expr_spec(e)->Ok_0.len()) as nat,
                    output: out,
                    ..m
                },
                steps,
            ),
            SegmentRun::Fails { steps, at } => advances(code, m, at, steps) && at.pc < code.len()
                && step_spec(code, at) is Failed,
        },
    decreases e,
{
    reveal_with_fuel(advances, 3);
    let c = compile_expr_spec(e)->Ok_0;
    match e {
        Expression::Number { value } => {
            assert(code[p] == c[0]) by {
                assert(code.subrange(p, p + 1)[0] == code[p]);
            }
            let target = MachineView {
                stack: m.stack.push(Val::IntV { n: value }),
                pc: (p + 1) as nat,
                output: m.output,
                ..m
            };
            assert(step_spec(code, m) == StepView::Going { next: target }) by {
                assert((MachineView {
                    stack: m.stack.push(Val::IntV { n: value }),
                    pc: m.pc + 1,
                    ..m
                }) =~= target);
            }
            SegmentRun::Pushes { steps: 1, value: Val::IntV { n: value }, out: m.output }
        },
        Expression::True => {
            assert(code[p] == c[0]) by {
                assert(code.subrange(p, p + 1)[0] == code[p]);
            }
            let target = MachineView {
                stack: m.stack.push(Val::IntV { n: 1 }),
                pc: (p + 1) as nat,
                output: m.output,
                ..m
            };
            assert(step_spec(code, m) == StepView::Going { next: target }) by {
                assert((MachineView { stack: m.stack.push(Val::IntV { n: 1 }), pc: m.pc + 1, ..m })
                    =~= target);
            }
            SegmentRun::Pushes { steps: 1, value: Val::IntV { n: 1 }, out: m.output }
        },
        Expression::False => {
            assert(code[p] == c[0]) by {
                assert(code.subrange(p, p + 1)[0] == code[p]);
            }
            let target = MachineView {
                stack: m.stack.push(Val::IntV { n: 0 }),
                pc: (p + 1) as nat,
                output: m.output,
                ..m
            };
            assert(step_spec(code, m) == StepView::Going { next: target }) by {
                assert((MachineView { stack: m.stack.push(Val::IntV { n: 0 }), pc: m.pc + 1, ..m })
                    =~= target);
            }
            SegmentRun::Pushes { steps: 1, value: Val::IntV { n: 0 }, out: m.output }
        },
        Expression::NoneLiteral => {
            assert(code[p] == c[0]) by {
                assert(code.subrange(p, p + 1)[0] == code[p]);
            }
            let target = MachineView {
                stack: m.stack.push(Val::IntV { n: 0 }),
                pc: (p + 1) as nat,
                output: m.output,
                ..m
            };
            assert(step_spec(code, m) == StepView::Going { next: target }) by {
                assert((MachineView { stack: m.stack.push(Val::IntV { n: 0 }), pc: m.pc + 1, ..m })
                    =~= target);
            }
            SegmentRun::Pushes { steps: 1, value: Val::IntV { n: 0 }, out: m.output }
        },
        Expression::String { value } => {
            assert(code[p] == c[0]) by {
                assert(code.subrange(p, p + 1)[0] == code[p]);
            }
            let target = MachineView {
                stack: m.stack.push(Val::StrV { s: value@ }),
                pc: (p + 1) as nat,
                output: m.output,
                ..m
            };
            assert(step_spec(code, m) == StepView::Going { next: target }) by {
                assert((MachineView { stack: m.stack.push(Val::StrV { s: value@ }), pc: m.pc + 1, ..m })
                    =~= target);
            }
            SegmentRun::Pushes { steps: 1, value: Val::StrV { s: value@ }, out: m.output }
        },
        Expression::Identifier { name } => {
            assert(code[p] == c[0]) by {
                assert(code.subrange(p, p + 1)[0] == code[p]);
            }
            if m.scope.contains_key(name@) {
                let target = MachineView {
                    stack: m.stack.push(m.scope[name@]),
                    pc: (p + 1) as nat,
                    output: m.output,
                    ..m
                };
                assert(step_spec(code, m) == StepView::Going { next: target }) by {
                    assert((MachineView {
                        stack: m.stack.push(m.scope[name@]),
                        pc: m.pc + 1,
                        ..m
                    }) =~= target);
                }
                SegmentRun::Pushes { steps: 1, value: m.scope[name@], out: m.output }
            } else {
                assert(step_spec(code, m) is Failed);
                SegmentRun::Fails { steps: 0, at: m }
            }
        },
        Expression::Binop { a, op, b } => {
            let ca = compile_expr_spec(*a)->Ok_0;
            let cb = compile_expr_spec(*b)->Ok_0;
            assert(c == ca + cb + seq![Instruction::BinaryOperation { op: op_code(op) }]);
            assert(c.subrange(0, ca.len() as int) =~= ca);
            lemma_window_split(code, p, c, p, ca);
            let r1 = lemma_expr_segment(*a, code, p, m);
            match r1 {
                SegmentRun::Fails { steps, at } => SegmentRun::Fails { steps, at },
                SegmentRun::Pushes { steps: n1, value: va, out: out1 } => {
                    let m1 = MachineView {
                        stack: m.stack.push(va),
                        pc: (p + ca.len()) as nat,
                        output: out1,
                        ..m
                    };
                    assert(c.subrange(ca.len() as int, (ca.len() + cb.len()) as int) =~= cb);
                    lemma_window_split(code, p, c, p + ca.len(), cb);
                    let r2 = lemma_expr_segment(*b, code, p + ca.len(), m1);
                    match r2 {
                        SegmentRun::Fails { steps: n2, at } => {
                            lemma_advances_trans(code, m, m1, at, n1, n2);
                            SegmentRun::Fails { steps: n1 + n2, at }
                        },
                        SegmentRun::Pushes { steps: n2, value: vb, out: out2 } => {
                            let m2 = MachineView {
                                stack: m1.stack.push(vb),
                                pc: (p + ca.len() + cb.len()) as nat,
                                output: out2,
                                ..m1
                            };
                            lemma_advances_trans(code, m, m1, m2, n1, n2);
                            let q = p + ca.len() + cb.len();
                            assert(code[q] == (Instruction::BinaryOperation { op: op_code(op) }))
                                by {
                                assert(code.subrange(p, p + c.len())[q - p] == code[q]);
                                assert(c[q - p] == (Instruction::BinaryOperation {
                                    op: op_code(op),
                                }));
                            }
                            let len2 = m2.stack.len() as int;
                            assert(m2.stack[len2 - 2] == va && m2.stack[len2 - 1] == vb);
                            match binop_spec(op_code(op), va, vb) {
                                Ok(v) => {
                                    let target = MachineView {
                                        stack: m.stack.push(v),
                                        pc: (p + c.len()) as nat,
                                        output: out2,
                                        ..m
                                    };
                                    assert(step_spec(code, m2) == StepView::Going { next: target })
                                        by {
                                        assert(m2.stack.take(len2 - 2) =~= m.stack);
                                        assert((MachineView {
                                            stack: m2.stack.take(len2 - 2).push(v),
                                            pc: m2.pc + 1,
                                            ..m2
                                        }) =~= target);
                                    }
                                    lemma_advances_trans(code, m, m2, target, n1 + n2, 1);
                                    SegmentRun::Pushes { steps: n1 + n2 + 1, value: v, out: out2 }
                                },
                                Err(_) => {
                                    assert(step_spec(code, m2) is Failed);
                                    SegmentRun::Fails { steps: n1 + n2, at: m2 }
                                },
                            }
                        },
                    }
                },
            }
        },
        Expression::Call { function, args } => {
            vstd::std_specs::vec::axiom_spec_len(&args);
            let cf = compile_expr_spec(*function)->Ok_0;
            let cargs = compile_exprs_spec(args@)->Ok_0;
            let k = args@.len() as int;
            assert(c == cf + cargs + seq![Instruction::CallFunction { count: k as usize }]);
            assert(c.subrange(0, cf.len() as int) =~= cf);
            lemma_window_split(code, p, c, p, cf);
            let r1 = lemma_expr_segment(*function, code, p, m);
            match r1 {
                SegmentRun::Fails { steps, at } => SegmentRun::Fails { steps, at },
                SegmentRun::Pushes { steps: n1, value: vf, out: out1 } => {
                    let m1 = MachineView {
                        stack: m.stack.push(vf),
                        pc: (p + cf.len()) as nat,
                        output: out1,
                        ..m
                    };
                    assert(c.subrange(cf.len() as int, (cf.len() + cargs.len()) as int) =~= cargs);
                    lemma_window_split(code, p, c, p + cf.len(), cargs);
                    let r2 = lemma_exprs_segment(args@, code, p + cf.len(), m1);
                    match r2 {
                        RowRun::Fails { steps: n2, at } => {
                            lemma_advances_trans(code, m, m1, at, n1, n2);
                            SegmentRun::Fails { steps: n1 + n2, at }
                        },
                        RowRun::Pushes { steps: n2, values, out: out2 } => {
                            let m2 = MachineView {
                                stack: m1.stack + values,
                                pc: (p + cf.len() + cargs.len()) as nat,
                                output: out2,
                                ..m1
                            };
                            lemma_advances_trans(code, m, m1, m2, n1, n2);
                            let q = p + cf.len() + cargs.len();
                            assert(code[q] == (Instruction::CallFunction { count: k as usize }))
                                by {
                                assert(code.subrange(p, p + c.len())[q - p] == code[q]);
                                assert(c[q - p] == (Instruction::CallFunction {
                                    count: k as usize,
                                }));
                            }
                            let len2 = m2.stack.len() as int;
                            assert(len2 == m.stack.len() + 1 + k);
                            assert(m2.stack[len2 - k - 1] == vf) by {
                                assert(m2.stack[m.stack.len() as int] == vf);
                            }
                            assert(m2.stack.subrange(len2 - k, len2) =~= values);
                            match crate::pyobject::call_spec(vf, values) {
                                Ok(effect) => {
                                    let target = MachineView {
                                        stack: m.stack.push(effect.value),
                                        pc: (p + c.len()) as nat,
                                        output: out2 + effect.lines,
                                        ..m
                                    };
                                    assert(step_spec(code, m2) == StepView::Going { next: target })
                                        by {
                                        assert(m2.stack.take(len2 - k - 1) =~= m.stack);
                                        assert((MachineView {
                                            stack: m2.stack.take(len2 - k - 1).push(effect.value),
                                            output: m2.output + effect.lines,
                                            pc: m2.pc + 1,
                                            ..m2
                                        }) =~= target);
                                    }
                                    lemma_advances_trans(code, m, m2, target, n1 + n2, 1);
                                    SegmentRun::Pushes {
                                        steps: n1 + n2 + 1,
                                        value: effect.value,
                                        out: out2 + effect.lines,
                                    }
                                },
                                Err(_) => {
                                    assert(step_spec(code, m2) is Failed);
                                    SegmentRun::Fails { steps: n1 + n2, at: m2 }
                                },
                            }
                        },
                    }
                },
            }
        },
        Expression::List { elements } => {
            vstd::std_specs::vec::axiom_spec_len(&elements);
            let ce = compile_exprs_spec(elements@)->Ok_0;
            let k = elements@.len() as int;
            assert(c == ce + seq![Instruction::BuildList { size: k as usize }]);
            assert(c.subrange(0, ce.len() as int) =~= ce);
            lemma_window_split(code, p, c, p, ce);
            let r1 = lemma_exprs_segment(elements@, code, p, m);
            match r1 {
                RowRun::Fails { steps, at } => SegmentRun::Fails { steps, at },
                RowRun::Pushes { steps: n1, values, out: out1 } => {
                    let m1 = MachineView {
                        stack: m.stack + values,
                        pc: (p + ce.len()) as nat,
                        output: out1,
                        ..m
                    };
                    let q = p + ce.len();
                    assert(code[q] == (Instruction::BuildList { size: k as usize })) by {
                        assert(code.subrange(p, p + c.len())[q - p] == code[q]);
                        assert(c[q - p] == (Instruction::BuildList { size: k as usize }));
                    }
                    let len1 = m1.stack.len() as int;
                    assert(len1 == m.stack.len() + k);
                    assert(m1.stack.subrange(len1 - k, len1) =~= values);
                    let built = Val::ListV { elems: values };
                    let target = MachineView {
                        stack: m.stack.push(built),
                        pc: (p + c.len()) as nat,
                        output: out1,
                        ..m
                    };
                    assert(step_spec(code, m1) == StepView::Going { next: target }) by {
                        assert(m1.stack.take(len1 - k) =~= m.stack);
                        assert((MachineView {
                            stack: m1.stack.take(len1 - k).push(
                                Val::ListV { elems: m1.stack.subrange(len1 - k, len1) },
                            ),
                            pc: m1.pc + 1,
                            ..m1
                        }) =~= target);
                    }
                    lemma_advances_trans(code, m, m1, target, n1, 1);
                    SegmentRun::Pushes { steps: n1 + 1, value: built, out: out1 }
                },
            }
        },
        Expression::Tuple { elements } => {
            vstd::std_specs::vec::axiom_spec_len(&elements);
            let ce = compile_exprs_spec(elements@)->Ok_0;
            let k = elements@.len() as int;
            assert(c == ce + seq![Instruction::BuildTuple { size: k as usize }]);
            assert(c.subrange(0, ce.len() as int) =~= ce);
            lemma_window_split(code, p, c, p, ce);
            let r1 = lemma_exprs_segment(elements@, code, p, m);
            match r1 {
                RowRun::Fails { steps, at } => SegmentRun::Fails { steps, at },
                RowRun::Pushes { steps: n1, values, out: out1 } => {
                    let m1 = MachineView {
                        stack: m.stack + values,
                        pc: (p + ce.len()) as nat,
                        output: out1,
                        ..m
                    };
                    let q = p + ce.len();
                    assert(code[q] == (Instruction::BuildTuple { size: k as usize })) by {
                        assert(code.subrange(p, p + c.len())[q - p] == code[q]);
                        assert(c[q - p] == (Instruction::BuildTuple { size: k as usize }));
                    }
                    let len1 = m1.stack.len() as int;
                    assert(len1 == m.stack.len() + k);
                    assert(m1.stack.subrange(len1 - k, len1) =~= values);
                    let built = Val::TupleV { elems: values };
                    let target = MachineView {
                        stack: m.stack.push(built),
                        pc: (p + c.len()) as nat,
                        output: out1,
                        ..m
                    };
                    assert(step_spec(code, m1) == StepView::Going { next: target }) by {
                        assert(m1.stack.take(len1 - k) =~= m.stack);
                        assert((MachineView {
                            stack: m1.stack.take(len1 - k).push(
                                Val::TupleV { elems: m1.stack.subrange(len1 - k, len1) },
                            ),
                            pc: m1.pc + 1,
                            ..m1
                        }) =~= target);
                    }
                    lemma_advances_trans(code, m, m1, target, n1, 1);
                    SegmentRun::Pushes { steps: n1 + 1, value: built, out: out1 }
                },
            }
        },
    }
}

/// Executing a compiled row of expressions pushes exactly one value per
/// expression, in order, or reaches a failing state.
pub proof fn lemma_exprs_segment(
    es: Seq<Expression>,
    code: Seq<Instruction>,
    p: int,
    m: MachineView,
) -> (r: RowRun)
    requires
        compile_exprs_spec(es) is Ok,
        0 <= p,
        p + compile_exprs_spec(es)->Ok_0.len() <= code.len(),
        code.subrange(p, p + compile_exprs_spec(es)->Ok_0.len()) == compile_exprs_spec(es)->Ok_0,
        m.pc == p,
    ensures
        match r {
            RowRun::Pushes { steps, values, out } => values.len() == es.len() && advances(
                code,
                m,
                MachineView {
                    stack: m.stack + values,
                    pc: (p + compile_exprs_spec(es)->Ok_0.len()) as nat,
                    output: out,
                    ..m
                },
                steps,
            ),
            RowRun::Fails { steps, at } => advances(code, m, at, steps) && at.pc < code.len()
                && step_spec(code, at) is Failed,
        },
    decreases es,
{
    reveal_with_fuel(advances, 3);
    let c = compile_exprs_spec(es)->Ok_0;
    if es.len() == 0 {
        assert(m.stack + Seq::<Val>::empty() =~= m.stack);
        assert((MachineView {
            stack: m.stack + Seq::<Val>::empty(),
            pc: (p + 0) as nat,
            output: m.output,
            ..m
        }) =~= m);
        RowRun::Pushes { steps: 0, values: Seq::<Val>::empty(), out: m.output }
    } else {
        let c0 = compile_expr_spec(es[0])->Ok_0;
        let rest = es.subrange(1, es.len() as int);
        let crest = compile_exprs_spec(rest)->Ok_0;
        assert(c == c0 + crest);
        assert(c.subrange(0, c0.len() as int) =~= c0);
        lemma_window_split(code, p, c, p, c0);
        let r1 = lemma_expr_segment(es[0], code, p, m);
        match r1 {
            SegmentRun::Fails { steps, at } => RowRun::Fails { steps, at },
            SegmentRun::Pushes { steps: n1, value: v0, out: out1 } => {
                let m1 = MachineView {
                    stack: m.stack.push(v0),
                    pc: (p + c0.len()) as nat,
                    output: out1,
                    ..m
                };
                assert(c.subrange(c0.len() as int, (c0.len() + crest.len()) as int) =~= crest);
                lemma_window_split(code, p, c, p + c0.len(), crest);
                let r2 = lemma_exprs_segment(rest, code, p + c0.len(), m1);
                match r2 {
                    RowRun::Fails { steps: n2, at } => {
                        lemma_advances_trans(code, m, m1, at, n1, n2);
                        RowRun::Fails { steps: n1 + n2, at }
                    },
                    RowRun::Pushes { steps: n2, values: vrest, out: out2 } => {
                        let values = seq![v0] + vrest;
                        lemma_advances_trans(
                            code,
                            m,
                            m1,
                            MachineView {
                                stack: m1.stack + vrest,
                                pc: (p + c0.len() + crest.len()) as nat,
                                output: out2,
                                ..m1
                            },
                            n1,
                            n2,
                        );
                        assert(m1.stack + vrest =~= m.stack + values);
                        assert((MachineView {
                            stack: m1.stack + vrest,
                            pc: (p + c0.len() + crest.len()) as nat,
                            output: out2,
                            ..m1
                        }) =~= (MachineView {
                            stack: m.stack + values,
                            pc: (p + c.len()) as nat,
                            output: out2,
                            ..m
                        }));
                        RowRun::Pushes { steps: n1 + n2, values, out: out2 }
                    },
                }
            },
        }
    }
}

/// Whether a statement contains no loop: the stack-balance law below covers
/// the loop-free fragment, where every execution path runs straight through.
pub open spec fn loop_free_stmt(s: Statement) -> bool
    decreases s,
{
    match s {
        Statement::While { .. } => false,
        Statement::For { .. } => false,
        Statement::If { test: _, body } => loop_free_stmts(body@),
        Statement::FunctionDef { name: _, body } => loop_free_stmts(body@),
        _ => true,
    }
}

/// Whether every statement of a row is loop-free.
pub open spec fn loop_free_stmts(ss: Seq<Statement>) -> bool
    decreases ss,
{
    if ss.len() == 0 {
        true
    } else {
        loop_free_stmt(ss[0]) && loop_free_stmts(ss.subrange(1, ss.len() as int))
    }
}

/// Executing the stores of the targets after an assignment's first: the
/// stack and output are untouched (each reload is immediately re-bound) and
/// only the scope changes. These stores never fail: every reloaded name was
/// bound one instruction earlier.
proof fn lemma_store_rest_segment(
    ts: Seq<Expression>,
    prev: String,
    code: Seq<Instruction>,
    p: int,
    m: MachineView,
) -> (r: (nat, Map<Seq<char>, Val>))
    requires
        store_rest_spec(ts, prev) is Ok,
        0 <= p,
        p + store_rest_spec(ts, prev)->Ok_0.len() <= code.len(),
        code.subrange(p, p + store_rest_spec(ts, prev)->Ok_0.len()) == store_rest_spec(
            ts,
            prev,
        )->Ok_0,
        m.pc == p,
        m.scope.contains_key(prev@),
    ensures
        advances(
            code,
            m,
            MachineView {
                scope: r.1,
                pc: (p + store_rest_spec(ts, prev)->Ok_0.len()) as nat,
                ..m
            },
            r.0,
        ),
    decreases ts,
{
    reveal_with_fuel(advances, 3);
    let c = store_rest_spec(ts, prev)->Ok_0;
    if ts.len() == 0 {
        assert((MachineView { scope: m.scope, pc: (p + 0) as nat, ..m }) =~= m);
        (0, m.scope)
    } else {
        let name = ts[0]->Identifier_name;
        let rest = ts.subrange(1, ts.len() as int);
        let crest = store_rest_spec(rest, name)->Ok_0;
        assert(c == seq![
            Instruction::LoadName { name: prev },
            Instruction::StoreName { name },
        ] + crest);
        assert(code[p] == (Instruction::LoadName { name: prev })) by {
            assert(code.subrange(p, p + c.len())[0] == code[p]);
        }
        assert(code[p + 1] == (Instruction::StoreName { name })) by {
            assert(code.subrange(p, p + c.len())[1] == code[p + 1]);
        }
        let m1 = MachineView { stack: m.stack.push(m.scope[prev@]), pc: (p + 1) as nat, ..m };
        assert(step_spec(code, m) == StepView::Going { next: m1 }) by {
            assert((MachineView { stack: m.stack.push(m.scope[prev@]), pc: m.pc + 1, ..m })
                =~= m1);
        }
        let m2 = MachineView {
            scope: m.scope.insert(name@, m.scope[prev@]),
            pc: (p + 2) as nat,
            ..m
        };
        assert(step_spec(code, m1) == StepView::Going { next: m2 }) by {
            assert(m1.stack.drop_last() =~= m.stack);
            assert((MachineView {
                stack: m1.stack.drop_last(),
                scope: m1.scope.insert(name@, m1.stack.last()),
                pc: m1.pc + 1,
                ..m1
            }) =~= m2);
        }
        assert(advances(code, m, m2, 2));
        assert(c.subrange(2, (2 + crest.len()) as int) =~= crest);
        lemma_window_split(code, p, c, p + 2, crest);
        let rec = lemma_store_rest_segment(rest, name, code, p + 2, m2);
        lemma_advances_trans(
            code,
            m,
            m2,
            MachineView { scope: rec.1, pc: (p + 2 + crest.len()) as nat, ..m2 },
            2,
            rec.0,
        );
        assert((MachineView { scope: rec.1, pc: (p + 2 + crest.len()) as nat, ..m2 }) =~= (
        MachineView { scope: rec.1, pc: (p + c.len()) as nat, ..m }));
        (2 + rec.0, rec.1)
    }
}

/// Executing an assignment's stores consumes exactly the one computed value
/// and only rebinds names; these stores never fail.
proof fn lemma_store_targets_segment(
    ts: Seq<Expression>,
    code: Seq<Instruction>,
    p: int,
    m: MachineView,
) -> (r: (nat, Map<Seq<char>, Val>))
    requires
        store_targets_spec(ts) is Ok,
        0 <= p,
        p + store_targets_spec(ts)->Ok_0.len() <= code.len(),
        code.subrange(p, p + store_targets_spec(ts)->Ok_0.len()) == store_targets_spec(ts)->Ok_0,
        m.pc == p,
        m.stack.len() >= 1,
    ensures
        advances(
            code,
            m,
            MachineView {
                stack: m.stack.drop_last(),
                scope: r.1,
                pc: (p + store_targets_spec(ts)->Ok_0.len()) as nat,
                ..m
            },
            r.0,
        ),
    decreases ts,
{
    reveal_with_fuel(advances, 3);
    let c = store_targets_spec(ts)->Ok_0;
    let name = ts[0]->Identifier_name;
    let rest = ts.subrange(1, ts.len() as int);
    let crest = store_rest_spec(rest, name)->Ok_0;
    assert(c == seq![Instruction::StoreName { name }] + crest);
    assert(code[p] == (Instruction::StoreName { name })) by {
        assert(code.subrange(p, p + c.len())[0] == code[p]);
    }
    let m1 = MachineView {
        stack: m.stack.drop_last(),
        scope: m.scope.insert(name@, m.stack.last()),
        pc: (p + 1) as nat,
        ..m
    };
    assert(step_spec(code, m) == StepView::Going { next: m1 }) by {
        assert((MachineView {
            stack: m.stack.drop_last(),
            scope: m.scope.insert(name@, m.stack.last()),
            pc: m.pc + 1,
            ..m
        }) =~= m1);
    }
    assert(advances(code, m, m1, 1));
    assert(c.subrange(1, (1 + crest.len()) as int) =~= crest);
    lemma_window_split(code, p, c, p + 1, crest);
    let rec = lemma_store_rest_segment(rest, name, code, p + 1, m1);
    lemma_advances_trans(
        code,
        m,
        m1,
        MachineView { scope: rec.1, pc: (p + 1 + crest.len()) as nat, ..m1 },
        1,
        rec.0,
    );
    assert((MachineView { scope: rec.1, pc: (p + 1 + crest.len()) as nat, ..m1 }) =~= (
    MachineView {
        stack: m.stack.drop_last(),
        scope: rec.1,
        pc: (p + c.len()) as nat,
        ..m
    }));
    (1 + rec.0, rec.1)
}

/// How executing one compiled loop-free statement turns out: it completes
/// with the operand and block stacks exactly as deep as before, halts the
/// machine at a `return` with the stacks equally balanced, or reaches a
/// failing state.
pub enum StmtRun {
    Completes { steps: nat, scope: Map<Seq<char>, Val>, out: Seq<Seq<char>> },
    Halts { steps: nat, before: MachineView },
    Fails { steps: nat, at: MachineView },
}

/// What a statement run guarantees, relative to the window `[p, p + n)`.
pub open spec fn stmt_run_ok(
    r: StmtRun,
    code: Seq<Instruction>,
    p: int,
    n: int,
    m: MachineView,
) -> bool {
    match r {
        StmtRun::Completes { steps, scope, out } => advances(
            code,
            m,
            MachineView { scope, output: out, pc: (p + n) as nat, ..m },
            steps,
        ),
        StmtRun::Halts { steps, before } => advances(code, m, before, steps) && before.pc
            < code.len() && (step_spec(code, before) matches StepView::Done { result, machine }
            && machine.stack == m.stack && machine.blocks == m.blocks),
        StmtRun::Fails { steps, at } => advances(code, m, at, steps) && at.pc < code.len()
            && step_spec(code, at) is Failed,
    }
}

/// Compiling then executing any loop-free statement leaves the operand stack
/// exactly as deep as before it: expression statements push then pop their
/// one value, assignments consume exactly what they computed, a conditional
/// discards its test, and a `return` hands the machine exactly one value,
/// popped as execution halts.
#[verifier::rlimit(100)]
pub proof fn lemma_stmt_segment(
    s: Statement,
    code: Seq<Instruction>,
    p: int,
    m: MachineView,
) -> (r: StmtRun)
    requires
        loop_free_stmt(s),
        compile_stmt_spec(s, p, false) is Ok,
        code.len() <= usize::MAX,
        0 <= p,
        p + compile_stmt_spec(s, p, false)->Ok_0.len() <= code.len(),
        code.subrange(p, p + compile_stmt_spec(s, p, false)->Ok_0.len()) == compile_stmt_spec(
            s,
            p,
            false,
        )->Ok_0,
        m.pc == p,
    ensures
        stmt_run_ok(r, code, p, compile_stmt_spec(s, p, false)->Ok_0.len() as int, m),
    decreases s,
{
    reveal_with_fuel(advances, 3);
    let c = compile_stmt_spec(s, p, false)->Ok_0;
    match s {
        Statement::Pass => {
            assert(code[p] == Instruction::Pass) by {
                assert(code.subrange(p, p + 1)[0] == code[p]);
            }
            let target = MachineView {
                scope: m.scope,
                output: m.output,
                pc: (p + 1) as nat,
                ..m
            };
            assert(step_spec(code, m) == StepView::Going { next: target }) by {
                assert((MachineView { pc: m.pc + 1, ..m }) =~= target);
            }
            StmtRun::Completes { steps: 1, scope: m.scope, out: m.output }
        },
        Statement::Expression { expression } => {
            let ce = compile_expr_spec(expression)->Ok_0;
            assert(c == ce + seq![Instruction::Pop]);
            assert(c.subrange(0, ce.len() as int) =~= ce);
            lemma_window_split(code, p, c, p, ce);
            let r1 = lemma_expr_segment(expression, code, p, m);
            match r1 {
                SegmentRun::Fails { steps, at } => StmtRun::Fails { steps, at },
                SegmentRun::Pushes { steps: n1, value: v, out: out1 } => {
                    let m1 = MachineView {
                        stack: m.stack.push(v),
                        pc: (p + ce.len()) as nat,
                        output: out1,
                        ..m
                    };
                    let q = p + ce.len();
                    assert(code[q] == Instruction::Pop) by {
                        assert(code.subrange(p, p + c.len())[q - p] == code[q]);
                        assert(c[q - p] == Instruction::Pop);
                    }
                    let target = MachineView {
                        scope: m.scope,
                        output: out1,
                        pc: (p + c.len()) as nat,
                        ..m
                    };
                    assert(step_spec(code, m1) == StepView::Going { next: target }) by {
                        assert(m1.stack.drop_last() =~= m.stack);
                        assert((MachineView { stack: m1.stack.drop_last(), pc: m1.pc + 1, ..m1 })
                            =~= target);
                    }
                    lemma_advances_trans(code, m, m1, target, n1, 1);
                    StmtRun::Completes { steps: n1 + 1, scope: m.scope, out: out1 }
                },
            }
        },
        Statement::Assign { targets, value } => {
            let cv = compile_expr_spec(value)->Ok_0;
            let st = store_targets_spec(targets@)->Ok_0;
            assert(c == cv + st);
            assert(c.subrange(0, cv.len() as int) =~= cv);
            lemma_window_split(code, p, c, p, cv);
            let r1 = lemma_expr_segment(value, code, p, m);
            match r1 {
                SegmentRun::Fails { steps, at } => StmtRun::Fails { steps, at },
                SegmentRun::Pushes { steps: n1, value: v, out: out1 } => {
                    let m1 = MachineView {
                        stack: m.stack.push(v),
                        pc: (p + cv.len()) as nat,
                        output: out1,
                        ..m
                    };
                    assert(c.subrange(cv.len() as int, (cv.len() + st.len()) as int) =~= st);
                    lemma_window_split(code, p, c, p + cv.len(), st);
                    let rec = lemma_store_targets_segment(targets@, code, p + cv.len(), m1);
                    lemma_advances_trans(
                        code,
                        m,
                        m1,
                        MachineView {
                            stack: m1.stack.drop_last(),
                            scope: rec.1,
                            pc: (p + cv.len() + st.len()) as nat,
                            ..m1
                        },
                        n1,
                        rec.0,
                    );
                    assert((MachineView {
                        stack: m1.stack.drop_last(),
                        scope: rec.1,
                        pc: (p + cv.len() + st.len()) as nat,
                        ..m1
                    }) =~= (MachineView {
                        scope: rec.1,
                        output: out1,
                        pc: (p + c.len()) as nat,
                        ..m
                    })) by {
                        assert(m1.stack.drop_last() =~= m.stack);
                    }
                    StmtRun::Completes { steps: n1 + rec.0, scope: rec.1, out: out1 }
                },
            }
        },
        Statement::Return { value } => {
            if value@.len() == 0 {
                assert(c == seq![Instruction::LoadNone, Instruction::ReturnValue]);
                assert(code[p] == Instruction::LoadNone) by {
                    assert(code.subrange(p, p + 2)[0] == code[p]);
                }
                assert(code[p + 1] == Instruction::ReturnValue) by {
                    assert(code.subrange(p, p + 2)[1] == code[p + 1]);
                }
                let before = MachineView {
                    stack: m.stack.push(Val::NoneV),
                    pc: (p + 1) as nat,
                    ..m
                };
                assert(step_spec(code, m) == StepView::Going { next: before }) by {
                    assert((MachineView { stack: m.stack.push(Val::NoneV), pc: m.pc + 1, ..m })
                        =~= before);
                }
                assert(advances(code, m, before, 1));
                assert(step_spec(code, before) matches StepView::Done { result, machine }
                    && machine.stack == m.stack && machine.blocks == m.blocks) by {
                    assert(before.stack.drop_last() =~= m.stack);
                }
                StmtRun::Halts { steps: 1, before }
            } else {
                vstd::std_specs::vec::axiom_spec_len(&value);
                let cv = compile_exprs_spec(value@)->Ok_0;
                let k = value@.len() as int;
                let packed = if k > 1 {
                    seq![Instruction::BuildTuple { size: k as usize }]
                } else {
                    Seq::<Instruction>::empty()
                };
                assert(c == cv + packed + seq![Instruction::ReturnValue]);
                assert(c.subrange(0, cv.len() as int) =~= cv);
                lemma_window_split(code, p, c, p, cv);
                let r1 = lemma_exprs_segment(value@, code, p, m);
                match r1 {
                    RowRun::Fails { steps, at } => StmtRun::Fails { steps, at },
                    RowRun::Pushes { steps: n1, values, out: out1 } => {
                        let m1 = MachineView {
                            stack: m.stack + values,
                            pc: (p + cv.len()) as nat,
                            output: out1,
                            ..m
                        };
                        if k > 1 {
                            let q = p + cv.len();
                            assert(code[q] == (Instruction::BuildTuple { size: k as usize }))
                                by {
                                assert(code.subrange(p, p + c.len())[q - p] == code[q]);
                                assert(c[q - p] == (Instruction::BuildTuple {
                                    size: k as usize,
                                }));
                            }
                            let len1 = m1.stack.len() as int;
                            assert(len1 == m.stack.len() + k);
                            assert(m1.stack.subrange(len1 - k, len1) =~= values);
                            let m2 = MachineView {
                                stack: m.stack.push(Val::TupleV { elems: values }),
                                pc: (q + 1) as nat,
                                output: out1,
                                ..m
                            };
                            assert(step_spec(code, m1) == StepView::Going { next: m2 }) by {
                                assert(m1.stack.take(len1 - k) =~= m.stack);
                                assert((MachineView {
                                    stack: m1.stack.take(len1 - k).push(
                                        Val::TupleV {
                                            elems: m1.stack.subrange(len1 - k, len1),
                                        },
                                    ),
                                    pc: m1.pc + 1,
                                    ..m1
                                }) =~= m2);
                            }
                            lemma_advances_trans(code, m, m1, m2, n1, 1);
                            assert(code[q + 1] == Instruction::ReturnValue) by {
                                assert(code.subrange(p, p + c.len())[q + 1 - p] == code[q + 1]);
                                assert(c[q + 1 - p] == Instruction::ReturnValue);
                            }
                            assert(step_spec(code, m2) matches StepView::Done { result, machine }
                                && machine.stack == m.stack && machine.blocks == m.blocks) by {
                                assert(m2.stack.drop_last() =~= m.stack);
                            }
                            StmtRun::Halts { steps: n1 + 1, before: m2 }
                        } else {
                            assert(values.len() == 1);
                            assert(m1.stack =~= m.stack.push(values[0]));
                            let q = p + cv.len();
                            assert(code[q] == Instruction::ReturnValue) by {
                                assert(code.subrange(p, p + c.len())[q - p] == code[q]);
                                assert(c[q - p] == Instruction::ReturnValue);
                            }
                            assert(step_spec(code, m1) matches StepView::Done { result, machine }
                                && machine.stack == m.stack && machine.blocks == m.blocks) by {
                                assert(m1.stack.drop_last() =~= m.stack);
                            }
                            StmtRun::Halts { steps: n1, before: m1 }
                        }
                    },
                }
            }
        },
        Statement::If { test, body } => {
            let ct = compile_expr_spec(test)->Ok_0;
            let cb = compile_stmts_spec(body@, p + ct.len() + 1, false)->Ok_0;
            let jump = Instruction::JumpIfFalse {
                target: (p + ct.len() + 1 + cb.len()) as usize,
            };
            assert(c == ct + seq![jump] + cb);
            assert(c.subrange(0, ct.len() as int) =~= ct);
            lemma_window_split(code, p, c, p, ct);
            let r1 = lemma_expr_segment(test, code, p, m);
            match r1 {
                SegmentRun::Fails { steps, at } => StmtRun::Fails { steps, at },
                SegmentRun::Pushes { steps: n1, value: v, out: out1 } => {
                    let m1 = MachineView {
                        stack: m.stack.push(v),
                        pc: (p + ct.len()) as nat,
                        output: out1,
                        ..m
                    };
                    let q = p + ct.len();
                    assert(code[q] == jump) by {
                        assert(code.subrange(p, p + c.len())[q - p] == code[q]);
                        assert(c[q - p] == jump);
                    }
                    match v {
                        Val::IntV { n: tv } => {
                            if tv == 0 {
                                let target = MachineView {
                                    scope: m.scope,
                                    output: out1,
                                    pc: (p + c.len()) as nat,
                                    ..m
                                };
                                assert(step_spec(code, m1) == StepView::Going { next: target })
                                    by {
                                    assert(m1.stack.drop_last() =~= m.stack);
                                    assert((MachineView {
                                        stack: m1.stack.drop_last(),
                                        pc: (p + ct.len() + 1 + cb.len()) as nat,
                                        ..m1
                                    }) =~= target);
                                }
                                lemma_advances_trans(code, m, m1, target, n1, 1);
                                StmtRun::Completes { steps: n1 + 1, scope: m.scope, out: out1 }
                            } else {
                                let m2 = MachineView {
                                    output: out1,
                                    pc: (q + 1) as nat,
                                    ..m
                                };
                                assert(step_spec(code, m1) == StepView::Going { next: m2 }) by {
                                    assert(m1.stack.drop_last() =~= m.stack);
                                    assert((MachineView {
                                        stack: m1.stack.drop_last(),
                                        pc: m1.pc + 1,
                                        ..m1
                                    }) =~= m2);
                                }
                                lemma_advances_trans(code, m, m1, m2, n1, 1);
                                assert(c.subrange((ct.len() + 1) as int, c.len() as int) =~= cb);
                                lemma_window_split(code, p, c, q + 1, cb);
                                let r2 = lemma_stmts_segment(body@, code, q + 1, m2);
                                match r2 {
                                    StmtRun::Fails { steps: n2, at } => {
                                        lemma_advances_trans(code, m, m2, at, n1 + 1, n2);
                                        StmtRun::Fails { steps: n1 + 1 + n2, at }
                                    },
                                    StmtRun::Halts { steps: n2, before } => {
                                        lemma_advances_trans(code, m, m2, before, n1 + 1, n2);
                                        StmtRun::Halts { steps: n1 + 1 + n2, before }
                                    },
                                    StmtRun::Completes { steps: n2, scope: sc2, out: out2 } => {
                                        lemma_advances_trans(
                                            code,
                                            m,
                                            m2,
                                            MachineView {
                                                scope: sc2,
                                                output: out2,
                                                pc: (q + 1 + cb.len()) as nat,
                                                ..m2
                                            },
                                            n1 + 1,
                                            n2,
                                        );
                                        assert((MachineView {
                                            scope: sc2,
                                            output: out2,
                                            pc: (q + 1 + cb.len()) as nat,
                                            ..m2
                                        }) =~= (MachineView {
                                            scope: sc2,
                                            output: out2,
                                            pc: (p + c.len()) as nat,
                                            ..m
                                        }));
                                        StmtRun::Completes {
                                            steps: n1 + 1 + n2,
                                            scope: sc2,
                                            out: out2,
                                        }
                                    },
                                }
                            }
                        },
                        _ => {
                            assert(step_spec(code, m1) is Failed);
                            StmtRun::Fails { steps: n1, at: m1 }
                        },
                    }
                },
            }
        },
        Statement::FunctionDef { name: _, body } => {
            let r1 = lemma_stmts_segment(body@, code, p, m);
            r1
        },
        _ => arbitrary(),
    }
}

/// Compiling then executing a loop-free row of statements leaves the operand
/// stack exactly as deep as before the row.
pub proof fn lemma_stmts_segment(
    ss: Seq<Statement>,
    code: Seq<Instruction>,
    p: int,
    m: MachineView,
) -> (r: StmtRun)
    requires
        loop_free_stmts(ss),
        compile_stmts_spec(ss, p, false) is Ok,
        code.len() <= usize::MAX,
        0 <= p,
        p + compile_stmts_spec(ss, p, false)->Ok_0.len() <= code.len(),
        code.subrange(p, p + compile_stmts_spec(ss, p, false)->Ok_0.len())
            == compile_stmts_spec(ss, p, false)->Ok_0,
        m.pc == p,
    ensures
        stmt_run_ok(r, code, p, compile_stmts_spec(ss, p, false)->Ok_0.len() as int, m),
    decreases ss,
{
    reveal_with_fuel(advances, 3);
    let c = compile_stmts_spec(ss, p, false)->Ok_0;
    if ss.len() == 0 {
        assert((MachineView { scope: m.scope, output: m.output, pc: (p + 0) as nat, ..m })
            =~= m);
        StmtRun::Completes { steps: 0, scope: m.scope, out: m.output }
    } else {
        let c0 = compile_stmt_spec(ss[0], p, false)->Ok_0;
        let rest = ss.subrange(1, ss.len() as int);
        let crest = compile_stmts_spec(rest, p + c0.len(), false)->Ok_0;
        assert(c == c0 + crest);
        assert(c.subrange(0, c0.len() as int) =~= c0);
        lemma_window_split(code, p, c, p, c0);
        let r1 = lemma_stmt_segment(ss[0], code, p, m);
        match r1 {
            StmtRun::Fails { steps, at } => StmtRun::Fails { steps, at },
            StmtRun::Halts { steps, before } => StmtRun::Halts { steps, before },
            StmtRun::Completes { steps: n1, scope: sc1, out: out1 } => {
                let m1 = MachineView {
                    scope: sc1,
                    output: out1,
                    pc: (p + c0.len()) as nat,
                    ..m
                };
                assert(c.subrange(c0.len() as int, (c0.len() + crest.len()) as int) =~= crest);
                lemma_window_split(code, p, c, p + c0.len(), crest);
                let r2 = lemma_stmts_segment(rest, code, p + c0.len(), m1);
                match r2 {
                    StmtRun::Fails { steps: n2, at } => {
                        lemma_advances_trans(code, m, m1, at, n1, n2);
                        StmtRun::Fails { steps: n1 + n2, at }
                    },
                    StmtRun::Halts { steps: n2, before } => {
                        lemma_advances_trans(code, m, m1, before, n1, n2);
                        StmtRun::Halts { steps: n1 + n2, before }
                    },
                    StmtRun::Completes { steps: n2, scope: sc2, out: out2 } => {
                        lemma_advances_trans(
                            code,
                            m,
                            m1,
                            MachineView {
                                scope: sc2,
                                output: out2,
                                pc: (p + c0.len() + crest.len()) as nat,
                                ..m1
                            },
                            n1,
                            n2,
                        );
                        assert((MachineView {
                            scope: sc2,
                            output: out2,
                            pc: (p + c0.len() + crest.len()) as nat,
                            ..m1
                        }) =~= (MachineView {
                            scope: sc2,
                            output: out2,
                            pc: (p + c.len()) as nat,
                            ..m
                        }));
                        StmtRun::Completes { steps: n1 + n2, scope: sc2, out: out2 }
                    },
                }
            },
        }
    }
}

/// Stack balance for the loop-free fragment: however much budget a run is
/// given, whenever compiling then executing a loop-free program finishes,
/// the final operand stack is exactly as deep as it started — empty — and
/// the block stack too. Expression statements push then pop exactly one net
/// value; every other loop-free statement kind balances likewise.
pub proof fn lemma_stack_balance_loop_free(p: Program)
    requires
        loop_free_stmts(p.statements@),
        compile_program_spec(p) is Ok,
        compile_program_spec(p)->Ok_0.len() <= usize::MAX,
    ensures
        forall|fuel: nat|
            #[trigger] run_spec(compile_program_spec(p)->Ok_0, init_machine_view(), fuel)
                matches RunView::Finished { result, machine } ==> machine.stack.len() == 0
                && machine.blocks.len() == 0,
{
    let code = compile_program_spec(p)->Ok_0;
    let m0 = init_machine_view();
    assert(code.subrange(0, code.len() as int) =~= code);
    let r = lemma_stmts_segment(p.statements@, code, 0, m0);
    assert forall|fuel: nat|
        #![trigger run_spec(code, m0, fuel)]
        (run_spec(code, m0, fuel) matches RunView::Finished { result, machine }
            ==> machine.stack.len() == 0 && machine.blocks.len() == 0) by {
        match r {
            StmtRun::Completes { steps, scope, out } => {
                let target = MachineView { scope, output: out, pc: code.len() as nat, ..m0 };
                if fuel < steps {
                    lemma_advances_run_short(code, m0, target, steps, fuel);
                } else {
                    lemma_advances_run(code, m0, target, steps, fuel);
                }
            },
            StmtRun::Halts { steps, before } => {
                if fuel < steps {
                    lemma_advances_run_short(code, m0, before, steps, fuel);
                } else {
                    lemma_advances_run(code, m0, before, steps, fuel);
                }
            },
            StmtRun::Fails { steps, at } => {
                if fuel < steps {
                    lemma_advances_run_short(code, m0, at, steps, fuel);
                } else {
                    lemma_advances_run(code, m0, at, steps, fuel);
                }
            },
        }
    }
}

/// Whether `p` is the one-statement program `return x <op> y`.
pub open spec fn arith_return_program(p: Program, op: Operator, x: i32, y: i32) -> bool {
    &&& p.statements@.len() == 1
    &&& p.statements@[0] matches Statement::Return { value } && value@ == seq![
        (Expression::Binop {
            a: Box::new(Expression::Number { value: x }),
            op,
            b: Box::new(Expression::Number { value: y }),
        }),
    ]
}

/// What the host's wrapping arithmetic yields for the two integer operators.
pub open spec fn host_wrapping(op: Operator, x: i32, y: i32) -> i32 {
    if op == Operator::Add {
        vstd::wrapping::i32_specs::wrapping_add(x, y)
    } else {
        vstd::wrapping::i32_specs::wrapping_sub(x, y)
    }
}

/// For all machine integers `x` and `y`: the program `return x + y`
/// (respectively `return x - y`) compiles, and executing the compiled code
/// on a fresh machine finishes with exactly the host's wrapping sum
/// (respectively wrapping difference), leaving the machine otherwise as it
/// started. The overflow policy of the compiled-and-executed path is the
/// host's wrapping policy, for every input including the boundary values.
pub proof fn lemma_compiled_arith_matches_host(p: Program, op: Operator, x: i32, y: i32)
    requires
        arith_return_program(p, op, x, y),
        op == Operator::Add || op == Operator::Sub,
    ensures
        compile_program_spec(p) is Ok,
        run_spec(compile_program_spec(p)->Ok_0, init_machine_view(), STEP_BUDGET as nat) == (
        RunView::Finished {
            result: Val::IntV { n: host_wrapping(op, x, y) },
            machine: MachineView { pc: 3, ..init_machine_view() },
        }),
{
    let e = Expression::Binop {
        a: Box::new(Expression::Number { value: x }),
        op,
        b: Box::new(Expression::Number { value: y }),
    };
    let code = seq![
        Instruction::LoadConst { value: x },
        Instruction::LoadConst { value: y },
        Instruction::BinaryOperation { op: op_code(op) },
        Instruction::ReturnValue,
    ];
    assert(crate::compile::compile_expr_spec(Expression::Number { value: x })
        == Ok::<Seq<Instruction>, crate::errors::CompileError>(
        seq![Instruction::LoadConst { value: x }],
    ));
    assert(crate::compile::compile_expr_spec(Expression::Number { value: y })
        == Ok::<Seq<Instruction>, crate::errors::CompileError>(
        seq![Instruction::LoadConst { value: y }],
    ));
    assert(seq![Instruction::LoadConst { value: x }] + seq![Instruction::LoadConst { value: y }]
        + seq![Instruction::BinaryOperation { op: op_code(op) }] =~= code.take(3));
    assert(crate::compile::compile_expr_spec(e) == Ok::<
        Seq<Instruction>,
        crate::errors::CompileError,
    >(code.take(3)));
    let row = seq![e];
    assert(row.subrange(1, row.len() as int) =~= Seq::<Expression>::empty());
    assert(crate::compile::compile_exprs_spec(Seq::<Expression>::empty()) == Ok::<
        Seq<Instruction>,
        crate::errors::CompileError,
    >(Seq::<Instruction>::empty()));
    assert(code.take(3) + Seq::<Instruction>::empty() =~= code.take(3));
    assert(crate::compile::compile_exprs_spec(row) == Ok::<
        Seq<Instruction>,
        crate::errors::CompileError,
    >(code.take(3)));
    let stmt = p.statements@[0];
    assert(code.take(3) + Seq::<Instruction>::empty() + seq![Instruction::ReturnValue] =~= code);
    assert(crate::compile::compile_stmt_spec(stmt, 0, false) == Ok::<
        Seq<Instruction>,
        crate::errors::CompileError,
    >(code));
    assert(p.statements@.subrange(1, p.statements@.len() as int)
        =~= Seq::<Statement>::empty());
    assert(crate::compile::compile_stmts_spec(Seq::<Statement>::empty(), 4, false) == Ok::<
        Seq<Instruction>,
        crate::errors::CompileError,
    >(Seq::<Instruction>::empty()));
    assert(code + Seq::<Instruction>::empty() =~= code);
    assert(compile_program_spec(p) == Ok::<Seq<Instruction>, crate::errors::CompileError>(code));
    // Execution, one step at a time.
    let m0 = init_machine_view();
    let m1 = MachineView { stack: m0.stack.push(Val::IntV { n: x }), pc: 1, ..m0 };
    let m2 = MachineView { stack: m1.stack.push(Val::IntV { n: y }), pc: 2, ..m0 };
    let r = host_wrapping(op, x, y);
    let m3 = MachineView { stack: seq![Val::IntV { n: r }], pc: 3, ..m0 };
    let m4 = MachineView { pc: 3, ..m0 };
    assert(step_spec(code, m0) == StepView::Going { next: m1 });
    assert(step_spec(code, m1) == StepView::Going { next: m2 });
    assert(m2.stack.len() == 2 && m2.stack[0] == (Val::IntV { n: x }) && m2.stack[1] == (
    Val::IntV { n: y }));
    assert(crate::pyobject::binop_spec(op_code(op), m2.stack[0], m2.stack[1]) == Ok::<
        Val,
        crate::errors::VmError,
    >(Val::IntV { n: r }));
    assert(m2.stack.take(0).push(Val::IntV { n: r }) =~= m3.stack);
    assert(step_spec(code, m2) == StepView::Going { next: m3 }) by {
        assert(MachineView {
            stack: m2.stack.take(0).push(Val::IntV { n: r }),
            pc: m2.pc + 1,
            ..m2
        } =~= m3);
    }
    assert(m3.stack.drop_last() =~= m0.stack);
    assert(step_spec(code, m3) == StepView::Done { result: Val::IntV { n: r }, machine: m4 }) by {
        assert(MachineView { stack: m3.stack.drop_last(), ..m3 } =~= m4);
    }
    let budget = STEP_BUDGET as nat;
    reveal_with_fuel(run_spec, 5);
    assert(run_spec(code, m0, budget) == run_spec(code, m1, (budget - 1) as nat));
    assert(run_spec(code, m1, (budget - 1) as nat) == run_spec(code, m2, (budget - 2) as nat));
    assert(run_spec(code, m2, (budget - 2) as nat) == run_spec(code, m3, (budget - 3) as nat));
    assert(run_spec(code, m3, (budget - 3) as nat) == (RunView::Finished {
        result: Val::IntV { n: r },
        machine: m4,
    }));
}

/// Wrapping subtraction undoes wrapping addition: adding `y` and then
/// subtracting `y` again, both on the compiled-and-executed path's wrapping
/// policy, recovers `x` exactly — also across the overflow boundary.
pub proof fn lemma_wrapping_round_trip(x: i32, y: i32)
    ensures
        vstd::wrapping::i32_specs::wrapping_sub(
            vstd::wrapping::i32_specs::wrapping_add(x, y),
            y,
        ) == x,
{
}

} // verus!
