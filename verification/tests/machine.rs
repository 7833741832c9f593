use rspython::ast::{Expression, Operator, Program, Statement};
use rspython::bytecode::{CodeObject, Instruction};
use rspython::compile::compile;
use rspython::errors::{InternalErrorKind, TypeErrorKind, ValueTag, VmError};
use rspython::parser::parse_source;
use rspython::pyobject::PyObject;
use rspython::vm::{evaluate, EvalOutcome};

/// Parses, compiles and evaluates one source text.
fn run_source(text: &str) -> EvalOutcome {
    let program = parse_source(&String::from(text)).unwrap();
    let code = compile(program).unwrap();
    evaluate(code)
}

fn expect_success(outcome: EvalOutcome) -> (PyObject, rspython::vm::VirtualMachine) {
    match outcome {
        EvalOutcome::Success { value, machine } => (value, machine),
        EvalOutcome::Failure { error, .. } => panic!("evaluation failed: {:?}", error),
        EvalOutcome::Exhausted { .. } => panic!("evaluation ran out of budget"),
    }
}

#[test]
fn test_add_then_sub_round_trip_compiled() {
    // `a + b` then `- b` on the compiled-and-executed path recovers `a`,
    // with the host's wrapping policy at the boundary value.
    let (value, _) = expect_success(run_source("return 2147483647 + 1 - 1"));
    match value {
        PyObject::Integer { value } => assert_eq!(value, i32::MAX),
        other => panic!("unexpected result: {:?}", other),
    }
    let (value, _) = expect_success(run_source("return 2147483647 + 1"));
    match value {
        PyObject::Integer { value } => assert_eq!(value, i32::MAX.wrapping_add(1)),
        other => panic!("unexpected result: {:?}", other),
    }
}

#[test]
fn test_string_repetition_compiled() {
    let (value, _) = expect_success(run_source("return 'ab' * 3"));
    match value {
        PyObject::String { value } => assert_eq!(value, "ababab"),
        other => panic!("unexpected result: {:?}", other),
    }
}

#[test]
fn test_stack_balance_per_statement_kind() {
    // Compiling then executing each statement kind leaves the operand stack
    // exactly as deep as before: here, empty.
    let sources = [
        "pass",
        "1 + 2",
        "x = 5",
        "x = y = 5",
        "if 1: x = 2",
        "if 0: x = 2",
        "i = 0\nwhile 3 - i: i = i + 1",
        "for x in [1, 2, 3]: pass",
        "for x in [1, 2]: break",
        "for x in [1, 2]: continue",
        "print('s')",
    ];
    for text in sources {
        let (_, machine) = expect_success(run_source(text));
        assert_eq!(machine.stack.len(), 0, "stack residue after: {}", text);
        assert_eq!(machine.blocks.len(), 0, "block residue after: {}", text);
    }
}

#[test]
fn test_for_loop_binds_in_order() {
    // The body runs exactly three times with x bound to 1, 2, 3 in order,
    // and control resumes after the loop.
    let (_, machine) = expect_success(run_source(
        "for x in [1, 2, 3]: print(x)\nprint('after')",
    ));
    assert_eq!(
        machine.output,
        vec![
            String::from("1"),
            String::from("2"),
            String::from("3"),
            String::from("after")
        ]
    );
    // x stays bound to the last element.
    let (value, _) = expect_success(run_source("for x in [1, 2, 3]: pass\nreturn x"));
    match value {
        PyObject::Integer { value } => assert_eq!(value, 3),
        other => panic!("unexpected result: {:?}", other),
    }
}

#[test]
fn test_break_runs_body_once() {
    let (_, machine) = expect_success(run_source(
        "for x in [1, 2, 3]: print(x); break\nprint('after')",
    ));
    assert_eq!(
        machine.output,
        vec![String::from("1"), String::from("after")]
    );
}

#[test]
fn test_continue_skips_rest_of_body() {
    let (_, machine) = expect_success(run_source(
        "for x in [1, 2]: continue; print(x)\nprint('after')",
    ));
    assert_eq!(machine.output, vec![String::from("after")]);
}

#[test]
fn test_while_loop_counts() {
    let (value, machine) = expect_success(run_source("i = 0\nwhile 3 - i: i = i + 1\nreturn i"));
    match value {
        PyObject::Integer { value } => assert_eq!(value, 3),
        other => panic!("unexpected result: {:?}", other),
    }
    assert_eq!(machine.stack.len(), 0);
}

#[test]
fn test_print_call_protocol() {
    // print("a", "b") emits exactly the line "a b", and the call leaves the
    // operand stack as deep as before it.
    let (_, machine) = expect_success(run_source("print('a', 'b')"));
    assert_eq!(machine.output, vec![String::from("a b")]);
    assert_eq!(machine.stack.len(), 0);
}

#[test]
fn test_undefined_name_is_name_error() {
    // Evaluating `y` where `y` was never assigned fails with a name error
    // and leaves the machine inspectable: stack and scope unchanged.
    let program = parse_source(&String::from("y")).unwrap();
    let code = compile(program).unwrap();
    match evaluate(code) {
        EvalOutcome::Failure { error, machine } => {
            assert_eq!(error, VmError::NameError { name: String::from("y") });
            assert_eq!(machine.stack.len(), 0);
            // Only the built-in binding is in scope.
            assert_eq!(machine.scope.entries.len(), 1);
            assert_eq!(machine.scope.entries[0].0, "print");
        }
        other => panic!("unexpected outcome: {:?}", other),
    }
}

#[test]
fn test_truth_test_requires_integer() {
    match run_source("if 'text': pass") {
        EvalOutcome::Failure { error, .. } => {
            assert_eq!(
                error,
                VmError::TypeError {
                    kind: TypeErrorKind::NoTruthValue { tag: ValueTag::String }
                }
            );
        }
        other => panic!("unexpected outcome: {:?}", other),
    }
}

#[test]
fn test_iterating_non_sequence_rejected() {
    match run_source("for x in 5: pass") {
        EvalOutcome::Failure { error, .. } => {
            assert_eq!(
                error,
                VmError::TypeError {
                    kind: TypeErrorKind::NotIterable { tag: ValueTag::Integer }
                }
            );
        }
        other => panic!("unexpected outcome: {:?}", other),
    }
}

#[test]
fn test_calling_non_callable_rejected_compiled() {
    match run_source("x = 5\nx(1)") {
        EvalOutcome::Failure { error, .. } => {
            assert_eq!(
                error,
                VmError::TypeError {
                    kind: TypeErrorKind::NotCallable { tag: ValueTag::Integer }
                }
            );
        }
        other => panic!("unexpected outcome: {:?}", other),
    }
}

#[test]
fn test_unrenderable_print_argument_rejected() {
    match run_source("print([1])") {
        EvalOutcome::Failure { error, .. } => {
            assert_eq!(
                error,
                VmError::TypeError {
                    kind: TypeErrorKind::NotRenderable { tag: ValueTag::List }
                }
            );
        }
        other => panic!("unexpected outcome: {:?}", other),
    }
}

#[test]
fn test_bare_return_yields_no_value() {
    let (value, _) = expect_success(run_source("return"));
    assert!(matches!(value, PyObject::NoValue));
    // A program that never returns also yields the no-value sentinel.
    let (value, _) = expect_success(run_source("x = 1"));
    assert!(matches!(value, PyObject::NoValue));
}

#[test]
fn test_multiple_return_values_pack_a_tuple() {
    let (value, _) = expect_success(run_source("return 1, 2"));
    match value {
        PyObject::Tuple { elements } => {
            assert_eq!(elements.len(), 2);
            assert!(matches!(elements[0], PyObject::Integer { value: 1 }));
            assert!(matches!(elements[1], PyObject::Integer { value: 2 }));
        }
        other => panic!("unexpected result: {:?}", other),
    }
}

#[test]
fn test_multiple_assignment_binds_all_targets() {
    let (value, _) = expect_success(run_source("a = b = 3\nreturn a + b"));
    match value {
        PyObject::Integer { value } => assert_eq!(value, 6),
        other => panic!("unexpected result: {:?}", other),
    }
}

#[test]
fn test_list_elements_keep_source_order() {
    let code = CodeObject {
        instructions: vec![
            Instruction::LoadConst { value: 1 },
            Instruction::LoadConst { value: 2 },
            Instruction::BuildList { size: 2 },
            Instruction::ReturnValue,
        ],
    };
    let (value, _) = match evaluate(code) {
        EvalOutcome::Success { value, machine } => (value, machine),
        other => panic!("unexpected outcome: {:?}", other),
    };
    match value {
        PyObject::List { elements } => {
            assert!(matches!(elements[0], PyObject::Integer { value: 1 }));
            assert!(matches!(elements[1], PyObject::Integer { value: 2 }));
        }
        other => panic!("unexpected result: {:?}", other),
    }
}

#[test]
fn test_build_map_pairs_keys_with_values() {
    let code = CodeObject {
        instructions: vec![
            Instruction::LoadConst { value: 1 },
            Instruction::LoadConst { value: 2 },
            Instruction::LoadConst { value: 3 },
            Instruction::LoadConst { value: 4 },
            Instruction::BuildMap { size: 4 },
            Instruction::ReturnValue,
        ],
    };
    match evaluate(code) {
        EvalOutcome::Success { value: PyObject::Dict { keys, values }, .. } => {
            assert!(matches!(keys[0], PyObject::Integer { value: 1 }));
            assert!(matches!(values[0], PyObject::Integer { value: 2 }));
            assert!(matches!(keys[1], PyObject::Integer { value: 3 }));
            assert!(matches!(values[1], PyObject::Integer { value: 4 }));
        }
        other => panic!("unexpected outcome: {:?}", other),
    }
}

#[test]
fn test_internal_consistency_failures() {
    // A stack underflow, loop control with no block, an unpaired mapping and
    // an invalid jump target are internal defects, distinguishable from the
    // user-facing kinds.
    let cases: Vec<(Vec<Instruction>, InternalErrorKind)> = vec![
        (vec![Instruction::Pop], InternalErrorKind::StackUnderflow),
        (vec![Instruction::Break], InternalErrorKind::BlockUnderflow),
        (
            vec![Instruction::LoadConst { value: 1 }, Instruction::BuildMap { size: 1 }],
            InternalErrorKind::UnpairedMapEntries,
        ),
        (
            vec![Instruction::LoadConst { value: 1 }, Instruction::ForIter],
            InternalErrorKind::IteratorMismatch,
        ),
        (
            vec![
                Instruction::PushBlock { start: 0, end: 99 },
                Instruction::Break,
            ],
            InternalErrorKind::InvalidJumpTarget { target: 99 },
        ),
    ];
    for (instructions, expected) in cases {
        let code = CodeObject { instructions };
        match evaluate(code) {
            EvalOutcome::Failure { error: VmError::InternalError { kind }, .. } => {
                assert_eq!(kind, expected);
            }
            other => panic!("unexpected outcome: {:?}", other),
        }
    }
}

#[test]
fn test_compiled_while_layout() {
    // The while lowering: block entry, test, conditional jump to the block
    // exit, body, jump back to the test, block exit — with both forward
    // labels back-patched to real indices.
    let program = Program {
        statements: vec![Statement::While {
            test: Expression::Number { value: 0 },
            body: vec![Statement::Pass],
        }],
    };
    let code = compile(program).unwrap();
    assert_eq!(
        code.instructions,
        vec![
            Instruction::PushBlock { start: 1, end: 6 },
            Instruction::LoadConst { value: 0 },
            Instruction::JumpIfFalse { target: 5 },
            Instruction::Pass,
            Instruction::Continue,
            Instruction::PopBlock,
        ]
    );
}

#[test]
fn test_compiled_for_layout() {
    let program = Program {
        statements: vec![Statement::For {
            target: vec![Expression::Identifier { name: String::from("x") }],
            iter: vec![Expression::Number { value: 7 }],
            body: vec![Statement::Pass],
        }],
    };
    let code = compile(program).unwrap();
    assert_eq!(
        code.instructions,
        vec![
            Instruction::LoadConst { value: 7 },
            Instruction::GetIter,
            Instruction::PushBlock { start: 3, end: 7 },
            Instruction::ForIter,
            Instruction::StoreName { name: String::from("x") },
            Instruction::Pass,
            Instruction::Continue,
            Instruction::Pop,
        ]
    );
}
