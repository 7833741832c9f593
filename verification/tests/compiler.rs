use rspython::ast::{Expression, Operator, Program, Statement};
use rspython::bytecode::{BinaryOperator, Instruction};
use rspython::compile::compile;
use rspython::errors::{CompileError, ConstructKind};

#[test]
fn test_expression_statement_lowering() {
    let program = Program {
        statements: vec![Statement::Expression {
            expression: Expression::Binop {
                a: Box::new(Expression::Number { value: 1 }),
                op: Operator::Add,
                b: Box::new(Expression::Number { value: 2 }),
            },
        }],
    };
    let code = compile(program).unwrap();
    assert_eq!(
        code.instructions,
        vec![
            Instruction::LoadConst { value: 1 },
            Instruction::LoadConst { value: 2 },
            Instruction::BinaryOperation { op: BinaryOperator::Add },
            Instruction::Pop,
        ]
    );
}

#[test]
fn test_literal_simplifications() {
    // True lowers to 1; False and None lower to 0.
    let program = Program {
        statements: vec![Statement::Return {
            value: vec![Expression::True, Expression::False, Expression::NoneLiteral],
        }],
    };
    let code = compile(program).unwrap();
    assert_eq!(
        code.instructions,
        vec![
            Instruction::LoadConst { value: 1 },
            Instruction::LoadConst { value: 0 },
            Instruction::LoadConst { value: 0 },
            Instruction::BuildTuple { size: 3 },
            Instruction::ReturnValue,
        ]
    );
}

#[test]
fn test_bare_return_loads_sentinel() {
    let program = Program { statements: vec![Statement::Return { value: vec![] }] };
    let code = compile(program).unwrap();
    assert_eq!(
        code.instructions,
        vec![Instruction::LoadNone, Instruction::ReturnValue]
    );
}

#[test]
fn test_break_outside_loop_rejected() {
    let program = Program { statements: vec![Statement::Break] };
    assert!(matches!(compile(program), Err(CompileError::BreakOutsideLoop)));
    let program = Program { statements: vec![Statement::Continue] };
    assert!(matches!(compile(program), Err(CompileError::ContinueOutsideLoop)));
    // Inside a loop body both are accepted.
    let program = Program {
        statements: vec![Statement::While {
            test: Expression::Number { value: 0 },
            body: vec![Statement::Break, Statement::Continue],
        }],
    };
    assert!(compile(program).is_ok());
}

#[test]
fn test_non_name_assignment_target_rejected() {
    let program = Program {
        statements: vec![Statement::Assign {
            targets: vec![Expression::Number { value: 1 }],
            value: Expression::Number { value: 2 },
        }],
    };
    assert!(matches!(compile(program), Err(CompileError::NonNameAssignTarget)));
}

#[test]
fn test_for_loop_shape_rejections() {
    let program = Program {
        statements: vec![Statement::For {
            target: vec![
                Expression::Identifier { name: String::from("a") },
                Expression::Identifier { name: String::from("b") },
            ],
            iter: vec![Expression::Number { value: 1 }],
            body: vec![Statement::Pass],
        }],
    };
    assert!(matches!(compile(program), Err(CompileError::MultipleLoopTargets)));
    let program = Program {
        statements: vec![Statement::For {
            target: vec![Expression::Identifier { name: String::from("a") }],
            iter: vec![],
            body: vec![Statement::Pass],
        }],
    };
    assert!(matches!(compile(program), Err(CompileError::MissingIterable)));
}

#[test]
fn test_unsupported_constructs_rejected() {
    let cases: Vec<(Statement, ConstructKind)> = vec![
        (Statement::Import { name: String::from("os") }, ConstructKind::Import),
        (Statement::ClassDef { name: String::from("C") }, ConstructKind::ClassDef),
        (
            Statement::Assert { test: Expression::True, msg: None },
            ConstructKind::Assert,
        ),
        (
            Statement::Delete { targets: vec![Expression::Identifier { name: String::from("x") }] },
            ConstructKind::Delete,
        ),
        (Statement::With { items: vec![], body: vec![] }, ConstructKind::With),
    ];
    for (statement, construct) in cases {
        let program = Program { statements: vec![statement] };
        match compile(program) {
            Err(CompileError::UnsupportedConstruct { construct: c }) => {
                assert_eq!(c, construct)
            }
            other => panic!("unexpected outcome: {:?}", other),
        }
    }
}

#[test]
fn test_multiple_iterables_build_a_tuple() {
    let program = Program {
        statements: vec![Statement::For {
            target: vec![Expression::Identifier { name: String::from("x") }],
            iter: vec![
                Expression::Number { value: 1 },
                Expression::Number { value: 2 },
            ],
            body: vec![Statement::Pass],
        }],
    };
    let code = compile(program).unwrap();
    assert_eq!(code.instructions[2], Instruction::BuildTuple { size: 2 });
    assert_eq!(code.instructions[3], Instruction::GetIter);
}

#[test]
fn test_function_body_compiles_inline() {
    let program = Program {
        statements: vec![Statement::FunctionDef {
            name: String::from("f"),
            body: vec![Statement::Pass],
        }],
    };
    let code = compile(program).unwrap();
    assert_eq!(code.instructions, vec![Instruction::Pass]);
}
