use rspython::ast::{Expression, Operator, Statement};
use rspython::parser::{parse_source, ParseError};

#[test]
fn test_parse_print_hello() {
    let source = String::from(r"print('Hello world')\n");
    parse_source(&source).unwrap();
}

#[test]
fn test_parse_print_2() {
    let source = String::from(r"print('Hello world', 2)\n");
    parse_source(&source).unwrap();
}

#[test]
fn test_parse_call_shape() {
    let program = parse_source(&String::from("print('a', 2)\n")).unwrap();
    assert_eq!(program.statements.len(), 1);
    match &program.statements[0] {
        Statement::Expression { expression: Expression::Call { function, args } } => {
            match &**function {
                Expression::Identifier { name } => assert_eq!(name, "print"),
                other => panic!("unexpected callee: {:?}", other),
            }
            assert_eq!(args.len(), 2);
            match &args[0] {
                Expression::String { value } => assert_eq!(value, "a"),
                other => panic!("unexpected argument: {:?}", other),
            }
            match &args[1] {
                Expression::Number { value } => assert_eq!(*value, 2),
                other => panic!("unexpected argument: {:?}", other),
            }
        }
        other => panic!("unexpected statement: {:?}", other),
    }
}

#[test]
fn test_parse_assignment_and_arith() {
    let program = parse_source(&String::from("x = 1 + 2 * 3")).unwrap();
    assert_eq!(program.statements.len(), 1);
    match &program.statements[0] {
        Statement::Assign { targets, value } => {
            assert_eq!(targets.len(), 1);
            assert_eq!(
                targets[0],
                Expression::Identifier { name: String::from("x") }
            );
            // Multiplication binds tighter than addition.
            match value {
                Expression::Binop { a, op, b } => {
                    assert_eq!(*op, Operator::Add);
                    assert_eq!(**a, Expression::Number { value: 1 });
                    match &**b {
                        Expression::Binop { a, op, b } => {
                            assert_eq!(*op, Operator::Mult);
                            assert_eq!(**a, Expression::Number { value: 2 });
                            assert_eq!(**b, Expression::Number { value: 3 });
                        }
                        other => panic!("unexpected factor: {:?}", other),
                    }
                }
                other => panic!("unexpected value: {:?}", other),
            }
        }
        other => panic!("unexpected statement: {:?}", other),
    }
}

#[test]
fn test_parse_for_loop_line() {
    let program = parse_source(&String::from("for x in [1, 2, 3]: print(x)\n")).unwrap();
    assert_eq!(program.statements.len(), 1);
    match &program.statements[0] {
        Statement::For { target, iter, body } => {
            assert_eq!(target.len(), 1);
            assert_eq!(
                target[0],
                Expression::Identifier { name: String::from("x") }
            );
            assert_eq!(iter.len(), 1);
            match &iter[0] {
                Expression::List { elements } => assert_eq!(elements.len(), 3),
                other => panic!("unexpected iterable: {:?}", other),
            }
            assert_eq!(body.len(), 1);
        }
        other => panic!("unexpected statement: {:?}", other),
    }
}

#[test]
fn test_parse_literals_and_keyword_statements() {
    let program =
        parse_source(&String::from("pass\nx = True\ny = False\nz = None\nreturn x\n")).unwrap();
    assert_eq!(program.statements.len(), 5);
    assert_eq!(program.statements[0], Statement::Pass);
    match &program.statements[4] {
        Statement::Return { value } => assert_eq!(value.len(), 1),
        other => panic!("unexpected statement: {:?}", other),
    }
}

#[test]
fn test_parse_errors() {
    assert_eq!(
        parse_source(&String::from("x = 99999999999")),
        Err(ParseError::NumberTooLarge { at: 4 })
    );
    assert_eq!(
        parse_source(&String::from("x = 'abc")),
        Err(ParseError::UnterminatedString { at: 4 })
    );
    assert!(matches!(
        parse_source(&String::from("x = )")),
        Err(ParseError::UnexpectedCharacter { .. })
    ));
}
