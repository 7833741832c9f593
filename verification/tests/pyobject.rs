use rspython::bytecode::BinaryOperator;
use rspython::decimal::int_to_string;
use rspython::errors::{TypeErrorKind, ValueTag, VmError};
use rspython::pyobject::{binary_operation, NativeFunction, PyObject};

#[test]
fn test_add_py_integers() {
    let a = PyObject::Integer { value: 33 };
    let b = PyObject::Integer { value: 12 };
    let c = a.add(&b).unwrap();
    match c {
        PyObject::Integer { value } => {
            assert_eq!(value, 45)
        }
        _ => {
            assert!(false)
        }
    }
}

#[test]
fn test_multiply_str() {
    let a = PyObject::String { value: String::from("Hello ") };
    let b = PyObject::Integer { value: 4 };
    let c = a.mul(&b).unwrap();
    match c {
        PyObject::String { value } => {
            assert_eq!(value, String::from("Hello Hello Hello Hello "))
        }
        _ => {
            assert!(false)
        }
    }
}

#[test]
fn test_string_repetition_cases() {
    // "ab" * 3 is "ababab"; "x" * 0 is ""; a negative count empties too.
    let ab = PyObject::String { value: String::from("ab") };
    match ab.mul(&PyObject::Integer { value: 3 }).unwrap() {
        PyObject::String { value } => assert_eq!(value, "ababab"),
        _ => panic!("expected a string"),
    }
    let x = PyObject::String { value: String::from("x") };
    match x.mul(&PyObject::Integer { value: 0 }).unwrap() {
        PyObject::String { value } => assert_eq!(value, ""),
        _ => panic!("expected a string"),
    }
    match x.mul(&PyObject::Integer { value: -7 }).unwrap() {
        PyObject::String { value } => assert_eq!(value, ""),
        _ => panic!("expected a string"),
    }
}

#[test]
fn test_reversed_string_repetition_rejected() {
    // The reversed operand order, integer times string, is rejected.
    let n = PyObject::Integer { value: 3 };
    let s = PyObject::String { value: String::from("x") };
    assert!(matches!(
        n.mul(&s),
        Err(VmError::TypeError {
            kind: TypeErrorKind::BinaryMismatch {
                op: BinaryOperator::Multiply,
                lhs: ValueTag::Integer,
                rhs: ValueTag::String,
            }
        })
    ));
}

#[test]
fn test_integer_arithmetic_wraps() {
    let max = PyObject::Integer { value: i32::MAX };
    let one = PyObject::Integer { value: 1 };
    match max.add(&one).unwrap() {
        PyObject::Integer { value } => assert_eq!(value, i32::MAX.wrapping_add(1)),
        _ => panic!("expected an integer"),
    }
    let min = PyObject::Integer { value: i32::MIN };
    match min.sub(&one).unwrap() {
        PyObject::Integer { value } => assert_eq!(value, i32::MIN.wrapping_sub(1)),
        _ => panic!("expected an integer"),
    }
}

#[test]
fn test_mismatched_addition_rejected() {
    let s = PyObject::String { value: String::from("a") };
    let n = PyObject::Integer { value: 1 };
    assert!(matches!(
        s.add(&n),
        Err(VmError::TypeError {
            kind: TypeErrorKind::BinaryMismatch {
                op: BinaryOperator::Add,
                lhs: ValueTag::String,
                rhs: ValueTag::Integer,
            }
        })
    ));
}

#[test]
fn test_unsupported_operator_rejected() {
    let a = PyObject::Integer { value: 4 };
    let b = PyObject::Integer { value: 2 };
    assert!(matches!(
        binary_operation(&BinaryOperator::Divide, &a, &b),
        Err(VmError::TypeError {
            kind: TypeErrorKind::BinaryMismatch {
                op: BinaryOperator::Divide,
                lhs: ValueTag::Integer,
                rhs: ValueTag::Integer,
            }
        })
    ));
}

#[test]
fn test_str_rendering() {
    assert_eq!(PyObject::Integer { value: 42 }.str().unwrap(), "42");
    assert_eq!(PyObject::Integer { value: -7 }.str().unwrap(), "-7");
    assert_eq!(
        PyObject::String { value: String::from("hi") }.str().unwrap(),
        "hi"
    );
    assert!(matches!(
        PyObject::List { elements: vec![] }.str(),
        Err(VmError::TypeError { kind: TypeErrorKind::NotRenderable { tag: ValueTag::List } })
    ));
}

#[test]
fn test_decimal_rendering() {
    assert_eq!(int_to_string(0), "0");
    assert_eq!(int_to_string(7), "7");
    assert_eq!(int_to_string(-123), "-123");
    assert_eq!(int_to_string(i32::MAX), "2147483647");
    assert_eq!(int_to_string(i32::MIN), "-2147483648");
}

#[test]
fn test_call_non_callable_rejected() {
    let n = PyObject::Integer { value: 5 };
    let args: Vec<PyObject> = Vec::new();
    assert!(matches!(
        n.call(&args),
        Err(VmError::TypeError { kind: TypeErrorKind::NotCallable { tag: ValueTag::Integer } })
    ));
}

#[test]
fn test_print_effect_joins_arguments() {
    let print = PyObject::RustFunction { function: NativeFunction::Print };
    let args = vec![
        PyObject::String { value: String::from("a") },
        PyObject::String { value: String::from("b") },
        PyObject::Integer { value: 3 },
    ];
    let effect = print.call(&args).unwrap();
    assert!(matches!(effect.value, PyObject::NoValue));
    assert_eq!(effect.lines, vec![String::from("a b 3")]);
}

#[test]
fn test_iterator_advance_and_idempotent_exhaustion() {
    let list = PyObject::List {
        elements: vec![PyObject::Integer { value: 10 }, PyObject::Integer { value: 20 }],
    };
    let it = PyObject::Iterator { position: 0, iterated_obj: Box::new(list) };
    let (it, first) = it.nxt();
    match first {
        Some(PyObject::Integer { value }) => assert_eq!(value, 10),
        other => panic!("unexpected element: {:?}", other),
    }
    let (it, second) = it.nxt();
    match second {
        Some(PyObject::Integer { value }) => assert_eq!(value, 20),
        other => panic!("unexpected element: {:?}", other),
    }
    let (it, third) = it.nxt();
    assert!(third.is_none());
    // Exhaustion is idempotent: advancing again yields nothing and keeps the
    // position where it was.
    let (it, fourth) = it.nxt();
    assert!(fourth.is_none());
    match it {
        PyObject::Iterator { position, .. } => assert_eq!(position, 2),
        other => panic!("unexpected value: {:?}", other),
    }
}
