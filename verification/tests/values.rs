//! The value model: coercions, equality, and printable forms.

use rustack::error::ErrorKind;
use rustack::value::{Value, ValueSpan, BlockSpan, NativeOp, Builtin};

fn block(values: Vec<(Value, (usize, usize))>, span: (usize, usize)) -> BlockSpan {
    BlockSpan {
        block: values.into_iter().map(|(value, span)| ValueSpan { value, span }).collect(),
        span,
    }
}

#[test]
fn as_int_truncates_numbers_toward_zero() {
    assert_eq!(Value::Int(7).as_int().unwrap(), 7);
    assert_eq!(Value::Num((2.7f32).to_bits()).as_int().unwrap(), 2);
    assert_eq!(Value::Num((-2.7f32).to_bits()).as_int().unwrap(), -2);
    assert!(matches!(
        Value::Sym(b"x".to_vec()).as_int(),
        Err(ErrorKind::TypeMismatch(_, _))
    ));
}

#[test]
fn as_num_promotes_integers() {
    assert_eq!(Value::Int(3).as_num().unwrap(), (3.0f32).to_bits());
    assert_eq!(Value::Num((1.5f32).to_bits()).as_num().unwrap(), (1.5f32).to_bits());
    assert!(matches!(
        Value::Block(block(vec![], (0, 2))).as_num(),
        Err(ErrorKind::TypeMismatch(_, _))
    ));
}

#[test]
fn as_bool_is_nonzero() {
    assert_eq!(Value::Int(0).as_bool().unwrap(), false);
    assert_eq!(Value::Int(-3).as_bool().unwrap(), true);
}

#[test]
fn to_block_and_as_sym_reject_other_variants() {
    assert!(Value::Block(block(vec![], (0, 2))).to_block().is_ok());
    assert!(matches!(Value::Int(1).to_block(), Err(ErrorKind::TypeMismatch(_, _))));
    assert_eq!(Value::Sym(b"name".to_vec()).as_sym().unwrap(), &b"name".to_vec());
    assert!(matches!(
        Value::Op(b"name".to_vec()).as_sym(),
        Err(ErrorKind::TypeMismatch(_, _))
    ));
}

#[test]
fn equality_is_deep_and_native_handles_compare_by_identity() {
    let a = block(vec![(Value::Int(1), (2, 3))], (0, 5));
    let b = block(vec![(Value::Int(1), (2, 3))], (0, 5));
    let c = block(vec![(Value::Int(2), (2, 3))], (0, 5));
    assert_eq!(Value::Block(a), Value::Block(b));
    let a = block(vec![(Value::Int(1), (2, 3))], (0, 5));
    assert_ne!(Value::Block(a), Value::Block(c));
    assert_eq!(
        Value::Native(NativeOp::Host(1)),
        Value::Native(NativeOp::Host(1))
    );
    assert_ne!(
        Value::Native(NativeOp::Host(1)),
        Value::Native(NativeOp::Host(2))
    );
    assert_ne!(
        Value::Native(NativeOp::Builtin(Builtin::Add)),
        Value::Native(NativeOp::Builtin(Builtin::Sub))
    );
    assert_ne!(Value::Op(b"x".to_vec()), Value::Sym(b"x".to_vec()));
}

#[test]
fn printable_forms() {
    assert_eq!(Value::Int(-42).to_text(), b"-42".to_vec());
    assert_eq!(Value::Int(0).to_text(), b"0".to_vec());
    assert_eq!(Value::Op(b"dup".to_vec()).to_text(), b"dup".to_vec());
    assert_eq!(Value::Sym(b"x".to_vec()).to_text(), b"x".to_vec());
    assert_eq!(
        Value::Block(block(vec![], (6, 13))).to_text(),
        b"<Block [6,13]>".to_vec()
    );
    assert_eq!(
        Value::Native(NativeOp::Builtin(Builtin::Add)).to_text(),
        b"<Native>".to_vec()
    );
}

#[test]
fn number_text_round_trips_through_the_parser() {
    let text = Value::Num((1.5f32).to_bits()).to_text();
    assert!(!text.is_empty());
    let mut vm = rustack::vm::Vm::new();
    vm.parse_batch(&text).expect("parse failed");
    vm.eval_all().expect("run failed");
    assert_eq!(vm.get_stack(), &vec![Value::Num((1.5f32).to_bits())]);
}
