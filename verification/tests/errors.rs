//! Each reachable error, from an input that provokes it, and the promise
//! that a failed step leaves the machine untouched.

use rustack::error::ErrorKind;
use rustack::value::Value::Int;
use rustack::vm::Vm;

fn parse_err(input: &str) -> ErrorKind {
    let mut vm = Vm::new();
    vm.parse_batch(&input.as_bytes().to_vec()).expect_err("parse should fail")
}

fn run_err(input: &str) -> rustack::error::VmError {
    let mut vm = Vm::new();
    vm.parse_batch(&input.as_bytes().to_vec()).expect("parse failed");
    vm.eval_all().expect_err("run should fail")
}

#[test]
fn closing_an_unopened_block_is_unbalanced() {
    assert!(matches!(parse_err("1 2 }"), ErrorKind::UnbalancedBlock));
    assert!(matches!(parse_err("{ 1 } } {"), ErrorKind::UnbalancedBlock));
}

#[test]
fn input_ending_inside_a_block_is_unclosed() {
    assert!(matches!(parse_err("{ 1"), ErrorKind::UnclosedBlock));
    assert!(matches!(parse_err("{ { } "), ErrorKind::UnclosedBlock));
}

#[test]
fn a_failed_parse_leaves_the_machine_untouched() {
    let mut vm = Vm::new();
    vm.parse_batch(&b"1 2".to_vec()).expect("parse failed");
    vm.eval_all().expect("run failed");
    vm.parse_batch(&b"3 }".to_vec()).expect_err("parse should fail");
    vm.eval_all().expect("nothing left to run");
    assert_eq!(vm.get_stack(), &vec![Int(1), Int(2)]);
}

#[test]
fn an_unknown_word_is_undefined() {
    let e = run_err("1 zork");
    assert!(matches!(&e.kind, ErrorKind::UndefinedName(n) if n == b"zork"));
}

#[test]
fn if_rejects_a_non_block_condition() {
    let e = run_err("1 { 2 } { 3 } if");
    assert!(matches!(e.kind, ErrorKind::TypeMismatch(_, _)));
}

#[test]
fn arithmetic_rejects_a_symbol() {
    let e = run_err("/a 1 +");
    assert!(matches!(e.kind, ErrorKind::TypeMismatch(_, _)));
}

#[test]
fn integer_division_by_zero_fails() {
    let e = run_err("1 0 div");
    assert!(matches!(e.kind, ErrorKind::DivideByZero));
}

#[test]
fn float_division_by_zero_gives_infinity() {
    let vm = {
        let mut vm = Vm::new();
        vm.parse_batch(&b"1.0 0 div".to_vec()).expect("parse failed");
        vm.eval_all().expect("float division never faults");
        vm
    };
    assert_eq!(vm.get_stack(), &vec![rustack::value::Value::Num(f32::INFINITY.to_bits())]);
}

#[test]
fn popping_an_empty_stack_underflows() {
    let e = run_err("pop");
    assert!(matches!(e.kind, ErrorKind::StackUnderflow(_)));
}

#[test]
fn index_past_the_bottom_underflows() {
    let e = run_err("1 2 5 index");
    assert!(matches!(e.kind, ErrorKind::StackUnderflow(_)));
}

#[test]
fn a_failed_step_keeps_the_stack_and_attaches_a_trace() {
    let mut vm = Vm::new();
    vm.parse_batch(&b"1 2 zork 4".to_vec()).expect("parse failed");
    let e = vm.eval_all().expect_err("run should fail");
    assert!(matches!(&e.kind, ErrorKind::UndefinedName(n) if n == b"zork"));
    // The two values already pushed stay; the failing step changed nothing.
    assert_eq!(vm.get_stack(), &vec![Int(1), Int(2)]);
    let text = e.to_text();
    let shown = String::from_utf8(text).expect("diagnostic is text");
    assert!(shown.starts_with("undefined name: zork:\n  Stack trace:\n"));
    assert!(shown.contains("frame[0] root:"));
}

#[test]
fn error_messages_name_what_went_wrong() {
    let e = run_err("/a 1 +");
    assert_eq!(
        String::from_utf8(e.kind.to_text()).unwrap(),
        "type mismatch: expected number, got Sym"
    );
    let e = run_err("pop");
    assert_eq!(String::from_utf8(e.kind.to_text()).unwrap(), "stack underflow in pop");
    let e = run_err("1 0 div");
    assert_eq!(String::from_utf8(e.kind.to_text()).unwrap(), "divide by zero");
    let e = parse_err("}");
    assert_eq!(String::from_utf8(e.to_text()).unwrap(), "unbalanced block");
}

#[test]
fn the_trace_names_frames_and_shows_what_remains() {
    let mut vm = Vm::new();
    vm.parse_batch(&b"/x 1 def zork 9".to_vec()).expect("parse failed");
    let e = vm.eval_all().expect_err("run should fail");
    let shown = String::from_utf8(e.trace).expect("trace is text");
    // The failing step was undone, so `zork 9` is still to run.
    assert_eq!(
        shown,
        "  Stack trace:\n    frame[0] root: locals: {x: 1}, stack:  zork 9\n"
    );
}
