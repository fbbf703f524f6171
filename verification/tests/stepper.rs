//! Driving the machine one step at a time: returned spans, host natives
//! serviced between steps, and the inspection reports.

use rustack::error::ErrorKind;
use rustack::value::Value;
use rustack::value::Value::{Int, Num};
use rustack::vm::Vm;

#[test]
fn steps_return_token_spans_then_the_block_span() {
    let mut vm = Vm::new();
    vm.parse_batch(&b"1 2 +".to_vec()).expect("parse failed");
    assert_eq!(vm.eval_step().expect("step"), Some((0, 1)));
    assert_eq!(vm.eval_step().expect("step"), Some((2, 3)));
    assert_eq!(vm.eval_step().expect("step"), Some((4, 5)));
    // The finished root frame pops, reporting the root block's span.
    assert_eq!(vm.eval_step().expect("step"), Some((0, 0)));
    assert_eq!(vm.eval_step().expect("step"), None);
    assert_eq!(vm.get_stack(), &vec![Int(3)]);
}

#[test]
fn every_span_lies_inside_the_source() {
    let src = b"{ 1 -1 + } { 100 } { -100 } if".to_vec();
    let mut vm = Vm::new();
    vm.parse_batch(&src).expect("parse failed");
    loop {
        match vm.eval_step().expect("step") {
            Some((start, end)) => {
                assert!(start <= end);
                assert!(end <= src.len());
            },
            None => break,
        }
    }
    assert_eq!(vm.get_stack(), &vec![Int(-100)]);
}

#[test]
fn a_host_native_is_serviced_between_steps() {
    let mut vm = Vm::new();
    vm.add_fn(b"negate".to_vec(), 7);
    vm.parse_batch(&b"5 negate".to_vec()).expect("parse failed");
    let mut serviced = false;
    loop {
        match vm.eval_step() {
            Ok(Some(_)) => {},
            Ok(None) => break,
            Err(e) => panic!("unexpected error: {:?}", e.kind),
        }
        if let Some(id) = vm.take_pending() {
            assert_eq!(id, 7);
            let v = vm.pop().expect("operand");
            let i = match v {
                Int(i) => i,
                other => panic!("unexpected operand: {:?}", other),
            };
            vm.push(Int(-i));
            serviced = true;
        }
    }
    assert!(serviced);
    assert_eq!(vm.get_stack(), &vec![Int(-5)]);
}

#[test]
fn sine_as_a_host_native() {
    let mut vm = Vm::new();
    vm.add_fn(b"sin".to_vec(), 1);
    vm.parse_batch(&b"pi sin".to_vec()).expect("parse failed");
    loop {
        match vm.eval_step() {
            Ok(Some(_)) => {},
            Ok(None) => break,
            Err(e) => panic!("unexpected error: {:?}", e.kind),
        }
        if vm.take_pending().is_some() {
            let bits = match vm.pop().expect("operand") {
                Num(b) => b,
                other => panic!("unexpected operand: {:?}", other),
            };
            vm.push(Num(f32::from_bits(bits).sin().to_bits()));
        }
    }
    assert_eq!(vm.get_stack(), &vec![Num(std::f32::consts::PI.sin().to_bits())]);
}

#[test]
fn stepping_past_an_unserviced_native_fails() {
    let mut vm = Vm::new();
    vm.add_fn(b"beep".to_vec(), 3);
    vm.parse_batch(&b"beep beep".to_vec()).expect("parse failed");
    vm.eval_step().expect("first step requests the call");
    let e = vm.eval_step().expect_err("unserviced call must fail the next step");
    assert!(matches!(e.kind, ErrorKind::NativePending));
    // Servicing it clears the fault.
    assert_eq!(vm.take_pending(), Some(3));
    assert!(vm.eval_step().is_ok());
}

#[test]
fn the_frame_report_names_frames_and_locals() {
    let mut vm = Vm::new();
    vm.parse_batch(&b"/x 10 def { x } zork".to_vec()).expect("parse failed");
    let _ = vm.eval_all().expect_err("zork is undefined");
    let report = vm.exec_stack_report();
    assert_eq!(report.len(), 1);
    assert_eq!(report[0].0, b"root".to_vec());
    assert_eq!(report[0].1, vec![(b"x".to_vec(), b"10".to_vec())]);
}

#[test]
fn the_stack_report_prints_each_entry() {
    let mut vm = Vm::new();
    vm.parse_batch(&b"1 -2 /s { 3 }".to_vec()).expect("parse failed");
    vm.eval_all().expect("run failed");
    assert_eq!(
        vm.stack_texts(),
        vec![b"1".to_vec(), b"-2".to_vec(), b"s".to_vec(), b"<Block [8,13]>".to_vec()]
    );
}

#[test]
fn get_vars_shows_the_top_frame_bindings() {
    let mut vm = Vm::new();
    vm.parse_batch(&b"/x 10 def zork".to_vec()).expect("parse failed");
    let _ = vm.eval_all().expect_err("zork is undefined");
    let vars = vm.get_vars();
    assert_eq!(vars.len(), 1);
    assert_eq!(vars[0].0, b"x".to_vec());
    assert!(matches!(vars[0].1, Value::Int(10)));
}
