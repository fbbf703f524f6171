//! End-to-end runs of whole programs, checking the final data stack.

use rustack::value::{Value, ValueSpan, BlockSpan};
use rustack::value::Value::{Int, Block};
use rustack::vm::Vm;

fn run(input: &str) -> Vm {
    let mut vm = Vm::new();
    vm.parse_batch(&input.as_bytes().to_vec()).expect("parse failed");
    vm.eval_all().expect("run failed");
    vm
}

fn span(value: Value, span: (usize, usize)) -> ValueSpan {
    ValueSpan { value, span }
}

#[test]
fn test_group() {
    let vm = run("1 2 + { 3 4 }");
    assert_eq!(
        vm.get_stack(),
        &vec![
            Int(3),
            Block(BlockSpan {
                block: vec![span(Int(3), (8, 9)), span(Int(4), (10, 11))],
                span: (6, 13),
            })
        ]
    );
}

#[test]
fn test_if_false() {
    let vm = run("{ 1 -1 + } { 100 } { -100 } if");
    assert_eq!(vm.get_stack(), &vec![Int(-100)]);
}

#[test]
fn test_if_true() {
    let vm = run("{ 1 1 + } { 100 } { -100 } if");
    assert_eq!(vm.get_stack(), &vec![Int(100)]);
}

#[test]
fn test_var() {
    let vm = run("/x 10 def /y 20 def x y *");
    assert_eq!(vm.get_stack(), &vec![Int(200)]);
}

#[test]
fn test_var_if() {
    let vm = run("/x 10 def /y 20 def { x y < } { x } { y } if");
    assert_eq!(vm.get_stack(), &vec![Int(10)]);
}

#[test]
fn test_multiline() {
    let vm = run(
        r#"
/x 10 def
/y 20 def

{ x y < }
{ x }
{ y }
if
"#,
    );
    assert_eq!(vm.get_stack(), &vec![Int(10)]);
}

#[test]
fn test_function() {
    let vm = run(
        r#"
/double { 2 * } def
10 double"#,
    );
    assert_eq!(vm.get_stack(), &vec![Int(20)]);
}

#[test]
fn for_with_empty_body_pushes_every_induction_value() {
    let vm = run("0 5 { } for");
    assert_eq!(vm.get_stack(), &vec![Int(0), Int(1), Int(2), Int(3), Int(4)]);
}

#[test]
fn for_runs_its_body_once_per_iteration() {
    let vm = run("0 1 4 { + } for");
    assert_eq!(vm.get_stack(), &vec![Int(6)]);
}

#[test]
fn for_body_runs_at_least_once() {
    let vm = run("7 3 { } for");
    assert_eq!(vm.get_stack(), &vec![Int(7)]);
}

#[test]
fn def_inside_branch_is_visible_outside() {
    let vm = run("{ 1 } { /a 5 def } { } if a");
    assert_eq!(vm.get_stack(), &vec![Int(5)]);
}

#[test]
fn load_pushes_the_bound_value() {
    let vm = run("/x 42 def /x load");
    assert_eq!(vm.get_stack(), &vec![Int(42)]);
}

#[test]
fn nested_blocks_keep_their_spans() {
    let vm = run("{ { 1 } }");
    assert_eq!(
        vm.get_stack(),
        &vec![Block(BlockSpan {
            block: vec![span(
                Block(BlockSpan { block: vec![span(Int(1), (4, 5))], span: (2, 7) }),
                (2, 7),
            )],
            span: (0, 9),
        })]
    );
}
