//! The built-in operators on concrete operands: arithmetic with its
//! wrap-around and promotion rules, comparison, logic and stack shuffling.

use rustack::value::Value;
use rustack::value::Value::{Int, Num};
use rustack::vm::Vm;

fn run(input: &str) -> Vm {
    let mut vm = Vm::new();
    vm.parse_batch(&input.as_bytes().to_vec()).expect("parse failed");
    vm.eval_all().expect("run failed");
    vm
}

#[test]
fn add_sub_mul() {
    assert_eq!(run("1 2 +").get_stack(), &vec![Int(3)]);
    assert_eq!(run("1 2 -").get_stack(), &vec![Int(-1)]);
    assert_eq!(run("6 7 *").get_stack(), &vec![Int(42)]);
}

#[test]
fn add_wraps_around() {
    assert_eq!(run("2147483647 1 +").get_stack(), &vec![Int(i32::MIN)]);
    assert_eq!(run("-2147483648 -1 +").get_stack(), &vec![Int(i32::MAX)]);
    assert_eq!(run("-2147483648 -1 *").get_stack(), &vec![Int(i32::MIN)]);
}

#[test]
fn div_truncates_toward_zero() {
    assert_eq!(run("10 4 div").get_stack(), &vec![Int(2)]);
    assert_eq!(run("7 2 div").get_stack(), &vec![Int(3)]);
    assert_eq!(run("-7 2 div").get_stack(), &vec![Int(-3)]);
    assert_eq!(run("7 -2 div").get_stack(), &vec![Int(-3)]);
    assert_eq!(run("1 2 div").get_stack(), &vec![Int(0)]);
}

#[test]
fn div_of_min_by_minus_one_wraps() {
    assert_eq!(run("-2147483648 -1 div").get_stack(), &vec![Int(i32::MIN)]);
}

#[test]
fn num_arithmetic_promotes() {
    assert_eq!(run("1.5 2 +").get_stack(), &vec![Num((3.5f32).to_bits())]);
    assert_eq!(run("2 1.5 -").get_stack(), &vec![Num((0.5f32).to_bits())]);
    assert_eq!(run("1.5 2.0 *").get_stack(), &vec![Num((3.0f32).to_bits())]);
    assert_eq!(run("1.0 2 div").get_stack(), &vec![Num((0.5f32).to_bits())]);
    assert_eq!(run("1 2.0 div").get_stack(), &vec![Num((0.5f32).to_bits())]);
}

#[test]
fn num_literals_parse_like_ieee_singles() {
    assert_eq!(run("3.25").get_stack(), &vec![Num((3.25f32).to_bits())]);
    assert_eq!(run("-0.5").get_stack(), &vec![Num((-0.5f32).to_bits())]);
    // One past i32::MAX is no integer literal, but it is a number literal.
    assert_eq!(run("2147483648").get_stack(), &vec![Num((2147483648.0f32).to_bits())]);
}

#[test]
fn lt_compares_as_numbers() {
    assert_eq!(run("1 2 <").get_stack(), &vec![Int(1)]);
    assert_eq!(run("2 1 <").get_stack(), &vec![Int(0)]);
    assert_eq!(run("1 1 <").get_stack(), &vec![Int(0)]);
    assert_eq!(run("1.5 2 <").get_stack(), &vec![Int(1)]);
    assert_eq!(run("-3.5 -4 <").get_stack(), &vec![Int(0)]);
}

#[test]
fn and_or_on_integer_truth() {
    assert_eq!(run("1 0 and").get_stack(), &vec![Int(0)]);
    assert_eq!(run("2 3 and").get_stack(), &vec![Int(1)]);
    assert_eq!(run("0 0 or").get_stack(), &vec![Int(0)]);
    assert_eq!(run("0 5 or").get_stack(), &vec![Int(1)]);
}

#[test]
fn dup_then_pop_restores_the_stack() {
    assert_eq!(run("1 2 dup pop").get_stack(), &vec![Int(1), Int(2)]);
}

#[test]
fn exch_twice_restores_the_stack() {
    assert_eq!(run("1 2 exch").get_stack(), &vec![Int(2), Int(1)]);
    assert_eq!(run("1 2 exch exch").get_stack(), &vec![Int(1), Int(2)]);
}

#[test]
fn index_copies_from_depth() {
    assert_eq!(
        run("10 20 30 0 index").get_stack(),
        &vec![Int(10), Int(20), Int(30), Int(30)]
    );
    assert_eq!(
        run("10 20 30 2 index").get_stack(),
        &vec![Int(10), Int(20), Int(30), Int(10)]
    );
}

#[test]
fn pi_pushes_the_single_precision_pi() {
    assert_eq!(run("pi").get_stack(), &vec![Num(std::f32::consts::PI.to_bits())]);
}

#[test]
fn puts_writes_the_printable_form() {
    let mut vm = run("42 puts");
    assert_eq!(vm.get_stack(), &Vec::new());
    assert_eq!(vm.take_output(), vec![b"42".to_vec()]);
    assert_eq!(vm.take_output(), Vec::<Vec<u8>>::new());
}

#[test]
fn integer_literals_follow_the_int_grammar() {
    assert_eq!(rustack::parser::parse_int(&b"2147483647".to_vec()), Some(2147483647));
    assert_eq!(rustack::parser::parse_int(&b"2147483648".to_vec()), None);
    assert_eq!(rustack::parser::parse_int(&b"-2147483648".to_vec()), Some(i32::MIN));
    assert_eq!(rustack::parser::parse_int(&b"-2147483649".to_vec()), None);
    assert_eq!(rustack::parser::parse_int(&b"+5".to_vec()), Some(5));
    assert_eq!(rustack::parser::parse_int(&b"007".to_vec()), Some(7));
    assert_eq!(rustack::parser::parse_int(&b"".to_vec()), None);
    assert_eq!(rustack::parser::parse_int(&b"+".to_vec()), None);
    assert_eq!(rustack::parser::parse_int(&b"--1".to_vec()), None);
    assert_eq!(rustack::parser::parse_int(&b"1a".to_vec()), None);
}

#[test]
fn number_spellings_and_near_misses() {
    // The number grammar accepts infinity and NaN spellings...
    assert_eq!(run("inf").get_stack(), &vec![Num(f32::INFINITY.to_bits())]);
    assert_eq!(run("-inf").get_stack(), &vec![Num(f32::NEG_INFINITY.to_bits())]);
    assert!(matches!(run("nan").get_stack()[0], Value::Num(b) if f32::from_bits(b).is_nan()));
    // ...but words that merely share letters with them stay operator words.
    let mut vm = rustack::vm::Vm::new();
    vm.parse_batch(&b"banana".to_vec()).expect("parse failed");
    let e = vm.eval_all().expect_err("an unknown word");
    assert!(matches!(&e.kind, rustack::error::ErrorKind::UndefinedName(n) if n == b"banana"));
}

#[test]
fn tokenize_reports_byte_offsets() {
    let toks = rustack::parser::tokenize(&b"ab  c\n d".to_vec());
    assert_eq!(
        toks,
        vec![(b"ab".to_vec(), 0usize), (b"c".to_vec(), 4usize), (b"d".to_vec(), 7usize)]
    );
}
