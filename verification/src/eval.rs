//! The step evaluator: the small-step transition of the machine, stated as
//! a spec function, and the executable step that is proved to follow it.
//!
//! One step either advances the topmost execution state by one item —
//! pushing a value, dispatching an operator, opening a frame — or performs
//! one control transition: popping a finished frame, choosing an `if`
//! branch, or advancing a `for` iteration. A failed step leaves the machine
//! exactly as it was and carries a stack trace.

use vstd::prelude::*;
use crate::error::{ErrorKind, ErrorKindV, TypeClass, VmError};
use crate::fnum::{num_add, num_sub, num_mul, num_div, num_lt, num_from_int, PI_BITS,
    num_add_bits, num_sub_bits, num_mul_bits, num_div_bits, num_lt_bits, num_from_int_bits};
use crate::names::{txt_if_cond_name, txt_if_true_name, txt_if_false_name, txt_for_name,
    push_if_cond_name, push_if_true_name, push_if_false_name, push_for_name};
use crate::trace::trace_text;
use crate::value::{
    Value, ValueV, BlockSpanV, NativeOp, Builtin, ValueKind, kind_of, is_data, as_int_spec,
    as_num_spec, value_text, copy_value, copy_spanned, copy_bytes, lemma_view_items,
};
use crate::vm::{
    Vm, VmV, ExecFrame, ExecFrameV, ExecState, ExecStateV, state_frame, view_state, lookup_var,
    assoc_get, assoc_set, view_states, view_lines, wf_vm, wf_value, wf_item, wf_pairs, wf_stack,
    wf_state, wf_exec, lemma_wf_items_upto, lemma_wf_pairs, lemma_wf_stack, lemma_wf_exec,
    lemma_assoc_set_is_data,
};

verus! {

broadcast use vstd::std_specs::vec::group_vec_axioms;

// ------------------------------------------------------------------
// The transition, in spec
// ------------------------------------------------------------------

/// A fresh frame over a block.
pub open spec fn fresh_frame(name: Seq<u8>, b: BlockSpanV) -> ExecFrameV {
    ExecFrameV { name, block: b, ip: 0, vars: Seq::empty() }
}

/// `as_int` with the error as a shadow value.
pub open spec fn as_int_v(v: ValueV) -> Result<i32, ErrorKindV> {
    match as_int_spec(v) {
        Ok(i) => Ok(i),
        Err(e) => Err(e@),
    }
}

/// `as_num` with the error as a shadow value.
pub open spec fn as_num_v(v: ValueV) -> Result<u32, ErrorKindV> {
    match as_num_spec(v) {
        Ok(b) => Ok(b),
        Err(e) => Err(e@),
    }
}

/// The bits of one arithmetic operator applied to two numbers' bits.
pub open spec fn apply_num(b: Builtin, x: u32, y: u32) -> u32 {
    match b {
        Builtin::Sub => num_sub(x, y),
        Builtin::Mul => num_mul(x, y),
        Builtin::Div => num_div(x, y),
        _ => num_add(x, y),
    }
}

/// Numeric promotion for `+ - * div`: two `Int`s stay `Int`
/// (wrap-around 32-bit arithmetic; an integer `div` by zero fails, and the
/// one overflowing quotient wraps); any `Num` operand promotes both to
/// `Num`; anything else is a type mismatch on the rightmost offender.
pub open spec fn arith_result(b: Builtin, x: ValueV, y: ValueV) -> Result<ValueV, ErrorKindV> {
    match (x, y) {
        (ValueV::Int(a), ValueV::Int(c)) => match b {
            Builtin::Add => Ok(ValueV::Int(a.wrapping_add(c))),
            Builtin::Sub => Ok(ValueV::Int(a.wrapping_sub(c))),
            Builtin::Mul => Ok(ValueV::Int(a.wrapping_mul(c))),
            _ => if c == 0 {
                Err(ErrorKindV::DivideByZero)
            } else {
                match a.checked_div(c) {
                    Some(q) => Ok(ValueV::Int(q)),
                    None => Ok(ValueV::Int(i32::MIN)),
                }
            },
        },
        (ValueV::Int(a), ValueV::Num(nb)) => Ok(ValueV::Num(apply_num(b, num_from_int(a), nb))),
        (ValueV::Num(na), ValueV::Int(c)) => Ok(ValueV::Num(apply_num(b, na, num_from_int(c)))),
        (ValueV::Num(na), ValueV::Num(nb)) => Ok(ValueV::Num(apply_num(b, na, nb))),
        _ => {
            let bad = if !(y is Int) && !(y is Num) {
                y
            } else {
                x
            };
            Err(ErrorKindV::TypeMismatch(TypeClass::Number, kind_of(bad)))
        },
    }
}

/// The deepest execution state that is a plain `Frame` — the target of
/// `def`, which skips control states so a name defined inside a branch or a
/// loop body survives it.
pub open spec fn nearest_frame(states: Seq<ExecStateV>) -> Option<int>
    decreases states.len(),
{
    if states.len() == 0 {
        None
    } else if states.last() is Frame {
        Some(states.len() - 1)
    } else {
        nearest_frame(states.drop_last())
    }
}

/// What `nearest_frame` finds: the highest `Frame` state.
pub proof fn lemma_nearest_frame(states: Seq<ExecStateV>)
    ensures
        match nearest_frame(states) {
            Some(j) => 0 <= j < states.len() && states[j] is Frame && (forall|k: int|
                j < k < states.len() ==> !(#[trigger] states[k] is Frame)),
            None => forall|k: int| 0 <= k < states.len() ==> !(#[trigger] states[k] is Frame),
        },
    decreases states.len(),
{
    if states.len() > 0 && !(states.last() is Frame) {
        lemma_nearest_frame(states.drop_last());
        assert(forall|k: int| 0 <= k < states.len() - 1 ==> states.drop_last()[k] == states[k]);
    }
}

/// The values a `for` state with an empty body pushes in one step: the
/// current induction value, then each later one below the bound.
pub open spec fn for_count(i: int, end: int) -> nat {
    if i + 1 < end {
        (end - i) as nat
    } else {
        1
    }
}

/// The `Int` values `for_count` counts, in order.
pub open spec fn for_pushes(i: int, end: int) -> Seq<ValueV> {
    Seq::new(for_count(i, end), |k: int| ValueV::Int((i + k) as i32))
}

/// What one built-in operator does to the machine. Every
/// operand is popped from the top of the data stack, rightmost first; an
/// operator that finds too few operands or the wrong variant fails and
/// changes nothing.
pub open spec fn builtin_step(b: Builtin, v: VmV) -> Result<VmV, ErrorKindV> {
    let n = v.stack.len() as int;
    match b {
        Builtin::Add | Builtin::Sub | Builtin::Mul | Builtin::Div => if n < 2 {
            Err(ErrorKindV::StackUnderflow(b))
        } else {
            match arith_result(b, v.stack[n - 2], v.stack[n - 1]) {
                Ok(res) => Ok(
                    VmV { stack: v.stack.drop_last().drop_last().push(res), ..v },
                ),
                Err(e) => Err(e),
            }
        },
        Builtin::Lt => if n < 2 {
            Err(ErrorKindV::StackUnderflow(b))
        } else {
            match as_num_v(v.stack[n - 1]) {
                Err(e) => Err(e),
                Ok(nb) => match as_num_v(v.stack[n - 2]) {
                    Err(e) => Err(e),
                    Ok(na) => Ok(
                        VmV {
                            stack: v.stack.drop_last().drop_last().push(
                                ValueV::Int(
                                    if num_lt(na, nb) {
                                        1
                                    } else {
                                        0
                                    },
                                ),
                            ),
                            ..v
                        },
                    ),
                },
            }
        },
        Builtin::Or | Builtin::And => if n < 2 {
            Err(ErrorKindV::StackUnderflow(b))
        } else {
            match as_int_v(v.stack[n - 1]) {
                Err(e) => Err(e),
                Ok(yc) => match as_int_v(v.stack[n - 2]) {
                    Err(e) => Err(e),
                    Ok(xc) => {
                        let t = if b is Or {
                            xc != 0 || yc != 0
                        } else {
                            xc != 0 && yc != 0
                        };
                        Ok(
                            VmV {
                                stack: v.stack.drop_last().drop_last().push(
                                    ValueV::Int(
                                        if t {
                                            1
                                        } else {
                                            0
                                        },
                                    ),
                                ),
                                ..v
                            },
                        )
                    },
                },
            }
        },
        Builtin::If => if n < 3 {
            Err(ErrorKindV::StackUnderflow(b))
        } else {
            match (v.stack[n - 1], v.stack[n - 2], v.stack[n - 3]) {
                (ValueV::Block(fb), ValueV::Block(tb), ValueV::Block(cb)) => Ok(
                    VmV {
                        stack: v.stack.drop_last().drop_last().drop_last(),
                        exec_stack: v.exec_stack.push(
                            ExecStateV::IfCond {
                                frame: fresh_frame(txt_if_cond_name(), cb),
                                true_branch: tb,
                                false_branch: fb,
                            },
                        ),
                        ..v
                    },
                ),
                (fbv, tbv, cbv) => {
                    let bad = if !(fbv is Block) {
                        fbv
                    } else if !(tbv is Block) {
                        tbv
                    } else {
                        cbv
                    };
                    Err(ErrorKindV::TypeMismatch(TypeClass::Block, kind_of(bad)))
                },
            }
        },
        Builtin::For => if n < 3 {
            Err(ErrorKindV::StackUnderflow(b))
        } else {
            match v.stack[n - 1] {
                ValueV::Block(body) => match as_int_v(v.stack[n - 2]) {
                    Err(e) => Err(e),
                    Ok(end) => match as_int_v(v.stack[n - 3]) {
                        Err(e) => Err(e),
                        Ok(start) => Ok(
                            VmV {
                                stack: v.stack.drop_last().drop_last().drop_last(),
                                exec_stack: v.exec_stack.push(
                                    ExecStateV::For {
                                        frame: fresh_frame(txt_for_name(), body),
                                        i: start,
                                        end,
                                    },
                                ),
                                ..v
                            },
                        ),
                    },
                },
                other => Err(ErrorKindV::TypeMismatch(TypeClass::Block, kind_of(other))),
            }
        },
        // `def` pops the value and the symbol and binds the name in the
        // nearest plain frame. The operator nominally evaluates the popped
        // value first, but a popped value is data (never an `Op`), and
        // evaluating data only pushes it back: the round trip is omitted.
        Builtin::Def => if n < 2 {
            Err(ErrorKindV::StackUnderflow(b))
        } else {
            match v.stack[n - 2] {
                ValueV::Sym(name) => match nearest_frame(v.exec_stack) {
                    Some(j) => {
                        let f = state_frame(v.exec_stack[j]);
                        let f2 = ExecFrameV {
                            vars: assoc_set(f.vars, name, v.stack[n - 1]),
                            ..f
                        };
                        Ok(
                            VmV {
                                stack: v.stack.drop_last().drop_last(),
                                exec_stack: v.exec_stack.update(j, ExecStateV::Frame(f2)),
                                ..v
                            },
                        )
                    },
                    None => Err(ErrorKindV::NoEnclosingFrame),
                },
                other => Err(ErrorKindV::TypeMismatch(TypeClass::Symbol, kind_of(other))),
            }
        },
        Builtin::Puts => if n < 1 {
            Err(ErrorKindV::StackUnderflow(b))
        } else {
            Ok(
                VmV {
                    stack: v.stack.drop_last(),
                    out: v.out.push(value_text(v.stack[n - 1])),
                    ..v
                },
            )
        },
        Builtin::Pop => if n < 1 {
            Err(ErrorKindV::StackUnderflow(b))
        } else {
            Ok(VmV { stack: v.stack.drop_last(), ..v })
        },
        Builtin::Dup => if n < 1 {
            Err(ErrorKindV::StackUnderflow(b))
        } else {
            Ok(VmV { stack: v.stack.push(v.stack[n - 1]), ..v })
        },
        Builtin::Exch => if n < 2 {
            Err(ErrorKindV::StackUnderflow(b))
        } else {
            Ok(
                VmV {
                    stack: v.stack.drop_last().drop_last().push(v.stack[n - 1]).push(
                        v.stack[n - 2],
                    ),
                    ..v
                },
            )
        },
        Builtin::Index => if n < 1 {
            Err(ErrorKindV::StackUnderflow(b))
        } else {
            match as_int_v(v.stack[n - 1]) {
                Err(e) => Err(e),
                Ok(d) => {
                    let rest = v.stack.drop_last();
                    if d < 0 || d >= rest.len() {
                        Err(ErrorKindV::StackUnderflow(b))
                    } else {
                        Ok(VmV { stack: rest.push(rest[rest.len() - 1 - d]), ..v })
                    }
                },
            }
        },
        Builtin::Load => if n < 1 {
            Err(ErrorKindV::StackUnderflow(b))
        } else {
            match v.stack[n - 1] {
                ValueV::Sym(name) => match lookup_var(v.exec_stack, v.globals, name) {
                    Some(val) => Ok(VmV { stack: v.stack.drop_last().push(val), ..v }),
                    None => Err(ErrorKindV::UndefinedName(name)),
                },
                other => Err(ErrorKindV::TypeMismatch(TypeClass::Symbol, kind_of(other))),
            }
        },
        Builtin::Pi => Ok(VmV { stack: v.stack.push(ValueV::Num(PI_BITS)), ..v }),
    }
}

/// Evaluating one value: an `Op` resolves by
/// lookup — a `Block` opens a frame named after the word, a built-in
/// native runs, a host native is recorded for the driver, any other value
/// is pushed; every non-`Op` value is pushed unchanged.
pub open spec fn eval_value_spec(v: VmV, val: ValueV) -> Result<VmV, ErrorKindV> {
    match val {
        ValueV::Op(name) => match lookup_var(v.exec_stack, v.globals, name) {
            None => Err(ErrorKindV::UndefinedName(name)),
            Some(ValueV::Block(b)) => Ok(
                VmV {
                    exec_stack: v.exec_stack.push(ExecStateV::Frame(fresh_frame(name, b))),
                    ..v
                },
            ),
            Some(ValueV::Native(NativeOp::Builtin(bi))) => builtin_step(bi, v),
            Some(ValueV::Native(NativeOp::Host(id))) => Ok(VmV { pending: Some(id), ..v }),
            Some(other) => Ok(VmV { stack: v.stack.push(other), ..v }),
        },
        _ => Ok(VmV { stack: v.stack.push(val), ..v }),
    }
}

/// The same execution state with its frame advanced past one item.
pub open spec fn bump_linear(st: ExecStateV) -> ExecStateV {
    match st {
        ExecStateV::Frame(f) => ExecStateV::Frame(ExecFrameV { ip: f.ip + 1, ..f }),
        ExecStateV::IfCond { frame, true_branch, false_branch } => ExecStateV::IfCond {
            frame: ExecFrameV { ip: frame.ip + 1, ..frame },
            true_branch,
            false_branch,
        },
        ExecStateV::IfTrue(f) => ExecStateV::IfTrue(ExecFrameV { ip: f.ip + 1, ..f }),
        ExecStateV::IfFalse(f) => ExecStateV::IfFalse(ExecFrameV { ip: f.ip + 1, ..f }),
        ExecStateV::For { frame, i, end } => ExecStateV::For {
            frame: ExecFrameV { ip: frame.ip + 1, ..frame },
            i,
            end,
        },
    }
}

/// What one step returns: nothing left to do, a new machine with the span
/// of what ran, or a failure that leaves the machine unchanged.
pub enum StepResV {
    Done,
    Next(VmV, (int, int)),
    Fail(ErrorKindV),
}

/// A linear step of the topmost state's frame: evaluate the item under the
/// instruction pointer (advancing it first), or pop the finished state and
/// return its block's span.
pub open spec fn step_linear(v: VmV, f: ExecFrameV) -> StepResV {
    if f.ip < f.block.items.len() {
        let sv = f.block.items[f.ip];
        let v1 = VmV {
            exec_stack: v.exec_stack.update(
                v.exec_stack.len() - 1,
                bump_linear(v.exec_stack.last()),
            ),
            ..v
        };
        match eval_value_spec(v1, sv.value) {
            Ok(v2) => StepResV::Next(v2, sv.span),
            Err(e) => StepResV::Fail(e),
        }
    } else {
        StepResV::Next(
            VmV { exec_stack: v.exec_stack.drop_last(), ..v },
            f.block.span,
        )
    }
}

/// A step of a `for` state: on entering the body push the induction value;
/// past the body's end, start the next iteration or pop the state; an empty
/// body drains its whole iteration space in one step.
pub open spec fn step_for(v: VmV, f: ExecFrameV, i: i32, end: i32) -> StepResV {
    let len = f.block.items.len() as int;
    if f.ip < len {
        let stack1 = if f.ip == 0 {
            v.stack.push(ValueV::Int(i))
        } else {
            v.stack
        };
        let sv = f.block.items[f.ip];
        let v1 = VmV {
            stack: stack1,
            exec_stack: v.exec_stack.update(
                v.exec_stack.len() - 1,
                bump_linear(v.exec_stack.last()),
            ),
            ..v
        };
        match eval_value_spec(v1, sv.value) {
            Ok(v2) => StepResV::Next(v2, sv.span),
            Err(e) => StepResV::Fail(e),
        }
    } else if len == 0 {
        StepResV::Next(
            VmV {
                stack: v.stack + for_pushes(i as int, end as int),
                exec_stack: v.exec_stack.drop_last(),
                ..v
            },
            f.block.span,
        )
    } else if i + 1 < end {
        let sv = f.block.items[0];
        let v1 = VmV {
            stack: v.stack.push(ValueV::Int((i + 1) as i32)),
            exec_stack: v.exec_stack.update(
                v.exec_stack.len() - 1,
                ExecStateV::For {
                    frame: ExecFrameV { ip: 1, ..f },
                    i: (i + 1) as i32,
                    end,
                },
            ),
            ..v
        };
        match eval_value_spec(v1, sv.value) {
            Ok(v2) => StepResV::Next(v2, sv.span),
            Err(e) => StepResV::Fail(e),
        }
    } else {
        StepResV::Next(
            VmV { exec_stack: v.exec_stack.drop_last(), ..v },
            f.block.span,
        )
    }
}

/// One step of the machine: nothing when the execution
/// stack is empty; a fault when a host-native call is still unserviced;
/// otherwise the transition of the topmost state.
pub open spec fn step_spec(v: VmV) -> StepResV {
    if v.pending is Some {
        StepResV::Fail(ErrorKindV::NativePending)
    } else if v.exec_stack.len() == 0 {
        StepResV::Done
    } else {
        match v.exec_stack.last() {
            ExecStateV::Frame(f) => step_linear(v, f),
            ExecStateV::IfTrue(f) => step_linear(v, f),
            ExecStateV::IfFalse(f) => step_linear(v, f),
            ExecStateV::IfCond { frame: f, true_branch, false_branch } => {
                if f.ip < f.block.items.len() {
                    step_linear(v, f)
                } else if v.stack.len() == 0 {
                    StepResV::Fail(ErrorKindV::StackUnderflow(Builtin::If))
                } else {
                    match as_int_v(v.stack.last()) {
                        Err(e) => StepResV::Fail(e),
                        Ok(c) => {
                            let chosen = if c != 0 {
                                true_branch
                            } else {
                                false_branch
                            };
                            let name = if c != 0 {
                                txt_if_true_name()
                            } else {
                                txt_if_false_name()
                            };
                            let fr = fresh_frame(name, chosen);
                            let st2 = if c != 0 {
                                ExecStateV::IfTrue(fr)
                            } else {
                                ExecStateV::IfFalse(fr)
                            };
                            let ret = if chosen.items.len() > 0 {
                                chosen.items[0].span
                            } else {
                                chosen.span
                            };
                            StepResV::Next(
                                VmV {
                                    stack: v.stack.drop_last(),
                                    exec_stack: v.exec_stack.drop_last().push(st2),
                                    ..v
                                },
                                ret,
                            )
                        },
                    }
                }
            },
            ExecStateV::For { frame: f, i, end } => step_for(v, f, i, end),
        }
    }
}

// ------------------------------------------------------------------
// Supporting lemmas
// ------------------------------------------------------------------

/// A binding found in a well-formed bindings list is data and well-formed.
proof fn lemma_assoc_get_data(pairs: Seq<(Seq<u8>, ValueV)>, name: Seq<u8>, end: int)
    requires
        forall|i: int| 0 <= i < pairs.len() ==> is_data(#[trigger] pairs[i].1) && wf_value(
            pairs[i].1,
            end,
        ),
    ensures
        match assoc_get(pairs, name) {
            Some(v) => is_data(v) && wf_value(v, end),
            None => true,
        },
    decreases pairs.len(),
{
    if pairs.len() > 0 && pairs[0].0 != name {
        let rest = pairs.subrange(1, pairs.len() as int);
        assert(forall|i: int| 0 <= i < rest.len() ==> rest[i] == pairs[i + 1]);
        lemma_assoc_get_data(rest, name, end);
    }
}

/// A value found by name lookup in a well-formed machine is data and
/// well-formed.
pub proof fn lemma_lookup_data(
    states: Seq<ExecStateV>,
    globals: Seq<(Seq<u8>, ValueV)>,
    name: Seq<u8>,
    end: int,
)
    requires
        wf_exec(states, end),
        wf_pairs(globals, end),
    ensures
        match lookup_var(states, globals, name) {
            Some(v) => is_data(v) && wf_value(v, end),
            None => true,
        },
    decreases states.len(),
{
    if states.len() == 0 {
        lemma_wf_pairs(globals, end);
        lemma_assoc_get_data(globals, name, end);
    } else {
        lemma_wf_pairs(state_frame(states.last()).vars, end);
        lemma_assoc_get_data(state_frame(states.last()).vars, name, end);
        lemma_lookup_data(states.drop_last(), globals, name, end);
    }
}

// ------------------------------------------------------------------
// The executable step
// ------------------------------------------------------------------

/// The block inside a value known to be a `Block`.
fn take_block(v: Value) -> (r: crate::value::BlockSpan)
    requires
        v@ is Block,
    ensures
        v@ == ValueV::Block(r@),
{
    match v {
        Value::Block(b) => b,
        _ => {
            proof {
                assert(false);
            }
            crate::value::BlockSpan::new(0)
        },
    }
}

/// The name inside a value known to be a `Sym`.
fn take_sym(v: Value) -> (r: Vec<u8>)
    requires
        v@ is Sym,
    ensures
        v@ == ValueV::Sym(r@),
{
    match v {
        Value::Sym(s) => s,
        _ => {
            proof {
                assert(false);
            }
            Vec::new()
        },
    }
}

/// One arithmetic operator on two operand values.
fn arith_value(b: Builtin, x: &Value, y: &Value) -> (r: Result<Value, ErrorKind>)
    requires
        b is Add || b is Sub || b is Mul || b is Div,
    ensures
        match arith_result(b, x@, y@) {
            Ok(rv) => r matches Ok(v) && v@ == rv,
            Err(e) => r matches Err(k) && k@ == e,
        },
{
    match (x, y) {
        (Value::Int(a), Value::Int(c)) => match b {
            Builtin::Add => Ok(Value::Int(a.wrapping_add(*c))),
            Builtin::Sub => Ok(Value::Int(a.wrapping_sub(*c))),
            Builtin::Mul => Ok(Value::Int(a.wrapping_mul(*c))),
            _ => {
                if *c == 0 {
                    Err(ErrorKind::DivideByZero)
                } else {
                    match a.checked_div(*c) {
                        Some(q) => Ok(Value::Int(q)),
                        None => Ok(Value::Int(i32::MIN)),
                    }
                }
            },
        },
        (Value::Int(a), Value::Num(nb)) => Ok(
            Value::Num(apply_num_bits(b, num_from_int_bits(*a), *nb)),
        ),
        (Value::Num(na), Value::Int(c)) => Ok(
            Value::Num(apply_num_bits(b, *na, num_from_int_bits(*c))),
        ),
        (Value::Num(na), Value::Num(nb)) => Ok(Value::Num(apply_num_bits(b, *na, *nb))),
        _ => {
            let yk = y.kind();
            let bad = if !matches!(yk, ValueKind::Int) && !matches!(yk, ValueKind::Num) {
                yk
            } else {
                x.kind()
            };
            Err(ErrorKind::TypeMismatch(TypeClass::Number, bad))
        },
    }
}

/// One arithmetic operator on two numbers' bits.
fn apply_num_bits(b: Builtin, x: u32, y: u32) -> (r: u32)
    ensures
        r == apply_num(b, x, y),
{
    match b {
        Builtin::Sub => num_sub_bits(x, y),
        Builtin::Mul => num_mul_bits(x, y),
        Builtin::Div => num_div_bits(x, y),
        _ => num_add_bits(x, y),
    }
}

impl Vm {
    /// Runs one built-in operator. On failure the machine is unchanged.
    #[verifier::rlimit(100)]
    #[verifier::spinoff_prover]
    fn apply_builtin(&mut self, b: Builtin) -> (r: Result<(), ErrorKind>)
        requires
            old(self).wf(),
        ensures
            final(self).wf(),
            match builtin_step(b, old(self)@) {
                Ok(v2) => r is Ok && final(self)@ == v2,
                Err(e) => (r matches Err(k) && k@ == e) && final(self)@ == old(self)@,
            },
    {
        let ghost v0 = self@;
        let ghost end = self@.src_end;
        proof {
            lemma_wf_stack(v0.stack, end);
        }
        let n = self.stack.len();
        match b {
            Builtin::Add | Builtin::Sub | Builtin::Mul | Builtin::Div => {
                if n < 2 {
                    return Err(ErrorKind::StackUnderflow(b));
                }
                let y = self.pop().unwrap();
                let x = self.pop().unwrap();
                match arith_value(b, &x, &y) {
                    Ok(res) => {
                        proof {
                            lemma_wf_stack(self@.stack, end);
                        }
                        self.push(res);
                        proof {
                            lemma_wf_stack(self@.stack, end);
                            assert(self.wf());
                        }
                        Ok(())
                    },
                    Err(k) => {
                        self.push(x);
                        self.push(y);
                        proof {
                            assert(self@.stack =~= v0.stack);
                            assert(self@ == v0);
                        }
                        Err(k)
                    },
                }
            },
            Builtin::Lt => {
                if n < 2 {
                    return Err(ErrorKind::StackUnderflow(b));
                }
                let nb = match self.stack[n - 1].as_num() {
                    Ok(t) => t,
                    Err(k) => {
                        return Err(k);
                    },
                };
                let na = match self.stack[n - 2].as_num() {
                    Ok(t) => t,
                    Err(k) => {
                        return Err(k);
                    },
                };
                let less = num_lt_bits(na, nb);
                let _ = self.pop().unwrap();
                let _ = self.pop().unwrap();
                self.push(Value::Int(if less {
                    1
                } else {
                    0
                }));
                Ok(())
            },
            Builtin::Or | Builtin::And => {
                if n < 2 {
                    return Err(ErrorKind::StackUnderflow(b));
                }
                let yc = match self.stack[n - 1].as_int() {
                    Ok(t) => t,
                    Err(k) => {
                        return Err(k);
                    },
                };
                let xc = match self.stack[n - 2].as_int() {
                    Ok(t) => t,
                    Err(k) => {
                        return Err(k);
                    },
                };
                let t = if matches!(b, Builtin::Or) {
                    xc != 0 || yc != 0
                } else {
                    xc != 0 && yc != 0
                };
                let _ = self.pop().unwrap();
                let _ = self.pop().unwrap();
                self.push(Value::Int(if t {
                    1
                } else {
                    0
                }));
                Ok(())
            },
            Builtin::If => {
                if n < 3 {
                    return Err(ErrorKind::StackUnderflow(b));
                }
                if !matches!(&self.stack[n - 1], Value::Block(_)) {
                    return Err(
                        ErrorKind::TypeMismatch(TypeClass::Block, self.stack[n - 1].kind()),
                    );
                }
                if !matches!(&self.stack[n - 2], Value::Block(_)) {
                    return Err(
                        ErrorKind::TypeMismatch(TypeClass::Block, self.stack[n - 2].kind()),
                    );
                }
                if !matches!(&self.stack[n - 3], Value::Block(_)) {
                    return Err(
                        ErrorKind::TypeMismatch(TypeClass::Block, self.stack[n - 3].kind()),
                    );
                }
                let fb = take_block(self.pop().unwrap());
                let tb = take_block(self.pop().unwrap());
                let cb = take_block(self.pop().unwrap());
                let mut name: Vec<u8> = Vec::new();
                push_if_cond_name(&mut name);
                let fr = ExecFrame::new(name, cb);
                let ghost before = self@.exec_stack;
                self.exec_stack.push(
                    ExecState::IfCond { frame: fr, true_branch: tb, false_branch: fb },
                );
                proof {
                    assert(view_states(self.exec_stack@) =~= before.push(
                        view_state(self.exec_stack@.last()),
                    ));
                    lemma_wf_exec(v0.exec_stack, end);
                    lemma_wf_exec(self@.exec_stack, end);
                    assert(self.wf());
                }
                Ok(())
            },
            Builtin::For => {
                if n < 3 {
                    return Err(ErrorKind::StackUnderflow(b));
                }
                if !matches!(&self.stack[n - 1], Value::Block(_)) {
                    return Err(
                        ErrorKind::TypeMismatch(TypeClass::Block, self.stack[n - 1].kind()),
                    );
                }
                let end_i = match self.stack[n - 2].as_int() {
                    Ok(t) => t,
                    Err(k) => {
                        return Err(k);
                    },
                };
                let start_i = match self.stack[n - 3].as_int() {
                    Ok(t) => t,
                    Err(k) => {
                        return Err(k);
                    },
                };
                let body = take_block(self.pop().unwrap());
                let _ = self.pop().unwrap();
                let _ = self.pop().unwrap();
                let mut name: Vec<u8> = Vec::new();
                push_for_name(&mut name);
                let fr = ExecFrame::new(name, body);
                let ghost before = self@.exec_stack;
                self.exec_stack.push(ExecState::For { frame: fr, i: start_i, end: end_i });
                proof {
                    assert(view_states(self.exec_stack@) =~= before.push(
                        view_state(self.exec_stack@.last()),
                    ));
                    lemma_wf_exec(v0.exec_stack, end);
                    lemma_wf_exec(self@.exec_stack, end);
                    assert(self.wf());
                }
                Ok(())
            },
            Builtin::Def => {
                if n < 2 {
                    return Err(ErrorKind::StackUnderflow(b));
                }
                if !matches!(&self.stack[n - 2], Value::Sym(_)) {
                    return Err(
                        ErrorKind::TypeMismatch(TypeClass::Symbol, self.stack[n - 2].kind()),
                    );
                }
                proof {
                    lemma_nearest_frame(v0.exec_stack);
                }
                let mut j = self.exec_stack.len();
                let mut found = false;
                while j > 0 && !found
                    invariant
                        j <= self@.exec_stack.len(),
                        !found ==> forall|k: int|
                            j <= k < self@.exec_stack.len() ==> !(
                            #[trigger] self@.exec_stack[k] is Frame),
                        found ==> j < self@.exec_stack.len() && self@.exec_stack[j as int]
                            is Frame && (forall|k: int|
                            j < k < self@.exec_stack.len() ==> !(
                            #[trigger] self@.exec_stack[k] is Frame)),
                    decreases j + (if found {
                        0int
                    } else {
                        1int
                    }),
                {
                    j = j - 1;
                    if matches!(&self.exec_stack[j], ExecState::Frame(_)) {
                        found = true;
                    }
                }
                if !found {
                    return Err(ErrorKind::NoEnclosingFrame);
                }
                proof {
                    assert(nearest_frame(v0.exec_stack) == Some(j as int)) by {
                        lemma_nearest_frame(v0.exec_stack);
                    }
                }
                let value = self.pop().unwrap();
                let symv = self.pop().unwrap();
                let name = take_sym(symv);
                let ghost before = self@.exec_stack;
                let st = self.exec_stack.remove(j);
                match st {
                    ExecState::Frame(mut f) => {
                        proof {
                            lemma_wf_exec(v0.exec_stack, end);
                            lemma_wf_pairs(f@.vars, end);
                        }
                        crate::vm::assoc_put(&mut f.vars, name, value);
                        proof {
                            lemma_assoc_set_is_data(
                                state_frame(before[j as int]).vars,
                                name@,
                                v0.stack[v0.stack.len() - 1],
                                end,
                            );
                            lemma_wf_pairs(f@.vars, end);
                        }
                        self.exec_stack.insert(j, ExecState::Frame(f));
                    },
                    other => {
                        proof {
                            assert(false);
                        }
                        self.exec_stack.insert(j, other);
                    },
                }
                proof {
                    assert(view_states(self.exec_stack@) =~= v0.exec_stack.update(
                        j as int,
                        ExecStateV::Frame(
                            ExecFrameV {
                                vars: assoc_set(
                                    state_frame(v0.exec_stack[j as int]).vars,
                                    name@,
                                    v0.stack[v0.stack.len() - 1],
                                ),
                                ..state_frame(v0.exec_stack[j as int])
                            },
                        ),
                    ));
                    lemma_wf_exec(v0.exec_stack, end);
                    lemma_wf_exec(self@.exec_stack, end);
                    lemma_wf_stack(self@.stack, end);
                    assert(self.wf());
                }
                Ok(())
            },
            Builtin::Puts => {
                if n < 1 {
                    return Err(ErrorKind::StackUnderflow(b));
                }
                let t = self.stack[n - 1].to_text();
                let _ = self.pop().unwrap();
                let ghost before = self@.out;
                self.out.push(t);
                proof {
                    assert(view_lines(self.out@) =~= before.push(self.out@.last()@));
                }
                Ok(())
            },
            Builtin::Pop => {
                if n < 1 {
                    return Err(ErrorKind::StackUnderflow(b));
                }
                let _ = self.pop().unwrap();
                Ok(())
            },
            Builtin::Dup => {
                if n < 1 {
                    return Err(ErrorKind::StackUnderflow(b));
                }
                let c = copy_value(&self.stack[n - 1]);
                self.push(c);
                Ok(())
            },
            Builtin::Exch => {
                if n < 2 {
                    return Err(ErrorKind::StackUnderflow(b));
                }
                let y = self.pop().unwrap();
                let x = self.pop().unwrap();
                self.push(y);
                self.push(x);
                Ok(())
            },
            Builtin::Index => {
                if n < 1 {
                    return Err(ErrorKind::StackUnderflow(b));
                }
                let d = match self.stack[n - 1].as_int() {
                    Ok(t) => t,
                    Err(k) => {
                        return Err(k);
                    },
                };
                if d < 0 || (d as usize) >= n - 1 {
                    return Err(ErrorKind::StackUnderflow(b));
                }
                let c = copy_value(&self.stack[n - 2 - (d as usize)]);
                let _ = self.pop().unwrap();
                self.push(c);
                proof {
                    let rest = v0.stack.drop_last();
                    assert(self@.stack =~= rest.push(rest[rest.len() - 1 - d]));
                }
                Ok(())
            },
            Builtin::Load => {
                if n < 1 {
                    return Err(ErrorKind::StackUnderflow(b));
                }
                if !matches!(&self.stack[n - 1], Value::Sym(_)) {
                    return Err(
                        ErrorKind::TypeMismatch(TypeClass::Symbol, self.stack[n - 1].kind()),
                    );
                }
                proof {
                    lemma_wf_exec(v0.exec_stack, end);
                    lemma_wf_pairs(v0.globals, end);
                }
                let found = match &self.stack[n - 1] {
                    Value::Sym(s) => self.find_var(s),
                    _ => None,
                };
                match found {
                    Some(val) => {
                        proof {
                            match self@.stack[n - 1] {
                                ValueV::Sym(sv) => {
                                    lemma_lookup_data(v0.exec_stack, v0.globals, sv, end);
                                },
                                _ => {},
                            }
                        }
                        let _ = self.pop().unwrap();
                        self.push(val);
                        Ok(())
                    },
                    None => {
                        let name = match &self.stack[n - 1] {
                            Value::Sym(s) => copy_bytes(s),
                            _ => Vec::new(),
                        };
                        Err(ErrorKind::UndefinedName(name))
                    },
                }
            },
            Builtin::Pi => {
                self.push(Value::Num(PI_BITS));
                Ok(())
            },
        }
    }

    /// Evaluates one value: resolves and dispatches an `Op`, pushes
    /// anything else. On failure the machine is unchanged.
    fn eval_value(&mut self, code: &Value) -> (r: Result<(), ErrorKind>)
        requires
            old(self).wf(),
            wf_value(code@, old(self)@.src_end),
        ensures
            final(self).wf(),
            match eval_value_spec(old(self)@, code@) {
                Ok(v2) => r is Ok && final(self)@ == v2,
                Err(e) => (r matches Err(k) && k@ == e) && final(self)@ == old(self)@,
            },
    {
        let ghost v0 = self@;
        let ghost end = self@.src_end;
        match code {
            Value::Op(name) => {
                proof {
                    lemma_lookup_data(v0.exec_stack, v0.globals, name@, end);
                }
                match self.find_var(name) {
                    None => Err(ErrorKind::UndefinedName(copy_bytes(name))),
                    Some(v) => match v {
                        Value::Block(b) => {
                            let fr = ExecFrame::new(copy_bytes(name), b);
                            let ghost before = self@.exec_stack;
                            self.exec_stack.push(ExecState::Frame(fr));
                            proof {
                                assert(view_states(self.exec_stack@) =~= before.push(
                                    view_state(self.exec_stack@.last()),
                                ));
                                lemma_wf_exec(v0.exec_stack, end);
                                lemma_wf_exec(self@.exec_stack, end);
                                assert(self.wf());
                            }
                            Ok(())
                        },
                        Value::Native(NativeOp::Builtin(bi)) => self.apply_builtin(bi),
                        Value::Native(NativeOp::Host(id)) => {
                            self.pending = Some(id);
                            Ok(())
                        },
                        other => {
                            self.push(other);
                            Ok(())
                        },
                    },
                }
            },
            _ => {
                let c = copy_value(code);
                self.push(c);
                Ok(())
            },
        }
    }

    /// Advances the machine by one step: evaluates the
    /// item under the topmost frame's instruction pointer, or performs one
    /// control transition, and returns the source span of what ran —
    /// `None` once the execution stack is empty. A failed step returns the
    /// error with a stack trace and leaves the machine exactly as it was.
    #[verifier::rlimit(100)]
    #[verifier::spinoff_prover]
    pub fn eval_step(&mut self) -> (r: Result<Option<(usize, usize)>, VmError>)
        requires
            old(self).wf(),
        ensures
            final(self).wf(),
            match step_spec(old(self)@) {
                StepResV::Done => r == Ok::<Option<(usize, usize)>, VmError>(None) && final(self)@
                    == old(self)@,
                StepResV::Next(v2, sp) => (r matches Ok(o) && o matches Some(s) && s.0 as int
                    == sp.0 && s.1 as int == sp.1) && final(self)@ == v2,
                StepResV::Fail(k) => (r matches Err(e) && e@.kind == k && e@.trace == trace_text(
                    old(self)@,
                )) && final(self)@ == old(self)@,
            },
            match r {
                Ok(Some(s)) => s.0 <= s.1 && s.1 as int <= old(self)@.src_end,
                _ => true,
            },
            forall|j: int| 0 <= j < final(self)@.stack.len() ==> is_data(
                #[trigger] final(self)@.stack[j],
            ),
    {
        let ghost v0 = self@;
        let ghost end = self@.src_end;
        proof {
            lemma_wf_exec(v0.exec_stack, end);
            lemma_wf_stack(v0.stack, end);
        }
        let r = self.eval_step_inner();
        proof {
            lemma_wf_stack(self@.stack, self@.src_end);
        }
        r
    }

    /// The body of [`Vm::eval_step`].
    #[verifier::rlimit(100)]
    #[verifier::spinoff_prover]
    fn eval_step_inner(&mut self) -> (r: Result<Option<(usize, usize)>, VmError>)
        requires
            old(self).wf(),
        ensures
            final(self).wf(),
            match step_spec(old(self)@) {
                StepResV::Done => r == Ok::<Option<(usize, usize)>, VmError>(None) && final(self)@
                    == old(self)@,
                StepResV::Next(v2, sp) => (r matches Ok(o) && o matches Some(s) && s.0 as int
                    == sp.0 && s.1 as int == sp.1) && final(self)@ == v2,
                StepResV::Fail(k) => (r matches Err(e) && e@.kind == k && e@.trace == trace_text(
                    old(self)@,
                )) && final(self)@ == old(self)@,
            },
            match r {
                Ok(Some(s)) => s.0 <= s.1 && s.1 as int <= old(self)@.src_end,
                _ => true,
            },
    {
        let ghost v0 = self@;
        let ghost end = self@.src_end;
        proof {
            lemma_wf_exec(v0.exec_stack, end);
            lemma_wf_stack(v0.stack, end);
        }
        if self.pending.is_some() {
            let trace = self.stack_trace();
            return Err(VmError { kind: ErrorKind::NativePending, trace });
        }
        if self.exec_stack.len() == 0 {
            return Ok(None);
        }
        let st = self.exec_stack.pop().unwrap();
        let ghost stv = view_state(st);
        proof {
            assert(view_states(self.exec_stack@) =~= v0.exec_stack.drop_last());
        }
        match st {
            ExecState::Frame(f) => {
                proof {
                    assert(self@.exec_stack.push(relabel(0, f@)) =~= v0.exec_stack);
                    assert(VmV {
                        exec_stack: self@.exec_stack.push(relabel(0, f@)),
                        ..self@
                    } == v0);
                }
                self.step_linear_exec(f, 0)
            },
            ExecState::IfTrue(f) => {
                proof {
                    assert(self@.exec_stack.push(relabel(1, f@)) =~= v0.exec_stack);
                    assert(VmV {
                        exec_stack: self@.exec_stack.push(relabel(1, f@)),
                        ..self@
                    } == v0);
                }
                self.step_linear_exec(f, 1)
            },
            ExecState::IfFalse(f) => {
                proof {
                    assert(self@.exec_stack.push(relabel(2, f@)) =~= v0.exec_stack);
                    assert(VmV {
                        exec_stack: self@.exec_stack.push(relabel(2, f@)),
                        ..self@
                    } == v0);
                }
                self.step_linear_exec(f, 2)
            },
            ExecState::IfCond { frame, true_branch, false_branch } => {
                if frame.ip < frame.block.block.len() {
                    proof {
                        crate::value::lemma_view_items(frame.block.block@);
                        assert(self@.exec_stack.push(ExecStateV::IfCond {
                            frame: frame@,
                            true_branch: crate::value::view_block(true_branch),
                            false_branch: crate::value::view_block(false_branch),
                        }) =~= v0.exec_stack);
                        assert(VmV {
                            exec_stack: self@.exec_stack.push(ExecStateV::IfCond {
                                frame: frame@,
                                true_branch: crate::value::view_block(true_branch),
                                false_branch: crate::value::view_block(false_branch),
                            }),
                            ..self@
                        } == v0);
                    }
                    self.step_cond_exec(frame, true_branch, false_branch)
                } else {
                    proof {
                        crate::value::lemma_view_items(frame.block.block@);
                        assert(v0.exec_stack.last() == ExecStateV::IfCond {
                            frame: frame@,
                            true_branch: crate::value::view_block(true_branch),
                            false_branch: crate::value::view_block(false_branch),
                        });
                    }
                    let n = self.stack.len();
                    if n == 0 {
                        self.exec_stack.push(
                            ExecState::IfCond { frame, true_branch, false_branch },
                        );
                        proof {
                            assert(self@.exec_stack =~= v0.exec_stack);
                            assert(self@ == v0);
                        }
                        let trace = self.stack_trace();
                        return Err(
                            VmError { kind: ErrorKind::StackUnderflow(Builtin::If), trace },
                        );
                    }
                    let c = match self.stack[n - 1].as_int() {
                        Ok(t) => t,
                        Err(k) => {
                            self.exec_stack.push(
                                ExecState::IfCond { frame, true_branch, false_branch },
                            );
                            proof {
                                assert(self@.exec_stack =~= v0.exec_stack);
                                assert(self@ == v0);
                            }
                            let trace = self.stack_trace();
                            return Err(VmError { kind: k, trace });
                        },
                    };
                    let _ = self.pop().unwrap();
                    let chosen = if c != 0 {
                        true_branch
                    } else {
                        false_branch
                    };
                    let ret: (usize, usize) = if chosen.block.len() > 0 {
                        chosen.block[0].span
                    } else {
                        chosen.span
                    };
                    let mut name: Vec<u8> = Vec::new();
                    if c != 0 {
                        push_if_true_name(&mut name);
                    } else {
                        push_if_false_name(&mut name);
                    }
                    let fr = ExecFrame::new(name, chosen);
                    let ghost before = self@.exec_stack;
                    if c != 0 {
                        self.exec_stack.push(ExecState::IfTrue(fr));
                    } else {
                        self.exec_stack.push(ExecState::IfFalse(fr));
                    }
                    proof {
                        assert(view_states(self.exec_stack@) =~= before.push(
                            view_state(self.exec_stack@.last()),
                        ));
                        lemma_wf_exec(self@.exec_stack, end);
                        lemma_wf_stack(self@.stack, end);
                        assert(self.wf());
                        if chosen.block@.len() > 0 {
                            lemma_view_items(chosen.block@);
                            crate::vm::lemma_wf_items_upto(
                                crate::value::view_block(chosen).items,
                                end,
                            );
                        }
                    }
                    Ok(Some(ret))
                }
            },
            ExecState::For { frame, i, end: bound } => {
                proof {
                    assert(self@.exec_stack.push(ExecStateV::For { frame: frame@, i, end: bound })
                        =~= v0.exec_stack);
                    assert(VmV {
                        exec_stack: self@.exec_stack.push(
                            ExecStateV::For { frame: frame@, i, end: bound },
                        ),
                        ..self@
                    } == v0);
                }
                self.step_for_exec(frame, i, bound)
            },
        }
    }

    /// A linear step of a popped frame; `which` says which state variant
    /// held it: 0 a plain frame, 1 the true branch, 2 the false branch.
    #[verifier::rlimit(100)]
    #[verifier::spinoff_prover]
    fn step_linear_exec(&mut self, f: ExecFrame, which: u8) -> (r: Result<
        Option<(usize, usize)>,
        VmError,
    >)
        requires
            wf_vm(
                VmV {
                    exec_stack: old(self)@.exec_stack.push(relabel(which, f@)),
                    ..old(self)@
                },
            ),
            old(self)@.pending is None,
        ensures
            final(self).wf(),
            ({
                let v0 = VmV {
                    exec_stack: old(self)@.exec_stack.push(relabel(which, f@)),
                    ..old(self)@
                };
                match step_linear(v0, f@) {
                    StepResV::Next(v2, sp) => (r matches Ok(o) && o matches Some(s) && s.0 as int
                        == sp.0 && s.1 as int == sp.1) && final(self)@ == v2,
                    StepResV::Fail(k) => (r matches Err(e) && e@.kind == k && e@.trace
                        == trace_text(v0)) && final(self)@ == v0,
                    StepResV::Done => false,
                }
            }),
            match r {
                Ok(Some(s)) => s.0 <= s.1 && s.1 as int <= old(self)@.src_end,
                _ => true,
            },
    {
        let ghost fentry = f@;
        let ghost v0 = VmV { exec_stack: old(self)@.exec_stack.push(relabel(which, f@)), ..old(self)@ };
        let ghost end = self@.src_end;
        let mut f = f;
        proof {
            lemma_wf_exec(v0.exec_stack, end);
            assert(v0.exec_stack.last() == relabel(which, fentry));
            assert(wf_state(relabel(which, fentry), end));
            lemma_wf_items_upto(fentry.block.items, end);
            crate::value::lemma_view_items(f.block.block@);
        }
        if f.ip < f.block.block.len() {
            let item = copy_spanned(&f.block.block[f.ip]);
            let oldip = f.ip;
            f.ip = f.ip + 1;
            let ghost bumped = relabel(which, f@);
            let ghost before = self@.exec_stack;
            if which == 0 {
                self.exec_stack.push(ExecState::Frame(f));
            } else if which == 1 {
                self.exec_stack.push(ExecState::IfTrue(f));
            } else {
                self.exec_stack.push(ExecState::IfFalse(f));
            }
            proof {
                assert(view_states(self.exec_stack@) =~= before.push(bumped));
                assert(self@.exec_stack =~= v0.exec_stack.update(
                    v0.exec_stack.len() - 1,
                    bump_linear(v0.exec_stack.last()),
                ));
                lemma_wf_exec(self@.exec_stack, end);
                lemma_view_items(f.block.block@);
                assert(wf_item(item@, end));
                assert(self.wf());
            }
            let ghost v1 = self@;
            match self.eval_value(&item.value) {
                Ok(()) => Ok(Some(item.span)),
                Err(k) => {
                    proof {
                        assert(self@ == v1);
                    }
                    let ghost prevvec = self.exec_stack@;
                    let st2 = self.exec_stack.pop().unwrap();
                    let ghost afterpop = self@.exec_stack;
                    proof {
                        assert(view_state(st2) == view_states(prevvec).last());
                        assert(view_states(prevvec) == v1.exec_stack);
                        assert(view_state(st2) == bumped);
                        assert(afterpop =~= v1.exec_stack.drop_last());
                        assert(afterpop =~= v0.exec_stack.drop_last());
                    }
                    match st2 {
                        ExecState::Frame(mut f2) => {
                            f2.ip = oldip;
                            proof {
                                assert(f2@ =~~= fentry);
                            }
                            self.exec_stack.push(ExecState::Frame(f2));
                        },
                        ExecState::IfTrue(mut f2) => {
                            f2.ip = oldip;
                            proof {
                                assert(f2@ =~~= fentry);
                            }
                            self.exec_stack.push(ExecState::IfTrue(f2));
                        },
                        ExecState::IfFalse(mut f2) => {
                            f2.ip = oldip;
                            proof {
                                assert(f2@ =~~= fentry);
                            }
                            self.exec_stack.push(ExecState::IfFalse(f2));
                        },
                        other => {
                            proof {
                                assert(false);
                            }
                            self.exec_stack.push(other);
                        },
                    }
                    proof {
                        assert(view_states(self.exec_stack@) =~= afterpop.push(
                            view_state(self.exec_stack@.last()),
                        ));
                        assert(view_state(self.exec_stack@.last()) == relabel(which, fentry));
                        assert(self@.exec_stack =~= v0.exec_stack);
                        assert(self@ == v0);
                    }
                    let trace = self.stack_trace();
                    Err(VmError { kind: k, trace })
                },
            }
        } else {
            proof {
                assert(self@.exec_stack =~= v0.exec_stack.drop_last());
                lemma_wf_exec(self@.exec_stack, end);
                assert(self.wf());
            }
            Ok(Some((f.block.span.0, f.block.span.1)))
        }
    }

    /// A linear step of the condition frame of an `if`.
    #[verifier::rlimit(100)]
    #[verifier::spinoff_prover]
    fn step_cond_exec(&mut self, f: ExecFrame, tb: crate::value::BlockSpan, fb: crate::value::BlockSpan) -> (r: Result<
        Option<(usize, usize)>,
        VmError,
    >)
        requires
            wf_vm(
                VmV {
                    exec_stack: old(self)@.exec_stack.push(
                        ExecStateV::IfCond {
                            frame: f@,
                            true_branch: crate::value::view_block(tb),
                            false_branch: crate::value::view_block(fb),
                        },
                    ),
                    ..old(self)@
                },
            ),
            old(self)@.pending is None,
            f@.ip < f@.block.items.len(),
        ensures
            final(self).wf(),
            ({
                let v0 = VmV {
                    exec_stack: old(self)@.exec_stack.push(
                        ExecStateV::IfCond {
                            frame: f@,
                            true_branch: crate::value::view_block(tb),
                            false_branch: crate::value::view_block(fb),
                        },
                    ),
                    ..old(self)@
                };
                match step_linear(v0, f@) {
                    StepResV::Next(v2, sp) => (r matches Ok(o) && o matches Some(s) && s.0 as int
                        == sp.0 && s.1 as int == sp.1) && final(self)@ == v2,
                    StepResV::Fail(k) => (r matches Err(e) && e@.kind == k && e@.trace
                        == trace_text(v0)) && final(self)@ == v0,
                    StepResV::Done => false,
                }
            }),
            match r {
                Ok(Some(s)) => s.0 <= s.1 && s.1 as int <= old(self)@.src_end,
                _ => true,
            },
    {
        let ghost fentry = f@;
        let ghost v0 = VmV {
            exec_stack: old(self)@.exec_stack.push(
                ExecStateV::IfCond {
                    frame: f@,
                    true_branch: crate::value::view_block(tb),
                    false_branch: crate::value::view_block(fb),
                },
            ),
            ..old(self)@
        };
        let ghost end = self@.src_end;
        let mut f = f;
        proof {
            lemma_wf_exec(v0.exec_stack, end);
            assert(wf_state(v0.exec_stack.last(), end));
            lemma_wf_items_upto(fentry.block.items, end);
            crate::value::lemma_view_items(f.block.block@);
        }
        let blen = f.block.block.len();
        proof {
            assert(f.ip < blen);
        }
        let item = copy_spanned(&f.block.block[f.ip]);
        let oldip = f.ip;
        f.ip = f.ip + 1;
        let ghost before = self@.exec_stack;
        self.exec_stack.push(ExecState::IfCond { frame: f, true_branch: tb, false_branch: fb });
        proof {
            assert(view_states(self.exec_stack@) =~= before.push(
                view_state(self.exec_stack@.last()),
            ));
            assert(self@.exec_stack =~= v0.exec_stack.update(
                v0.exec_stack.len() - 1,
                bump_linear(v0.exec_stack.last()),
            ));
            lemma_wf_exec(self@.exec_stack, end);
            assert(wf_item(item@, end));
            assert(self.wf());
        }
        let ghost v1 = self@;
        match self.eval_value(&item.value) {
            Ok(()) => Ok(Some(item.span)),
            Err(k) => {
                proof {
                    assert(self@ == v1);
                    assert(v1.exec_stack == v0.exec_stack.update(
                        v0.exec_stack.len() - 1,
                        bump_linear(v0.exec_stack.last()),
                    ));
                }
                let ghost prevvec = self.exec_stack@;
                let st2 = self.exec_stack.pop().unwrap();
                let ghost afterpop = self@.exec_stack;
                proof {
                    assert(view_state(st2) == view_states(prevvec).last());
                    assert(view_states(prevvec) == v1.exec_stack);
                    assert(view_state(st2) == bump_linear(v0.exec_stack.last()));
                    assert(afterpop =~= v1.exec_stack.drop_last());
                    assert(afterpop =~= v0.exec_stack.drop_last());
                }
                match st2 {
                    ExecState::IfCond { frame: mut f2, true_branch, false_branch } => {
                        f2.ip = oldip;
                        proof {
                            assert(f2@ =~~= fentry);
                        }
                        self.exec_stack.push(
                            ExecState::IfCond { frame: f2, true_branch, false_branch },
                        );
                    },
                    other => {
                        proof {
                            assert(false);
                        }
                        self.exec_stack.push(other);
                    },
                }
                proof {
                    assert(view_states(self.exec_stack@) =~= afterpop.push(
                        view_state(self.exec_stack@.last()),
                    ));
                    assert(view_state(self.exec_stack@.last()) == v0.exec_stack.last());
                    assert(self@.exec_stack =~= v0.exec_stack);
                    assert(self@ == v0);
                }
                let trace = self.stack_trace();
                Err(VmError { kind: k, trace })
            },
        }
    }

    /// A step of a popped `for` state.
    #[verifier::rlimit(100)]
    #[verifier::spinoff_prover]
    fn step_for_exec(&mut self, f: ExecFrame, i: i32, bound: i32) -> (r: Result<
        Option<(usize, usize)>,
        VmError,
    >)
        requires
            wf_vm(
                VmV {
                    exec_stack: old(self)@.exec_stack.push(
                        ExecStateV::For { frame: f@, i, end: bound },
                    ),
                    ..old(self)@
                },
            ),
            old(self)@.pending is None,
        ensures
            final(self).wf(),
            ({
                let v0 = VmV {
                    exec_stack: old(self)@.exec_stack.push(
                        ExecStateV::For { frame: f@, i, end: bound },
                    ),
                    ..old(self)@
                };
                match step_for(v0, f@, i, bound) {
                    StepResV::Next(v2, sp) => (r matches Ok(o) && o matches Some(s) && s.0 as int
                        == sp.0 && s.1 as int == sp.1) && final(self)@ == v2,
                    StepResV::Fail(k) => (r matches Err(e) && e@.kind == k && e@.trace
                        == trace_text(v0)) && final(self)@ == v0,
                    StepResV::Done => false,
                }
            }),
            match r {
                Ok(Some(s)) => s.0 <= s.1 && s.1 as int <= old(self)@.src_end,
                _ => true,
            },
    {
        let ghost fentry = f@;
        let ghost v0 = VmV {
            exec_stack: old(self)@.exec_stack.push(ExecStateV::For { frame: f@, i, end: bound }),
            ..old(self)@
        };
        let ghost end = self@.src_end;
        let mut f = f;
        proof {
            lemma_wf_exec(v0.exec_stack, end);
            assert(wf_state(v0.exec_stack.last(), end));
            lemma_wf_items_upto(fentry.block.items, end);
            lemma_wf_stack(v0.stack, end);
            crate::value::lemma_view_items(f.block.block@);
        }
        let len = f.block.block.len();
        if f.ip < len {
            let pushed0 = f.ip == 0;
            if pushed0 {
                self.push(Value::Int(i));
            }
            let item = copy_spanned(&f.block.block[f.ip]);
            let oldip = f.ip;
            f.ip = f.ip + 1;
            let ghost before = self@.exec_stack;
            self.exec_stack.push(ExecState::For { frame: f, i, end: bound });
            proof {
                assert(view_states(self.exec_stack@) =~= before.push(
                    view_state(self.exec_stack@.last()),
                ));
                assert(self@.exec_stack =~= v0.exec_stack.update(
                    v0.exec_stack.len() - 1,
                    bump_linear(v0.exec_stack.last()),
                ));
                lemma_wf_exec(self@.exec_stack, end);
                lemma_wf_stack(self@.stack, end);
                assert(wf_item(item@, end));
                assert(self.wf());
            }
            let ghost v1 = self@;
            match self.eval_value(&item.value) {
                Ok(()) => Ok(Some(item.span)),
                Err(k) => {
                    proof {
                        assert(self@ == v1);
                        assert(v1.exec_stack == v0.exec_stack.update(
                            v0.exec_stack.len() - 1,
                            bump_linear(v0.exec_stack.last()),
                        ));
                    }
                    let ghost prevvec = self.exec_stack@;
                    let st2 = self.exec_stack.pop().unwrap();
                    let ghost afterpop = self@.exec_stack;
                    proof {
                        assert(view_state(st2) == view_states(prevvec).last());
                        assert(view_states(prevvec) == v1.exec_stack);
                        assert(view_state(st2) == bump_linear(v0.exec_stack.last()));
                        assert(afterpop =~= v1.exec_stack.drop_last());
                        assert(afterpop =~= v0.exec_stack.drop_last());
                    }
                    match st2 {
                        ExecState::For { frame: mut f2, i: i2, end: b2 } => {
                            f2.ip = oldip;
                            proof {
                                assert(f2@ =~~= fentry);
                            }
                            self.exec_stack.push(ExecState::For { frame: f2, i: i2, end: b2 });
                        },
                        other => {
                            proof {
                                assert(false);
                            }
                            self.exec_stack.push(other);
                        },
                    }
                    if pushed0 {
                        let _ = self.pop().unwrap();
                    }
                    proof {
                        assert(view_states(self.exec_stack@) =~= afterpop.push(
                            view_state(self.exec_stack@.last()),
                        ));
                        assert(view_state(self.exec_stack@.last()) == v0.exec_stack.last());
                        assert(self@.exec_stack =~= v0.exec_stack);
                        assert(self@.stack =~= v0.stack);
                        assert(self@ == v0);
                    }
                    let trace = self.stack_trace();
                    Err(VmError { kind: k, trace })
                },
            }
        } else if len == 0 {
            let ghost base = self@.stack;
            let mut j = i;
            self.push(Value::Int(j));
            proof {
                assert(self@.stack =~= base + Seq::new(1nat, |k: int| ValueV::Int((i + k) as i32)));
                assert(v0.exec_stack.drop_last() =~= old(self)@.exec_stack);
                assert(self@ == (VmV {
                    stack: base + Seq::new(1nat, |k: int| ValueV::Int((i + k) as i32)),
                    exec_stack: v0.exec_stack.drop_last(),
                    ..v0
                }));
                assert(wf_stack(self@.stack, end)) by {
                    lemma_wf_stack(self@.stack, end);
                    assert(forall|m: int| 0 <= m < self@.stack.len() - 1 ==> self@.stack[m]
                        == v0.stack[m]);
                }
            }
            while (j as i64) + 1 < (bound as i64)
                invariant
                    self@ == (VmV {
                        stack: base + Seq::new(
                            (j - i + 1) as nat,
                            |k: int| ValueV::Int((i + k) as i32),
                        ),
                        exec_stack: v0.exec_stack.drop_last(),
                        ..v0
                    }),
                    i <= j,
                    j == i || j < bound,
                    wf_vm(v0),
                    base == v0.stack,
                    end == v0.src_end,
                    wf_stack(self@.stack, end),
                decreases (bound as int) - j,
            {
                j = j + 1;
                let ghost prev = self@.stack;
                self.push(Value::Int(j));
                proof {
                    assert(self@.stack =~= base + Seq::new(
                        (j - i + 1) as nat,
                        |k: int| ValueV::Int((i + k) as i32),
                    ));
                    assert(wf_stack(self@.stack, end)) by {
                        lemma_wf_stack(prev, end);
                        lemma_wf_stack(self@.stack, end);
                        assert(forall|m: int| 0 <= m < self@.stack.len() - 1 ==> self@.stack[m]
                            == prev[m]);
                    }
                }
            }
            proof {
                assert(self@.stack =~= v0.stack + for_pushes(i as int, bound as int));
                lemma_wf_exec(self@.exec_stack, end);
                assert(self.wf());
            }
            Ok(Some((f.block.span.0, f.block.span.1)))
        } else {
            if (i as i64) + 1 < (bound as i64) {
                let i2 = i + 1;
                self.push(Value::Int(i2));
                let item = copy_spanned(&f.block.block[0]);
                let oldip = f.ip;
                f.ip = 1;
                let ghost before = self@.exec_stack;
                self.exec_stack.push(ExecState::For { frame: f, i: i2, end: bound });
                proof {
                    assert(view_states(self.exec_stack@) =~= before.push(
                        view_state(self.exec_stack@.last()),
                    ));
                    assert(self@.exec_stack =~= v0.exec_stack.update(
                        v0.exec_stack.len() - 1,
                        ExecStateV::For {
                            frame: ExecFrameV { ip: 1, ..f@ },
                            i: (i + 1) as i32,
                            end: bound,
                        },
                    ));
                    lemma_wf_exec(self@.exec_stack, end);
                    lemma_wf_stack(self@.stack, end);
                    assert(wf_item(item@, end));
                    assert(self.wf());
                }
                let ghost v1 = self@;
                match self.eval_value(&item.value) {
                    Ok(()) => Ok(Some(item.span)),
                    Err(k) => {
                        proof {
                            assert(self@ == v1);
                            assert(v1.exec_stack == v0.exec_stack.update(
                                v0.exec_stack.len() - 1,
                                ExecStateV::For {
                                    frame: ExecFrameV { ip: 1, ..fentry },
                                    i: (i + 1) as i32,
                                    end: bound,
                                },
                            ));
                        }
                        let ghost prevvec = self.exec_stack@;
                        let st2 = self.exec_stack.pop().unwrap();
                        let ghost afterpop = self@.exec_stack;
                        proof {
                            assert(view_state(st2) == view_states(prevvec).last());
                            assert(view_states(prevvec) == v1.exec_stack);
                            assert(afterpop =~= v1.exec_stack.drop_last());
                            assert(afterpop =~= v0.exec_stack.drop_last());
                        }
                        match st2 {
                            ExecState::For { frame: mut f2, i: _, end: b2 } => {
                                f2.ip = oldip;
                                proof {
                                    assert(f2@ =~~= fentry);
                                }
                                self.exec_stack.push(
                                    ExecState::For { frame: f2, i, end: b2 },
                                );
                            },
                            other => {
                                proof {
                                    assert(false);
                                }
                                self.exec_stack.push(other);
                            },
                        }
                        let _ = self.pop().unwrap();
                        proof {
                            assert(view_states(self.exec_stack@) =~= afterpop.push(
                                view_state(self.exec_stack@.last()),
                            ));
                            assert(view_state(self.exec_stack@.last()) == v0.exec_stack.last());
                            assert(self@.exec_stack =~= v0.exec_stack);
                            assert(self@.stack =~= v0.stack);
                            assert(self@ == v0);
                        }
                        let trace = self.stack_trace();
                        Err(VmError { kind: k, trace })
                    },
                }
            } else {
                proof {
                    assert(self@.exec_stack =~= v0.exec_stack.drop_last());
                    lemma_wf_exec(self@.exec_stack, end);
                    assert(self.wf());
                }
                Ok(Some((f.block.span.0, f.block.span.1)))
            }
        }
    }

    /// Calls `eval_step` until the program terminates or a step fails,
    /// taking at most `u64::MAX` steps — a budget no machine exhausts, but
    /// one that makes every call provably finite. A program that reaches a
    /// host-registered native must be driven with `eval_step` instead,
    /// servicing each pending call between steps.
    #[verifier::rlimit(100)]
    #[verifier::spinoff_prover]
    pub fn eval_all(&mut self) -> (r: Result<(), VmError>)
        requires
            old(self).wf(),
        ensures
            final(self).wf(),
            exists|n: nat|
                reaches(old(self)@, final(self)@, n) && ((r matches Err(e) && e@.kind
                    is StepLimit) ==> n == u64::MAX),
            r is Ok ==> final(self)@.exec_stack.len() == 0,
            match r {
                Err(e) => (step_spec(final(self)@) == StepResV::Fail(e@.kind) && e@.trace
                    == trace_text(final(self)@)) || e@.kind is StepLimit,
                _ => true,
            },
    {
        let ghost mut n: nat = 0;
        proof {
            assert(reaches(old(self)@, self@, 0));
        }
        let mut left: u64 = u64::MAX;
        while left > 0
            invariant
                self.wf(),
                reaches(old(self)@, self@, n),
                n == u64::MAX - left,
            decreases left,
        {
            let ghost prev = self@;
            let ghost priorn = n;
            match self.eval_step() {
                Ok(Some(_)) => {
                    proof {
                        n = n + 1;
                        lemma_reaches_extend(old(self)@, prev, priorn, self@);
                    }
                },
                Ok(None) => {
                    return Ok(());
                },
                Err(e) => {
                    return Err(e);
                },
            }
            left = left - 1;
        }
        let trace = self.stack_trace();
        Err(VmError { kind: ErrorKind::StepLimit, trace })
    }
}

/// The same execution state variant — plain frame, true branch, false
/// branch — holding the given frame.
pub open spec fn relabel(which: u8, f: ExecFrameV) -> ExecStateV {
    if which == 0 {
        ExecStateV::Frame(f)
    } else if which == 1 {
        ExecStateV::IfTrue(f)
    } else {
        ExecStateV::IfFalse(f)
    }
}

/// The machine `b` is what `n` successful steps make of the machine `a`.
pub open spec fn reaches(a: VmV, b: VmV, n: nat) -> bool
    decreases n,
{
    if n == 0 {
        a == b
    } else {
        exists|c: VmV, sp: (int, int)|
            step_spec(a) == StepResV::Next(c, sp) && reaches(c, b, (n - 1) as nat)
    }
}

/// A chain of steps extends by one more step at its end.
pub proof fn lemma_reaches_extend(a: VmV, b: VmV, n: nat, c: VmV)
    requires
        reaches(a, b, n),
        exists|sp: (int, int)| step_spec(b) == StepResV::Next(c, sp),
    ensures
        reaches(a, c, n + 1),
    decreases n,
{
    if n == 0 {
        assert(reaches(c, c, 0));
    } else {
        let (m, sp) = choose|m: VmV, sp: (int, int)|
            step_spec(a) == StepResV::Next(m, sp) && reaches(m, b, (n - 1) as nat);
        lemma_reaches_extend(m, b, (n - 1) as nat, c);
    }
}

} // verus!
