//! The diagnostic stack trace, and the read-only reports a driver shows:
//! printable forms of the data stack, and the frames with their locals.

use vstd::prelude::*;
use crate::names::{
    txt_trace_head, txt_frame_open, txt_frame_name, txt_frame_mid, txt_frame_stack,
    txt_comma_space, txt_colon_space, txt_newline, txt_space, push_trace_head, push_frame_open,
    push_frame_name, push_frame_mid, push_frame_stack, push_comma_space, push_colon_space,
    push_newline, push_space,
};
use crate::text::{dec_digits, usize_text};
use crate::value::{ValueV, ValueSpanV, value_text, copy_bytes};
use crate::vm::{Vm, VmV, ExecStateV, state_frame, view_vars, view_lines, view_states};

verus! {

broadcast use vstd::std_specs::vec::group_vec_axioms;

/// One local binding as printed: the name, ": ", the value's printable form.
pub open spec fn pair_text(p: (Seq<u8>, ValueV)) -> Seq<u8> {
    p.0 + txt_colon_space() + value_text(p.1)
}

/// A frame's locals as printed: the bindings joined with ", ".
pub open spec fn locals_text(vars: Seq<(Seq<u8>, ValueV)>) -> Seq<u8>
    decreases vars.len(),
{
    if vars.len() == 0 {
        Seq::empty()
    } else if vars.len() == 1 {
        pair_text(vars[0])
    } else {
        locals_text(vars.drop_last()) + txt_comma_space() + pair_text(vars.last())
    }
}

/// A frame's block contents as printed: a space before each item's
/// printable form.
pub open spec fn items_text(items: Seq<ValueSpanV>) -> Seq<u8>
    decreases items.len(),
{
    if items.len() == 0 {
        Seq::empty()
    } else {
        items_text(items.drop_last()) + txt_space() + value_text(items.last().value)
    }
}

/// The block items a frame has not executed yet: those from its
/// instruction pointer on.
pub open spec fn remaining_items(f: crate::vm::ExecFrameV) -> Seq<ValueSpanV> {
    let len = f.block.items.len() as int;
    let lo = if 0 <= f.ip && f.ip <= len {
        f.ip
    } else {
        len
    };
    f.block.items.subrange(lo, len)
}

/// One trace line: `    frame[idx] name: locals: {..}, stack: ..` and a
/// newline — the state's name, its locals, and the block contents it has
/// not executed yet.
pub open spec fn frame_line(idx: nat, st: ExecStateV) -> Seq<u8> {
    txt_frame_open() + dec_digits(idx) + txt_frame_name() + state_frame(st).name + txt_frame_mid()
        + locals_text(state_frame(st).vars) + txt_frame_stack() + items_text(
        remaining_items(state_frame(st)),
    ) + txt_newline()
}

/// The trace lines for the given states, topmost first, starting at `idx`.
pub open spec fn trace_lines(states: Seq<ExecStateV>, idx: nat) -> Seq<u8>
    decreases states.len(),
{
    if states.len() == 0 {
        Seq::empty()
    } else {
        frame_line(idx, states.last()) + trace_lines(states.drop_last(), idx + 1)
    }
}

/// The whole trace: a heading, then one line per execution state, top to
/// bottom.
pub open spec fn trace_text(v: VmV) -> Seq<u8> {
    txt_trace_head() + trace_lines(v.exec_stack, 0)
}

/// The printable forms of the data stack, bottom first.
pub open spec fn stack_texts_of(stack: Seq<ValueV>) -> Seq<Seq<u8>> {
    Seq::new(stack.len(), |i: int| value_text(stack[i]))
}

/// The shadow of a produced frame report.
pub open spec fn view_report(r: Seq<(Vec<u8>, Vec<(Vec<u8>, Vec<u8>)>)>) -> Seq<
    (Seq<u8>, Seq<(Seq<u8>, Seq<u8>)>),
> {
    Seq::new(
        r.len(),
        |i: int|
            (r[i].0@, Seq::new(r[i].1@.len(), |j: int| (r[i].1@[j].0@, r[i].1@[j].1@))),
    )
}

/// The frame report: for each state, topmost first, its name and its locals
/// as (name, printable) pairs in binding order.
pub open spec fn report_of(states: Seq<ExecStateV>) -> Seq<(Seq<u8>, Seq<(Seq<u8>, Seq<u8>)>)> {
    Seq::new(
        states.len(),
        |i: int|
            {
                let f = state_frame(states[states.len() - 1 - i]);
                (f.name, Seq::new(f.vars.len(), |j: int| (f.vars[j].0, value_text(f.vars[j].1))))
            },
    )
}

impl Vm {
    /// The diagnostic stack trace: for each execution state, top to bottom,
    /// its index and name, its locals, and the block contents it has not
    /// executed yet.
    #[verifier::rlimit(100)]
    #[verifier::spinoff_prover]
    pub fn stack_trace(&self) -> (r: Vec<u8>)
        ensures
            r@ == trace_text(self@),
    {
        let mut out: Vec<u8> = Vec::new();
        push_trace_head(&mut out);
        let n = self.exec_stack.len();
        let mut k = n;
        proof {
            assert(self@.exec_stack.subrange(0, n as int) =~= self@.exec_stack);
        }
        while k > 0
            invariant
                k <= n,
                n == self.exec_stack@.len(),
                self@.exec_stack.len() == n,
                trace_text(self@) == out@ + trace_lines(
                    self@.exec_stack.subrange(0, k as int),
                    (n - k) as nat,
                ),
            decreases k,
        {
            let ghost pre = self@.exec_stack.subrange(0, k as int);
            proof {
                assert(pre.last() == self@.exec_stack[k - 1]);
                assert(pre.drop_last() =~= self@.exec_stack.subrange(0, k - 1));
            }
            k = k - 1;
            let st = &self.exec_stack[k];
            let f = st.as_frame();
            let ghost base = out@;
            push_frame_open(&mut out);
            let mut d = usize_text(n - 1 - k);
            out.append(&mut d);
            push_frame_name(&mut out);
            let mut nm = copy_bytes(&f.name);
            out.append(&mut nm);
            push_frame_mid(&mut out);
            let ghost linestart = out@;
            let mut vi: usize = 0;
            while vi < f.vars.len()
                invariant
                    vi <= f.vars@.len(),
                    view_vars(f.vars@) == state_frame(view_states(self.exec_stack@)[k as int]).vars,
                    k < self.exec_stack@.len(),
                    out@ == linestart + locals_text(view_vars(f.vars@).subrange(0, vi as int)),
                decreases f.vars@.len() - vi,
            {
                let ghost sofar = view_vars(f.vars@).subrange(0, vi as int);
                if vi > 0 {
                    push_comma_space(&mut out);
                }
                let mut key = copy_bytes(&f.vars[vi].0);
                out.append(&mut key);
                push_colon_space(&mut out);
                let mut vt = f.vars[vi].1.to_text();
                out.append(&mut vt);
                vi = vi + 1;
                proof {
                    let now = view_vars(f.vars@).subrange(0, vi as int);
                    assert(now.drop_last() =~= sofar);
                    assert(now.last() == view_vars(f.vars@)[vi - 1]);
                    assert(out@ =~= linestart + locals_text(now));
                }
            }
            proof {
                assert(view_vars(f.vars@).subrange(0, f.vars@.len() as int) =~= view_vars(
                    f.vars@,
                ));
            }
            push_frame_stack(&mut out);
            let ghost stackstart = out@;
            let blen = f.block.block.len();
            let lo = if f.ip <= blen {
                f.ip
            } else {
                blen
            };
            let mut bi: usize = lo;
            proof {
                crate::value::lemma_view_items(f.block.block@);
                assert(remaining_items(f@) =~= crate::value::view_items(f.block.block@).subrange(
                    lo as int,
                    blen as int,
                ));
            }
            while bi < blen
                invariant
                    lo <= bi <= blen,
                    blen == f.block.block@.len(),
                    crate::value::view_block(f.block) == state_frame(
                        view_states(self.exec_stack@)[k as int],
                    ).block,
                    k < self.exec_stack@.len(),
                    out@ == stackstart + items_text(
                        crate::value::view_items(f.block.block@).subrange(lo as int, bi as int),
                    ),
                decreases blen - bi,
            {
                proof {
                    crate::value::lemma_view_items(f.block.block@);
                }
                let ghost sofar = crate::value::view_items(f.block.block@).subrange(
                    lo as int,
                    bi as int,
                );
                push_space(&mut out);
                let mut it = f.block.block[bi].value.to_text();
                out.append(&mut it);
                bi = bi + 1;
                proof {
                    let now = crate::value::view_items(f.block.block@).subrange(
                        lo as int,
                        bi as int,
                    );
                    assert(now.drop_last() =~= sofar);
                    assert(now.last() == crate::value::view_items(f.block.block@)[bi - 1]);
                    assert(out@ =~= stackstart + items_text(now));
                }
            }
            proof {
                crate::value::lemma_view_items(f.block.block@);
                assert(crate::value::view_items(f.block.block@).subrange(lo as int, blen as int)
                    =~= remaining_items(
                    state_frame(view_states(self.exec_stack@)[k as int]),
                ));
            }
            push_newline(&mut out);
            proof {
                assert(out@ =~= base + frame_line((n - 1 - k) as nat, pre.last()));
                assert(out@ + trace_lines(self@.exec_stack.subrange(0, k as int), (n - k) as nat)
                    =~= base + trace_lines(pre, (n - 1 - k) as nat));
            }
        }
        proof {
            assert(self@.exec_stack.subrange(0, 0) =~= Seq::<ExecStateV>::empty());
            assert(out@ =~= trace_text(self@));
        }
        out
    }

    /// The printable form of each data-stack entry, bottom first.
    pub fn stack_texts(&self) -> (r: Vec<Vec<u8>>)
        ensures
            view_lines(r@) == stack_texts_of(self@.stack),
    {
        let mut out: Vec<Vec<u8>> = Vec::new();
        let mut i: usize = 0;
        while i < self.stack.len()
            invariant
                i <= self.stack@.len(),
                out@.len() == i,
                view_lines(out@) == stack_texts_of(self@.stack).subrange(0, i as int),
            decreases self.stack@.len() - i,
        {
            let ghost prev = out@;
            out.push(self.stack[i].to_text());
            i = i + 1;
            proof {
                assert(view_lines(out@) =~= stack_texts_of(self@.stack).subrange(0, i as int));
            }
        }
        proof {
            assert(stack_texts_of(self@.stack).subrange(0, self.stack@.len() as int)
                =~= stack_texts_of(self@.stack));
        }
        out
    }

    /// For each execution state, topmost first: the frame's name, and its
    /// locals as (name, printable form) pairs in binding order.
    pub fn exec_stack_report(&self) -> (r: Vec<(Vec<u8>, Vec<(Vec<u8>, Vec<u8>)>)>)
        ensures
            view_report(r@) == report_of(self@.exec_stack),
    {
        let mut out: Vec<(Vec<u8>, Vec<(Vec<u8>, Vec<u8>)>)> = Vec::new();
        let n = self.exec_stack.len();
        let mut k = n;
        while k > 0
            invariant
                k <= n,
                n == self.exec_stack@.len(),
                self@.exec_stack.len() == n,
                out@.len() == n - k,
                view_report(out@) == report_of(self@.exec_stack).subrange(0, (n - k) as int),
            decreases k,
        {
            k = k - 1;
            let st = &self.exec_stack[k];
            let f = st.as_frame();
            let name = copy_bytes(&f.name);
            let mut vars: Vec<(Vec<u8>, Vec<u8>)> = Vec::new();
            let mut vi: usize = 0;
            let ghost fv = state_frame(view_states(self.exec_stack@)[k as int]);
            while vi < f.vars.len()
                invariant
                    vi <= f.vars@.len(),
                    view_vars(f.vars@) == fv.vars,
                    vars@.len() == vi,
                    forall|j: int| 0 <= j < vi ==> (vars@[j].0@, vars@[j].1@) == (
                        fv.vars[j].0,
                        value_text(fv.vars[j].1),
                    ),
                decreases f.vars@.len() - vi,
            {
                let kname = copy_bytes(&f.vars[vi].0);
                let vtext = f.vars[vi].1.to_text();
                vars.push((kname, vtext));
                vi = vi + 1;
            }
            let ghost prev = out@;
            out.push((name, vars));
            proof {
                assert(view_report(out@) =~~= report_of(self@.exec_stack).subrange(
                    0,
                    (n - k) as int,
                ));
            }
        }
        proof {
            assert(report_of(self@.exec_stack).subrange(0, n as int) =~~= report_of(
                self@.exec_stack,
            ));
        }
        out
    }
}

} // verus!
