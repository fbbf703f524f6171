//! The virtual machine: data stack, globals, execution stack and the
//! parse-time stack of in-progress blocks.

use vstd::prelude::*;
use crate::error::ErrorKind;
use crate::names::{txt_root_name, push_root_name};
use crate::parser::{
    tokens_of, tokenize, parse_word, parse_word_spec, parse_words_spec, view_blocks,
    lemma_view_blocks, view_tokens,
};
use crate::value::{
    Value, BlockSpan, ValueV, ValueSpanV, BlockSpanV, NativeOp, Builtin, view_value, view_block,
    is_data, copy_value, copy_block, bytes_eq, builtin_name_spec,
};

verus! {

broadcast use vstd::std_specs::vec::group_vec_axioms;

// ------------------------------------------------------------------
// Types
// ------------------------------------------------------------------

/// One linear run through a block: a name for diagnostics, the block, the
/// index of the next item, and the frame's local bindings.
#[derive(Debug)]
pub struct ExecFrame {
    pub name: Vec<u8>,
    pub block: BlockSpan,
    pub ip: usize,
    pub vars: Vec<(Vec<u8>, Value)>,
}

/// What the machine is doing at one level of the execution stack.
#[derive(Debug)]
pub enum ExecState {
    /// Ordinary linear execution of a block.
    Frame(ExecFrame),
    /// Executing the condition of an `if`; the two branches wait.
    IfCond { frame: ExecFrame, true_branch: BlockSpan, false_branch: BlockSpan },
    /// Executing the chosen true branch of an `if`.
    IfTrue(ExecFrame),
    /// Executing the chosen false branch of an `if`.
    IfFalse(ExecFrame),
    /// Executing the body of a `for`: `i` is the current induction value,
    /// `end` the exclusive bound.
    For { frame: ExecFrame, i: i32, end: i32 },
}

/// The interpreter state.
pub struct Vm {
    /// The data stack.
    pub stack: Vec<Value>,
    /// The globals table: built-ins and host-registered natives.
    pub globals: Vec<(Vec<u8>, Value)>,
    /// The execution stack.
    pub exec_stack: Vec<ExecState>,
    /// The parse-time stack of in-progress blocks; between calls it holds
    /// exactly the root.
    pub blocks: Vec<BlockSpan>,
    /// What `puts` wrote, for the host to drain.
    pub out: Vec<Vec<u8>>,
    /// A host-native call that a step requested and no driver serviced yet.
    pub pending: Option<u32>,
    /// One past the largest byte offset any stored span may reach.
    pub src_end: Ghost<int>,
}

// ------------------------------------------------------------------
// Views
// ------------------------------------------------------------------

/// The mathematical shadow of [`ExecFrame`].
pub struct ExecFrameV {
    pub name: Seq<u8>,
    pub block: BlockSpanV,
    pub ip: int,
    pub vars: Seq<(Seq<u8>, ValueV)>,
}

/// The mathematical shadow of [`ExecState`].
pub enum ExecStateV {
    Frame(ExecFrameV),
    IfCond { frame: ExecFrameV, true_branch: BlockSpanV, false_branch: BlockSpanV },
    IfTrue(ExecFrameV),
    IfFalse(ExecFrameV),
    For { frame: ExecFrameV, i: i32, end: i32 },
}

/// The mathematical shadow of [`Vm`].
pub struct VmV {
    pub stack: Seq<ValueV>,
    pub globals: Seq<(Seq<u8>, ValueV)>,
    pub exec_stack: Seq<ExecStateV>,
    pub blocks: Seq<BlockSpanV>,
    pub out: Seq<Seq<u8>>,
    pub pending: Option<u32>,
    pub src_end: int,
}

/// The shadow of a bindings list.
pub open spec fn view_vars(s: Seq<(Vec<u8>, Value)>) -> Seq<(Seq<u8>, ValueV)> {
    Seq::new(s.len(), |i: int| (s[i].0@, view_value(s[i].1)))
}

/// The shadow of a list of values.
pub open spec fn view_values(s: Seq<Value>) -> Seq<ValueV> {
    Seq::new(s.len(), |i: int| view_value(s[i]))
}

/// The shadow of a list of written lines.
pub open spec fn view_lines(s: Seq<Vec<u8>>) -> Seq<Seq<u8>> {
    Seq::new(s.len(), |i: int| s[i]@)
}

impl View for ExecFrame {
    type V = ExecFrameV;

    open spec fn view(&self) -> ExecFrameV {
        ExecFrameV {
            name: self.name@,
            block: view_block(self.block),
            ip: self.ip as int,
            vars: view_vars(self.vars@),
        }
    }
}

/// The shadow of an execution state.
pub open spec fn view_state(s: ExecState) -> ExecStateV {
    match s {
        ExecState::Frame(f) => ExecStateV::Frame(f@),
        ExecState::IfCond { frame, true_branch, false_branch } => ExecStateV::IfCond {
            frame: frame@,
            true_branch: view_block(true_branch),
            false_branch: view_block(false_branch),
        },
        ExecState::IfTrue(f) => ExecStateV::IfTrue(f@),
        ExecState::IfFalse(f) => ExecStateV::IfFalse(f@),
        ExecState::For { frame, i, end } => ExecStateV::For { frame: frame@, i, end },
    }
}

impl View for ExecState {
    type V = ExecStateV;

    open spec fn view(&self) -> ExecStateV {
        view_state(*self)
    }
}

/// The shadow of the execution stack.
pub open spec fn view_states(s: Seq<ExecState>) -> Seq<ExecStateV> {
    Seq::new(s.len(), |i: int| view_state(s[i]))
}

impl View for Vm {
    type V = VmV;

    open spec fn view(&self) -> VmV {
        VmV {
            stack: view_values(self.stack@),
            globals: view_vars(self.globals@),
            exec_stack: view_states(self.exec_stack@),
            blocks: view_blocks(self.blocks@),
            out: view_lines(self.out@),
            pending: self.pending,
            src_end: self.src_end@,
        }
    }
}

// ------------------------------------------------------------------
// The frame of a state, and name lookup
// ------------------------------------------------------------------

/// The frame a state carries, whatever its variant.
pub open spec fn state_frame(s: ExecStateV) -> ExecFrameV {
    match s {
        ExecStateV::Frame(f) => f,
        ExecStateV::IfCond { frame, .. } => frame,
        ExecStateV::IfTrue(f) => f,
        ExecStateV::IfFalse(f) => f,
        ExecStateV::For { frame, .. } => frame,
    }
}

impl ExecState {
    /// The frame this state carries, whatever its variant.
    pub fn as_frame(&self) -> (r: &ExecFrame)
        ensures
            r@ == state_frame(self@),
    {
        match self {
            ExecState::Frame(f) => f,
            ExecState::IfCond { frame, .. } => frame,
            ExecState::IfTrue(f) => f,
            ExecState::IfFalse(f) => f,
            ExecState::For { frame, .. } => frame,
        }
    }
}

/// The first binding of `name` in a bindings list.
pub open spec fn assoc_get(pairs: Seq<(Seq<u8>, ValueV)>, name: Seq<u8>) -> Option<ValueV>
    decreases pairs.len(),
{
    if pairs.len() == 0 {
        None
    } else if pairs[0].0 == name {
        Some(pairs[0].1)
    } else {
        assoc_get(pairs.subrange(1, pairs.len() as int), name)
    }
}

/// The bindings list after binding `name` to `v`: the first binding of
/// `name` is replaced in place, or the pair is appended.
pub open spec fn assoc_set(pairs: Seq<(Seq<u8>, ValueV)>, name: Seq<u8>, v: ValueV) -> Seq<
    (Seq<u8>, ValueV),
>
    decreases pairs.len(),
{
    if pairs.len() == 0 {
        seq![(name, v)]
    } else if pairs[0].0 == name {
        seq![(name, v)] + pairs.subrange(1, pairs.len() as int)
    } else {
        seq![pairs[0]] + assoc_set(pairs.subrange(1, pairs.len() as int), name, v)
    }
}

/// Name lookup: the locals of each execution state, top to bottom, then the
/// globals table.
pub open spec fn lookup_var(states: Seq<ExecStateV>, globals: Seq<(Seq<u8>, ValueV)>, name: Seq<
    u8,
>) -> Option<ValueV>
    decreases states.len(),
{
    if states.len() == 0 {
        assoc_get(globals, name)
    } else {
        match assoc_get(state_frame(states.last()).vars, name) {
            Some(v) => Some(v),
            None => lookup_var(states.drop_last(), globals, name),
        }
    }
}

/// Looks a name up in a bindings list, cloning the bound value.
fn assoc_find(pairs: &Vec<(Vec<u8>, Value)>, name: &Vec<u8>) -> (r: Option<Value>)
    ensures
        match assoc_get(view_vars(pairs@), name@) {
            Some(vv) => r matches Some(v) && v@ == vv,
            None => r is None,
        },
{
    proof {
        assert(view_vars(pairs@).subrange(0, pairs@.len() as int) =~= view_vars(pairs@));
    }
    let mut i: usize = 0;
    while i < pairs.len()
        invariant
            i <= pairs@.len(),
            assoc_get(view_vars(pairs@), name@) == assoc_get(
                view_vars(pairs@).subrange(i as int, pairs@.len() as int),
                name@,
            ),
        decreases pairs@.len() - i,
    {
        let ghost rest = view_vars(pairs@).subrange(i as int, pairs@.len() as int);
        if bytes_eq(&pairs[i].0, name) {
            assert(rest[0].0 == name@);
            return Some(copy_value(&pairs[i].1));
        }
        proof {
            assert(rest[0].0 != name@);
            assert(rest.subrange(1, rest.len() as int) =~= view_vars(pairs@).subrange(
                i + 1,
                pairs@.len() as int,
            ));
        }
        i = i + 1;
    }
    assert(view_vars(pairs@).subrange(i as int, pairs@.len() as int) =~= Seq::<
        (Seq<u8>, ValueV),
    >::empty());
    None
}

/// Binds `name` to `v` in a bindings list: replaces the first binding of
/// `name`, or appends.
pub(crate) fn assoc_put(pairs: &mut Vec<(Vec<u8>, Value)>, name: Vec<u8>, v: Value)
    ensures
        view_vars(final(pairs)@) == assoc_set(view_vars(old(pairs)@), name@, v@),
{
    let ghost target = assoc_set(view_vars(pairs@), name@, v@);
    let mut i: usize = 0;
    while i < pairs.len()
        invariant
            i <= pairs@.len(),
            forall|j: int| 0 <= j < i ==> view_vars(pairs@)[j].0 != name@,
            pairs@ == old(pairs)@,
            target == assoc_set(view_vars(pairs@), name@, v@),
        decreases pairs@.len() - i,
    {
        if bytes_eq(&pairs[i].0, &name) {
            proof {
                lemma_assoc_set_replaces(view_vars(pairs@), name@, v@, i as int);
            }
            pairs[i] = (name, v);
            proof {
                assert(view_vars(pairs@) =~= target);
            }
            return ;
        }
        i = i + 1;
    }
    proof {
        lemma_assoc_set_appends(view_vars(pairs@), name@, v@);
    }
    let ghost prev = pairs@;
    pairs.push((name, v));
    proof {
        assert(view_vars(pairs@) =~= view_vars(prev).push((name@, v@)));
        assert(view_vars(pairs@) =~= target);
    }
}

/// Where the first `i` keys differ from `name` and key `i` matches,
/// `assoc_set` replaces the pair at `i`.
proof fn lemma_assoc_set_replaces(pairs: Seq<(Seq<u8>, ValueV)>, name: Seq<u8>, v: ValueV, i: int)
    requires
        0 <= i < pairs.len(),
        forall|j: int| 0 <= j < i ==> pairs[j].0 != name,
        pairs[i].0 == name,
    ensures
        assoc_set(pairs, name, v) =~= pairs.update(i, (name, v)),
    decreases i,
{
    if i == 0 {
        assert(assoc_set(pairs, name, v) == seq![(name, v)] + pairs.subrange(
            1,
            pairs.len() as int,
        ));
    } else {
        let rest = pairs.subrange(1, pairs.len() as int);
        lemma_assoc_set_replaces(rest, name, v, i - 1);
        assert(assoc_set(pairs, name, v) == seq![pairs[0]] + assoc_set(rest, name, v));
        assert(rest.update(i - 1, (name, v)) =~= pairs.update(i, (name, v)).subrange(
            1,
            pairs.len() as int,
        ));
    }
}

/// Where no key matches `name`, `assoc_set` appends the pair.
proof fn lemma_assoc_set_appends(pairs: Seq<(Seq<u8>, ValueV)>, name: Seq<u8>, v: ValueV)
    requires
        forall|j: int| 0 <= j < pairs.len() ==> pairs[j].0 != name,
    ensures
        assoc_set(pairs, name, v) =~= pairs.push((name, v)),
    decreases pairs.len(),
{
    if pairs.len() > 0 {
        let rest = pairs.subrange(1, pairs.len() as int);
        lemma_assoc_set_appends(rest, name, v);
        assert(rest.push((name, v)) =~= pairs.push((name, v)).subrange(
            1,
            pairs.len() as int + 1,
        ));
    }
}

// ------------------------------------------------------------------
// Well-formedness
// ------------------------------------------------------------------

/// A value's spans all lie inside the source.
pub open spec fn wf_value(v: ValueV, end: int) -> bool
    decreases v,
{
    match v {
        ValueV::Block(b) => wf_cblock(b, end),
        _ => true,
    }
}

/// A closed block: an ordered span inside the source, well-formed items.
pub open spec fn wf_cblock(b: BlockSpanV, end: int) -> bool
    decreases b,
{
    0 <= b.span.0 && b.span.0 <= b.span.1 && b.span.1 <= end && wf_items_upto(b.items, end)
}

/// Every item of a block: an ordered span inside the source, a well-formed
/// value.
pub open spec fn wf_items_upto(items: Seq<ValueSpanV>, end: int) -> bool
    decreases items,
{
    items.len() == 0 || (wf_items_upto(items.drop_last(), end) && wf_item(items.last(), end))
}

/// One block item.
pub open spec fn wf_item(it: ValueSpanV, end: int) -> bool
    decreases it,
{
    0 <= it.span.0 && it.span.0 <= it.span.1 && it.span.1 <= end && wf_value(it.value, end)
}

/// `wf_items_upto` holds exactly when every item is well-formed.
pub proof fn lemma_wf_items_upto(items: Seq<ValueSpanV>, end: int)
    ensures
        wf_items_upto(items, end) <==> (forall|i: int|
            0 <= i < items.len() ==> wf_item(#[trigger] items[i], end)),
    decreases items,
{
    if items.len() > 0 {
        lemma_wf_items_upto(items.drop_last(), end);
        assert(forall|i: int| 0 <= i < items.len() - 1 ==> items.drop_last()[i] == items[i]);
        assert(items.last() == items[items.len() - 1]);
    }
}

/// Every bound value is data (never an `Op`) and well-formed.
pub open spec fn wf_pairs(pairs: Seq<(Seq<u8>, ValueV)>, end: int) -> bool
    decreases pairs,
{
    pairs.len() == 0 || (wf_pairs(pairs.drop_last(), end) && is_data(pairs.last().1) && wf_value(
        pairs.last().1,
        end,
    ))
}

/// `wf_pairs` holds exactly when every binding is data and well-formed.
pub proof fn lemma_wf_pairs(pairs: Seq<(Seq<u8>, ValueV)>, end: int)
    ensures
        wf_pairs(pairs, end) <==> (forall|i: int|
            0 <= i < pairs.len() ==> is_data(#[trigger] pairs[i].1) && wf_value(pairs[i].1, end)),
    decreases pairs,
{
    if pairs.len() > 0 {
        lemma_wf_pairs(pairs.drop_last(), end);
        assert(forall|i: int| 0 <= i < pairs.len() - 1 ==> pairs.drop_last()[i] == pairs[i]);
        assert(pairs.last() == pairs[pairs.len() - 1]);
    }
}

/// Every stack value is data (never an `Op`) and well-formed.
pub open spec fn wf_stack(stack: Seq<ValueV>, end: int) -> bool
    decreases stack,
{
    stack.len() == 0 || (wf_stack(stack.drop_last(), end) && is_data(stack.last()) && wf_value(
        stack.last(),
        end,
    ))
}

/// `wf_stack` holds exactly when every stack value is data and well-formed.
pub proof fn lemma_wf_stack(stack: Seq<ValueV>, end: int)
    ensures
        wf_stack(stack, end) <==> (forall|i: int|
            0 <= i < stack.len() ==> is_data(#[trigger] stack[i]) && wf_value(stack[i], end)),
    decreases stack,
{
    if stack.len() > 0 {
        lemma_wf_stack(stack.drop_last(), end);
        assert(forall|i: int| 0 <= i < stack.len() - 1 ==> stack.drop_last()[i] == stack[i]);
        assert(stack.last() == stack[stack.len() - 1]);
    }
}

/// A frame: instruction pointer inside the block, block and locals
/// well-formed.
pub open spec fn wf_frame(f: ExecFrameV, end: int) -> bool {
    0 <= f.ip && f.ip <= f.block.items.len() && wf_cblock(f.block, end) && wf_pairs(f.vars, end)
}

/// An execution state: its frame, and for `IfCond` both waiting branches.
pub open spec fn wf_state(s: ExecStateV, end: int) -> bool {
    wf_frame(state_frame(s), end) && match s {
        ExecStateV::IfCond { true_branch, false_branch, .. } => wf_cblock(true_branch, end)
            && wf_cblock(false_branch, end),
        _ => true,
    }
}

/// Every execution state is well-formed.
pub open spec fn wf_exec(states: Seq<ExecStateV>, end: int) -> bool
    decreases states,
{
    states.len() == 0 || (wf_exec(states.drop_last(), end) && wf_state(states.last(), end))
}

/// `wf_exec` holds exactly when every state is well-formed.
pub proof fn lemma_wf_exec(states: Seq<ExecStateV>, end: int)
    ensures
        wf_exec(states, end) <==> (forall|i: int|
            0 <= i < states.len() ==> wf_state(#[trigger] states[i], end)),
    decreases states,
{
    if states.len() > 0 {
        lemma_wf_exec(states.drop_last(), end);
        assert(forall|i: int| 0 <= i < states.len() - 1 ==> states.drop_last()[i] == states[i]);
        assert(states.last() == states[states.len() - 1]);
    }
}

/// The machine invariant: the data stack holds only well-formed data
/// values, all bindings do too, every frame is inside its block, and the
/// parse-time stack holds exactly the root block.
pub open spec fn wf_vm(v: VmV) -> bool {
    &&& 0 <= v.src_end
    &&& wf_stack(v.stack, v.src_end)
    &&& wf_pairs(v.globals, v.src_end)
    &&& wf_exec(v.exec_stack, v.src_end)
    &&& v.blocks.len() == 1
    &&& v.blocks[0].span.0 == 0
    &&& v.blocks[0].span.1 == 0
    &&& wf_items_upto(v.blocks[0].items, v.src_end)
}

impl Vm {
    /// The machine invariant.
    pub open spec fn wf(&self) -> bool {
        wf_vm(self@)
    }
}

// ------------------------------------------------------------------
// Construction and plain accessors
// ------------------------------------------------------------------

/// The globals table `Vm::new` seeds: every built-in under its word.
pub open spec fn initial_globals() -> Seq<(Seq<u8>, ValueV)> {
    seq![
        (builtin_name_spec(Builtin::Add), ValueV::Native(NativeOp::Builtin(Builtin::Add))),
        (builtin_name_spec(Builtin::Sub), ValueV::Native(NativeOp::Builtin(Builtin::Sub))),
        (builtin_name_spec(Builtin::Mul), ValueV::Native(NativeOp::Builtin(Builtin::Mul))),
        (builtin_name_spec(Builtin::Div), ValueV::Native(NativeOp::Builtin(Builtin::Div))),
        (builtin_name_spec(Builtin::Lt), ValueV::Native(NativeOp::Builtin(Builtin::Lt))),
        (builtin_name_spec(Builtin::Or), ValueV::Native(NativeOp::Builtin(Builtin::Or))),
        (builtin_name_spec(Builtin::And), ValueV::Native(NativeOp::Builtin(Builtin::And))),
        (builtin_name_spec(Builtin::If), ValueV::Native(NativeOp::Builtin(Builtin::If))),
        (builtin_name_spec(Builtin::For), ValueV::Native(NativeOp::Builtin(Builtin::For))),
        (builtin_name_spec(Builtin::Def), ValueV::Native(NativeOp::Builtin(Builtin::Def))),
        (builtin_name_spec(Builtin::Puts), ValueV::Native(NativeOp::Builtin(Builtin::Puts))),
        (builtin_name_spec(Builtin::Pop), ValueV::Native(NativeOp::Builtin(Builtin::Pop))),
        (builtin_name_spec(Builtin::Dup), ValueV::Native(NativeOp::Builtin(Builtin::Dup))),
        (builtin_name_spec(Builtin::Exch), ValueV::Native(NativeOp::Builtin(Builtin::Exch))),
        (builtin_name_spec(Builtin::Index), ValueV::Native(NativeOp::Builtin(Builtin::Index))),
        (builtin_name_spec(Builtin::Load), ValueV::Native(NativeOp::Builtin(Builtin::Load))),
        (builtin_name_spec(Builtin::Pi), ValueV::Native(NativeOp::Builtin(Builtin::Pi))),
    ]
}

/// The word of a built-in, as a fresh vector.
fn name_of(b: Builtin) -> (r: Vec<u8>)
    ensures
        r@ == builtin_name_spec(b),
{
    let mut v: Vec<u8> = Vec::new();
    crate::value::push_builtin_name(b, &mut v);
    assert(v@ =~= builtin_name_spec(b));
    v
}

impl ExecFrame {
    /// A fresh frame over `block`, starting at its first item with no
    /// locals.
    pub fn new(name: Vec<u8>, block: BlockSpan) -> (r: ExecFrame)
        ensures
            r@ == (ExecFrameV {
                name: name@,
                block: view_block(block),
                ip: 0,
                vars: Seq::empty(),
            }),
    {
        let r = ExecFrame { name, block, ip: 0, vars: Vec::new() };
        assert(r@.vars =~= Seq::<(Seq<u8>, ValueV)>::empty());
        r
    }
}

impl Vm {
    /// A machine with the built-ins installed, an empty data stack, an
    /// empty execution stack and a fresh root block.
    pub fn new() -> (r: Vm)
        ensures
            r@ == (VmV {
                stack: Seq::empty(),
                globals: initial_globals(),
                exec_stack: Seq::empty(),
                blocks: seq![BlockSpanV { items: Seq::empty(), span: (0, 0) }],
                out: Seq::empty(),
                pending: None,
                src_end: 0,
            }),
            r.wf(),
    {
        let mut globals: Vec<(Vec<u8>, Value)> = Vec::new();
        globals.push((name_of(Builtin::Add), Value::Native(NativeOp::Builtin(Builtin::Add))));
        globals.push((name_of(Builtin::Sub), Value::Native(NativeOp::Builtin(Builtin::Sub))));
        globals.push((name_of(Builtin::Mul), Value::Native(NativeOp::Builtin(Builtin::Mul))));
        globals.push((name_of(Builtin::Div), Value::Native(NativeOp::Builtin(Builtin::Div))));
        globals.push((name_of(Builtin::Lt), Value::Native(NativeOp::Builtin(Builtin::Lt))));
        globals.push((name_of(Builtin::Or), Value::Native(NativeOp::Builtin(Builtin::Or))));
        globals.push((name_of(Builtin::And), Value::Native(NativeOp::Builtin(Builtin::And))));
        globals.push((name_of(Builtin::If), Value::Native(NativeOp::Builtin(Builtin::If))));
        globals.push((name_of(Builtin::For), Value::Native(NativeOp::Builtin(Builtin::For))));
        globals.push((name_of(Builtin::Def), Value::Native(NativeOp::Builtin(Builtin::Def))));
        globals.push((name_of(Builtin::Puts), Value::Native(NativeOp::Builtin(Builtin::Puts))));
        globals.push((name_of(Builtin::Pop), Value::Native(NativeOp::Builtin(Builtin::Pop))));
        globals.push((name_of(Builtin::Dup), Value::Native(NativeOp::Builtin(Builtin::Dup))));
        globals.push((name_of(Builtin::Exch), Value::Native(NativeOp::Builtin(Builtin::Exch))));
        globals.push(
            (name_of(Builtin::Index), Value::Native(NativeOp::Builtin(Builtin::Index))),
        );
        globals.push((name_of(Builtin::Load), Value::Native(NativeOp::Builtin(Builtin::Load))));
        globals.push((name_of(Builtin::Pi), Value::Native(NativeOp::Builtin(Builtin::Pi))));
        let mut blocks: Vec<BlockSpan> = Vec::new();
        blocks.push(BlockSpan::new(0));
        let r = Vm {
            stack: Vec::new(),
            globals,
            exec_stack: Vec::new(),
            blocks,
            out: Vec::new(),
            pending: None,
            src_end: Ghost(0),
        };
        proof {
            assert(r@.stack =~= Seq::<ValueV>::empty());
            assert(r@.exec_stack =~= Seq::<ExecStateV>::empty());
            assert(r@.out =~= Seq::<Seq<u8>>::empty());
            assert(r@.globals =~= initial_globals());
            assert(r.blocks@.drop_last() =~= Seq::<BlockSpan>::empty());
            assert(view_blocks(r.blocks@) == view_blocks(Seq::empty()).push(
                view_block(r.blocks@.last()),
            ));
            assert(r@.blocks =~= seq![BlockSpanV { items: Seq::empty(), span: (0, 0) }]);
            lemma_wf_pairs(r@.globals, 0);
            assert(forall|i: int| 0 <= i < r@.globals.len() ==> is_data(
                #[trigger] r@.globals[i].1,
            ) && wf_value(r@.globals[i].1, 0)) by {
                assert(forall|i: int| 0 <= i < initial_globals().len()
                    ==> initial_globals()[i].1 is Native);
            }
            assert(r.wf());
        }
        r
    }

    /// A read-only view of the data stack, bottom first.
    pub fn get_stack(&self) -> (r: &Vec<Value>)
        ensures
            view_values(r@) == self@.stack,
    {
        &self.stack
    }

    /// Pops the top of the data stack, if any.
    pub fn pop(&mut self) -> (r: Option<Value>)
        ensures
            match r {
                Some(v) => old(self)@.stack.len() > 0 && v@ == old(self)@.stack.last()
                    && final(self)@ == (VmV {
                    stack: old(self)@.stack.drop_last(),
                    ..old(self)@
                }),
                None => old(self)@.stack.len() == 0 && final(self)@ == old(self)@,
            },
            old(self).wf() ==> final(self).wf(),
    {
        let r = self.stack.pop();
        proof {
            if old(self).stack@.len() > 0 {
                assert(view_values(self.stack@) =~= view_values(old(self).stack@).drop_last());
            }
        }
        r
    }

    /// Pushes a value onto the data stack. The value must be data — an
    /// `Op` never sits on the data stack — with its spans inside the
    /// source.
    pub fn push(&mut self, v: Value)
        requires
            is_data(v@),
            wf_value(v@, old(self)@.src_end),
        ensures
            final(self)@ == (VmV { stack: old(self)@.stack.push(v@), ..old(self)@ }),
            old(self).wf() ==> final(self).wf(),
    {
        self.stack.push(v);
        proof {
            assert(view_values(self.stack@) =~= view_values(old(self).stack@).push(
                view_value(self.stack@.last()),
            ));
            if old(self).wf() {
                let s2 = old(self)@.stack.push(v@);
                assert(s2.drop_last() =~= old(self)@.stack);
                assert(s2.last() == v@);
                assert(wf_stack(s2, old(self)@.src_end));
            }
        }
    }

    /// A read-only view of the execution stack, bottom first.
    pub fn get_exec_stack(&self) -> (r: &Vec<ExecState>)
        ensures
            view_states(r@) == self@.exec_stack,
    {
        &self.exec_stack
    }

    /// The locals of the topmost execution state.
    pub fn get_vars(&self) -> (r: &Vec<(Vec<u8>, Value)>)
        requires
            self@.exec_stack.len() > 0,
        ensures
            view_vars(r@) == state_frame(self@.exec_stack.last()).vars,
    {
        let n = self.exec_stack.len();
        &self.exec_stack[n - 1].as_frame().vars
    }

    /// Registers a host native under `name`: an operator the host services
    /// between steps, known here by its number.
    pub fn add_fn(&mut self, name: Vec<u8>, id: u32)
        ensures
            final(self)@ == (VmV {
                globals: assoc_set(old(self)@.globals, name@, ValueV::Native(NativeOp::Host(id))),
                ..old(self)@
            }),
            old(self).wf() ==> final(self).wf(),
    {
        assoc_put(&mut self.globals, name, Value::Native(NativeOp::Host(id)));
        proof {
            if old(self).wf() {
                lemma_wf_pairs(old(self)@.globals, old(self)@.src_end);
                lemma_assoc_set_is_data(
                    old(self)@.globals,
                    name@,
                    ValueV::Native(NativeOp::Host(id)),
                    old(self)@.src_end,
                );
                lemma_wf_pairs(self@.globals, self@.src_end);
            }
        }
    }

    /// The host-native call the last step requested, if any; clears it.
    pub fn take_pending(&mut self) -> (r: Option<u32>)
        ensures
            r == old(self)@.pending,
            final(self)@ == (VmV { pending: None, ..old(self)@ }),
            old(self).wf() ==> final(self).wf(),
    {
        let r = self.pending;
        self.pending = None;
        r
    }

    /// Everything `puts` wrote since the last drain, oldest first; clears
    /// the buffer.
    pub fn take_output(&mut self) -> (r: Vec<Vec<u8>>)
        ensures
            view_lines(r@) == old(self)@.out,
            final(self)@ == (VmV { out: Seq::empty(), ..old(self)@ }),
            old(self).wf() ==> final(self).wf(),
    {
        let mut out: Vec<Vec<u8>> = Vec::new();
        core::mem::swap(&mut out, &mut self.out);
        proof {
            assert(view_lines(self.out@) =~= Seq::<Seq<u8>>::empty());
        }
        out
    }

    /// Looks `name` up: the locals of each execution state from the top
    /// down, then the globals.
    pub fn find_var(&self, name: &Vec<u8>) -> (r: Option<Value>)
        ensures
            match lookup_var(self@.exec_stack, self@.globals, name@) {
                Some(vv) => r matches Some(v) && v@ == vv,
                None => r is None,
            },
    {
        proof {
            assert(self@.exec_stack.subrange(0, self@.exec_stack.len() as int) =~= self@.exec_stack);
        }
        let mut k = self.exec_stack.len();
        while k > 0
            invariant
                k <= self@.exec_stack.len(),
                lookup_var(self@.exec_stack, self@.globals, name@) == lookup_var(
                    self@.exec_stack.subrange(0, k as int),
                    self@.globals,
                    name@,
                ),
            decreases k,
        {
            let ghost pre = self@.exec_stack.subrange(0, k as int);
            proof {
                assert(pre.last() == self@.exec_stack[k - 1]);
                assert(pre.drop_last() =~= self@.exec_stack.subrange(0, k - 1));
            }
            let st = &self.exec_stack[k - 1];
            match assoc_find(&st.as_frame().vars, name) {
                Some(v) => {
                    return Some(v);
                },
                None => {},
            }
            k = k - 1;
        }
        proof {
            assert(self@.exec_stack.subrange(0, 0) =~= Seq::<ExecStateV>::empty());
        }
        assoc_find(&self.globals, name)
    }
}

// ------------------------------------------------------------------
// Parsing a source buffer
// ------------------------------------------------------------------

/// In-progress blocks: each was opened at or before position `lo`, with
/// well-formed items.
pub open spec fn wf_open_blocks(blocks: Seq<BlockSpanV>, lo: int, end: int) -> bool
    decreases blocks,
{
    blocks.len() == 0 || (wf_open_blocks(blocks.drop_last(), lo, end) && 0
        <= blocks.last().span.0 && blocks.last().span.0 <= lo && wf_items_upto(
        blocks.last().items,
        end,
    ))
}

/// `wf_open_blocks` holds exactly when every in-progress block is.
pub proof fn lemma_wf_open_blocks(blocks: Seq<BlockSpanV>, lo: int, end: int)
    ensures
        wf_open_blocks(blocks, lo, end) <==> (forall|i: int|
            0 <= i < blocks.len() ==> 0 <= (#[trigger] blocks[i]).span.0 && blocks[i].span.0 <= lo
                && wf_items_upto(blocks[i].items, end)),
    decreases blocks,
{
    if blocks.len() > 0 {
        lemma_wf_open_blocks(blocks.drop_last(), lo, end);
        assert(forall|i: int| 0 <= i < blocks.len() - 1 ==> blocks.drop_last()[i] == blocks[i]);
        assert(blocks.last() == blocks[blocks.len() - 1]);
    }
}

/// Well-formedness of a value survives a larger source bound.
pub proof fn lemma_wf_value_mono(v: ValueV, e1: int, e2: int)
    requires
        wf_value(v, e1),
        e1 <= e2,
    ensures
        wf_value(v, e2),
    decreases v,
{
    match v {
        ValueV::Block(b) => lemma_wf_cblock_mono(b, e1, e2),
        _ => {},
    }
}

/// Well-formedness of a closed block survives a larger source bound.
pub proof fn lemma_wf_cblock_mono(b: BlockSpanV, e1: int, e2: int)
    requires
        wf_cblock(b, e1),
        e1 <= e2,
    ensures
        wf_cblock(b, e2),
    decreases b,
{
    lemma_wf_items_mono(b.items, e1, e2);
}

/// Well-formedness of block items survives a larger source bound.
pub proof fn lemma_wf_items_mono(items: Seq<ValueSpanV>, e1: int, e2: int)
    requires
        wf_items_upto(items, e1),
        e1 <= e2,
    ensures
        wf_items_upto(items, e2),
    decreases items,
{
    if items.len() > 0 {
        assert(wf_items_upto(items.drop_last(), e1) && wf_item(items.last(), e1));
        lemma_wf_items_mono(items.drop_last(), e1, e2);
        assert(wf_value(items.last().value, e1));
        lemma_wf_value_mono(items.last().value, e1, e2);
        assert(wf_item(items.last(), e2));
    }
}

/// Well-formedness of bindings survives a larger source bound.
pub proof fn lemma_wf_pairs_mono(pairs: Seq<(Seq<u8>, ValueV)>, e1: int, e2: int)
    requires
        wf_pairs(pairs, e1),
        e1 <= e2,
    ensures
        wf_pairs(pairs, e2),
    decreases pairs,
{
    if pairs.len() > 0 {
        lemma_wf_pairs_mono(pairs.drop_last(), e1, e2);
        lemma_wf_value_mono(pairs.last().1, e1, e2);
    }
}

/// Well-formedness of the data stack survives a larger source bound.
pub proof fn lemma_wf_stack_mono(stack: Seq<ValueV>, e1: int, e2: int)
    requires
        wf_stack(stack, e1),
        e1 <= e2,
    ensures
        wf_stack(stack, e2),
    decreases stack,
{
    if stack.len() > 0 {
        lemma_wf_stack_mono(stack.drop_last(), e1, e2);
        lemma_wf_value_mono(stack.last(), e1, e2);
    }
}

/// Well-formedness of a state survives a larger source bound.
pub proof fn lemma_wf_state_mono(s: ExecStateV, e1: int, e2: int)
    requires
        wf_state(s, e1),
        e1 <= e2,
    ensures
        wf_state(s, e2),
{
    lemma_wf_cblock_mono(state_frame(s).block, e1, e2);
    lemma_wf_pairs_mono(state_frame(s).vars, e1, e2);
    match s {
        ExecStateV::IfCond { true_branch, false_branch, .. } => {
            lemma_wf_cblock_mono(true_branch, e1, e2);
            lemma_wf_cblock_mono(false_branch, e1, e2);
        },
        _ => {},
    }
}

/// Well-formedness of the execution stack survives a larger source bound.
pub proof fn lemma_wf_exec_mono(states: Seq<ExecStateV>, e1: int, e2: int)
    requires
        wf_exec(states, e1),
        e1 <= e2,
    ensures
        wf_exec(states, e2),
    decreases states,
{
    if states.len() > 0 {
        lemma_wf_exec_mono(states.drop_last(), e1, e2);
        lemma_wf_state_mono(states.last(), e1, e2);
    }
}

/// One parsed token keeps the in-progress stack well-formed, and never
/// touches the root block's span.
proof fn lemma_parse_word_wf(blocks: Seq<BlockSpanV>, w: Seq<u8>, off: int, lo: int, end: int)
    requires
        wf_open_blocks(blocks, lo, end),
        blocks.len() >= 1,
        0 <= lo <= off,
        off + w.len() <= end,
        w.len() >= 1,
    ensures
        match crate::parser::parse_word_spec(blocks, w, off) {
            Ok(b2) => b2.len() >= 1 && b2[0].span == blocks[0].span && wf_open_blocks(
                b2,
                off + w.len(),
                end,
            ),
            Err(_) => true,
        },
{
    lemma_wf_open_blocks(blocks, lo, end);
    if w == seq![123u8] {
        let b2 = blocks.push(BlockSpanV { items: Seq::empty(), span: (off, 0) });
        lemma_wf_open_blocks(b2, off + w.len(), end);
        assert(forall|i: int| 0 <= i < blocks.len() ==> b2[i] == blocks[i]);
        assert(wf_items_upto(Seq::empty(), end));
    } else if w == seq![125u8] {
        if blocks.len() > 1 {
            let top = blocks.last();
            let closed = BlockSpanV { items: top.items, span: (top.span.0, off + 1) };
            let parent = blocks[blocks.len() - 2];
            let item = ValueSpanV { value: ValueV::Block(closed), span: (top.span.0, off + 1) };
            let parent2 = BlockSpanV { items: parent.items.push(item), span: parent.span };
            let b2 = blocks.drop_last().drop_last().push(parent2);
            assert(wf_cblock(closed, end));
            assert(wf_item(item, end));
            lemma_wf_items_upto(parent.items, end);
            lemma_wf_items_upto(parent2.items, end);
            assert(forall|i: int| 0 <= i < parent.items.len() ==> parent2.items[i]
                == parent.items[i]);
            lemma_wf_open_blocks(b2, off + w.len(), end);
            assert(forall|i: int| 0 <= i < blocks.len() - 2 ==> b2[i] == blocks[i]);
            assert(b2[b2.len() - 1] == parent2);
            if blocks.len() == 2 {
                assert(b2[0] == parent2);
                assert(parent2.span == blocks[0].span);
            }
        }
    } else {
        let top = blocks.last();
        let item = ValueSpanV {
            value: crate::parser::classify_value(w),
            span: (off, off + w.len()),
        };
        let top2 = BlockSpanV { items: top.items.push(item), span: top.span };
        let b2 = blocks.drop_last().push(top2);
        assert(wf_value(crate::parser::classify_value(w), end));
        assert(wf_item(item, end));
        lemma_wf_items_upto(top.items, end);
        lemma_wf_items_upto(top2.items, end);
        assert(forall|i: int| 0 <= i < top.items.len() ==> top2.items[i] == top.items[i]);
        lemma_wf_open_blocks(b2, off + w.len(), end);
        assert(forall|i: int| 0 <= i < blocks.len() - 1 ==> b2[i] == blocks[i]);
        assert(b2[b2.len() - 1] == top2);
        if blocks.len() == 1 {
            assert(b2[0] == top2);
        }
    }
}

/// A parsed token chain keeps the in-progress stack well-formed and never
/// touches the root block's span.
proof fn lemma_parse_words_wf(
    blocks: Seq<BlockSpanV>,
    words: Seq<(Seq<u8>, int)>,
    lo: int,
    end: int,
)
    requires
        crate::parser::toks_chain(words, lo, end),
        wf_open_blocks(blocks, lo, end),
        blocks.len() >= 1,
        0 <= lo <= end,
    ensures
        match crate::parser::parse_words_spec(blocks, words) {
            Ok(b2) => b2.len() >= 1 && b2[0].span == blocks[0].span && wf_open_blocks(
                b2,
                end,
                end,
            ),
            Err(_) => true,
        },
    decreases words.len(),
{
    if words.len() == 0 {
        lemma_wf_open_blocks(blocks, lo, end);
        lemma_wf_open_blocks(blocks, end, end);
    } else {
        let w = words[0].0;
        let off = words[0].1;
        lemma_parse_word_wf(blocks, w, off, lo, end);
        match crate::parser::parse_word_spec(blocks, w, off) {
            Ok(b2) => {
                lemma_parse_words_wf(b2, words.subrange(1, words.len() as int), off + w.len(), end);
            },
            Err(_) => {},
        }
    }
}

impl Vm {
    /// Tokenizes and parses a source buffer into the root block, then
    /// pushes a frame over the (grown) root onto the execution stack. On a
    /// bracket error — a `}` with nothing open, or an unclosed `{` at
    /// end-of-input — the machine is left exactly as it was. The source
    /// must be shorter than 2^31 bytes: the number grammar cannot size a
    /// larger token.
    pub fn parse_batch(&mut self, src: &Vec<u8>) -> (r: Result<(), ErrorKind>)
        requires
            old(self).wf(),
            src@.len() < 0x8000_0000,
        ensures
            final(self).wf(),
            ({
                let words = tokens_of(src@);
                let newend = if old(self)@.src_end >= src@.len() {
                    old(self)@.src_end
                } else {
                    src@.len() as int
                };
                match parse_words_spec(old(self)@.blocks, words) {
                    Ok(b2) => {
                        if b2.len() == 1 {
                            r is Ok && final(self)@ == (VmV {
                                blocks: b2,
                                exec_stack: old(self)@.exec_stack.push(
                                    ExecStateV::Frame(
                                        ExecFrameV {
                                            name: txt_root_name(),
                                            block: b2[0],
                                            ip: 0,
                                            vars: Seq::empty(),
                                        },
                                    ),
                                ),
                                src_end: newend,
                                ..old(self)@
                            })
                        } else {
                            r == Err::<(), ErrorKind>(ErrorKind::UnclosedBlock) && final(self)@
                                == old(self)@
                        }
                    },
                    Err(e) => r == Err::<(), ErrorKind>(e) && final(self)@ == old(self)@,
                }
            }),
    {
        let ghost oldv = self@;
        let ghost words = tokens_of(src@);
        let ghost newend: int = if oldv.src_end >= src@.len() {
            oldv.src_end
        } else {
            src@.len() as int
        };
        let srclen = src.len();
        let mut toks = tokenize(src);
        let mut blocks: Vec<BlockSpan> = Vec::new();
        let mut bi: usize = 0;
        while bi < self.blocks.len()
            invariant
                bi <= self.blocks@.len(),
                view_blocks(blocks@) == view_blocks(self.blocks@).subrange(0, bi as int),
                blocks@.len() == bi,
            decreases self.blocks@.len() - bi,
        {
            proof {
                lemma_view_blocks(blocks@);
                lemma_view_blocks(self.blocks@);
            }
            let ghost prev = blocks@;
            let c = copy_block(&self.blocks[bi]);
            blocks.push(c);
            bi = bi + 1;
            proof {
                assert(blocks@.drop_last() =~= prev);
                assert(view_blocks(blocks@) == view_blocks(prev).push(view_block(blocks@.last())));
                lemma_view_blocks(prev);
                lemma_view_blocks(blocks@);
                assert(view_blocks(blocks@) =~= view_blocks(self.blocks@).subrange(0, bi as int));
            }
        }
        proof {
            lemma_view_blocks(self.blocks@);
            assert(view_blocks(self.blocks@).subrange(0, self.blocks@.len() as int) =~= view_blocks(
                self.blocks@,
            ));
            crate::parser::lemma_tok_scan_chain(src@, 0, Seq::empty());
            lemma_wf_open_blocks(oldv.blocks, 0, oldv.src_end);
            lemma_wf_items_mono(oldv.blocks[0].items, oldv.src_end, newend);
            lemma_wf_open_blocks(oldv.blocks, 0, newend);
        }
        let ghost lo: int = 0;
        while toks.len() > 0
            invariant
                oldv == old(self)@,
                wf_vm(oldv),
                srclen as int == src@.len() as int,
                src@.len() < 0x8000_0000,
                words == tokens_of(src@),
                newend == (if oldv.src_end >= src@.len() {
                    oldv.src_end
                } else {
                    src@.len() as int
                }),
                parse_words_spec(oldv.blocks, words) == parse_words_spec(
                    view_blocks(blocks@),
                    view_tokens(toks@),
                ),
                crate::parser::toks_chain(view_tokens(toks@), lo, src@.len() as int),
                wf_open_blocks(view_blocks(blocks@), lo, newend),
                view_blocks(blocks@).len() >= 1,
                view_blocks(blocks@)[0].span == oldv.blocks[0].span,
                0 <= lo <= newend,
                src@.len() <= newend,
                self.blocks@ == old(self).blocks@,
                self.stack@ == old(self).stack@,
                self.globals@ == old(self).globals@,
                self.exec_stack@ == old(self).exec_stack@,
                self.out@ == old(self).out@,
                self.pending == old(self).pending,
                self.src_end@ == old(self).src_end@,
            decreases toks@.len(),
        {
            let ghost remaining = view_tokens(toks@);
            let (w, off) = toks.remove(0);
            proof {
                assert(view_tokens(toks@) =~= remaining.subrange(1, remaining.len() as int));
                assert(remaining[0] == (w@, off as int));
                assert(remaining[0].1 + remaining[0].0.len() <= src@.len());
                assert(src@.len() == srclen as int);
                lemma_view_blocks(blocks@);
                lemma_parse_word_wf(view_blocks(blocks@), w@, off as int, lo, newend);
            }
            let ghost wlen = w@.len();
            match parse_word(&mut blocks, w, off) {
                Ok(()) => {},
                Err(e) => {
                    assert(self@ == oldv);
                    return Err(e);
                },
            }
            proof {
                lo = off + wlen;
            }
        }
        proof {
            assert(view_tokens(toks@) =~= Seq::<(Seq<u8>, int)>::empty());
        }
        if blocks.len() != 1 {
            proof {
                lemma_view_blocks(blocks@);
                assert(self@ == oldv);
            }
            return Err(ErrorKind::UnclosedBlock);
        }
        proof {
            lemma_view_blocks(blocks@);
        }
        let root = copy_block(&blocks[0]);
        let mut name: Vec<u8> = Vec::new();
        push_root_name(&mut name);
        let frame = ExecFrame::new(name, root);
        let ghost beforepush = self.exec_stack@;
        self.blocks = blocks;
        self.exec_stack.push(ExecState::Frame(frame));
        self.src_end = Ghost(newend);
        proof {
            lemma_view_blocks(self.blocks@);
            assert(view_states(self.exec_stack@) =~= view_states(beforepush).push(
                view_state(self.exec_stack@.last()),
            ));
            lemma_wf_stack_mono(oldv.stack, oldv.src_end, newend);
            lemma_wf_pairs_mono(oldv.globals, oldv.src_end, newend);
            lemma_wf_exec_mono(oldv.exec_stack, oldv.src_end, newend);
            let fv = view_state(self.exec_stack@.last());
            lemma_wf_open_blocks(self@.blocks, lo, newend);
            assert(wf_cblock(state_frame(fv).block, newend));
            assert(wf_pairs(state_frame(fv).vars, newend));
            assert(wf_state(fv, newend));
            assert(self@.exec_stack.drop_last() =~= view_states(beforepush));
            assert(wf_exec(self@.exec_stack, newend));
            assert(final(self).wf());
            assert(final(self)@ == (VmV {
                blocks: self@.blocks,
                exec_stack: oldv.exec_stack.push(
                    ExecStateV::Frame(
                        ExecFrameV {
                            name: txt_root_name(),
                            block: self@.blocks[0],
                            ip: 0,
                            vars: Seq::empty(),
                        },
                    ),
                ),
                src_end: newend,
                ..oldv
            }));
        }
        Ok(())
    }
}

/// Binding a data value keeps a bindings list well-formed.
pub proof fn lemma_assoc_set_is_data(pairs: Seq<(Seq<u8>, ValueV)>, name: Seq<u8>, v: ValueV, end: int)
    requires
        forall|i: int| 0 <= i < pairs.len() ==> is_data(#[trigger] pairs[i].1) && wf_value(
            pairs[i].1,
            end,
        ),
        is_data(v),
        wf_value(v, end),
    ensures
        forall|i: int|
            0 <= i < assoc_set(pairs, name, v).len() ==> is_data(
                #[trigger] assoc_set(pairs, name, v)[i].1,
            ) && wf_value(assoc_set(pairs, name, v)[i].1, end),
    decreases pairs.len(),
{
    if pairs.len() > 0 && pairs[0].0 != name {
        let rest = pairs.subrange(1, pairs.len() as int);
        lemma_assoc_set_is_data(rest, name, v, end);
        assert(assoc_set(pairs, name, v) == seq![pairs[0]] + assoc_set(rest, name, v));
    }
}

} // verus!
