//! The value model: tagged values, spanned values and blocks, with their
//! mathematical shadows, coercions and printable forms.

use vstd::prelude::*;
use crate::error::{ErrorKind, TypeClass};
use crate::fnum::{num_to_int, num_from_int, num_text, num_to_int_bits, num_from_int_bits,
    num_text_bytes};
use crate::names::{txt_block_open, txt_comma, txt_block_close, txt_native_text,
    push_block_open, push_comma, push_block_close, push_native_text};
use crate::text::{dec_digits, int_text, i32_text, usize_text};

verus! {

broadcast use vstd::std_specs::vec::group_vec_axioms;

/// The built-in operators installed by `Vm::new`.
#[derive(Clone, Copy, PartialEq, Eq, Structural, Debug)]
pub enum Builtin {
    Add,
    Sub,
    Mul,
    Div,
    Lt,
    Or,
    And,
    If,
    For,
    Def,
    Puts,
    Pop,
    Dup,
    Exch,
    Index,
    Load,
    Pi,
}

/// A handle to a native procedure: one of the built-ins, or a host-registered
/// procedure known to the interpreter only by its number. Two handles are
/// equal exactly when they name the same procedure.
#[derive(Clone, Copy, PartialEq, Eq, Structural, Debug)]
pub enum NativeOp {
    Builtin(Builtin),
    Host(u32),
}

/// The word under which a built-in is installed in the globals table.
pub open spec fn builtin_name_spec(b: Builtin) -> Seq<u8> {
    match b {
        // "+"
        Builtin::Add => seq![43u8],
        // "-"
        Builtin::Sub => seq![45u8],
        // "*"
        Builtin::Mul => seq![42u8],
        // "div"
        Builtin::Div => seq![100u8, 105u8, 118u8],
        // "<"
        Builtin::Lt => seq![60u8],
        // "or"
        Builtin::Or => seq![111u8, 114u8],
        // "and"
        Builtin::And => seq![97u8, 110u8, 100u8],
        // "if"
        Builtin::If => seq![105u8, 102u8],
        // "for"
        Builtin::For => seq![102u8, 111u8, 114u8],
        // "def"
        Builtin::Def => seq![100u8, 101u8, 102u8],
        // "puts"
        Builtin::Puts => seq![112u8, 117u8, 116u8, 115u8],
        // "pop"
        Builtin::Pop => seq![112u8, 111u8, 112u8],
        // "dup"
        Builtin::Dup => seq![100u8, 117u8, 112u8],
        // "exch"
        Builtin::Exch => seq![101u8, 120u8, 99u8, 104u8],
        // "index"
        Builtin::Index => seq![105u8, 110u8, 100u8, 101u8, 120u8],
        // "load"
        Builtin::Load => seq![108u8, 111u8, 97u8, 100u8],
        // "pi"
        Builtin::Pi => seq![112u8, 105u8],
    }
}

/// Appends the word of a built-in to `out`.
pub fn push_builtin_name(b: Builtin, out: &mut Vec<u8>)
    ensures
        final(out)@ == old(out)@ + builtin_name_spec(b),
{
    let mut t: Vec<u8> = match b {
        Builtin::Add => vec![43u8],
        Builtin::Sub => vec![45u8],
        Builtin::Mul => vec![42u8],
        Builtin::Div => vec![100u8, 105u8, 118u8],
        Builtin::Lt => vec![60u8],
        Builtin::Or => vec![111u8, 114u8],
        Builtin::And => vec![97u8, 110u8, 100u8],
        Builtin::If => vec![105u8, 102u8],
        Builtin::For => vec![102u8, 111u8, 114u8],
        Builtin::Def => vec![100u8, 101u8, 102u8],
        Builtin::Puts => vec![112u8, 117u8, 116u8, 115u8],
        Builtin::Pop => vec![112u8, 111u8, 112u8],
        Builtin::Dup => vec![100u8, 117u8, 112u8],
        Builtin::Exch => vec![101u8, 120u8, 99u8, 104u8],
        Builtin::Index => vec![105u8, 110u8, 100u8, 101u8, 120u8],
        Builtin::Load => vec![108u8, 111u8, 97u8, 100u8],
        Builtin::Pi => vec![112u8, 105u8],
    };
    assert(t@ =~= builtin_name_spec(b));
    out.append(&mut t);
}

/// A value of the interpreted language. `Num` carries the bits of an
/// IEEE-754 single-precision number. `Op` and `Sym` carry a name's bytes.
#[derive(Debug)]
pub enum Value {
    Int(i32),
    Num(u32),
    Op(Vec<u8>),
    Sym(Vec<u8>),
    Block(BlockSpan),
    Native(NativeOp),
}

/// A value paired with the byte range of the source it came from.
#[derive(Debug)]
pub struct ValueSpan {
    pub value: Value,
    pub span: (usize, usize),
}

/// An ordered sequence of spanned values with its own enclosing span.
#[derive(Debug)]
pub struct BlockSpan {
    pub block: Vec<ValueSpan>,
    pub span: (usize, usize),
}

/// The mathematical shadow of [`Value`].
pub enum ValueV {
    Int(i32),
    Num(u32),
    Op(Seq<u8>),
    Sym(Seq<u8>),
    Block(BlockSpanV),
    Native(NativeOp),
}

/// The mathematical shadow of [`ValueSpan`].
pub struct ValueSpanV {
    pub value: ValueV,
    pub span: (int, int),
}

/// The mathematical shadow of [`BlockSpan`].
pub struct BlockSpanV {
    pub items: Seq<ValueSpanV>,
    pub span: (int, int),
}

pub open spec fn view_value(v: Value) -> ValueV
    decreases v,
{
    match v {
        Value::Int(i) => ValueV::Int(i),
        Value::Num(b) => ValueV::Num(b),
        Value::Op(s) => ValueV::Op(s@),
        Value::Sym(s) => ValueV::Sym(s@),
        Value::Block(b) => ValueV::Block(view_block(b)),
        Value::Native(n) => ValueV::Native(n),
    }
}

pub open spec fn view_spanned(s: ValueSpan) -> ValueSpanV
    decreases s,
{
    ValueSpanV { value: view_value(s.value), span: (s.span.0 as int, s.span.1 as int) }
}

pub open spec fn view_items(s: Seq<ValueSpan>) -> Seq<ValueSpanV>
    decreases s,
{
    if s.len() == 0 {
        Seq::empty()
    } else {
        view_items(s.drop_last()).push(view_spanned(s.last()))
    }
}

pub open spec fn view_block(b: BlockSpan) -> BlockSpanV
    decreases b,
{
    BlockSpanV { items: view_items(b.block@), span: (b.span.0 as int, b.span.1 as int) }
}

/// `view_items` maps `view_spanned` over the sequence.
pub broadcast proof fn lemma_view_items(s: Seq<ValueSpan>)
    ensures
        #![trigger view_items(s)]
        view_items(s).len() == s.len(),
        forall|i: int| 0 <= i < s.len() ==> view_items(s)[i] == view_spanned(s[i]),
    decreases s,
{
    if s.len() > 0 {
        lemma_view_items(s.drop_last());
        assert(forall|i: int| 0 <= i < s.len() - 1 ==> s.drop_last()[i] == s[i]);
    }
}

impl View for Value {
    type V = ValueV;

    open spec fn view(&self) -> ValueV {
        view_value(*self)
    }
}

impl View for ValueSpan {
    type V = ValueSpanV;

    open spec fn view(&self) -> ValueSpanV {
        view_spanned(*self)
    }
}

impl View for BlockSpan {
    type V = BlockSpanV;

    open spec fn view(&self) -> BlockSpanV {
        view_block(*self)
    }
}

/// The variant of a value, as data.
#[derive(Clone, Copy, PartialEq, Eq, Structural, Debug)]
pub enum ValueKind {
    Int,
    Num,
    Op,
    Sym,
    Block,
    Native,
}

pub open spec fn kind_of(v: ValueV) -> ValueKind {
    match v {
        ValueV::Int(_) => ValueKind::Int,
        ValueV::Num(_) => ValueKind::Num,
        ValueV::Op(_) => ValueKind::Op,
        ValueV::Sym(_) => ValueKind::Sym,
        ValueV::Block(_) => ValueKind::Block,
        ValueV::Native(_) => ValueKind::Native,
    }
}

/// Whether a value may sit on the data stack: every variant but `Op`.
pub open spec fn is_data(v: ValueV) -> bool {
    !(v is Op)
}

/// A byte-for-byte copy of a byte vector.
pub fn copy_bytes(v: &Vec<u8>) -> (r: Vec<u8>)
    ensures
        r@ == v@,
{
    let mut out: Vec<u8> = Vec::new();
    let mut i: usize = 0;
    while i < v.len()
        invariant
            i <= v.len(),
            out@ == v@.subrange(0, i as int),
        decreases v.len() - i,
    {
        out.push(v[i]);
        i = i + 1;
        assert(out@ =~= v@.subrange(0, i as int));
    }
    assert(out@ =~= v@);
    out
}

/// Whether two byte vectors hold the same bytes.
pub fn bytes_eq(a: &Vec<u8>, b: &Vec<u8>) -> (r: bool)
    ensures
        r == (a@ == b@),
{
    if a.len() != b.len() {
        assert(a@ != b@) by {
            assert(a@.len() != b@.len());
        }
        return false;
    }
    let mut i: usize = 0;
    while i < a.len()
        invariant
            i <= a.len(),
            a@.len() == b@.len(),
            forall|j: int| 0 <= j < i ==> a@[j] == b@[j],
        decreases a.len() - i,
    {
        if a[i] != b[i] {
            return false;
        }
        i = i + 1;
    }
    assert(a@ =~= b@);
    true
}

impl Value {
    /// The variant of this value.
    pub fn kind(&self) -> (k: ValueKind)
        ensures
            k == kind_of(self@),
    {
        match self {
            Value::Int(_) => ValueKind::Int,
            Value::Num(_) => ValueKind::Num,
            Value::Op(_) => ValueKind::Op,
            Value::Sym(_) => ValueKind::Sym,
            Value::Block(_) => ValueKind::Block,
            Value::Native(_) => ValueKind::Native,
        }
    }

    /// `Int` gives its value; `Num` truncates toward zero; anything else is
    /// a type mismatch.
    pub fn as_int(&self) -> (r: Result<i32, ErrorKind>)
        ensures
            r == as_int_spec(self@),
    {
        match self {
            Value::Int(i) => Ok(*i),
            Value::Num(b) => Ok(num_to_int_bits(*b)),
            _ => Err(ErrorKind::TypeMismatch(TypeClass::Number, self.kind())),
        }
    }

    /// `Int` promotes to the nearest single-precision number; `Num` gives
    /// its bits; anything else is a type mismatch.
    pub fn as_num(&self) -> (r: Result<u32, ErrorKind>)
        ensures
            r == as_num_spec(self@),
    {
        match self {
            Value::Int(i) => Ok(num_from_int_bits(*i)),
            Value::Num(b) => Ok(*b),
            _ => Err(ErrorKind::TypeMismatch(TypeClass::Number, self.kind())),
        }
    }

    /// A value is true when it coerces to a non-zero integer.
    pub fn as_bool(&self) -> (r: Result<bool, ErrorKind>)
        ensures
            r == as_bool_spec(self@),
    {
        match self.as_int() {
            Ok(i) => Ok(i != 0),
            Err(e) => Err(e),
        }
    }

    /// The block inside a `Block`; anything else is a type mismatch.
    pub fn to_block(self) -> (r: Result<BlockSpan, ErrorKind>)
        ensures
            match self@ {
                ValueV::Block(b) => r matches Ok(rb) && rb@ == b,
                _ => r == Err::<BlockSpan, ErrorKind>(
                    ErrorKind::TypeMismatch(TypeClass::Block, kind_of(self@)),
                ),
            },
    {
        let k = self.kind();
        match self {
            Value::Block(b) => Ok(b),
            _ => Err(ErrorKind::TypeMismatch(TypeClass::Block, k)),
        }
    }

    /// The name inside a `Sym`; anything else is a type mismatch.
    pub fn as_sym(&self) -> (r: Result<&Vec<u8>, ErrorKind>)
        ensures
            match self@ {
                ValueV::Sym(s) => r matches Ok(n) && n@ == s,
                _ => r == Err::<&Vec<u8>, ErrorKind>(
                    ErrorKind::TypeMismatch(TypeClass::Symbol, kind_of(self@)),
                ),
            },
    {
        match self {
            Value::Sym(s) => Ok(s),
            _ => Err(ErrorKind::TypeMismatch(TypeClass::Symbol, self.kind())),
        }
    }
}

/// What `as_int` returns, by variant.
pub open spec fn as_int_spec(v: ValueV) -> Result<i32, ErrorKind> {
    match v {
        ValueV::Int(i) => Ok(i),
        ValueV::Num(b) => Ok(num_to_int(b)),
        _ => Err(ErrorKind::TypeMismatch(TypeClass::Number, kind_of(v))),
    }
}

/// What `as_num` returns, by variant.
pub open spec fn as_num_spec(v: ValueV) -> Result<u32, ErrorKind> {
    match v {
        ValueV::Int(i) => Ok(num_from_int(i)),
        ValueV::Num(b) => Ok(b),
        _ => Err(ErrorKind::TypeMismatch(TypeClass::Number, kind_of(v))),
    }
}

/// What `as_bool` returns, by variant.
pub open spec fn as_bool_spec(v: ValueV) -> Result<bool, ErrorKind> {
    match as_int_spec(v) {
        Ok(i) => Ok(i != 0),
        Err(e) => Err(e),
    }
}

/// A copy of a value, equal to it in the model.
pub fn copy_value(v: &Value) -> (r: Value)
    ensures
        r@ == v@,
    decreases v,
{
    match v {
        Value::Int(i) => Value::Int(*i),
        Value::Num(b) => Value::Num(*b),
        Value::Op(s) => Value::Op(copy_bytes(s)),
        Value::Sym(s) => Value::Sym(copy_bytes(s)),
        Value::Block(b) => Value::Block(copy_block(b)),
        Value::Native(n) => Value::Native(*n),
    }
}

/// A copy of a spanned value.
pub fn copy_spanned(s: &ValueSpan) -> (r: ValueSpan)
    ensures
        r@ == s@,
    decreases s,
{
    ValueSpan { value: copy_value(&s.value), span: s.span }
}

/// A copy of a block.
pub fn copy_block(b: &BlockSpan) -> (r: BlockSpan)
    ensures
        r@ == b@,
    decreases b,
{
    let mut items: Vec<ValueSpan> = Vec::new();
    let mut i: usize = 0;
    while i < b.block.len()
        invariant
            i <= b.block.len(),
            view_items(items@) == view_items(b.block@.subrange(0, i as int)),
            items@.len() == i,
        decreases b.block.len() - i,
    {
        let ghost prev = items@;
        let c = copy_spanned(&b.block[i]);
        items.push(c);
        i = i + 1;
        proof {
            assert(items@.drop_last() =~= prev);
            assert(items@.last() == c);
            assert(view_items(items@) == view_items(prev).push(view_spanned(c)));
            let sub = b.block@.subrange(0, i as int);
            assert(sub.drop_last() =~= b.block@.subrange(0, i - 1));
            assert(sub.last() == b.block@[i - 1]);
            assert(view_items(sub) == view_items(b.block@.subrange(0, i - 1)).push(
                view_spanned(b.block@[i - 1]),
            ));
        }
    }
    proof {
        assert(b.block@.subrange(0, b.block@.len() as int) =~= b.block@);
    }
    let r = BlockSpan { block: items, span: b.span };
    assert(r@ =~= b@);
    r
}

/// Whether two values are equal in the model.
pub fn eq_value(a: &Value, b: &Value) -> (r: bool)
    ensures
        r == (a@ == b@),
    decreases a,
{
    match (a, b) {
        (Value::Int(x), Value::Int(y)) => x == y,
        (Value::Num(x), Value::Num(y)) => x == y,
        (Value::Op(x), Value::Op(y)) => bytes_eq(x, y),
        (Value::Sym(x), Value::Sym(y)) => bytes_eq(x, y),
        (Value::Block(x), Value::Block(y)) => eq_block(x, y),
        (Value::Native(x), Value::Native(y)) => x == y,
        _ => false,
    }
}

/// Whether two spanned values are equal in the model.
pub fn eq_spanned(a: &ValueSpan, b: &ValueSpan) -> (r: bool)
    ensures
        r == (a@ == b@),
    decreases a,
{
    if a.span.0 != b.span.0 || a.span.1 != b.span.1 {
        return false;
    }
    eq_value(&a.value, &b.value)
}

/// Whether two blocks are equal in the model.
pub fn eq_block(a: &BlockSpan, b: &BlockSpan) -> (r: bool)
    ensures
        r == (a@ == b@),
    decreases a,
{
    proof {
        lemma_view_items(a.block@);
        lemma_view_items(b.block@);
    }
    if a.span.0 != b.span.0 || a.span.1 != b.span.1 {
        assert(a@ != b@) by {
            assert(a@.span == (a.span.0 as int, a.span.1 as int));
            assert(b@.span == (b.span.0 as int, b.span.1 as int));
        }
        return false;
    }
    if a.block.len() != b.block.len() {
        assert(a@ != b@) by {
            assert(a@.items.len() == a.block@.len());
            assert(b@.items.len() == b.block@.len());
        }
        return false;
    }
    let mut i: usize = 0;
    while i < a.block.len()
        invariant
            i <= a.block.len(),
            a.block@.len() == b.block@.len(),
            a.span == b.span,
            forall|j: int| 0 <= j < i ==> view_items(a.block@)[j] == view_items(b.block@)[j],
            view_items(a.block@).len() == a.block@.len(),
            view_items(b.block@).len() == b.block@.len(),
            forall|j: int| 0 <= j < a.block@.len() ==> view_items(a.block@)[j] == view_spanned(
                a.block@[j],
            ),
            forall|j: int| 0 <= j < b.block@.len() ==> view_items(b.block@)[j] == view_spanned(
                b.block@[j],
            ),
        decreases a.block.len() - i,
    {
        if !eq_spanned(&a.block[i], &b.block[i]) {
            assert(a@ != b@) by {
                assert(a@.items == view_items(a.block@));
                assert(b@.items == view_items(b.block@));
                assert(view_items(a.block@)[i as int] != view_items(b.block@)[i as int]);
            }
            return false;
        }
        i = i + 1;
    }
    assert(view_items(a.block@) =~= view_items(b.block@));
    true
}

impl PartialEq for Value {
    fn eq(&self, other: &Self) -> bool {
        eq_value(self, other)
    }
}

impl vstd::std_specs::cmp::PartialEqSpecImpl for Value {
    open spec fn obeys_eq_spec() -> bool {
        true
    }

    open spec fn eq_spec(&self, other: &Self) -> bool {
        self@ == other@
    }
}

impl PartialEq for ValueSpan {
    fn eq(&self, other: &Self) -> bool {
        eq_spanned(self, other)
    }
}

impl vstd::std_specs::cmp::PartialEqSpecImpl for ValueSpan {
    open spec fn obeys_eq_spec() -> bool {
        true
    }

    open spec fn eq_spec(&self, other: &Self) -> bool {
        self@ == other@
    }
}

impl PartialEq for BlockSpan {
    fn eq(&self, other: &Self) -> bool {
        eq_block(self, other)
    }
}

impl vstd::std_specs::cmp::PartialEqSpecImpl for BlockSpan {
    open spec fn obeys_eq_spec() -> bool {
        true
    }

    open spec fn eq_spec(&self, other: &Self) -> bool {
        self@ == other@
    }
}

/// The printable form of a value: `Int`/`Num` as their decimal text, `Op`
/// and `Sym` as the bare name, a block as `<Block [start,end]>`, a native
/// handle as `<Native>`.
pub open spec fn value_text(v: ValueV) -> Seq<u8> {
    match v {
        ValueV::Int(i) => int_text(i as int),
        ValueV::Num(b) => num_text(b),
        ValueV::Op(s) => s,
        ValueV::Sym(s) => s,
        ValueV::Block(b) => txt_block_open() + dec_digits(b.span.0 as nat) + txt_comma()
            + dec_digits(b.span.1 as nat) + txt_block_close(),
        ValueV::Native(_) => txt_native_text(),
    }
}

impl Value {
    /// The printable form of this value, as bytes.
    pub fn to_text(&self) -> (r: Vec<u8>)
        ensures
            r@ == value_text(self@),
    {
        match self {
            Value::Int(i) => i32_text(*i),
            Value::Num(b) => num_text_bytes(*b),
            Value::Op(s) => copy_bytes(s),
            Value::Sym(s) => copy_bytes(s),
            Value::Block(b) => {
                let mut out: Vec<u8> = Vec::new();
                push_block_open(&mut out);
                let mut s0 = usize_text(b.span.0);
                out.append(&mut s0);
                push_comma(&mut out);
                let mut s1 = usize_text(b.span.1);
                out.append(&mut s1);
                push_block_close(&mut out);
                assert(out@ =~= value_text(self@));
                out
            },
            Value::Native(_) => {
                let mut out: Vec<u8> = Vec::new();
                push_native_text(&mut out);
                assert(out@ =~= value_text(self@));
                out
            },
        }
    }
}

} // verus!
