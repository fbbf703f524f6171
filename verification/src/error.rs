//! The interpreter's error kinds and their rendered messages.

use vstd::prelude::*;
use crate::value::{Builtin, ValueKind, builtin_name_spec, push_builtin_name};

verus! {

/// What a failed coercion expected to find on the data stack.
#[derive(Clone, Copy, PartialEq, Eq, Structural, Debug)]
pub enum TypeClass {
    Number,
    Block,
    Symbol,
}

/// The ways parsing or one evaluation step can fail.
#[derive(Debug)]
pub enum ErrorKind {
    /// An operator word resolved to no local and no global binding.
    UndefinedName(Vec<u8>),
    /// A coercion met the wrong variant: what was expected, what stood there.
    TypeMismatch(TypeClass, ValueKind),
    /// The named operator needed more data-stack items than there were.
    StackUnderflow(Builtin),
    /// A `}` closed a block that was never opened.
    UnbalancedBlock,
    /// Input ended with an open `{` block.
    UnclosedBlock,
    /// Integer division by zero.
    DivideByZero,
    /// `def` found no plain frame to hold the binding.
    NoEnclosingFrame,
    /// A step was taken while a host-native call was still unserviced.
    NativePending,
    /// `eval_all` ran out of its step budget.
    StepLimit,
}

/// The mathematical shadow of [`ErrorKind`].
pub enum ErrorKindV {
    UndefinedName(Seq<u8>),
    TypeMismatch(TypeClass, ValueKind),
    StackUnderflow(Builtin),
    UnbalancedBlock,
    UnclosedBlock,
    DivideByZero,
    NoEnclosingFrame,
    NativePending,
    StepLimit,
}

impl View for ErrorKind {
    type V = ErrorKindV;

    open spec fn view(&self) -> ErrorKindV {
        match self {
            ErrorKind::UndefinedName(n) => ErrorKindV::UndefinedName(n@),
            ErrorKind::TypeMismatch(c, k) => ErrorKindV::TypeMismatch(*c, *k),
            ErrorKind::StackUnderflow(b) => ErrorKindV::StackUnderflow(*b),
            ErrorKind::UnbalancedBlock => ErrorKindV::UnbalancedBlock,
            ErrorKind::UnclosedBlock => ErrorKindV::UnclosedBlock,
            ErrorKind::DivideByZero => ErrorKindV::DivideByZero,
            ErrorKind::NoEnclosingFrame => ErrorKindV::NoEnclosingFrame,
            ErrorKind::NativePending => ErrorKindV::NativePending,
            ErrorKind::StepLimit => ErrorKindV::StepLimit,
        }
    }
}

/// The bytes of "number" / "block" / "symbol".
pub open spec fn class_name_spec(c: TypeClass) -> Seq<u8> {
    match c {
        TypeClass::Number => seq![110u8, 117u8, 109u8, 98u8, 101u8, 114u8],
        TypeClass::Block => seq![98u8, 108u8, 111u8, 99u8, 107u8],
        TypeClass::Symbol => seq![115u8, 121u8, 109u8, 98u8, 111u8, 108u8],
    }
}

/// Appends the name of a type class to `out`.
pub fn push_class_name(c: TypeClass, out: &mut Vec<u8>)
    ensures
        final(out)@ == old(out)@ + class_name_spec(c),
{
    let mut t: Vec<u8> = match c {
        TypeClass::Number => vec![110u8, 117u8, 109u8, 98u8, 101u8, 114u8],
        TypeClass::Block => vec![98u8, 108u8, 111u8, 99u8, 107u8],
        TypeClass::Symbol => vec![115u8, 121u8, 109u8, 98u8, 111u8, 108u8],
    };
    assert(t@ =~= class_name_spec(c));
    out.append(&mut t);
}

/// The bytes of "Int" / "Num" / "Op" / "Sym" / "Block" / "Native".
pub open spec fn kind_name_spec(k: ValueKind) -> Seq<u8> {
    match k {
        ValueKind::Int => seq![73u8, 110u8, 116u8],
        ValueKind::Num => seq![78u8, 117u8, 109u8],
        ValueKind::Op => seq![79u8, 112u8],
        ValueKind::Sym => seq![83u8, 121u8, 109u8],
        ValueKind::Block => seq![66u8, 108u8, 111u8, 99u8, 107u8],
        ValueKind::Native => seq![78u8, 97u8, 116u8, 105u8, 118u8, 101u8],
    }
}

/// Appends the name of a value kind to `out`.
pub fn push_kind_name(k: ValueKind, out: &mut Vec<u8>)
    ensures
        final(out)@ == old(out)@ + kind_name_spec(k),
{
    let mut t: Vec<u8> = match k {
        ValueKind::Int => vec![73u8, 110u8, 116u8],
        ValueKind::Num => vec![78u8, 117u8, 109u8],
        ValueKind::Op => vec![79u8, 112u8],
        ValueKind::Sym => vec![83u8, 121u8, 109u8],
        ValueKind::Block => vec![66u8, 108u8, 111u8, 99u8, 107u8],
        ValueKind::Native => vec![78u8, 97u8, 116u8, 105u8, 118u8, 101u8],
    };
    assert(t@ =~= kind_name_spec(k));
    out.append(&mut t);
}

/// The message of an error kind.
pub open spec fn error_text(k: ErrorKindV) -> Seq<u8> {
    match k {
        // "undefined name: " + the name
        ErrorKindV::UndefinedName(n) => seq![
            117u8, 110u8, 100u8, 101u8, 102u8, 105u8, 110u8, 101u8, 100u8, 32u8, 110u8, 97u8,
            109u8, 101u8, 58u8, 32u8,
        ] + n,
        // "type mismatch: expected " + class + ", got " + kind
        ErrorKindV::TypeMismatch(c, k) => seq![
            116u8, 121u8, 112u8, 101u8, 32u8, 109u8, 105u8, 115u8, 109u8, 97u8, 116u8, 99u8,
            104u8, 58u8, 32u8, 101u8, 120u8, 112u8, 101u8, 99u8, 116u8, 101u8, 100u8, 32u8,
        ] + class_name_spec(c) + seq![44u8, 32u8, 103u8, 111u8, 116u8, 32u8] + kind_name_spec(k),
        // "stack underflow in " + the operator's name
        ErrorKindV::StackUnderflow(b) => seq![
            115u8, 116u8, 97u8, 99u8, 107u8, 32u8, 117u8, 110u8, 100u8, 101u8, 114u8, 102u8,
            108u8, 111u8, 119u8, 32u8, 105u8, 110u8, 32u8,
        ] + builtin_name_spec(b),
        // "unbalanced block"
        ErrorKindV::UnbalancedBlock => seq![
            117u8, 110u8, 98u8, 97u8, 108u8, 97u8, 110u8, 99u8, 101u8, 100u8, 32u8, 98u8, 108u8,
            111u8, 99u8, 107u8,
        ],
        // "unclosed block"
        ErrorKindV::UnclosedBlock => seq![
            117u8, 110u8, 99u8, 108u8, 111u8, 115u8, 101u8, 100u8, 32u8, 98u8, 108u8, 111u8,
            99u8, 107u8,
        ],
        // "divide by zero"
        ErrorKindV::DivideByZero => seq![
            100u8, 105u8, 118u8, 105u8, 100u8, 101u8, 32u8, 98u8, 121u8, 32u8, 122u8, 101u8,
            114u8, 111u8,
        ],
        // "no enclosing frame"
        ErrorKindV::NoEnclosingFrame => seq![
            110u8, 111u8, 32u8, 101u8, 110u8, 99u8, 108u8, 111u8, 115u8, 105u8, 110u8, 103u8,
            32u8, 102u8, 114u8, 97u8, 109u8, 101u8,
        ],
        // "unserviced native call"
        ErrorKindV::NativePending => seq![
            117u8, 110u8, 115u8, 101u8, 114u8, 118u8, 105u8, 99u8, 101u8, 100u8, 32u8, 110u8,
            97u8, 116u8, 105u8, 118u8, 101u8, 32u8, 99u8, 97u8, 108u8, 108u8,
        ],
        // "step limit reached"
        ErrorKindV::StepLimit => seq![
            115u8, 116u8, 101u8, 112u8, 32u8, 108u8, 105u8, 109u8, 105u8, 116u8, 32u8, 114u8,
            101u8, 97u8, 99u8, 104u8, 101u8, 100u8,
        ],
    }
}

impl ErrorKind {
    /// The message of this error kind, as bytes.
    pub fn to_text(&self) -> (r: Vec<u8>)
        ensures
            r@ == error_text(self@),
    {
        let mut out: Vec<u8> = Vec::new();
        match self {
            ErrorKind::UndefinedName(n) => {
                let mut t: Vec<u8> = vec![
                    117u8, 110u8, 100u8, 101u8, 102u8, 105u8, 110u8, 101u8, 100u8, 32u8, 110u8,
                    97u8, 109u8, 101u8, 58u8, 32u8,
                ];
                out.append(&mut t);
                let mut n2 = crate::value::copy_bytes(n);
                out.append(&mut n2);
            },
            ErrorKind::TypeMismatch(c, k) => {
                let mut t: Vec<u8> = vec![
                    116u8, 121u8, 112u8, 101u8, 32u8, 109u8, 105u8, 115u8, 109u8, 97u8, 116u8,
                    99u8, 104u8, 58u8, 32u8, 101u8, 120u8, 112u8, 101u8, 99u8, 116u8, 101u8,
                    100u8, 32u8,
                ];
                out.append(&mut t);
                push_class_name(*c, &mut out);
                let mut g: Vec<u8> = vec![44u8, 32u8, 103u8, 111u8, 116u8, 32u8];
                out.append(&mut g);
                push_kind_name(*k, &mut out);
            },
            ErrorKind::StackUnderflow(b) => {
                let mut t: Vec<u8> = vec![
                    115u8, 116u8, 97u8, 99u8, 107u8, 32u8, 117u8, 110u8, 100u8, 101u8, 114u8,
                    102u8, 108u8, 111u8, 119u8, 32u8, 105u8, 110u8, 32u8,
                ];
                out.append(&mut t);
                push_builtin_name(*b, &mut out);
            },
            ErrorKind::UnbalancedBlock => {
                let mut t: Vec<u8> = vec![
                    117u8, 110u8, 98u8, 97u8, 108u8, 97u8, 110u8, 99u8, 101u8, 100u8, 32u8,
                    98u8, 108u8, 111u8, 99u8, 107u8,
                ];
                out.append(&mut t);
            },
            ErrorKind::UnclosedBlock => {
                let mut t: Vec<u8> = vec![
                    117u8, 110u8, 99u8, 108u8, 111u8, 115u8, 101u8, 100u8, 32u8, 98u8, 108u8,
                    111u8, 99u8, 107u8,
                ];
                out.append(&mut t);
            },
            ErrorKind::DivideByZero => {
                let mut t: Vec<u8> = vec![
                    100u8, 105u8, 118u8, 105u8, 100u8, 101u8, 32u8, 98u8, 121u8, 32u8, 122u8,
                    101u8, 114u8, 111u8,
                ];
                out.append(&mut t);
            },
            ErrorKind::NoEnclosingFrame => {
                let mut t: Vec<u8> = vec![
                    110u8, 111u8, 32u8, 101u8, 110u8, 99u8, 108u8, 111u8, 115u8, 105u8, 110u8,
                    103u8, 32u8, 102u8, 114u8, 97u8, 109u8, 101u8,
                ];
                out.append(&mut t);
            },
            ErrorKind::NativePending => {
                let mut t: Vec<u8> = vec![
                    117u8, 110u8, 115u8, 101u8, 114u8, 118u8, 105u8, 99u8, 101u8, 100u8, 32u8,
                    110u8, 97u8, 116u8, 105u8, 118u8, 101u8, 32u8, 99u8, 97u8, 108u8, 108u8,
                ];
                out.append(&mut t);
            },
            ErrorKind::StepLimit => {
                let mut t: Vec<u8> = vec![
                    115u8, 116u8, 101u8, 112u8, 32u8, 108u8, 105u8, 109u8, 105u8, 116u8, 32u8,
                    114u8, 101u8, 97u8, 99u8, 104u8, 101u8, 100u8,
                ];
                out.append(&mut t);
            },
        }
        assert(out@ =~= error_text(self@));
        out
    }
}

/// A step failure: the error kind plus the stack trace of the machine at the
/// moment it failed.
#[derive(Debug)]
pub struct VmError {
    pub kind: ErrorKind,
    pub trace: Vec<u8>,
}

/// The mathematical shadow of [`VmError`].
pub struct VmErrorV {
    pub kind: ErrorKindV,
    pub trace: Seq<u8>,
}

impl View for VmError {
    type V = VmErrorV;

    open spec fn view(&self) -> VmErrorV {
        VmErrorV { kind: self.kind@, trace: self.trace@ }
    }
}

/// The full diagnostic of a step failure: the message, ":\n", the trace.
pub open spec fn diagnostic_text(e: VmErrorV) -> Seq<u8> {
    error_text(e.kind) + seq![58u8, 10u8] + e.trace
}

impl VmError {
    /// The full diagnostic, as bytes.
    pub fn to_text(&self) -> (r: Vec<u8>)
        ensures
            r@ == diagnostic_text(self@),
    {
        let mut out = self.kind.to_text();
        let mut sep: Vec<u8> = vec![58u8, 10u8];
        out.append(&mut sep);
        let mut t = crate::value::copy_bytes(&self.trace);
        out.append(&mut t);
        assert(out@ =~= diagnostic_text(self@));
        out
    }
}

} // verus!
