//! The byte texts the interpreter writes: frame names, printable-form
//! fragments and the stack-trace layout. Verus takes no byte-string
//! literals, so each text is spelled as its bytes, with the text itself in
//! the comment above it.

use vstd::prelude::*;

verus! {

/// The bytes of "root".
pub open spec fn txt_root_name() -> Seq<u8> {
    seq![114u8, 111u8, 111u8, 116u8]
}

/// Appends the bytes of "root" to `out`.
pub fn push_root_name(out: &mut Vec<u8>)
    ensures
        final(out)@ == old(out)@ + txt_root_name(),
{
    let mut t: Vec<u8> = vec![114u8, 111u8, 111u8, 116u8];
    assert(t@ =~= txt_root_name());
    out.append(&mut t);
}

/// The bytes of "<IfTrue>".
pub open spec fn txt_if_true_name() -> Seq<u8> {
    seq![60u8, 73u8, 102u8, 84u8, 114u8, 117u8, 101u8, 62u8]
}

/// Appends the bytes of "<IfTrue>" to `out`.
pub fn push_if_true_name(out: &mut Vec<u8>)
    ensures
        final(out)@ == old(out)@ + txt_if_true_name(),
{
    let mut t: Vec<u8> = vec![60u8, 73u8, 102u8, 84u8, 114u8, 117u8, 101u8, 62u8];
    assert(t@ =~= txt_if_true_name());
    out.append(&mut t);
}

/// The bytes of "<IfFalse>".
pub open spec fn txt_if_false_name() -> Seq<u8> {
    seq![60u8, 73u8, 102u8, 70u8, 97u8, 108u8, 115u8, 101u8, 62u8]
}

/// Appends the bytes of "<IfFalse>" to `out`.
pub fn push_if_false_name(out: &mut Vec<u8>)
    ensures
        final(out)@ == old(out)@ + txt_if_false_name(),
{
    let mut t: Vec<u8> = vec![60u8, 73u8, 102u8, 70u8, 97u8, 108u8, 115u8, 101u8, 62u8];
    assert(t@ =~= txt_if_false_name());
    out.append(&mut t);
}

/// The bytes of "<IfCond>".
pub open spec fn txt_if_cond_name() -> Seq<u8> {
    seq![60u8, 73u8, 102u8, 67u8, 111u8, 110u8, 100u8, 62u8]
}

/// Appends the bytes of "<IfCond>" to `out`.
pub fn push_if_cond_name(out: &mut Vec<u8>)
    ensures
        final(out)@ == old(out)@ + txt_if_cond_name(),
{
    let mut t: Vec<u8> = vec![60u8, 73u8, 102u8, 67u8, 111u8, 110u8, 100u8, 62u8];
    assert(t@ =~= txt_if_cond_name());
    out.append(&mut t);
}

/// The bytes of "<For>".
pub open spec fn txt_for_name() -> Seq<u8> {
    seq![60u8, 70u8, 111u8, 114u8, 62u8]
}

/// Appends the bytes of "<For>" to `out`.
pub fn push_for_name(out: &mut Vec<u8>)
    ensures
        final(out)@ == old(out)@ + txt_for_name(),
{
    let mut t: Vec<u8> = vec![60u8, 70u8, 111u8, 114u8, 62u8];
    assert(t@ =~= txt_for_name());
    out.append(&mut t);
}

/// The bytes of "<Block [".
pub open spec fn txt_block_open() -> Seq<u8> {
    seq![60u8, 66u8, 108u8, 111u8, 99u8, 107u8, 32u8, 91u8]
}

/// Appends the bytes of "<Block [" to `out`.
pub fn push_block_open(out: &mut Vec<u8>)
    ensures
        final(out)@ == old(out)@ + txt_block_open(),
{
    let mut t: Vec<u8> = vec![60u8, 66u8, 108u8, 111u8, 99u8, 107u8, 32u8, 91u8];
    assert(t@ =~= txt_block_open());
    out.append(&mut t);
}

/// The bytes of ",".
pub open spec fn txt_comma() -> Seq<u8> {
    seq![44u8]
}

/// Appends the bytes of "," to `out`.
pub fn push_comma(out: &mut Vec<u8>)
    ensures
        final(out)@ == old(out)@ + txt_comma(),
{
    let mut t: Vec<u8> = vec![44u8];
    assert(t@ =~= txt_comma());
    out.append(&mut t);
}

/// The bytes of "]>".
pub open spec fn txt_block_close() -> Seq<u8> {
    seq![93u8, 62u8]
}

/// Appends the bytes of "]>" to `out`.
pub fn push_block_close(out: &mut Vec<u8>)
    ensures
        final(out)@ == old(out)@ + txt_block_close(),
{
    let mut t: Vec<u8> = vec![93u8, 62u8];
    assert(t@ =~= txt_block_close());
    out.append(&mut t);
}

/// The bytes of "<Native>".
pub open spec fn txt_native_text() -> Seq<u8> {
    seq![60u8, 78u8, 97u8, 116u8, 105u8, 118u8, 101u8, 62u8]
}

/// Appends the bytes of "<Native>" to `out`.
pub fn push_native_text(out: &mut Vec<u8>)
    ensures
        final(out)@ == old(out)@ + txt_native_text(),
{
    let mut t: Vec<u8> = vec![60u8, 78u8, 97u8, 116u8, 105u8, 118u8, 101u8, 62u8];
    assert(t@ =~= txt_native_text());
    out.append(&mut t);
}

/// The bytes of "  Stack trace:\n".
pub open spec fn txt_trace_head() -> Seq<u8> {
    seq![32u8, 32u8, 83u8, 116u8, 97u8, 99u8, 107u8, 32u8, 116u8, 114u8, 97u8, 99u8, 101u8, 58u8, 10u8]
}

/// Appends the bytes of "  Stack trace:\n" to `out`.
pub fn push_trace_head(out: &mut Vec<u8>)
    ensures
        final(out)@ == old(out)@ + txt_trace_head(),
{
    let mut t: Vec<u8> = vec![32u8, 32u8, 83u8, 116u8, 97u8, 99u8, 107u8, 32u8, 116u8, 114u8, 97u8, 99u8, 101u8, 58u8, 10u8];
    assert(t@ =~= txt_trace_head());
    out.append(&mut t);
}

/// The bytes of "    frame[".
pub open spec fn txt_frame_open() -> Seq<u8> {
    seq![32u8, 32u8, 32u8, 32u8, 102u8, 114u8, 97u8, 109u8, 101u8, 91u8]
}

/// Appends the bytes of "    frame[" to `out`.
pub fn push_frame_open(out: &mut Vec<u8>)
    ensures
        final(out)@ == old(out)@ + txt_frame_open(),
{
    let mut t: Vec<u8> = vec![32u8, 32u8, 32u8, 32u8, 102u8, 114u8, 97u8, 109u8, 101u8, 91u8];
    assert(t@ =~= txt_frame_open());
    out.append(&mut t);
}

/// The bytes of "] ".
pub open spec fn txt_frame_name() -> Seq<u8> {
    seq![93u8, 32u8]
}

/// Appends the bytes of "] " to `out`.
pub fn push_frame_name(out: &mut Vec<u8>)
    ensures
        final(out)@ == old(out)@ + txt_frame_name(),
{
    let mut t: Vec<u8> = vec![93u8, 32u8];
    assert(t@ =~= txt_frame_name());
    out.append(&mut t);
}

/// The bytes of ": locals: {".
pub open spec fn txt_frame_mid() -> Seq<u8> {
    seq![58u8, 32u8, 108u8, 111u8, 99u8, 97u8, 108u8, 115u8, 58u8, 32u8, 123u8]
}

/// Appends the bytes of ": locals: {" to `out`.
pub fn push_frame_mid(out: &mut Vec<u8>)
    ensures
        final(out)@ == old(out)@ + txt_frame_mid(),
{
    let mut t: Vec<u8> = vec![58u8, 32u8, 108u8, 111u8, 99u8, 97u8, 108u8, 115u8, 58u8, 32u8, 123u8];
    assert(t@ =~= txt_frame_mid());
    out.append(&mut t);
}

/// The bytes of "}, stack: ".
pub open spec fn txt_frame_stack() -> Seq<u8> {
    seq![125u8, 44u8, 32u8, 115u8, 116u8, 97u8, 99u8, 107u8, 58u8, 32u8]
}

/// Appends the bytes of "}, stack: " to `out`.
pub fn push_frame_stack(out: &mut Vec<u8>)
    ensures
        final(out)@ == old(out)@ + txt_frame_stack(),
{
    let mut t: Vec<u8> = vec![125u8, 44u8, 32u8, 115u8, 116u8, 97u8, 99u8, 107u8, 58u8, 32u8];
    assert(t@ =~= txt_frame_stack());
    out.append(&mut t);
}

/// The bytes of ", ".
pub open spec fn txt_comma_space() -> Seq<u8> {
    seq![44u8, 32u8]
}

/// Appends the bytes of ", " to `out`.
pub fn push_comma_space(out: &mut Vec<u8>)
    ensures
        final(out)@ == old(out)@ + txt_comma_space(),
{
    let mut t: Vec<u8> = vec![44u8, 32u8];
    assert(t@ =~= txt_comma_space());
    out.append(&mut t);
}

/// The bytes of ": ".
pub open spec fn txt_colon_space() -> Seq<u8> {
    seq![58u8, 32u8]
}

/// Appends the bytes of ": " to `out`.
pub fn push_colon_space(out: &mut Vec<u8>)
    ensures
        final(out)@ == old(out)@ + txt_colon_space(),
{
    let mut t: Vec<u8> = vec![58u8, 32u8];
    assert(t@ =~= txt_colon_space());
    out.append(&mut t);
}

/// The bytes of "\n".
pub open spec fn txt_newline() -> Seq<u8> {
    seq![10u8]
}

/// Appends the bytes of "\n" to `out`.
pub fn push_newline(out: &mut Vec<u8>)
    ensures
        final(out)@ == old(out)@ + txt_newline(),
{
    let mut t: Vec<u8> = vec![10u8];
    assert(t@ =~= txt_newline());
    out.append(&mut t);
}

/// The bytes of " ".
pub open spec fn txt_space() -> Seq<u8> {
    seq![32u8]
}

/// Appends the bytes of " " to `out`.
pub fn push_space(out: &mut Vec<u8>)
    ensures
        final(out)@ == old(out)@ + txt_space(),
{
    let mut t: Vec<u8> = vec![32u8];
    assert(t@ =~= txt_space());
    out.append(&mut t);
}

} // verus!