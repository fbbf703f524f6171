//! Decimal text for the integers the interpreter prints: values, spans and
//! frame indices.

use vstd::prelude::*;

verus! {

/// The decimal digits of `n`, most significant first.
pub open spec fn dec_digits(n: nat) -> Seq<u8>
    decreases n,
{
    if n < 10 {
        seq![(48 + n) as u8]
    } else {
        dec_digits(n / 10).push((48 + n % 10) as u8)
    }
}

/// The decimal text of `i`, with a leading minus sign when negative.
pub open spec fn int_text(i: int) -> Seq<u8> {
    if i < 0 {
        seq![45u8] + dec_digits((-i) as nat)
    } else {
        dec_digits(i as nat)
    }
}

/// Appends the decimal digits of `n` to `out`.
pub fn push_dec_u64(n: u64, out: &mut Vec<u8>)
    ensures
        final(out)@ == old(out)@ + dec_digits(n as nat),
    decreases n,
{
    if n < 10 {
        out.push((48 + n) as u8);
        assert(out@ =~= old(out)@ + dec_digits(n as nat));
    } else {
        push_dec_u64(n / 10, out);
        out.push(48 + (n % 10) as u8);
        assert(out@ =~= old(out)@ + dec_digits(n as nat));
    }
}

/// The decimal text of an `i32`.
pub fn i32_text(i: i32) -> (r: Vec<u8>)
    ensures
        r@ == int_text(i as int),
{
    let mut out: Vec<u8> = Vec::new();
    if i < 0 {
        out.push(45);
        let mag: u64 = (-(i as i64)) as u64;
        push_dec_u64(mag, &mut out);
        assert(out@ =~= int_text(i as int));
    } else {
        push_dec_u64(i as u64, &mut out);
        assert(out@ =~= int_text(i as int));
    }
    out
}

/// The decimal text of a `usize`.
pub fn usize_text(n: usize) -> (r: Vec<u8>)
    ensures
        r@ == dec_digits(n as nat),
{
    let mut out: Vec<u8> = Vec::new();
    push_dec_u64(n as u64, &mut out);
    assert(out@ =~= dec_digits(n as nat));
    out
}

} // verus!
