//! The tokenizer and the block parser.
//!
//! Input bytes are split at ASCII space, tab, carriage return and newline
//! into tokens with their byte offsets. Each token then either opens a
//! block (`{`), closes one (`}`), or is classified into a value — integer,
//! number, `/`-symbol or operator word — and appended to the innermost
//! in-progress block.

use vstd::prelude::*;
use crate::error::ErrorKind;
use crate::fnum::{num_of_text, looks_numeric, parse_num_bytes};
use crate::value::{
    Value, ValueSpan, BlockSpan, ValueV, ValueSpanV, BlockSpanV, view_spanned, view_block,
    view_items, lemma_view_items,
};

verus! {

broadcast use vstd::std_specs::vec::group_vec_axioms;

// ------------------------------------------------------------------
// Tokenizer
// ------------------------------------------------------------------

/// Whether a byte separates tokens: space, tab, carriage return, newline.
pub open spec fn is_sep(b: u8) -> bool {
    b == 32 || b == 9 || b == 13 || b == 10
}

/// The tokens of `src` from position `i` on, given the bytes `cur` of the
/// token in progress: each token with the offset of its first byte.
pub open spec fn tok_scan(src: Seq<u8>, i: int, cur: Seq<u8>) -> Seq<(Seq<u8>, int)>
    decreases src.len() - i,
{
    if i < 0 || i >= src.len() {
        if cur.len() > 0 {
            seq![(cur, src.len() - cur.len())]
        } else {
            seq![]
        }
    } else if is_sep(src[i]) {
        if cur.len() > 0 {
            seq![(cur, i - cur.len())] + tok_scan(src, i + 1, seq![])
        } else {
            tok_scan(src, i + 1, seq![])
        }
    } else {
        tok_scan(src, i + 1, cur.push(src[i]))
    }
}

/// The tokens of `src`, with their byte offsets.
pub open spec fn tokens_of(src: Seq<u8>) -> Seq<(Seq<u8>, int)> {
    tok_scan(src, 0, seq![])
}

/// The shadow of a produced token list.
pub open spec fn view_tokens(r: Seq<(Vec<u8>, usize)>) -> Seq<(Seq<u8>, int)> {
    Seq::new(r.len(), |j: int| (r[j].0@, r[j].1 as int))
}

/// Splits `src` into its whitespace-separated tokens, each with the byte
/// offset of its first byte.
pub fn tokenize(src: &Vec<u8>) -> (r: Vec<(Vec<u8>, usize)>)
    ensures
        view_tokens(r@) == tokens_of(src@),
{
    let mut toks: Vec<(Vec<u8>, usize)> = Vec::new();
    let mut cur: Vec<u8> = Vec::new();
    let mut i: usize = 0;
    while i < src.len()
        invariant
            i <= src.len(),
            cur@.len() <= i,
            tokens_of(src@) == view_tokens(toks@) + tok_scan(src@, i as int, cur@),
        decreases src.len() - i,
    {
        let b = src[i];
        let ghost curv = cur@;
        if b == 32 || b == 9 || b == 13 || b == 10 {
            if cur.len() > 0 {
                let ghost prev = toks@;
                let start = i - cur.len();
                let done = cur;
                cur = Vec::new();
                toks.push((done, start));
                proof {
                    assert(tok_scan(src@, i as int, curv) == seq![(curv, i - curv.len())]
                        + tok_scan(src@, i + 1, Seq::empty()));
                    assert(view_tokens(toks@) =~= view_tokens(prev) + seq![
                        (curv, start as int),
                    ]);
                    assert(view_tokens(prev) + (seq![(curv, start as int)] + tok_scan(
                        src@,
                        i + 1,
                        Seq::empty(),
                    )) =~= (view_tokens(prev) + seq![(curv, start as int)]) + tok_scan(
                        src@,
                        i + 1,
                        Seq::empty(),
                    ));
                }
            } else {
                proof {
                    assert(cur@ =~= Seq::<u8>::empty());
                    assert(tok_scan(src@, i as int, cur@) == tok_scan(src@, i + 1, Seq::empty()));
                }
            }
        } else {
            cur.push(b);
            proof {
                assert(tok_scan(src@, i as int, curv) == tok_scan(src@, i + 1, curv.push(b)));
            }
        }
        i = i + 1;
    }
    if cur.len() > 0 {
        let ghost prev = toks@;
        let start = i - cur.len();
        toks.push((cur, start));
        proof {
            assert(view_tokens(toks@) =~= view_tokens(prev) + seq![
                (toks@.last().0@, toks@.last().1 as int),
            ]);
        }
    }
    assert(view_tokens(toks@) =~= tokens_of(src@));
    toks
}

/// Tokens in source order: each is non-empty, starts at or after `lo`, and
/// ends by `hi`; the next token starts at or after its end.
pub open spec fn toks_chain(words: Seq<(Seq<u8>, int)>, lo: int, hi: int) -> bool
    decreases words.len(),
{
    words.len() == 0 || {
        &&& words[0].1 >= lo
        &&& words[0].0.len() >= 1
        &&& words[0].1 + words[0].0.len() <= hi
        &&& toks_chain(
            words.subrange(1, words.len() as int),
            words[0].1 + words[0].0.len(),
            hi,
        )
    }
}

/// A chain from `lo2` is a chain from any earlier `lo`.
pub proof fn lemma_chain_weaken(words: Seq<(Seq<u8>, int)>, lo: int, lo2: int, hi: int)
    requires
        toks_chain(words, lo2, hi),
        lo <= lo2,
    ensures
        toks_chain(words, lo, hi),
{
}

/// The tokenizer's output is a chain: offsets never run backward and every
/// token lies inside the source.
pub proof fn lemma_tok_scan_chain(src: Seq<u8>, i: int, cur: Seq<u8>)
    requires
        0 <= i - cur.len(),
        i <= src.len(),
    ensures
        toks_chain(tok_scan(src, i, cur), i - cur.len(), src.len() as int),
    decreases src.len() - i,
{
    if i >= src.len() {
        if cur.len() > 0 {
            let t = (cur, src.len() - cur.len());
            let words = tok_scan(src, i, cur);
            assert(words == seq![t]);
            assert(words[0] == t);
            assert(words.len() == 1);
            assert(words.subrange(1, 1) =~= Seq::<(Seq<u8>, int)>::empty());
            assert(words[0].1 >= i - cur.len());
            assert(words[0].0.len() >= 1);
            assert(words[0].1 + words[0].0.len() <= src.len() as int);
            assert(toks_chain(
                words.subrange(1, words.len() as int),
                words[0].1 + words[0].0.len(),
                src.len() as int,
            ));
            assert(toks_chain(words, i - cur.len(), src.len() as int));
        }
    } else if is_sep(src[i]) {
        let rest = tok_scan(src, i + 1, Seq::empty());
        lemma_tok_scan_chain(src, i + 1, Seq::empty());
        if cur.len() > 0 {
            let t = (cur, i - cur.len());
            let words = tok_scan(src, i, cur);
            assert(words == seq![t] + rest);
            assert(words[0] == t);
            assert(words.subrange(1, words.len() as int) =~= rest);
            lemma_chain_weaken(rest, t.1 + t.0.len(), i + 1, src.len() as int);
            assert(toks_chain(words, i - cur.len(), src.len() as int));
        } else {
            assert(cur =~= Seq::<u8>::empty());
            assert(tok_scan(src, i, cur) == rest);
            lemma_chain_weaken(rest, i - cur.len(), i + 1, src.len() as int);
        }
    } else {
        lemma_tok_scan_chain(src, i + 1, cur.push(src[i]));
        assert(tok_scan(src, i, cur) == tok_scan(src, i + 1, cur.push(src[i])));
        assert((i + 1) - cur.push(src[i]).len() == i - cur.len());
    }
}

// ------------------------------------------------------------------
// Integer literals
// ------------------------------------------------------------------

/// Whether a byte is an ASCII decimal digit.
pub open spec fn is_digit(b: u8) -> bool {
    48 <= b <= 57
}

/// Whether every byte of `s` is a decimal digit.
pub open spec fn all_digits(s: Seq<u8>) -> bool {
    forall|j: int| 0 <= j < s.len() ==> is_digit(#[trigger] s[j])
}

/// The value of a run of decimal digits.
pub open spec fn digits_val(s: Seq<u8>) -> nat
    decreases s,
{
    if s.len() == 0 {
        0
    } else {
        digits_val(s.drop_last()) * 10 + (s.last() - 48) as nat
    }
}

/// The `i32` an integer literal spells: an optional sign, then one or more
/// decimal digits, within the `i32` range.
pub open spec fn int_of_text(s: Seq<u8>) -> Option<i32> {
    if s.len() == 0 {
        None
    } else {
        let ds = if s[0] == 43 || s[0] == 45 {
            s.subrange(1, s.len() as int)
        } else {
            s
        };
        if ds.len() == 0 || !all_digits(ds) {
            None
        } else {
            let v = digits_val(ds);
            if s[0] == 45 {
                if v <= 0x8000_0000 {
                    Some((-(v as int)) as i32)
                } else {
                    None
                }
            } else {
                if v <= 0x7FFF_FFFF {
                    Some(v as i32)
                } else {
                    None
                }
            }
        }
    }
}

/// The value of a digit run bounds the value of each of its prefixes.
proof fn lemma_digits_prefix_le(s: Seq<u8>, k: int)
    requires
        0 <= k <= s.len(),
    ensures
        digits_val(s.subrange(0, k)) <= digits_val(s),
    decreases s.len() - k,
{
    if k == s.len() {
        assert(s.subrange(0, k) =~= s);
    } else {
        lemma_digits_prefix_le(s, k + 1);
        let a = s.subrange(0, k);
        let b = s.subrange(0, k + 1);
        assert(b.drop_last() =~= a);
        assert(digits_val(b) == digits_val(a) * 10 + (b.last() - 48) as nat);
    }
}

/// Parses an integer literal: an optional `+` or `-`, then decimal digits,
/// within the `i32` range.
pub fn parse_int(s: &Vec<u8>) -> (r: Option<i32>)
    ensures
        r == int_of_text(s@),
{
    if s.len() == 0 {
        return None;
    }
    let neg = s[0] == 45;
    let start: usize = if s[0] == 43 || s[0] == 45 {
        1
    } else {
        0
    };
    let ghost ds = if s@[0] == 43 || s@[0] == 45 {
        s@.subrange(1, s@.len() as int)
    } else {
        s@
    };
    if s.len() == start {
        return None;
    }
    let mut acc: u64 = 0;
    let mut i: usize = start;
    while i < s.len()
        invariant
            start <= i <= s@.len(),
            start == 0 || start == 1,
            start == 1 ==> s@.len() > 1 && (s@[0] == 43 || s@[0] == 45),
            start == 0 ==> !(s@[0] == 43 || s@[0] == 45),
            ds == (if s@[0] == 43 || s@[0] == 45 {
                s@.subrange(1, s@.len() as int)
            } else {
                s@
            }),
            ds.len() == s@.len() - start,
            forall|j: int| 0 <= j < ds.len() ==> ds[j] == s@[j + start],
            all_digits(ds.subrange(0, i - start)),
            acc == digits_val(ds.subrange(0, i - start)),
            acc <= 0x8000_0000,
        decreases s@.len() - i,
    {
        let b = s[i];
        if b < 48 || b > 57 {
            assert(!all_digits(ds)) by {
                assert(ds[i - start] == s@[i as int]);
            }
            return None;
        }
        let ghost prefix = ds.subrange(0, i - start);
        acc = acc * 10 + (b - 48) as u64;
        i = i + 1;
        proof {
            let now = ds.subrange(0, i - start);
            assert(now.drop_last() =~= prefix);
            assert(now.last() == s@[i - 1]);
            assert(digits_val(now) == digits_val(prefix) * 10 + (s@[i - 1] - 48) as nat);
        }
        if acc > 0x8000_0000 {
            proof {
                lemma_digits_prefix_le(ds, i - start);
            }
            return None;
        }
    }
    assert(ds.subrange(0, ds.len() as int) =~= ds);
    if neg {
        Some((-(acc as i64)) as i32)
    } else {
        if acc > 0x7FFF_FFFF {
            return None;
        }
        Some(acc as i32)
    }
}

// ------------------------------------------------------------------
// Classification
// ------------------------------------------------------------------

/// The value a token spells: an integer literal, else a number literal,
/// else a `/`-symbol (the name minus the `/`), else an operator word.
pub open spec fn classify_value(w: Seq<u8>) -> ValueV {
    match int_of_text(w) {
        Some(i) => ValueV::Int(i),
        None => match num_of_text(w) {
            Some(b) => ValueV::Num(b),
            None => if w.len() > 0 && w[0] == 47 {
                ValueV::Sym(w.subrange(1, w.len() as int))
            } else {
                ValueV::Op(w)
            },
        },
    }
}

/// The bytes of `v` after its first byte.
fn tail_bytes(v: &Vec<u8>) -> (r: Vec<u8>)
    requires
        v@.len() >= 1,
    ensures
        r@ == v@.subrange(1, v@.len() as int),
{
    let mut out: Vec<u8> = Vec::new();
    let mut i: usize = 1;
    while i < v.len()
        invariant
            1 <= i <= v@.len(),
            out@ == v@.subrange(1, i as int),
        decreases v@.len() - i,
    {
        out.push(v[i]);
        i = i + 1;
        assert(out@ =~= v@.subrange(1, i as int));
    }
    out
}

/// Classifies one token into a value. A token without the shape of a
/// number — no decimal digit, no infinity or NaN spelling — and outside
/// the integer grammar never classifies as one.
pub fn classify_word(w: Vec<u8>) -> (v: Value)
    requires
        w@.len() < 0x8000_0000,
    ensures
        v@ == classify_value(w@),
        !looks_numeric(w@) && int_of_text(w@) is None ==> num_of_text(w@) is None,
{
    match parse_int(&w) {
        Some(i) => Value::Int(i),
        None => {
            match parse_num_bytes(w.as_slice()) {
                Some(b) => Value::Num(b),
                None => {
                    if w.len() > 0 && w[0] == 47 {
                        Value::Sym(tail_bytes(&w))
                    } else {
                        Value::Op(w)
                    }
                },
            }
        },
    }
}

// ------------------------------------------------------------------
// The block parser
// ------------------------------------------------------------------

impl BlockSpan {
    /// A fresh in-progress block opened at byte offset `start`.
    pub fn new(start: usize) -> (r: BlockSpan)
        ensures
            r@ == (BlockSpanV { items: Seq::empty(), span: (start as int, 0) }),
    {
        let r = BlockSpan { block: Vec::new(), span: (start, 0) };
        assert(r@.items =~= Seq::<ValueSpanV>::empty());
        r
    }
}

/// The shadow of the stack of in-progress blocks.
pub open spec fn view_blocks(s: Seq<BlockSpan>) -> Seq<BlockSpanV>
    decreases s,
{
    if s.len() == 0 {
        Seq::empty()
    } else {
        view_blocks(s.drop_last()).push(view_block(s.last()))
    }
}

/// `view_blocks` maps `view_block` over the sequence.
pub broadcast proof fn lemma_view_blocks(s: Seq<BlockSpan>)
    ensures
        #![trigger view_blocks(s)]
        view_blocks(s).len() == s.len(),
        forall|i: int| 0 <= i < s.len() ==> view_blocks(s)[i] == view_block(s[i]),
    decreases s,
{
    if s.len() > 0 {
        lemma_view_blocks(s.drop_last());
        assert(forall|i: int| 0 <= i < s.len() - 1 ==> s.drop_last()[i] == s[i]);
    }
}

/// What one token does to the stack of in-progress blocks:
/// `{` opens a block at `off`; `}` closes the innermost one and appends it,
/// as a `Block` value, to the one below, failing when only the root is open;
/// any other token is classified and appended to the innermost block.
pub open spec fn parse_word_spec(blocks: Seq<BlockSpanV>, w: Seq<u8>, off: int) -> Result<
    Seq<BlockSpanV>,
    ErrorKind,
> {
    if blocks.len() == 0 {
        Ok(blocks)
    } else if w == seq![123u8] {
        Ok(blocks.push(BlockSpanV { items: Seq::empty(), span: (off, 0) }))
    } else if w == seq![125u8] {
        if blocks.len() <= 1 {
            Err(ErrorKind::UnbalancedBlock)
        } else {
            let top = blocks.last();
            let closed = BlockSpanV { items: top.items, span: (top.span.0, off + 1) };
            let parent = blocks[blocks.len() - 2];
            let parent2 = BlockSpanV {
                items: parent.items.push(
                    ValueSpanV { value: ValueV::Block(closed), span: (top.span.0, off + 1) },
                ),
                span: parent.span,
            };
            Ok(blocks.drop_last().drop_last().push(parent2))
        }
    } else {
        let top = blocks.last();
        let top2 = BlockSpanV {
            items: top.items.push(
                ValueSpanV { value: classify_value(w), span: (off, off + w.len()) },
            ),
            span: top.span,
        };
        Ok(blocks.drop_last().push(top2))
    }
}

/// The fold of `parse_word_spec` over a token list.
pub open spec fn parse_words_spec(blocks: Seq<BlockSpanV>, words: Seq<(Seq<u8>, int)>) -> Result<
    Seq<BlockSpanV>,
    ErrorKind,
> decreases words.len() {
    if words.len() == 0 {
        Ok(blocks)
    } else {
        match parse_word_spec(blocks, words[0].0, words[0].1) {
            Ok(b2) => parse_words_spec(b2, words.subrange(1, words.len() as int)),
            Err(e) => Err(e),
        }
    }
}

/// Feeds one token to the stack of in-progress blocks.
pub fn parse_word(blocks: &mut Vec<BlockSpan>, w: Vec<u8>, off: usize) -> (r: Result<
    (),
    ErrorKind,
>)
    requires
        old(blocks)@.len() >= 1,
        off + w@.len() <= usize::MAX,
        w@.len() < 0x8000_0000,
    ensures
        match parse_word_spec(view_blocks(old(blocks)@), w@, off as int) {
            Ok(b2) => r is Ok && view_blocks(final(blocks)@) == b2,
            Err(e) => r == Err::<(), ErrorKind>(e) && final(blocks)@ == old(blocks)@,
        },
{
    proof {
        lemma_view_blocks(blocks@);
    }
    let ghost bv = view_blocks(blocks@);
    if w.len() == 1 && w[0] == 123 {
        assert(w@ =~= seq![123u8]);
        let ghost prev = blocks@;
        blocks.push(BlockSpan::new(off));
        proof {
            assert(blocks@.drop_last() =~= prev);
            assert(view_blocks(blocks@) == view_blocks(prev).push(view_block(blocks@.last())));
        }
        Ok(())
    } else if w.len() == 1 && w[0] == 125 {
        assert(w@ =~= seq![125u8]);
        if blocks.len() <= 1 {
            return Err(ErrorKind::UnbalancedBlock);
        }
        let top = blocks.pop().unwrap();
        let ghost afterpop = blocks@;
        proof {
            assert(afterpop =~= old(blocks)@.drop_last());
            lemma_view_blocks(afterpop);
        }
        let mut parent = blocks.pop().unwrap();
        let ghost afterpop2 = blocks@;
        proof {
            assert(afterpop2 =~= afterpop.drop_last());
            lemma_view_blocks(afterpop2);
        }
        let start = top.span.0;
        let closed = BlockSpan { block: top.block, span: (start, off + 1) };
        let ghost parentprev = parent;
        let ghost parentitems = parent.block@;
        parent.block.push(ValueSpan { value: Value::Block(closed), span: (start, off + 1) });
        proof {
            lemma_view_items(parent.block@);
            lemma_view_items(parentitems);
            assert(view_items(parent.block@) =~= view_items(parentitems).push(
                view_spanned(parent.block@.last()),
            ));
        }
        let ghost beforepush = blocks@;
        blocks.push(parent);
        proof {
            assert(blocks@.drop_last() =~= beforepush);
            assert(view_blocks(blocks@) == view_blocks(beforepush).push(
                view_block(blocks@.last()),
            ));
            assert(view_blocks(blocks@) =~= match parse_word_spec(bv, w@, off as int) {
                Ok(b2) => b2,
                Err(_) => Seq::empty(),
            });
        }
        Ok(())
    } else {
        let ghost wv = w@;
        let len = w.len();
        let v = classify_word(w);
        let mut top = blocks.pop().unwrap();
        let ghost afterpop = blocks@;
        proof {
            assert(afterpop =~= old(blocks)@.drop_last());
            lemma_view_blocks(afterpop);
        }
        let ghost topitems = top.block@;
        top.block.push(ValueSpan { value: v, span: (off, off + len) });
        proof {
            lemma_view_items(top.block@);
            lemma_view_items(topitems);
            assert(view_items(top.block@) =~= view_items(topitems).push(
                view_spanned(top.block@.last()),
            ));
        }
        let ghost beforepush = blocks@;
        blocks.push(top);
        proof {
            assert(blocks@.drop_last() =~= beforepush);
            assert(view_blocks(blocks@) == view_blocks(beforepush).push(
                view_block(blocks@.last()),
            ));
            assert(view_blocks(blocks@) =~= match parse_word_spec(bv, wv, off as int) {
                Ok(b2) => b2,
                Err(_) => Seq::empty(),
            });
        }
        Ok(())
    }
}

} // verus!
