//! Laws of the interpreter, stated over the machine's mathematical model
//! and proved from the specs of the parser and the step evaluator.

use vstd::prelude::*;
use crate::eval::{builtin_step, eval_value_spec, nearest_frame, fresh_frame};
use crate::parser::{parse_word_spec, parse_words_spec, tokens_of};
use crate::value::{Builtin, ValueV, BlockSpanV};
use crate::vm::{VmV, ExecStateV, ExecFrameV, state_frame, assoc_get, assoc_set, lookup_var};

verus! {

// ------------------------------------------------------------------
// Balanced input leaves exactly the root block
// ------------------------------------------------------------------

/// Whether a token list balances its braces, starting `depth` blocks deep:
/// no `}` ever closes more than is open, and everything opened is closed.
pub open spec fn balanced_from(words: Seq<(Seq<u8>, int)>, depth: nat) -> bool
    decreases words.len(),
{
    if words.len() == 0 {
        depth == 0
    } else {
        let w = words[0].0;
        let rest = words.subrange(1, words.len() as int);
        if w == seq![123u8] {
            balanced_from(rest, depth + 1)
        } else if w == seq![125u8] {
            depth > 0 && balanced_from(rest, (depth - 1) as nat)
        } else {
            balanced_from(rest, depth)
        }
    }
}

/// Parsing from a stack of `depth + 1` in-progress blocks ends with exactly
/// the root in progress when, and only when, the tokens balance their
/// braces from `depth`.
pub proof fn lemma_parse_balance(blocks: Seq<BlockSpanV>, words: Seq<(Seq<u8>, int)>)
    requires
        blocks.len() >= 1,
    ensures
        (match parse_words_spec(blocks, words) {
            Ok(b2) => b2.len() == 1,
            Err(_) => false,
        }) <==> balanced_from(words, (blocks.len() - 1) as nat),
    decreases words.len(),
{
    if words.len() > 0 {
        let w = words[0].0;
        let off = words[0].1;
        let rest = words.subrange(1, words.len() as int);
        match parse_word_spec(blocks, w, off) {
            Ok(b2) => {
                lemma_parse_balance(b2, rest);
            },
            Err(_) => {},
        }
    }
}

/// For every well-formed input — one whose tokens balance their braces —
/// the parse-time block stack ends with exactly the root block; and an
/// input that does not balance never ends that way.
pub proof fn law_root_remains(root: BlockSpanV, src: Seq<u8>)
    ensures
        (match parse_words_spec(seq![root], tokens_of(src)) {
            Ok(b2) => b2.len() == 1,
            Err(_) => false,
        }) <==> balanced_from(tokens_of(src), 0),
{
    lemma_parse_balance(seq![root], tokens_of(src));
}

// ------------------------------------------------------------------
// Stack operator laws
// ------------------------------------------------------------------

/// `dup` then `pop` is a no-op on any machine with a non-empty data stack.
pub proof fn law_dup_then_pop(v: VmV)
    requires
        v.stack.len() > 0,
    ensures
        match builtin_step(Builtin::Dup, v) {
            Ok(v1) => builtin_step(Builtin::Pop, v1) == Ok::<VmV, crate::error::ErrorKindV>(v),
            Err(_) => false,
        },
{
    match builtin_step(Builtin::Dup, v) {
        Ok(v1) => {
            match builtin_step(Builtin::Pop, v1) {
                Ok(v2) => {
                    assert(v2.stack =~= v.stack);
                    assert(v2 == v);
                },
                Err(_) => {
                    assert(false);
                },
            }
        },
        Err(_) => {
            assert(false);
        },
    }
}

/// `exch` twice is the identity on any machine with at least two data-stack
/// entries.
pub proof fn law_exch_twice(v: VmV)
    requires
        v.stack.len() >= 2,
    ensures
        match builtin_step(Builtin::Exch, v) {
            Ok(v1) => builtin_step(Builtin::Exch, v1) == Ok::<VmV, crate::error::ErrorKindV>(v),
            Err(_) => false,
        },
{
    match builtin_step(Builtin::Exch, v) {
        Ok(v1) => {
            assert(v1.stack.len() == v.stack.len());
            match builtin_step(Builtin::Exch, v1) {
                Ok(v2) => {
                    assert(v2.stack =~= v.stack);
                    assert(v2 == v);
                },
                Err(_) => {
                    assert(false);
                },
            }
        },
        Err(_) => {
            assert(false);
        },
    }
}

// ------------------------------------------------------------------
// `def` followed by the defined name
// ------------------------------------------------------------------

/// The binding just made is the one found.
proof fn lemma_assoc_get_of_set(pairs: Seq<(Seq<u8>, ValueV)>, name: Seq<u8>, v: ValueV)
    ensures
        assoc_get(assoc_set(pairs, name, v), name) == Some(v),
    decreases pairs.len(),
{
    if pairs.len() > 0 && pairs[0].0 != name {
        let rest = pairs.subrange(1, pairs.len() as int);
        lemma_assoc_get_of_set(rest, name, v);
        let s = seq![pairs[0]] + assoc_set(rest, name, v);
        assert(s[0] == pairs[0]);
        assert(s.subrange(1, s.len() as int) =~= assoc_set(rest, name, v));
    }
}

/// Lookup walks past states that do not bind the name and stops at the
/// first that does.
proof fn lemma_lookup_hits(
    states: Seq<ExecStateV>,
    globals: Seq<(Seq<u8>, ValueV)>,
    name: Seq<u8>,
    j: int,
    v: ValueV,
)
    requires
        0 <= j < states.len(),
        assoc_get(state_frame(states[j]).vars, name) == Some(v),
        forall|k: int|
            j < k < states.len() ==> assoc_get(
                state_frame(#[trigger] states[k]).vars,
                name,
            ) is None,
    ensures
        lookup_var(states, globals, name) == Some(v),
    decreases states.len(),
{
    if j == states.len() - 1 {
    } else {
        assert(forall|k: int| 0 <= k < states.len() - 1 ==> states.drop_last()[k] == states[k]);
        lemma_lookup_hits(states.drop_last(), globals, name, j, v);
    }
}

/// After `def` binds a name, evaluating that name finds the defined value:
/// a plain value — not a block and not a native — is pushed onto the data
/// stack, and a block is executed by opening a fresh frame over it. This
/// holds whenever no execution state above `def`'s target frame already
/// binds the name (only `def` ever writes locals, and it writes to that
/// frame).
pub proof fn law_def_then_name(v: VmV, name: Seq<u8>, value: ValueV)
    requires
        v.stack.len() >= 2,
        v.stack[v.stack.len() - 2] == ValueV::Sym(name),
        v.stack[v.stack.len() - 1] == value,
        nearest_frame(v.exec_stack) is Some,
        forall|k: int|
            nearest_frame(v.exec_stack)->Some_0 < k < v.exec_stack.len() ==> assoc_get(
                state_frame(#[trigger] v.exec_stack[k]).vars,
                name,
            ) is None,
    ensures
        match builtin_step(Builtin::Def, v) {
            Ok(v1) => {
                &&& lookup_var(v1.exec_stack, v1.globals, name) == Some(value)
                &&& (!(value is Block) && !(value is Native) ==> eval_value_spec(
                    v1,
                    ValueV::Op(name),
                ) == Ok::<VmV, crate::error::ErrorKindV>(
                    VmV { stack: v1.stack.push(value), ..v1 },
                ))
                &&& (value matches ValueV::Block(b) ==> eval_value_spec(v1, ValueV::Op(name))
                    == Ok::<VmV, crate::error::ErrorKindV>(
                    VmV {
                        exec_stack: v1.exec_stack.push(
                            ExecStateV::Frame(fresh_frame(name, b)),
                        ),
                        ..v1
                    },
                ))
            },
            Err(_) => false,
        },
{
    let j = nearest_frame(v.exec_stack)->Some_0;
    crate::eval::lemma_nearest_frame(v.exec_stack);
    match builtin_step(Builtin::Def, v) {
        Ok(v1) => {
            let f = state_frame(v.exec_stack[j]);
            lemma_assoc_get_of_set(f.vars, name, value);
            assert(v1.exec_stack[j] == ExecStateV::Frame(
                ExecFrameV { vars: assoc_set(f.vars, name, value), ..f },
            ));
            assert(assoc_get(state_frame(v1.exec_stack[j]).vars, name) == Some(value));
            assert(forall|k: int|
                j < k < v1.exec_stack.len() ==> assoc_get(
                    state_frame(#[trigger] v1.exec_stack[k]).vars,
                    name,
                ) is None) by {
                assert(forall|k: int|
                    j < k < v1.exec_stack.len() ==> v1.exec_stack[k] == v.exec_stack[k]);
            }
            lemma_lookup_hits(v1.exec_stack, v1.globals, name, j, value);
        },
        Err(_) => {
            assert(false);
        },
    }
}

} // verus!
