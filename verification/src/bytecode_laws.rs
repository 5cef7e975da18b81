//! How transforms are spelled and undone.

use vstd::prelude::*;

use crate::bytecode::{decoded_at, op_on, ops_from, ops_on, transform_at, Decoded, Op};

verus! {

/// Bit `j` of a byte.
pub open spec fn bit(b: u8, j: int) -> bool {
    (b >> (j as u8)) & 1 == 1
}

/// Whether an instruction makes `r` of `b`: sums are modulo 256, and turning moves each bit
/// around the byte.
pub open spec fn makes(op: Op, b: u8, r: u8) -> bool {
    match op {
        Op::Add(k) => r == (b + k) % 256,
        Op::Sub(k) => b == (r + k) % 256,
        Op::Xor(k) => forall|j: int| 0 <= j < 8 ==> #[trigger] bit(r, j) == (bit(b, j) != bit(k, j)),
        Op::Rol(k) => forall|j: int| 0 <= j < 8 ==> bit(r, (j + k) % 8) == #[trigger] bit(b, j),
        Op::Ror(k) => forall|j: int| 0 <= j < 8 ==> #[trigger] bit(r, j) == bit(b, (j + k) % 8),
        Op::Inc => r == (b + 1) % 256,
        Op::Dec => b == (r + 1) % 256,
    }
}

proof fn turning_moves_bits(b: u8, k: u8, j: u8)
    by (bit_vector)
    requires
        j < 8,
    ensures
        (((b << (k % 8)) | (b >> ((8 - k % 8) % 8) as u8)) >> (((j + k) % 8) as u8)) & 1 == (b >> j)
            & 1,
        (((b >> (k % 8)) | (b << ((8 - k % 8) % 8) as u8)) >> j) & 1 == (b >> (((j + k) % 8) as u8))
            & 1,
        ((b ^ k) >> j) & 1 == ((b >> j) & 1) ^ ((k >> j) & 1),
        ((b >> j) & 1 == 0 || (b >> j) & 1 == 1),
        ((k >> j) & 1 == 0 || (k >> j) & 1 == 1),
        0u8 ^ 0u8 == 0,
        1u8 ^ 1u8 == 0,
        0u8 ^ 1u8 == 1,
        1u8 ^ 0u8 == 1,
{
}

/// Each instruction does to a byte what the processor does.
pub proof fn instruction_works(op: Op, b: u8)
    ensures
        makes(op, b, op_on(op, b)),
{
    match op {
        Op::Xor(k) => {
            assert forall|j: int| 0 <= j < 8 implies #[trigger] bit(op_on(op, b), j) == (bit(b, j) != bit(
                k,
                j,
            )) by {
                turning_moves_bits(b, k, j as u8);
            }
        },
        Op::Rol(k) => {
            assert forall|j: int| 0 <= j < 8 implies bit(op_on(op, b), (j + k) % 8) == #[trigger] bit(b, j)
                by {
                turning_moves_bits(b, k, j as u8);
            }
        },
        Op::Ror(k) => {
            assert forall|j: int| 0 <= j < 8 implies #[trigger] bit(op_on(op, b), j) == bit(b, (j + k) % 8)
                by {
                turning_moves_bits(b, k, j as u8);
            }
        },
        _ => {},
    }
}

/// A transform runs its instructions from the first to the last.
pub proof fn instructions_run_in_order(first: Seq<Op>, rest: Seq<Op>, b: u8)
    ensures
        ops_on(first + rest, b) == ops_on(rest, ops_on(first, b)),
        ops_on(Seq::empty(), b) == b,
        forall|op: Op| #[trigger] ops_on(seq![op], b) == op_on(op, b),
    decreases rest.len(),
{
    if rest.len() == 0 {
        assert(first + rest =~= first);
    } else {
        assert((first + rest).drop_last() =~= first + rest.drop_last());
        instructions_run_in_order(first, rest.drop_last(), b);
    }
    assert forall|op: Op| #[trigger] ops_on(seq![op], b) == op_on(op, b) by {
        assert(seq![op].drop_last() =~= Seq::empty());
        assert(ops_on(seq![op].drop_last(), b) == b);
    }
}

/// An instruction as code.
pub open spec fn spelled(op: Op) -> Seq<u8> {
    match op {
        Op::Add(k) => seq![0x04u8, k],
        Op::Sub(k) => seq![0x2Cu8, k],
        Op::Xor(k) => seq![0x34u8, k],
        Op::Rol(k) => seq![0xC0u8, 0xC0u8, k],
        Op::Ror(k) => seq![0xC0u8, 0xC8u8, k],
        Op::Inc => seq![0xFEu8, 0xC0u8],
        Op::Dec => seq![0xFEu8, 0xC8u8],
    }
}

/// Whether the code at `i` of `s` spells a transform: its instructions, with idle ones
/// anywhere between them, and a return.
pub open spec fn code_spells(s: Seq<u8>, i: int, ops: Seq<Op>) -> bool
    decreases s.len() - i,
{
    &&& 0 <= i < s.len()
    &&& {
        ||| s[i] == 0xC3 && ops.len() == 0
        ||| s[i] == 0x90 && code_spells(s, i + 1, ops)
        ||| {
            &&& ops.len() > 0
            &&& i + spelled(ops[0]).len() <= s.len()
            &&& s.subrange(i, i + spelled(ops[0]).len()) == spelled(ops[0])
            &&& code_spells(s, i + spelled(ops[0]).len(), ops.skip(1))
        }
    }
}

proof fn register_fields()
    by (bit_vector)
    ensures
        (0xC0u8 >> 3u8) & 7 == 0,
        (0xC8u8 >> 3u8) & 7 == 1,
        (0xC0u8 >> 6u8) & 3 == 3,
        (0xC8u8 >> 6u8) & 3 == 3,
        0xC0u8 & 7 == 0,
        0xC8u8 & 7 == 0,
{
}

proof fn spelled_instruction_is_read(s: Seq<u8>, i: int, op: Op)
    requires
        0 <= i,
        i + spelled(op).len() <= s.len(),
        s.subrange(i, i + spelled(op).len()) == spelled(op),
    ensures
        decoded_at(s, i) == (Decoded::Does { op, size: spelled(op).len() as int }),
        s[i] != 0xC3,
        s[i] != 0x90,
{
    register_fields();
    let v = spelled(op);
    let t = s.subrange(i, i + v.len());
    assert(s[i] == t[0]);
    assert(s[i + 1] == t[1]);
    if v.len() == 3 {
        assert(s[i + 2] == t[2]);
    }
}

proof fn code_is_read(s: Seq<u8>, i: int, ops: Seq<Op>, head: Seq<Op>)
    requires
        code_spells(s, i, ops),
    ensures
        ops_from(s, i, head) == Some(head + ops),
    decreases s.len() - i,
{
    if s[i] == 0xC3 && ops.len() == 0 {
        assert(head + ops =~= head);
    } else if s[i] == 0x90 && code_spells(s, i + 1, ops) {
        code_is_read(s, i + 1, ops, head);
    } else {
        spelled_instruction_is_read(s, i, ops[0]);
        let n = spelled(ops[0]).len();
        code_is_read(s, i + n, ops.skip(1), head.push(ops[0]));
        assert(head.push(ops[0]) + ops.skip(1) =~= head + ops);
    }
}

/// A transform that was spelled as code is read from it.
pub proof fn spelled_transform_is_read(s: Seq<u8>, i: int, ops: Seq<Op>)
    requires
        code_spells(s, i, ops),
    ensures
        transform_at(s, i) == Some(ops),
{
    code_is_read(s, i, ops, Seq::empty());
    assert(Seq::<Op>::empty() + ops =~= ops);
}

} // verus!
