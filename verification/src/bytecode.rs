//! The byte transforms that protected payloads carry as code.
//!
//! A transform is a straight run of x86 instructions on `al` that ends in
//! `ret`: `add`, `sub`, `xor` with an immediate, `rol`, `ror` by an immediate,
//! `inc`, `dec`, and `nop`, which does nothing.

use vstd::prelude::*;

verus! {

/// One instruction of a transform.
#[derive(Debug, Clone, Copy, PartialEq, Eq, Structural)]
pub enum Op {
    Add(u8),
    Sub(u8),
    Xor(u8),
    Rol(u8),
    Ror(u8),
    Inc,
    Dec,
}

/// `b` rotated left by `k` bits.
pub open spec fn rotl8(b: u8, k: u8) -> u8 {
    (b << (k % 8)) | (b >> ((8 - k % 8) % 8) as u8)
}

/// `b` rotated right by `k` bits.
pub open spec fn rotr8(b: u8, k: u8) -> u8 {
    (b >> (k % 8)) | (b << ((8 - k % 8) % 8) as u8)
}

/// The byte that one instruction makes of `b`.
pub open spec fn op_on(op: Op, b: u8) -> u8 {
    match op {
        Op::Add(k) => b.wrapping_add(k),
        Op::Sub(k) => b.wrapping_sub(k),
        Op::Xor(k) => b ^ k,
        Op::Rol(k) => rotl8(b, k),
        Op::Ror(k) => rotr8(b, k),
        Op::Inc => b.wrapping_add(1),
        Op::Dec => b.wrapping_sub(1),
    }
}

/// The byte that a transform makes of `b`.
pub open spec fn ops_on(ops: Seq<Op>, b: u8) -> u8
    decreases ops.len(),
{
    if ops.len() == 0 {
        b
    } else {
        op_on(ops.last(), ops_on(ops.drop_last(), b))
    }
}

/// What one instruction of code is.
pub enum Decoded {
    /// No instruction of a transform.
    Bad,
    /// `ret`.
    End,
    /// `nop`.
    Nothing,
    /// An instruction that changes the byte, and its length.
    Does { op: Op, size: int },
}

/// The instruction at `i` of the code `s`.
pub open spec fn decoded_at(s: Seq<u8>, i: int) -> Decoded {
    let b = s[i];
    if b == 4 || b == 44 || b == 52 {
        if i + 1 >= s.len() {
            Decoded::Bad
        } else if b == 4 {
            Decoded::Does { op: Op::Add(s[i + 1]), size: 2 }
        } else if b == 44 {
            Decoded::Does { op: Op::Sub(s[i + 1]), size: 2 }
        } else {
            Decoded::Does { op: Op::Xor(s[i + 1]), size: 2 }
        }
    } else if b == 144 {
        Decoded::Nothing
    } else if b == 192 || b == 254 {
        if i + 1 >= s.len() {
            Decoded::Bad
        } else {
            let m = s[i + 1];
            let reg = (m >> 3u8) & 7u8;
            if (m >> 6u8) & 3u8 != 3 || m & 7u8 != 0 || reg > 1 {
                Decoded::Bad
            } else if b == 254 {
                Decoded::Does {
                    op: if reg == 0 {
                        Op::Inc
                    } else {
                        Op::Dec
                    },
                    size: 2,
                }
            } else if i + 2 >= s.len() {
                Decoded::Bad
            } else {
                Decoded::Does {
                    op: if reg == 0 {
                        Op::Rol(s[i + 2])
                    } else {
                        Op::Ror(s[i + 2])
                    },
                    size: 3,
                }
            }
        }
    } else if b == 195 {
        Decoded::End
    } else {
        Decoded::Bad
    }
}

/// The transform that the code at `i` of `s` spells, behind the instructions
/// `head`: `None` unless it runs into a `ret` inside `s`.
pub open spec fn ops_from(s: Seq<u8>, i: int, head: Seq<Op>) -> Option<Seq<Op>>
    decreases s.len() - i,
{
    if !(0 <= i < s.len()) {
        None
    } else {
        match decoded_at(s, i) {
            Decoded::Bad => None,
            Decoded::End => Some(head),
            Decoded::Nothing => ops_from(s, i + 1, head),
            Decoded::Does { op, size } => ops_from(s, i + size, head.push(op)),
        }
    }
}

/// The transform at `i` of `s`, if there is one.
pub open spec fn transform_at(s: Seq<u8>, i: int) -> Option<Seq<Op>> {
    ops_from(s, i, Seq::empty())
}

/// Executable form of [`Decoded`].
enum Instruction {
    Bad,
    End,
    Nothing,
    Does { op: Op, size: usize },
}

spec fn instruction_view(x: Instruction) -> Decoded {
    match x {
        Instruction::Bad => Decoded::Bad,
        Instruction::End => Decoded::End,
        Instruction::Nothing => Decoded::Nothing,
        Instruction::Does { op, size } => Decoded::Does { op, size: size as int },
    }
}

fn decode(s: &[u8], i: usize) -> (x: Instruction)
    requires
        i < s@.len(),
    ensures
        instruction_view(x) == decoded_at(s@, i as int),
        x matches Instruction::Does { op, size } ==> 2 <= size <= 3 && i + size <= s@.len(),
{
    let len: usize = s.len();
    let b: u8 = s[i];
    if b == 4 || b == 44 || b == 52 {
        if len - i < 2 {
            Instruction::Bad
        } else if b == 4 {
            Instruction::Does { op: Op::Add(s[i + 1]), size: 2 }
        } else if b == 44 {
            Instruction::Does { op: Op::Sub(s[i + 1]), size: 2 }
        } else {
            Instruction::Does { op: Op::Xor(s[i + 1]), size: 2 }
        }
    } else if b == 144 {
        Instruction::Nothing
    } else if b == 192 || b == 254 {
        if len - i < 2 {
            return Instruction::Bad;
        }
        let m: u8 = s[i + 1];
        let reg: u8 = (m >> 3u8) & 7u8;
        if (m >> 6u8) & 3u8 != 3 || m & 7u8 != 0 || reg > 1 {
            Instruction::Bad
        } else if b == 254 {
            Instruction::Does {
                op: if reg == 0 {
                    Op::Inc
                } else {
                    Op::Dec
                },
                size: 2,
            }
        } else if len - i < 3 {
            Instruction::Bad
        } else {
            Instruction::Does {
                op: if reg == 0 {
                    Op::Rol(s[i + 2])
                } else {
                    Op::Ror(s[i + 2])
                },
                size: 3,
            }
        }
    } else if b == 195 {
        Instruction::End
    } else {
        Instruction::Bad
    }
}

/// The transform at `off`, if there is one.
pub fn generate(data: &[u8], off: usize) -> (r: Option<Vec<Op>>)
    ensures
        match r {
            Some(v) => transform_at(data@, off as int) == Some(v@),
            None => transform_at(data@, off as int) is None,
        },
{
    let mut ops: Vec<Op> = Vec::new();
    let mut i: usize = off;
    while i < data.len()
        invariant
            transform_at(data@, off as int) == ops_from(data@, i as int, ops@),
        decreases data@.len() - i,
    {
        match decode(data, i) {
            Instruction::Bad => {
                return None;
            },
            Instruction::End => {
                return Some(ops);
            },
            Instruction::Nothing => {
                i = i + 1;
            },
            Instruction::Does { op, size } => {
                ops.push(op);
                let _len: usize = data.len();
                i = i + size;
            },
        }
    }
    None
}

/// The number of instructions of the transform that `buf` starts with, if it
/// starts with one; nothing is built.
pub fn parse_bytecode_check(buf: &[u8]) -> (r: Option<usize>)
    ensures
        match transform_at(buf@, 0) {
            Some(ops) => r == Some(ops.len() as usize) && ops.len() <= buf@.len(),
            None => r is None,
        },
{
    let mut count: usize = 0;
    let mut i: usize = 0;
    let ghost mut head: Seq<Op> = Seq::empty();
    while i < buf.len()
        invariant
            transform_at(buf@, 0) == ops_from(buf@, i as int, head),
            count == head.len(),
            count <= i <= buf@.len(),
        decreases buf@.len() - i,
    {
        match decode(buf, i) {
            Instruction::Bad => {
                return None;
            },
            Instruction::End => {
                return Some(count);
            },
            Instruction::Nothing => {
                i = i + 1;
            },
            Instruction::Does { op, size } => {
                let _len: usize = buf.len();
                i = i + size;
                count = count + 1;
                proof {
                    head = head.push(op);
                }
            },
        }
    }
    None
}

/// `b` rotated left by `k` bits.
pub fn rotate_left(b: u8, k: u8) -> (r: u8)
    ensures
        r == rotl8(b, k),
{
    let m: u8 = k % 8;
    let n: u8 = (8 - m) % 8;
    (b << m) | (b >> n)
}

/// `b` rotated right by `k` bits.
pub fn rotate_right(b: u8, k: u8) -> (r: u8)
    ensures
        r == rotr8(b, k),
{
    let m: u8 = k % 8;
    let n: u8 = (8 - m) % 8;
    (b >> m) | (b << n)
}

fn apply_op(op: Op, b: u8) -> (r: u8)
    ensures
        r == op_on(op, b),
{
    match op {
        Op::Add(k) => b.wrapping_add(k),
        Op::Sub(k) => b.wrapping_sub(k),
        Op::Xor(k) => b ^ k,
        Op::Rol(k) => rotate_left(b, k),
        Op::Ror(k) => rotate_right(b, k),
        Op::Inc => b.wrapping_add(1),
        Op::Dec => b.wrapping_sub(1),
    }
}

/// The byte that the transform `ops` makes of `b`.
pub fn apply(ops: &[Op], b: u8) -> (r: u8)
    ensures
        r == ops_on(ops@, b),
{
    let mut v: u8 = b;
    let mut i: usize = 0;
    while i < ops.len()
        invariant
            i <= ops@.len(),
            v == ops_on(ops@.take(i as int), b),
        decreases ops@.len() - i,
    {
        assert(ops@.take(i as int + 1).drop_last() =~= ops@.take(i as int));
        v = apply_op(ops[i], v);
        i = i + 1;
    }
    assert(ops@.take(i as int) =~= ops@);
    v
}

/// A transform with its result for every byte.
pub struct OpsLut {
    map: Vec<u8>,
    ops: Ghost<Seq<Op>>,
}

/// `s` with the transform applied to the `n` bytes from `o` on.
pub open spec fn mapped(s: Seq<u8>, o: int, n: int, ops: Seq<Op>) -> Seq<u8> {
    Seq::new(
        s.len(),
        |i: int|
            if o <= i < o + n {
                ops_on(ops, s[i])
            } else {
                s[i]
            },
    )
}

impl OpsLut {
    /// The transform that the table holds.
    pub closed spec fn transform(self) -> Seq<Op> {
        self.ops@
    }

    #[verifier::type_invariant]
    spec fn complete(self) -> bool {
        &&& self.map@.len() == 256
        &&& forall|b: u8| #[trigger] self.map@[b as int] == ops_on(self.ops@, b)
    }

    /// The table of `ops`.
    pub fn new(ops: &[Op]) -> (t: OpsLut)
        ensures
            t.transform() == ops@,
    {
        let mut map: Vec<u8> = Vec::new();
        let mut i: usize = 0;
        while i < 256
            invariant
                i <= 256,
                map@.len() == i,
                forall|k: int| 0 <= k < i ==> #[trigger] map@[k] == ops_on(ops@, k as u8),
            decreases 256 - i,
        {
            let b: u8 = apply(ops, i as u8);
            map.push(b);
            i = i + 1;
        }
        assert forall|b: u8| #[trigger] map@[b as int] == ops_on(ops@, b) by {
            assert((b as int) as u8 == b);
        }
        OpsLut { map, ops: Ghost(ops@) }
    }

    /// Apply the transform to the `n` bytes from `start` on.
    pub fn map_region(&self, d: &mut [u8], start: usize, n: usize)
        requires
            start + n <= old(d)@.len(),
        ensures
            final(d)@ == mapped(old(d)@, start as int, n as int, self.transform()),
    {
        proof {
            use_type_invariant(self);
        }
        let len: usize = d.len();
        let mut i: usize = 0;
        while i < n
            invariant
                i <= n,
                start + n <= len,
                d@.len() == len,
                self.map@.len() == 256,
                forall|b: u8| #[trigger] self.map@[b as int] == ops_on(self.transform(), b),
                d@ =~= mapped(old(d)@, start as int, i as int, self.transform()),
            decreases n - i,
        {
            let b: u8 = d[start + i];
            d[start + i] = self.map[b as usize];
            i = i + 1;
        }
    }
}

} // verus!
