//! How a 64-bit payload holds its entry point and directories, and that the image gets
//! them.

use vstd::prelude::*;

use crate::bytes::{le32, overlay, put32, write_then_read_32};
use crate::pe::config64::Config;
use crate::pe::discovery::{data5, reach5, trial5, trial_is_what_deciphering_leaves};
use crate::pe::entry_laws::{holds_positioned, positioned_block_is_read};
use crate::pe::finish64::{
    entry_block, entry_offset, plausible_imports, trickled, with_directories, with_entry,
};

verus! {

/// Whether the header at `pe` of `v` holds the entry point and the directories of a block,
/// and `v` is `s` everywhere else.
pub open spec fn header_filled(v: Seq<u8>, s: Seq<u8>, pe: int, block: Seq<u8>) -> bool {
    &&& v.len() == s.len()
    &&& le32(v, pe + 40) == le32(block, 0)
    &&& forall|j: int| 16 <= j < 144 ==> v[pe + 120 + j] == #[trigger] block[j]
    &&& forall|a: int|
        0 <= a < s.len() && !(pe + 40 <= a < pe + 44) && !(pe + 136 <= a < pe + 264)
            ==> #[trigger] v[a] == s[a]
}

proof fn trickling_copies(s: Seq<u8>, to: int, from: int, n: nat)
    requires
        0 <= to,
        to + n <= from,
        from + n <= s.len(),
    ensures
        trickled(s, to, from, n).len() == s.len(),
        forall|a: int|
            0 <= a < s.len() ==> #[trigger] trickled(s, to, from, n)[a] == (if to <= a < to + n {
                s[from + a - to]
            } else {
                s[a]
            }),
    decreases n,
{
    if n > 0 {
        trickling_copies(s, to, from, (n - 1) as nat);
    }
}

/// Whether a payload holds a block, enciphered, in the first of two places, which is known
/// by the payload's own address in it, or else in the second.
pub open spec fn holds_block(s: Seq<u8>, info3: u32, block: Seq<u8>) -> bool {
    &&& block.len() == 144
    &&& info3 + 208 <= s.len() <= u32::MAX
    &&& {
        ||| holds_positioned(s, info3 + 32, block) && le32(block, 4) == info3
        ||| holds_positioned(s, info3 + 64, block) && trial5(s, (info3 + 36) as u32) != info3
    }
}

proof fn block_is_found(s: Seq<u8>, info3: u32, block: Seq<u8>) -> (off: u32)
    requires
        holds_block(s, info3, block),
    ensures
        off == 32 || off == 64,
        entry_offset(s, info3) == Ok::<u32, crate::error::UnpackError>(off),
        holds_positioned(s, info3 + off, block),
{
    let a = info3.wrapping_add(36);
    let b = info3.wrapping_add(68);
    assert(a == info3 + 36 && b == info3 + 68);
    assert(reach5(s, a, 4) && reach5(s, b, 4));
    if holds_positioned(s, info3 + 32, block) && le32(block, 4) == info3 {
        positioned_block_is_read(s, info3 + 32, block);
        trial_is_what_deciphering_leaves(s, (info3 + 32) as u32, 144, a);
        let t = overlay(s, info3 + 32, block);
        assert(le32(t, info3 + 36) == le32(block, 4));
        32
    } else {
        64
    }
}

/// The header of an image of a marked build gets the entry point and the directories that
/// the payload holds enciphered, and nothing else changes.
pub proof fn marked_header_is_filled(s: Seq<u8>, info3: u32, pe: u32, block: Seq<u8>)
    requires
        holds_block(s, info3, block),
        pe + 264 <= info3,
    ensures
        with_entry(s, info3, pe) matches Ok(v) && header_filled(v, s, pe as int, block),
{
    let off = block_is_found(s, info3, block);
    let o = info3 + off;
    let p = pe.wrapping_add(40);
    assert(info3.wrapping_add(off) == o && p == pe + 40);
    positioned_block_is_read(s, o, block);
    let t = data5(s, o, 144);
    assert(le32(t, o) == le32(block, 0));
    write_then_read_32(t, p as int, le32(t, o));
    let u = put32(t, p as int, le32(t, o));
    trickling_copies(u, pe + 136, o + 16, 128);
    let v = trickled(u, pe + 136, o + 16, 128);
    let w = overlay(v, o, s.subrange(o, o + 144));
    assert(with_entry(s, info3, pe) == Ok::<Seq<u8>, crate::error::UnpackError>(w));
    assert(le32(w, pe + 40) == le32(u, pe + 40));
    assert forall|j: int| 16 <= j < 144 implies w[pe + 120 + j] == #[trigger] block[j] by {
        let a = pe + 120 + j;
        assert(v[a] == u[o + 16 + a - (pe + 136)]);
        assert(u[o + j] == t[o + j]);
        assert(t[o + j] == overlay(s, o, block)[o + j]);
    }
    assert forall|a: int|
        0 <= a < s.len() && !(pe + 40 <= a < pe + 44) && !(pe + 136 <= a < pe
            + 264) implies #[trigger] w[a] == s[a] by {
        if o <= a < o + 144 {
            assert(w[a] == s.subrange(o, o + 144)[a - o]);
        } else {
            assert(v[a] == u[a]);
            assert(u[a] == t[a]);
        }
    }
}

/// The entry point and the directories that the payload of an unmarked build holds
/// enciphered are read from it.
pub proof fn unmarked_block_is_read(s: Seq<u8>, info3: u32, block: Seq<u8>)
    requires
        block.len() == 144,
        info3 + 176 <= s.len() <= u32::MAX,
        holds_positioned(s, info3 + 32, block),
    ensures
        entry_block(s, info3) == Ok::<(u32, Seq<u8>), crate::error::UnpackError>(
            (le32(block, 0), block.subrange(16, 144)),
        ),
{
    positioned_block_is_read(s, info3 + 32, block);
    let t = overlay(s, info3 + 32, block);
    assert(t.subrange(info3 + 48, info3 + 176) =~= block.subrange(16, 144));
    assert(le32(t, info3 + 32) == le32(block, 0));
}

/// Whether a directory of imports lies behind the headers, inside the image that the header
/// at `pe` describes, and begins with a descriptor that has a name.
pub open spec fn imports_stand(s: Seq<u8>, pe: int, rva: u32, size: u32) -> bool {
    &&& 0x1000 < rva < le32(s, pe + 80)
    &&& 0 < size < 0x1_0000
    &&& rva + 16 <= s.len()
    &&& le32(s, rva + 12) != 0
}

/// The header of an image of an unmarked build gets the entry point and the directories
/// that it is given. Only where no imports stand at their directory, and the configuration
/// names another, that one takes its place.
pub proof fn unmarked_header_is_filled(s: Seq<u8>, ep: u32, dirs: Seq<u8>, pe: u32, c: Config)
    requires
        pe + 264 <= 0x1000 <= s.len() <= u32::MAX - 16,
        dirs.len() == 128,
        le32(s, pe + 80) <= s.len(),
    ensures
        with_directories(s, ep, dirs, pe, c) matches Ok(v) && {
            let own = imports_stand(s, pe as int, le32(dirs, 8), le32(dirs, 12)) || c.import_rva == 0;
            &&& v.len() == s.len()
            &&& le32(v, pe + 40) == ep
            &&& forall|j: int|
                0 <= j < 128 && !(8 <= j < 16) ==> v[pe + 136 + j] == #[trigger] dirs[j]
            &&& le32(v, pe + 144) == (if own {
                le32(dirs, 8)
            } else {
                c.import_rva
            })
            &&& le32(v, pe + 148) == (if own {
                le32(dirs, 12)
            } else {
                c.import_size
            })
            &&& forall|a: int|
                0 <= a < s.len() && !(pe + 40 <= a < pe + 44) && !(pe + 136 <= a < pe + 264)
                    ==> #[trigger] v[a] == s[a]
        },
{
    let p = pe.wrapping_add(40);
    assert(p == pe + 40 && pe.wrapping_add(80) == pe + 80 && pe.wrapping_add(0x90) == pe + 144
        && pe.wrapping_add(0x94) == pe + 148);
    write_then_read_32(s, p as int, ep);
    let a0 = put32(s, p as int, ep);
    let a = overlay(a0, pe + 136, dirs);
    let rva = le32(dirs, 8);
    let size = le32(dirs, 12);
    assert(le32(a, pe + 40) == ep);
    assert(le32(a, pe + 80) == le32(s, pe + 80));
    if 0x1000 < rva && rva + 16 <= s.len() {
        assert(le32(a, rva + 12) == le32(s, rva + 12));
    }
    assert(plausible_imports(a, rva, size, le32(a, pe + 80)) == Ok::<
        bool,
        crate::error::UnpackError,
    >(imports_stand(s, pe as int, rva, size)));
    let own = imports_stand(s, pe as int, rva, size) || c.import_rva == 0;
    let x = if own {
        rva
    } else {
        c.import_rva
    };
    let y = if own {
        size
    } else {
        c.import_size
    };
    write_then_read_32(a, pe + 144, x);
    let b = put32(a, pe + 144, x);
    write_then_read_32(b, pe + 148, y);
    let v = put32(b, pe + 148, y);
    assert(with_directories(s, ep, dirs, pe, c) == Ok::<Seq<u8>, crate::error::UnpackError>(v));
    assert(le32(v, pe + 144) == le32(b, pe + 144));
    assert(le32(v, pe + 40) == ep);
    assert forall|j: int| 0 <= j < 128 && !(8 <= j < 16) implies v[pe + 136 + j] == #[trigger] dirs[j]
        by {
        assert(a[pe + 136 + j] == dirs[j]);
    }
}

} // verus!
