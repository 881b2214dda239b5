//! Building a container around a raw (already serialised) payload, as the
//! raw conversion does, including the optional copy of the 4 KiB trailer of a
//! reference save.

use vstd::prelude::*;
use crate::container::{le_bytes32, write_at};

verus! {

/// The 16-byte container header: the magic `DSSS`, format version 2, the
/// save flags, and the constant `0x208`.
pub open spec fn raw_head(flags: u32) -> Seq<u8> {
    seq![0x44u8, 0x53, 0x53, 0x53] + le_bytes32(2) + le_bytes32(flags) + le_bytes32(0x208)
}

/// The container header for a raw payload (see `raw_head`).
pub fn raw_container_head(flags: u32) -> (r: Vec<u8>)
    ensures
        r@ == raw_head(flags),
        r@.len() == 16,
{
    let mut v: Vec<u8> = vec![0x44u8, 0x53, 0x53, 0x53];
    let words: [u32; 3] = [2, flags, 0x208];
    let mut w: usize = 0;
    while w < 3
        invariant
            w <= 3,
            words@ == seq![2u32, flags, 0x208u32],
            v@ == seq![0x44u8, 0x53, 0x53, 0x53] + if w == 0 {
                Seq::empty()
            } else if w == 1 {
                le_bytes32(2)
            } else if w == 2 {
                le_bytes32(2) + le_bytes32(flags)
            } else {
                le_bytes32(2) + le_bytes32(flags) + le_bytes32(0x208)
            },
        decreases 3 - w,
    {
        let x = words[w];
        let ghost before = v@;
        v.push((x & 0xff) as u8);
        v.push(((x >> 8u32) & 0xff) as u8);
        v.push(((x >> 16u32) & 0xff) as u8);
        v.push(((x >> 24u32) & 0xff) as u8);
        assert(v@ =~= before + le_bytes32(x));
        w += 1;
    }
    assert(v@ =~= raw_head(flags));
    v
}

/// The little-endian 64-bit word at `d[i..i + 8]`.
pub open spec fn le_u64_at(d: Seq<u8>, i: int) -> u64 {
    (d[i] as u64) | ((d[i + 1] as u64) << 8u64) | ((d[i + 2] as u64) << 16u64) | ((d[i + 3] as u64) << 24u64)
        | ((d[i + 4] as u64) << 32u64) | ((d[i + 5] as u64) << 40u64) | ((d[i + 6] as u64) << 48u64) | ((d[i + 7] as u64)
        << 56u64)
}

/// Position `i` of a reference save holds the 64-bit payload length that
/// precedes its trailer: a value of at least `0x2000`, below the file size, and
/// leaving room for the trailer and twelve more bytes.
pub open spec fn is_length_word(d: Seq<u8>, i: int) -> bool {
    let v = le_u64_at(d, i);
    0x2000 <= v && v < d.len() && v + 0x1000 + 12 <= d.len()
}

/// The last position from 8 to `len - 8` holding a length word, or 0 when there
/// is none.
pub open spec fn last_length_word(d: Seq<u8>) -> int {
    if exists|i: int| 8 <= i <= d.len() - 8 && #[trigger] is_length_word(d, i) {
        choose|i: int|
            8 <= i <= d.len() - 8 && #[trigger] is_length_word(d, i) && forall|j: int|
                i < j <= d.len() - 8 ==> !#[trigger] is_length_word(d, j)
    } else {
        0
    }
}

fn read_u64_le(d: &[u8], i: usize) -> (v: u64)
    requires
        i + 8 <= d@.len(),
    ensures
        v == le_u64_at(d@, i as int),
{
    (d[i] as u64) | ((d[i + 1] as u64) << 8u64) | ((d[i + 2] as u64) << 16u64) | ((d[i + 3] as u64) << 24u64)
        | ((d[i + 4] as u64) << 32u64) | ((d[i + 5] as u64) << 40u64) | ((d[i + 6] as u64) << 48u64) | ((d[i + 7] as u64)
        << 56u64)
}

/// Where the trailer of a reference save ends: the last length word's
/// position, when there is one at `0x1000` or beyond.
pub fn find_reference_tail(ref_data: &[u8]) -> (r: Option<usize>)
    ensures
        match r {
            Some(off) => off == last_length_word(ref_data@) && off >= 0x1000 && off + 8 <= ref_data@.len(),
            None => last_length_word(ref_data@) < 0x1000,
        },
{
    let n = ref_data.len();
    if n < 16 {
        return None;
    }
    let mut i: usize = n - 8;
    while i >= 8
        invariant
            n == ref_data@.len(),
            n >= 16,
            7 <= i <= n - 8,
            forall|j: int| i < j <= n - 8 ==> !#[trigger] is_length_word(ref_data@, j),
        decreases i,
    {
        let v = read_u64_le(ref_data, i);
        if 0x2000 <= v && v < n as u64 && v <= (n as u64) - 0x1000 - 12 && n >= 0x1000 + 12 {
            proof {
                assert(is_length_word(ref_data@, i as int));
                let c = choose|k: int|
                    8 <= k <= n - 8 && #[trigger] is_length_word(ref_data@, k) && forall|j: int|
                        k < j <= n - 8 ==> !#[trigger] is_length_word(ref_data@, j);
                assert(8 <= i <= n - 8 && is_length_word(ref_data@, i as int) && forall|j: int|
                    i < j <= n - 8 ==> !#[trigger] is_length_word(ref_data@, j));
                if c < i {
                    assert(is_length_word(ref_data@, i as int));
                } else if c > i {
                    assert(!is_length_word(ref_data@, c));
                }
            }
            if i >= 0x1000 {
                return Some(i);
            } else {
                return None;
            }
        }
        proof {
            assert(!is_length_word(ref_data@, i as int));
        }
        i -= 1;
    }
    proof {
        assert(!exists|k: int| 8 <= k <= n - 8 && #[trigger] is_length_word(ref_data@, k));
    }
    None
}

/// Where the trailer goes in a container whose payload is `raw_len` bytes:
/// after the header and one `0x40240`-byte block per started `0x40000` bytes
/// of payload.
pub open spec fn tail_position(raw_len: nat) -> int {
    (16 + ((raw_len + 0x3ffff) / 0x40000) * 0x40240) as int
}

fn tail_position_exec(raw_len: usize) -> (p: u128)
    ensures
        p == tail_position(raw_len as nat),
{
    let blocks: u128 = ((raw_len as u128) + 0x3ffff) / 0x40000;
    assert(blocks <= 0x1_0000_0000_0000) by (nonlinear_arith)
        requires
            blocks == (raw_len + 0x3ffff) / 0x40000,
            raw_len <= 0xffff_ffff_ffff_ffff,
    ;
    assert(16 + blocks * 0x40240 <= 0xffff_ffff_ffff_ffff_ffff) by (nonlinear_arith)
        requires
            blocks <= 0x1_0000_0000_0000,
    ;
    16 + (blocks as u128) * 0x40240
}

/// What became of the reference trailer.
#[derive(Debug, Clone, Copy, PartialEq, Eq)]
pub enum TailPlacement {
    /// Copied into the container.
    Copied,
    /// The container is too short for it at its position; nothing copied.
    OutOfRange,
    /// The reference has no trailer that can be found; nothing copied.
    NotFound,
}

/// Copy the 4 KiB trailer of a reference save into a container built around
/// a `raw_len`-byte payload, at `tail_position(raw_len)`, when the reference
/// has one and the container has room for it.
pub fn place_reference_tail(file: &mut Vec<u8>, ref_data: &[u8], raw_len: usize) -> (r: TailPlacement)
    ensures
        last_length_word(ref_data@) < 0x1000 ==> r == TailPlacement::NotFound && final(file)@ == old(file)@,
        last_length_word(ref_data@) >= 0x1000 && tail_position(raw_len as nat) + 0x1000 > old(file)@.len() ==> r
            == TailPlacement::OutOfRange && final(file)@ == old(file)@,
        last_length_word(ref_data@) >= 0x1000 && tail_position(raw_len as nat) + 0x1000 <= old(file)@.len() ==> {
            let off = last_length_word(ref_data@);
            &&& r == TailPlacement::Copied
            &&& final(file)@ == write_at(old(file)@, tail_position(raw_len as nat), ref_data@.subrange(off - 0x1000, off))
        },
{
    let off = match find_reference_tail(ref_data) {
        Some(o) => o,
        None => return TailPlacement::NotFound,
    };
    let pos = tail_position_exec(raw_len);
    if pos + 0x1000 > file.len() as u128 {
        return TailPlacement::OutOfRange;
    }
    let trailer = &ref_data[off - 0x1000..off];
    copy_into(file, pos as usize, trailer);
    TailPlacement::Copied
}

fn copy_into(file: &mut Vec<u8>, start: usize, src: &[u8])
    requires
        start + src@.len() <= old(file)@.len(),
    ensures
        final(file)@ == write_at(old(file)@, start as int, src@),
{
    let n = file.len();
    let mut k: usize = 0;
    while k < src.len()
        invariant
            k <= src@.len(),
            n == file@.len(),
            start + src@.len() <= file@.len(),
            file@.len() == old(file)@.len(),
            forall|j: int| 0 <= j < file@.len() ==> #[trigger] file@[j] == if start <= j < start + k {
                src@[j - start]
            } else {
                old(file)@[j]
            },
        decreases src@.len() - k,
    {
        file.set(start + k, src[k]);
        k += 1;
    }
    assert(file@ =~= write_at(old(file)@, start as int, src@));
}

} // verus!
