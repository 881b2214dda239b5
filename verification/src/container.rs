//! The outer save container: the 32-bit "link" word at offset `0x0C` that ties a
//! slot file to its system file, and the MurmurHash3 checksum in the last four
//! bytes that covers everything before it.

use vstd::prelude::*;
use crate::murmur::{murm3, murmur3, le_u32_at};

verus! {

/// Offset of the link word in the container header.
pub const LINK_OFFSET: usize = 0x0C;

/// The four little-endian bytes of `v`.
pub open spec fn le_bytes32(v: u32) -> Seq<u8> {
    seq![(v & 0xff) as u8, ((v >> 8u32) & 0xff) as u8, ((v >> 16u32) & 0xff) as u8, ((v >> 24u32) & 0xff) as u8]
}

/// `buf` with `bytes` written over it from `pos` on (the length is unchanged
/// when the write fits).
pub open spec fn write_at(buf: Seq<u8>, pos: int, bytes: Seq<u8>) -> Seq<u8> {
    buf.take(pos) + bytes + buf.skip(pos + bytes.len())
}

/// The link word of a container: the little-endian word at `0x0C`, or 0 when
/// the buffer is too short to hold one.
pub open spec fn link_of(buf: Seq<u8>) -> u32 {
    if buf.len() >= 0x10 {
        le_u32_at(buf, 0x0C)
    } else {
        0
    }
}

/// The checksum stored in the last four bytes matches MurmurHash3 of the rest.
pub open spec fn tail_ok(buf: Seq<u8>) -> bool {
    buf.len() >= 4 && le_u32_at(buf, buf.len() - 4) == murmur3(buf.take(buf.len() - 4))
}

/// `buf` with its last four bytes replaced by the checksum of the rest (no
/// change when it is shorter than four bytes).
pub open spec fn resealed(buf: Seq<u8>) -> Seq<u8> {
    if buf.len() >= 4 {
        write_at(buf, buf.len() - 4, le_bytes32(murmur3(buf.take(buf.len() - 4))))
    } else {
        buf
    }
}

/// `buf` with its link word set to `link` (when it has room for one) and then
/// resealed.
pub open spec fn relinked(buf: Seq<u8>, link: u32) -> Seq<u8> {
    let linked = if buf.len() >= 0x10 {
        write_at(buf, 0x0C, le_bytes32(link))
    } else {
        buf
    };
    resealed(linked)
}

pub proof fn lemma_le_bytes32_roundtrip(v: u32)
    ensures
        le_u32_at(le_bytes32(v), 0) == v,
        le_bytes32(v).len() == 4,
{
    let b0 = (v & 0xff) as u8;
    let b1 = ((v >> 8u32) & 0xff) as u8;
    let b2 = ((v >> 16u32) & 0xff) as u8;
    let b3 = ((v >> 24u32) & 0xff) as u8;
    assert((b0 as u32) | ((b1 as u32) << 8u32) | ((b2 as u32) << 16u32) | ((b3 as u32) << 24u32)
        == v) by (bit_vector)
        requires
            b0 == (v & 0xff) as u8,
            b1 == ((v >> 8u32) & 0xff) as u8,
            b2 == ((v >> 16u32) & 0xff) as u8,
            b3 == ((v >> 24u32) & 0xff) as u8,
    ;
}

/// Reading a word back where one was written gives that word.
pub proof fn lemma_read_after_write(buf: Seq<u8>, pos: int, v: u32)
    requires
        0 <= pos,
        pos + 4 <= buf.len(),
    ensures
        write_at(buf, pos, le_bytes32(v)).len() == buf.len(),
        le_u32_at(write_at(buf, pos, le_bytes32(v)), pos) == v,
        forall|i: int|
            0 <= i < buf.len() && !(pos <= i < pos + 4) ==> #[trigger] write_at(
                buf,
                pos,
                le_bytes32(v),
            )[i] == buf[i],
{
    lemma_le_bytes32_roundtrip(v);
    let w = write_at(buf, pos, le_bytes32(v));
    let b = le_bytes32(v);
    assert(w[pos] == b[0] && w[pos + 1] == b[1] && w[pos + 2] == b[2] && w[pos + 3] == b[3]);
}

/// A resealed container always carries a valid checksum.
pub proof fn lemma_resealed_tail_ok(buf: Seq<u8>)
    requires
        buf.len() >= 4,
    ensures
        tail_ok(resealed(buf)),
        resealed(buf).len() == buf.len(),
        resealed(buf).take(buf.len() - 4) == buf.take(buf.len() - 4),
{
    let n = buf.len() - 4;
    let h = murmur3(buf.take(n));
    lemma_read_after_write(buf, n, h);
    let r = resealed(buf);
    assert(r.take(n) =~= buf.take(n));
}

/// The checksum of a valid container is already in place: resealing it
/// changes nothing.
pub proof fn lemma_resealed_fixpoint(buf: Seq<u8>)
    requires
        tail_ok(buf),
    ensures
        resealed(buf) == buf,
{
    let n = buf.len() - 4;
    let v = murmur3(buf.take(n));
    let b = le_bytes32(v);
    assert(le_u32_at(buf, n) == v);
    assert(buf[n] == b[0] && buf[n + 1] == b[1] && buf[n + 2] == b[2] && buf[n + 3] == b[3]) by {
        let x0 = buf[n];
        let x1 = buf[n + 1];
        let x2 = buf[n + 2];
        let x3 = buf[n + 3];
        assert(x0 == (v & 0xff) as u8 && x1 == ((v >> 8u32) & 0xff) as u8 && x2 == ((v >> 16u32)
            & 0xff) as u8 && x3 == ((v >> 24u32) & 0xff) as u8) by (bit_vector)
            requires
                v == (x0 as u32) | ((x1 as u32) << 8u32) | ((x2 as u32) << 16u32) | ((x3 as u32)
                    << 24u32),
        ;
    }
    assert(resealed(buf) =~= buf);
}

/// Setting the link and checksum keeps the length, and leaves every byte
/// outside the link word and the checksum as it was.
pub proof fn lemma_relinked_frame(buf: Seq<u8>, link: u32)
    ensures
        relinked(buf, link).len() == buf.len(),
        forall|i: int|
            0 <= i < buf.len() - 4 && !(0x0C <= i < 0x10) ==> #[trigger] relinked(buf, link)[i]
                == buf[i],
        buf.len() >= 4 ==> tail_ok(relinked(buf, link)),
        buf.len() >= 0x14 ==> link_of(relinked(buf, link)) == link,
{
    let linked = if buf.len() >= 0x10 {
        write_at(buf, 0x0C, le_bytes32(link))
    } else {
        buf
    };
    if buf.len() >= 0x10 {
        lemma_read_after_write(buf, 0x0C, link);
    }
    if buf.len() >= 4 {
        lemma_resealed_tail_ok(linked);
        let n = linked.len() - 4;
        lemma_read_after_write(linked, n, murmur3(linked.take(n)));
        assert forall|i: int| 0 <= i < buf.len() - 4 && !(0x0C <= i < 0x10) implies #[trigger] relinked(buf, link)[i] == buf[i] by {
            assert(relinked(buf, link)[i] == linked[i]);
        }
        if buf.len() >= 0x14 {
            assert(relinked(buf, link)[0x0C] == linked[0x0C]);
            assert(relinked(buf, link)[0x0D] == linked[0x0D]);
            assert(relinked(buf, link)[0x0E] == linked[0x0E]);
            assert(relinked(buf, link)[0x0F] == linked[0x0F]);
        }
    }
}

/// Setting the same link twice is the same as setting it once.
pub proof fn lemma_relinked_idempotent(buf: Seq<u8>, link: u32)
    ensures
        relinked(relinked(buf, link), link) == relinked(buf, link),
{
    let r = relinked(buf, link);
    lemma_relinked_frame(buf, link);
    if buf.len() >= 0x10 {
        let again = write_at(r, 0x0C, le_bytes32(link));
        lemma_read_after_write(r, 0x0C, link);
        lemma_le_bytes32_roundtrip(link);
        let linked = write_at(buf, 0x0C, le_bytes32(link));
        lemma_read_after_write(buf, 0x0C, link);
        if buf.len() >= 4 {
            lemma_resealed_tail_ok(linked);
            let n = buf.len() - 4;
            // Before the checksum, `again` and `linked` agree byte for byte.
            assert(again.take(n) =~= linked.take(n)) by {
                assert forall|i: int| 0 <= i < n implies #[trigger] again.take(n)[i] == linked.take(n)[i] by {
                    if 0x0C <= i < 0x10 {
                        let b = le_bytes32(link);
                        assert(again[i] == b[i - 0x0C]);
                        assert(linked[i] == b[i - 0x0C]);
                    } else {
                        assert(again[i] == r[i]);
                        assert(r[i] == linked.take(n)[i]);
                    }
                }
            }
            assert(resealed(again) =~= r) by {
                lemma_read_after_write(again, n, murmur3(again.take(n)));
                lemma_read_after_write(linked, n, murmur3(linked.take(n)));
                assert forall|i: int| 0 <= i < buf.len() implies #[trigger] resealed(again)[i] == r[i] by {
                    if i < n {
                        assert(resealed(again)[i] == again[i]);
                    }
                }
            }
        }
    } else {
        if buf.len() >= 4 {
            lemma_resealed_tail_ok(buf);
            lemma_resealed_fixpoint(r);
        }
    }
}

/// The link word of a container, or 0 when it is shorter than 16 bytes.
pub fn read_link(buf: &[u8]) -> (link: u32)
    ensures
        link == link_of(buf@),
{
    if buf.len() >= 0x10 {
        (buf[12] as u32) | ((buf[13] as u32) << 8u32) | ((buf[14] as u32) << 16u32) | ((buf[15] as u32) << 24u32)
    } else {
        0
    }
}

/// Whether the last four bytes of `buf` hold the checksum of the rest.
pub fn tail_checksum_ok(buf: &[u8]) -> (ok: bool)
    ensures
        ok == tail_ok(buf@),
{
    let n = buf.len();
    if n < 4 {
        return false;
    }
    let stored = (buf[n - 4] as u32) | ((buf[n - 3] as u32) << 8u32) | ((buf[n - 2] as u32) << 16u32)
        | ((buf[n - 1] as u32) << 24u32);
    let body = &buf[0..n - 4];
    assert(body@ =~= buf@.take(n - 4));
    stored == murm3(body)
}

fn write_u32_le(buf: &mut [u8], pos: usize, v: u32)
    requires
        pos + 4 <= old(buf)@.len(),
    ensures
        final(buf)@ == write_at(old(buf)@, pos as int, le_bytes32(v)),
{
    buf[pos] = (v & 0xff) as u8;
    buf[pos + 1] = ((v >> 8u32) & 0xff) as u8;
    buf[pos + 2] = ((v >> 16u32) & 0xff) as u8;
    buf[pos + 3] = ((v >> 24u32) & 0xff) as u8;
    assert(buf@ =~= write_at(old(buf)@, pos as int, le_bytes32(v)));
}

/// Recompute the checksum in the last four bytes (no change when `buf` is
/// shorter than four bytes).
pub fn reseal(buf: &mut [u8])
    ensures
        final(buf)@ == resealed(old(buf)@),
        final(buf)@.len() >= 4 ==> tail_ok(final(buf)@),
{
    let n = buf.len();
    if n >= 4 {
        let h = {
            let body = &buf[0..n - 4];
            assert(body@ =~= buf@.take(n - 4));
            murm3(body)
        };
        write_u32_le(buf, n - 4, h);
        proof {
            lemma_resealed_tail_ok(old(buf)@);
        }
    }
}

/// Write `link` into the link word (when the buffer has one) and recompute the
/// checksum.
pub fn set_link_and_tail(buf: &mut [u8], link: u32)
    ensures
        final(buf)@ == relinked(old(buf)@, link),
        final(buf)@.len() == old(buf)@.len(),
        old(buf)@.len() >= 4 ==> tail_ok(final(buf)@),
        old(buf)@.len() >= 0x14 ==> link_of(final(buf)@) == link,
{
    proof {
        lemma_relinked_frame(old(buf)@, link);
    }
    if buf.len() >= 0x10 {
        write_u32_le(buf, LINK_OFFSET, link);
    }
    reseal(buf);
}

/// Why a container could not be patched.
#[derive(Debug, Clone, Copy, PartialEq, Eq)]
pub enum ContainerError {
    /// The buffer is shorter than a header plus a checksum (20 bytes).
    TooSmall,
}

/// A copy of a system file with its link word set to `link` and its checksum
/// recomputed; refused when the file is shorter than 20 bytes.
pub fn patch_link(sys_data: &[u8], link: u32) -> (r: Result<Vec<u8>, ContainerError>)
    ensures
        sys_data@.len() < 0x14 ==> r == Err::<Vec<u8>, ContainerError>(ContainerError::TooSmall),
        sys_data@.len() >= 0x14 ==> (r matches Ok(b) && b@ == relinked(sys_data@, link)),
{
    if sys_data.len() < 0x14 {
        return Err(ContainerError::TooSmall);
    }
    let mut bytes = vstd::slice::slice_to_vec(sys_data);
    set_link_and_tail(bytes.as_mut_slice(), link);
    Ok(bytes)
}

/// A freshly written slot, tied to the system file `sys_data`: its link word
/// becomes the system file's and its checksum is recomputed.
pub fn relink_to_sys(written: &mut [u8], sys_data: &[u8])
    ensures
        final(written)@ == relinked(old(written)@, link_of(sys_data@)),
{
    let link = read_link(sys_data);
    set_link_and_tail(written, link);
}

/// A copy of the system file with its own link word rewritten and its checksum
/// recomputed, as the migrations hand it back.
pub fn resealed_sys(sys_data: &[u8]) -> (r: Vec<u8>)
    ensures
        r@ == relinked(sys_data@, link_of(sys_data@)),
{
    let link = read_link(sys_data);
    let mut bytes = vstd::slice::slice_to_vec(sys_data);
    set_link_and_tail(bytes.as_mut_slice(), link);
    bytes
}

/// A slot written by the size-sync tool: relinked to `sys_link` when one was
/// given (non-zero), otherwise only resealed.
pub fn relink_or_reseal(written: &mut [u8], sys_link: u32)
    ensures
        sys_link != 0 ==> final(written)@ == relinked(old(written)@, sys_link),
        sys_link == 0 ==> final(written)@ == resealed(old(written)@),
{
    if sys_link != 0 {
        set_link_and_tail(written, sys_link);
    } else {
        reseal(written);
    }
}

} // verus!

verus! {

/// A problem `validate_steam` found with a Steam slot.
#[derive(Debug, PartialEq, Eq)]
pub enum SteamIssue {
    /// The slot's link word is zero or differs from the system file's.
    LinkMismatch { slot_link: u32, sys_link: u32 },
    /// The slot's trailing checksum does not match its contents.
    BadChecksum,
    /// The save library could not decode the slot; its message.
    ParseFailed(String),
}

/// The container-level problems of a Steam slot checked against its system
/// file, in the order they are reported.
pub open spec fn container_issues(slot: Seq<u8>, sys: Seq<u8>) -> Seq<SteamIssue> {
    let first = if link_of(slot) == 0 || link_of(slot) != link_of(sys) {
        seq![SteamIssue::LinkMismatch { slot_link: link_of(slot), sys_link: link_of(sys) }]
    } else {
        Seq::empty()
    };
    if slot.len() >= 4 && !tail_ok(slot) {
        first.push(SteamIssue::BadChecksum)
    } else {
        first
    }
}

/// Check a Steam slot before use: its link word must be set and equal to the
/// system file's, its checksum must hold, and it must decode. `decoded` is
/// what decoding the slot gave: the number of top-level classes, or the
/// decoder's message. The slot is accepted, with its class count, only when no
/// issue was found; otherwise every issue is returned, in order.
pub fn validate_steam(slot: &[u8], sys: &[u8], decoded: Result<usize, String>) -> (r: Result<
    usize,
    Vec<SteamIssue>,
>)
    ensures
        match decoded {
            Ok(n) => if container_issues(slot@, sys@).len() == 0 {
                r == Ok::<usize, Vec<SteamIssue>>(n)
            } else {
                r matches Err(v) && v@ == container_issues(slot@, sys@)
            },
            Err(e) => r matches Err(v) && v@ == container_issues(slot@, sys@).push(
                SteamIssue::ParseFailed(e),
            ),
        },
{
    let slot_link = read_link(slot);
    let sys_link = read_link(sys);
    let mut issues: Vec<SteamIssue> = Vec::new();
    if slot_link == 0 || slot_link != sys_link {
        issues.push(SteamIssue::LinkMismatch { slot_link, sys_link });
    }
    if slot.len() >= 4 && !tail_checksum_ok(slot) {
        issues.push(SteamIssue::BadChecksum);
    }
    assert(issues@ =~= container_issues(slot@, sys@));
    match decoded {
        Ok(n) => {
            if issues.len() == 0 {
                Ok(n)
            } else {
                Err(issues)
            }
        },
        Err(e) => {
            issues.push(SteamIssue::ParseFailed(e));
            Err(issues)
        },
    }
}

} // verus!
