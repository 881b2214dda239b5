//! In-place patches of the decrypted save stream, and re-framing of the
//! encrypted stream into a container with a fresh checksum.

use vstd::prelude::*;
use crate::murmur::{murm3, murmur3, le_u32_at};
use crate::container::{le_bytes32, write_at, tail_ok};
use crate::text::{encode_utf16, utf16_encode};

verus! {

/// Why a payload patch was refused.
#[derive(Debug, Clone, Copy, PartialEq, Eq)]
pub enum PatchError {
    /// The 4-byte word at the offset does not fit in the payload.
    OffsetOutOfBounds,
    /// The string stored at the offset runs past the end of the payload.
    StringOutOfBounds,
    /// The replacement bytes run past the end of the payload.
    PatchOutOfBounds,
}

/// The little-endian bytes of a sequence of UTF-16 code units.
pub open spec fn utf16_le_bytes(units: Seq<u16>) -> Seq<u8>
    decreases units.len(),
{
    if units.len() == 0 {
        Seq::empty()
    } else {
        let u = units.last();
        utf16_le_bytes(units.drop_last()) + seq![(u & 0xff) as u8, ((u >> 8u16) & 0xff) as u8]
    }
}

/// A string record of the save stream: its length in code units as a 32-bit
/// word, the code units, and zero padding up to a multiple of four bytes.
pub open spec fn string_record(units: Seq<u16>) -> Seq<u8> {
    le_bytes32(units.len() as u32) + utf16_le_bytes(units) + if units.len() % 2 == 1 {
        seq![0u8, 0u8]
    } else {
        Seq::<u8>::empty()
    }
}

/// The size of a stored string record holding `n` code units.
pub open spec fn record_size(n: u32) -> int {
    ((4 + 2 * n + 3) / 4) * 4
}

proof fn lemma_utf16_le_bytes_len(units: Seq<u16>)
    ensures
        utf16_le_bytes(units).len() == 2 * units.len(),
    decreases units.len(),
{
    if units.len() > 0 {
        lemma_utf16_le_bytes_len(units.drop_last());
    }
}

/// A string record is padded to a whole number of 4-byte words.
pub proof fn lemma_string_record_len(units: Seq<u16>)
    ensures
        string_record(units).len() % 4 == 0,
        string_record(units).len() == record_size(units.len() as u32) || units.len() > u32::MAX,
{
    lemma_utf16_le_bytes_len(units);
}

/// The payload with the 32-bit word at `offset` set to `value`; refused when
/// the word does not fit.
pub fn raw_patch_u32(payload: &[u8], offset: u32, value: u32) -> (r: Result<Vec<u8>, PatchError>)
    ensures
        offset + 4 > payload@.len() ==> r == Err::<Vec<u8>, PatchError>(PatchError::OffsetOutOfBounds),
        offset + 4 <= payload@.len() ==> (r matches Ok(p) && p@ == write_at(payload@, offset as int, le_bytes32(value))),
{
    let n = payload.len();
    if n < 4 || offset as usize > n - 4 {
        return Err(PatchError::OffsetOutOfBounds);
    }
    let pos = offset as usize;
    let mut out = vstd::slice::slice_to_vec(payload);
    out.set(pos, (value & 0xff) as u8);
    out.set(pos + 1, ((value >> 8u32) & 0xff) as u8);
    out.set(pos + 2, ((value >> 16u32) & 0xff) as u8);
    out.set(pos + 3, ((value >> 24u32) & 0xff) as u8);
    assert(out@ =~= write_at(payload@, offset as int, le_bytes32(value)));
    Ok(out)
}

/// The payload with `bytes` written over it from `offset` on; refused when
/// they do not fit.
pub fn patch_bytes(payload: &[u8], offset: u32, bytes: &[u8]) -> (r: Result<Vec<u8>, PatchError>)
    ensures
        offset + bytes@.len() > payload@.len() ==> r == Err::<Vec<u8>, PatchError>(PatchError::PatchOutOfBounds),
        offset + bytes@.len() <= payload@.len() ==> (r matches Ok(p) && p@ == write_at(payload@, offset as int, bytes@)),
{
    let n = payload.len();
    if bytes.len() > n || offset as usize > n - bytes.len() {
        return Err(PatchError::PatchOutOfBounds);
    }
    let pos = offset as usize;
    let mut out = vstd::slice::slice_to_vec(payload);
    let mut i: usize = 0;
    while i < bytes.len()
        invariant
            pos + bytes@.len() <= n,
            n == payload@.len(),
            i <= bytes@.len(),
            out@.len() == n,
            forall|j: int| 0 <= j < n ==> #[trigger] out@[j] == if pos <= j < pos + i { bytes@[j - pos] } else { payload@[j] },
        decreases bytes@.len() - i,
    {
        out.set(pos + i, bytes[i]);
        i += 1;
    }
    assert(out@ =~= write_at(payload@, pos as int, bytes@));
    Ok(out)
}

fn string_record_exec(units: &Vec<u16>) -> (r: Vec<u8>)
    ensures
        r@ == string_record(units@),
{
    let mut out: Vec<u8> = Vec::new();
    let k = units.len() as u32;
    out.push((k & 0xff) as u8);
    out.push(((k >> 8u32) & 0xff) as u8);
    out.push(((k >> 16u32) & 0xff) as u8);
    out.push(((k >> 24u32) & 0xff) as u8);
    assert(out@ =~= le_bytes32(k) + utf16_le_bytes(units@.take(0)));
    let mut i: usize = 0;
    while i < units.len()
        invariant
            i <= units@.len(),
            k == units@.len() as u32,
            out@ == le_bytes32(k) + utf16_le_bytes(units@.take(i as int)),
        decreases units@.len() - i,
    {
        let u = units[i];
        out.push((u & 0xff) as u8);
        out.push(((u >> 8u16) & 0xff) as u8);
        proof {
            assert(units@.take(i + 1).drop_last() =~= units@.take(i as int));
            assert(out@ =~= le_bytes32(k) + utf16_le_bytes(units@.take(i + 1)));
        }
        i += 1;
    }
    assert(units@.take(units@.len() as int) =~= units@);
    if units.len() % 2 == 1 {
        out.push(0);
        out.push(0);
    }
    assert(out@ =~= string_record(units@));
    out
}

/// The payload with the string record at `offset` replaced by one holding
/// `name`. The record there is read for its length (a 32-bit count of UTF-16
/// code units, padded to 4 bytes); the patch is refused when that length word
/// or the whole old record runs past the end of the payload.
pub fn raw_patch_str(payload: &[u8], offset: u32, name: &str) -> (r: Result<Vec<u8>, PatchError>)
    ensures
        offset + 4 > payload@.len() ==> r == Err::<Vec<u8>, PatchError>(PatchError::OffsetOutOfBounds),
        offset + 4 <= payload@.len() && offset + record_size(le_u32_at(payload@, offset as int)) > payload@.len()
            ==> r == Err::<Vec<u8>, PatchError>(PatchError::StringOutOfBounds),
        offset + 4 <= payload@.len() && offset + record_size(le_u32_at(payload@, offset as int)) <= payload@.len()
            ==> (r matches Ok(p) && p@ == payload@.take(offset as int) + string_record(utf16_encode(name@))
                + payload@.skip(offset + record_size(le_u32_at(payload@, offset as int)))),
{
    let n = payload.len();
    if n < 4 || offset as usize > n - 4 {
        return Err(PatchError::OffsetOutOfBounds);
    }
    let pos = offset as usize;
    let old_size = (payload[pos] as u32) | ((payload[pos + 1] as u32) << 8u32) | ((payload[pos + 2] as u32) << 16u32)
        | ((payload[pos + 3] as u32) << 24u32);
    let old_total: u64 = ((4 + 2 * (old_size as u64) + 3) / 4) * 4;
    if old_total > (n - pos) as u64 {
        return Err(PatchError::StringOutOfBounds);
    }
    let end = pos + old_total as usize;
    let units = encode_utf16(name);
    let record = string_record_exec(&units);
    let mut out: Vec<u8> = Vec::new();
    let mut i: usize = 0;
    while i < pos
        invariant
            pos <= n,
            n == payload@.len(),
            i <= pos,
            out@ == payload@.take(i as int),
        decreases pos - i,
    {
        out.push(payload[i]);
        proof { assert(payload@.take(i + 1) =~= payload@.take(i as int).push(payload@[i as int])); }
        i += 1;
    }
    let ghost head = out@;
    let mut j: usize = 0;
    while j < record.len()
        invariant
            j <= record@.len(),
            out@ == head + record@.take(j as int),
        decreases record@.len() - j,
    {
        out.push(record[j]);
        proof { assert(record@.take(j + 1) =~= record@.take(j as int).push(record@[j as int])); }
        j += 1;
    }
    let ghost mid = out@;
    let mut k: usize = end;
    while k < n
        invariant
            end <= k <= n,
            n == payload@.len(),
            out@ == mid + payload@.subrange(end as int, k as int),
        decreases n - k,
    {
        out.push(payload[k]);
        proof { assert(payload@.subrange(end as int, k + 1) =~= payload@.subrange(end as int, k as int).push(payload@[k as int])); }
        k += 1;
    }
    assert(record@.take(record@.len() as int) =~= record@);
    assert(payload@.subrange(end as int, n as int) =~= payload@.skip(end as int));
    Ok(out)
}

/// `body` followed by zero bytes up to a multiple of four.
pub open spec fn padded4(body: Seq<u8>) -> Seq<u8> {
    body + Seq::new(((4 - body.len() % 4) % 4) as nat, |i: int| 0u8)
}

/// The eight little-endian bytes of `v`.
pub open spec fn le_bytes64(v: u64) -> Seq<u8> {
    Seq::new(8, |i: int| ((v >> (8 * i) as u64) & 0xff) as u8)
}

/// The unsealed body of a container: `head` (the plaintext header), the
/// encrypted payload, the payload's decrypted length as a 64-bit word, and zero
/// padding to a multiple of four bytes.
pub open spec fn framed_stream(head: Seq<u8>, enc: Seq<u8>, payload_len: u64) -> Seq<u8> {
    padded4(head + enc + le_bytes64(payload_len))
}

/// Assemble the unsealed body of a container (see `framed_stream`).
pub fn frame_stream(head: &[u8], enc: &[u8], payload_len: u64) -> (r: Vec<u8>)
    ensures
        r@ == framed_stream(head@, enc@, payload_len),
        r@.len() % 4 == 0,
{
    let mut out = vstd::slice::slice_to_vec(head);
    let mut i: usize = 0;
    while i < enc.len()
        invariant
            i <= enc@.len(),
            out@ == head@ + enc@.take(i as int),
        decreases enc@.len() - i,
    {
        out.push(enc[i]);
        proof { assert(enc@.take(i + 1) =~= enc@.take(i as int).push(enc@[i as int])); }
        i += 1;
    }
    assert(enc@.take(enc@.len() as int) =~= enc@);
    let ghost before = out@;
    let mut b: u64 = 0;
    while b < 8
        invariant
            b <= 8,
            out@ == before + le_bytes64(payload_len).take(b as int),
        decreases 8 - b,
    {
        out.push(((payload_len >> (8 * b)) & 0xff) as u8);
        proof { assert(le_bytes64(payload_len).take(b + 1) =~= le_bytes64(payload_len).take(b as int).push(((payload_len >> (8 * b) as u64) & 0xff) as u8)); }
        b += 1;
    }
    assert(le_bytes64(payload_len).take(8) =~= le_bytes64(payload_len));
    let ghost unpadded = out@;
    let pad = (4 - out.len() % 4) % 4;
    let mut p: usize = 0;
    while p < pad
        invariant
            p <= pad,
            pad == (4 - unpadded.len() % 4) % 4,
            out@ == unpadded + Seq::new(p as nat, |i: int| 0u8),
        decreases pad - p,
    {
        out.push(0);
        proof {
            assert(out@ =~= unpadded + Seq::new((p + 1) as nat, |i: int| 0u8));
        }
        p += 1;
    }
    assert(out@ =~= padded4(unpadded));
    out
}

/// Append the checksum of `buf` to it, making it a sealed container.
pub fn append_checksum(buf: &mut Vec<u8>)
    ensures
        final(buf)@ == old(buf)@ + le_bytes32(murmur3(old(buf)@)),
        tail_ok(final(buf)@),
{
    let h = murm3(buf.as_slice());
    buf.push((h & 0xff) as u8);
    buf.push(((h >> 8u32) & 0xff) as u8);
    buf.push(((h >> 16u32) & 0xff) as u8);
    buf.push(((h >> 24u32) & 0xff) as u8);
    proof {
        let o = old(buf)@;
        let f = buf@;
        assert(f =~= o + le_bytes32(h));
        assert(f.take(f.len() - 4) =~= o);
        crate::container::lemma_le_bytes32_roundtrip(h);
        assert(le_u32_at(f, f.len() - 4) == le_u32_at(le_bytes32(h), 0));
    }
}

/// The full container after a raw payload patch: `head` (the stream bytes
/// before the payload), the re-encrypted payload and its length, padding, and
/// the checksum of all of it.
pub fn seal_stream(head: &[u8], enc: &[u8], payload_len: u64) -> (r: Vec<u8>)
    ensures
        r@ == framed_stream(head@, enc@, payload_len) + le_bytes32(murmur3(framed_stream(head@, enc@, payload_len))),
        tail_ok(r@),
        r@.len() % 4 == 0,
{
    let mut out = frame_stream(head, enc, payload_len);
    let ghost f = out@;
    append_checksum(&mut out);
    assert(out@.len() == f.len() + 4);
    out
}

} // verus!
