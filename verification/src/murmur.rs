//! MurmurHash3 (x86, 32-bit) with the fixed seed `0xffffffff`.
//!
//! The game uses this hash both for field and class identifiers
//! (`murmur3(name)`) and for the 4-byte checksum at the end of a save file.

use vstd::prelude::*;
use vstd::string::StringSliceAdditionalSpecFns;

verus! {

/// The seed every hash in the save format starts from.
pub const SEED: u32 = 0xffff_ffff;

pub const C1: u32 = 0xcc9e_2d51;

pub const C2: u32 = 0x1b87_3593;

/// Rotation of a 32-bit word to the left by `r` bits (`0 < r < 32`).
pub open spec fn rotl32(x: u32, r: u32) -> u32 {
    (x << r) | (x >> ((32 - r) as u32))
}

/// The per-word scrambling step applied to each 4-byte block and to the tail.
pub open spec fn scramble(k: u32) -> u32 {
    rotl32(k.wrapping_mul(C1), 15).wrapping_mul(C2)
}

/// Folding one scrambled block into the running state.
pub open spec fn mix_block(h: u32, k: u32) -> u32 {
    rotl32(h ^ scramble(k), 13).wrapping_mul(5).wrapping_add(0xe654_6b64)
}

/// The little-endian 32-bit word stored at `d[i..i + 4]`.
pub open spec fn le_u32_at(d: Seq<u8>, i: int) -> u32 {
    (d[i] as u32) | ((d[i + 1] as u32) << 8u32) | ((d[i + 2] as u32) << 16u32) | ((d[i + 3] as u32)
        << 24u32)
}

/// The state after the first `n` full 4-byte blocks of `d`.
pub open spec fn blocks_hash(d: Seq<u8>, n: nat) -> u32
    decreases n,
{
    if n == 0 {
        SEED
    } else {
        mix_block(blocks_hash(d, (n - 1) as nat), le_u32_at(d, 4 * (n - 1)))
    }
}

/// The 1 to 3 trailing bytes of `d` starting at `start`, as a little-endian word.
pub open spec fn tail_word(d: Seq<u8>, start: int, rem: int) -> u32 {
    if rem == 3 {
        ((d[start + 2] as u32) << 16u32) | ((d[start + 1] as u32) << 8u32) | (d[start] as u32)
    } else if rem == 2 {
        ((d[start + 1] as u32) << 8u32) | (d[start] as u32)
    } else if rem == 1 {
        d[start] as u32
    } else {
        0
    }
}

/// The final avalanche.
pub open spec fn fmix(h: u32) -> u32 {
    let h1 = h ^ (h >> 16u32);
    let h2 = h1.wrapping_mul(0x85eb_ca6b);
    let h3 = h2 ^ (h2 >> 13u32);
    let h4 = h3.wrapping_mul(0xc2b2_ae35);
    h4 ^ (h4 >> 16u32)
}

/// MurmurHash3 x86_32 of `d` with seed `0xffffffff`; the length enters the
/// hash modulo 2^32, as in the reference algorithm.
pub open spec fn murmur3(d: Seq<u8>) -> u32 {
    let nb = d.len() / 4;
    let rem = d.len() % 4;
    let h = blocks_hash(d, nb);
    let h_tail = if rem > 0 {
        h ^ scramble(tail_word(d, (4 * nb) as int, rem as int))
    } else {
        h
    };
    fmix(h_tail ^ (d.len() as u32))
}

fn rotl(x: u32, r: u32) -> (y: u32)
    requires
        0 < r < 32,
    ensures
        y == rotl32(x, r),
{
    (x << r) | (x >> (32 - r))
}

fn scramble_exec(k: u32) -> (y: u32)
    ensures
        y == scramble(k),
{
    rotl(k.wrapping_mul(C1), 15).wrapping_mul(C2)
}

/// MurmurHash3 x86_32 of `data` with seed `0xffffffff`.
pub fn murm3(data: &[u8]) -> (h: u32)
    ensures
        h == murmur3(data@),
{
    let n = data.len();
    let mut h: u32 = SEED;
    let mut i: usize = 0;
    while n - i >= 4
        invariant
            n == data@.len(),
            i <= n,
            i % 4 == 0,
            h == blocks_hash(data@, (i / 4) as nat),
        decreases n - i,
    {
        let k = (data[i] as u32) | ((data[i + 1] as u32) << 8u32) | ((data[i + 2] as u32) << 16u32)
            | ((data[i + 3] as u32) << 24u32);
        let k = scramble_exec(k);
        h = h ^ k;
        h = rotl(h, 13).wrapping_mul(5).wrapping_add(0xe654_6b64);
        proof {
            assert(((i + 4) / 4) as nat == ((i / 4) + 1) as nat);
        }
        i = i + 4;
    }
    let rem = n - i;
    assert(i == 4 * (n / 4) && rem == n % 4);
    let k: u32 = if rem == 3 {
        ((data[i + 2] as u32) << 16u32) | ((data[i + 1] as u32) << 8u32) | (data[i] as u32)
    } else if rem == 2 {
        ((data[i + 1] as u32) << 8u32) | (data[i] as u32)
    } else if rem == 1 {
        data[i] as u32
    } else {
        0
    };
    if rem > 0 {
        h = h ^ scramble_exec(k);
    }
    h = h ^ (n as u32);
    h = h ^ (h >> 16u32);
    h = h.wrapping_mul(0x85eb_ca6b);
    h = h ^ (h >> 13u32);
    h = h.wrapping_mul(0xc2b2_ae35);
    h = h ^ (h >> 16u32);
    h
}

/// The identifier the save format gives a class or field called `name`:
/// MurmurHash3 of its UTF-8 bytes.
pub fn name_hash(name: &str) -> (h: u32)
    ensures
        h == murmur3(name.spec_bytes()),
{
    murm3(name.as_bytes())
}

} // verus!
