//! CRC-32 (the IEEE 802.3 polynomial, reflected form) as used by the codec
//! footer to detect corruption of segment files.
//!
//! The specification-level functions define the checksum bit by bit; the
//! executable functions compute the same thing with loops and are proved to
//! match.

use vstd::prelude::*;

verus! {

/// The reflected IEEE 802.3 polynomial.
pub const CRC32_POLY: u32 = 0xEDB8_8320;

/// The running state both starts and is finalized with all bits set.
pub const CRC32_INIT: u32 = 0xFFFF_FFFF;

/// One shift round of the reflected CRC-32 computation.
pub open spec fn crc32_round(s: u32) -> u32 {
    if s & 1 == 1 {
        (s >> 1) ^ CRC32_POLY
    } else {
        s >> 1
    }
}

/// `n` shift rounds applied to `s`.
pub open spec fn crc32_rounds(s: u32, n: nat) -> u32
    decreases n,
{
    if n == 0 {
        s
    } else {
        crc32_rounds(crc32_round(s), (n - 1) as nat)
    }
}

/// Feeding one byte into the running state: xor it in, then eight rounds.
pub open spec fn crc32_feed(s: u32, b: u8) -> u32 {
    crc32_rounds(s ^ (b as u32), 8)
}

/// The running state after feeding every byte of `bytes`, in order,
/// starting from the all-ones initial state.
pub open spec fn crc32_state(bytes: Seq<u8>) -> u32
    decreases bytes.len(),
{
    if bytes.len() == 0 {
        CRC32_INIT
    } else {
        crc32_feed(crc32_state(bytes.drop_last()), bytes.last())
    }
}

/// The CRC-32 checksum of a byte sequence: the final state, complemented.
pub open spec fn crc32_of(bytes: Seq<u8>) -> u32 {
    crc32_state(bytes) ^ CRC32_INIT
}

/// The checksum widened to the 64-bit field the footer stores; its high
/// 32 bits are always zero.
pub open spec fn crc32_value(bytes: Seq<u8>) -> i64 {
    crc32_of(bytes) as i64
}

/// Feed one byte into a running CRC-32 state.
pub fn crc32_update(state: u32, b: u8) -> (r: u32)
    ensures
        r == crc32_feed(state, b),
{
    let start: u32 = state ^ (b as u32);
    let mut s: u32 = start;
    let mut i: usize = 0;
    while i < 8
        invariant
            0 <= i <= 8,
            crc32_rounds(s, (8 - i) as nat) == crc32_rounds(start, 8),
        decreases 8 - i,
    {
        proof {
            assert(crc32_rounds(s, (8 - i) as nat) == crc32_rounds(
                crc32_round(s),
                (8 - i - 1) as nat,
            ));
        }
        if s & 1 == 1 {
            s = (s >> 1) ^ CRC32_POLY;
        } else {
            s = s >> 1;
        }
        i = i + 1;
    }
    s
}

/// The CRC-32 of the first `upto` bytes of `bytes`.
pub fn crc32_prefix(bytes: &[u8], upto: usize) -> (r: u32)
    requires
        upto <= bytes@.len(),
    ensures
        r == crc32_of(bytes@.take(upto as int)),
{
    let mut state: u32 = CRC32_INIT;
    let mut i: usize = 0;
    while i < upto
        invariant
            0 <= i <= upto <= bytes@.len(),
            state == crc32_state(bytes@.take(i as int)),
        decreases upto - i,
    {
        proof {
            assert(bytes@.take(i + 1).drop_last() =~= bytes@.take(i as int));
            assert(bytes@.take(i + 1).last() == bytes@[i as int]);
        }
        state = crc32_update(state, bytes[i]);
        i = i + 1;
    }
    state ^ CRC32_INIT
}

} // verus!
