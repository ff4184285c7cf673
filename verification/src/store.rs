//! Sequential data streams over in-memory bytes: an append-only output with
//! typed writes (fixed-width big-endian integers, variable-length integers,
//! length-prefixed strings), a seekable sequential input, a checksumming
//! input, and a random-access positioned input.
//!
//! Every encoding is defined once as a specification-level byte sequence and
//! the executable readers and writers are proved against it.

use vstd::prelude::*;
use vstd::string::*;

use crate::crc32::{crc32_state, crc32_update, crc32_value, CRC32_INIT};
use crate::errors::{CorruptionKind, IndexError};

verus! {

/// The four bytes of `v` in big-endian order.
pub open spec fn be_i32_bytes(v: i32) -> Seq<u8> {
    let u = v as u32;
    seq![
        ((u >> 24) & 0xff) as u8,
        ((u >> 16) & 0xff) as u8,
        ((u >> 8) & 0xff) as u8,
        (u & 0xff) as u8,
    ]
}

/// The two bytes of `v` in big-endian order.
pub open spec fn be_i16_bytes(v: i16) -> Seq<u8> {
    let u = v as u16;
    seq![((u >> 8) & 0xff) as u8, (u & 0xff) as u8]
}

/// The eight bytes of `v` in big-endian order.
pub open spec fn be_i64_bytes(v: i64) -> Seq<u8> {
    let u = v as u64;
    seq![
        ((u >> 56) & 0xff) as u8,
        ((u >> 48) & 0xff) as u8,
        ((u >> 40) & 0xff) as u8,
        ((u >> 32) & 0xff) as u8,
        ((u >> 24) & 0xff) as u8,
        ((u >> 16) & 0xff) as u8,
        ((u >> 8) & 0xff) as u8,
        (u & 0xff) as u8,
    ]
}

/// The value whose big-endian bytes are the first four elements of `b`.
pub open spec fn be_i32_val(b: Seq<u8>) -> i32
    recommends
        b.len() == 4,
{
    (((b[0] as u32) << 24) | ((b[1] as u32) << 16) | ((b[2] as u32) << 8) | (b[3] as u32)) as i32
}

/// The value whose big-endian bytes are the first eight elements of `b`.
pub open spec fn be_i64_val(b: Seq<u8>) -> i64
    recommends
        b.len() == 8,
{
    (((b[0] as u64) << 56) | ((b[1] as u64) << 48) | ((b[2] as u64) << 40) | ((b[3] as u64) << 32)
        | ((b[4] as u64) << 24) | ((b[5] as u64) << 16) | ((b[6] as u64) << 8) | (b[7] as u64)) as i64
}

/// Decoding inverts the 32-bit encoding.
pub proof fn lemma_be_i32_val_of_bytes(v: i32)
    ensures
        be_i32_val(be_i32_bytes(v)) == v,
{
    assert((((((((v as u32) >> 24) & 0xff) as u8) as u32) << 24) | ((((((v as u32) >> 16)
        & 0xff) as u8) as u32) << 16) | ((((((v as u32) >> 8) & 0xff) as u8) as u32) << 8) | ((((
    v as u32) & 0xff) as u8) as u32)) as i32 == v) by (bit_vector);
}

/// Decoding inverts the 64-bit encoding.
pub proof fn lemma_be_i64_val_of_bytes(v: i64)
    ensures
        be_i64_val(be_i64_bytes(v)) == v,
{
    assert((((((((v as u64) >> 56) & 0xff) as u8) as u64) << 56) | ((((((v as u64) >> 48)
        & 0xff) as u8) as u64) << 48) | ((((((v as u64) >> 40) & 0xff) as u8) as u64) << 40) | ((((
    ((v as u64) >> 32) & 0xff) as u8) as u64) << 32) | ((((((v as u64) >> 24) & 0xff) as u8) as u64)
        << 24) | ((((((v as u64) >> 16) & 0xff) as u8) as u64) << 16) | ((((((v as u64) >> 8)
        & 0xff) as u8) as u64) << 8) | ((((v as u64) & 0xff) as u8) as u64)) as i64 == v)
        by (bit_vector);
}

/// The variable-length encoding of `n`: seven bits per byte, low bits first,
/// the high bit of a byte marking that another byte follows.
pub open spec fn vint_bytes(n: u32) -> Seq<u8>
    decreases n,
{
    if n < 128 {
        seq![n as u8]
    } else {
        seq![((n % 128) + 128) as u8] + vint_bytes(n / 128)
    }
}

/// Reads one variable-length integer from the front of `s`: the value (which
/// may exceed the 32-bit range for long inputs) and the number of bytes
/// consumed, or `None` when `s` ends before a final byte.
pub open spec fn vint_parse(s: Seq<u8>) -> Option<(int, int)>
    decreases s.len(),
{
    if s.len() == 0 {
        None
    } else if s[0] < 128 {
        Some((s[0] as int, 1int))
    } else {
        match vint_parse(s.drop_first()) {
            None => None,
            Some(p) => Some(((s[0] - 128) + 128 * p.0, p.1 + 1)),
        }
    }
}

/// Decoding inverts encoding, whatever follows the encoded bytes.
pub proof fn lemma_vint_round_trip(n: u32, rest: Seq<u8>)
    ensures
        vint_parse(vint_bytes(n) + rest) == Some((n as int, vint_bytes(n).len() as int)),
    decreases n,
{
    let s = vint_bytes(n) + rest;
    if n < 128 {
        assert(s[0] == n as u8);
    } else {
        assert(s[0] == ((n % 128) + 128) as u8);
        assert(s.drop_first() =~= vint_bytes(n / 128) + rest);
        lemma_vint_round_trip(n / 128, rest);
        assert((s[0] - 128) + 128 * ((n / 128) as int) == n as int) by {
            assert(s[0] - 128 == n % 128);
            vstd::arithmetic::div_mod::lemma_fundamental_div_mod(n as int, 128);
        }
    }
}

/// A big-endian 32-bit value decomposes back into the bytes it was built of.
pub proof fn lemma_be_i32_compose(b0: u8, b1: u8, b2: u8, b3: u8)
    ensures
        ({
            let u = ((b0 as u32) << 24) | ((b1 as u32) << 16) | ((b2 as u32) << 8) | (b3 as u32);
            &&& ((u >> 24) & 0xff) == b0 as u32
            &&& ((u >> 16) & 0xff) == b1 as u32
            &&& ((u >> 8) & 0xff) == b2 as u32
            &&& (u & 0xff) == b3 as u32
        }),
{
    assert(((((b0 as u32) << 24) | ((b1 as u32) << 16) | ((b2 as u32) << 8) | (b3 as u32)) >> 24)
        & 0xff == b0 as u32) by (bit_vector);
    assert(((((b0 as u32) << 24) | ((b1 as u32) << 16) | ((b2 as u32) << 8) | (b3 as u32)) >> 16)
        & 0xff == b1 as u32) by (bit_vector);
    assert(((((b0 as u32) << 24) | ((b1 as u32) << 16) | ((b2 as u32) << 8) | (b3 as u32)) >> 8)
        & 0xff == b2 as u32) by (bit_vector);
    assert((((b0 as u32) << 24) | ((b1 as u32) << 16) | ((b2 as u32) << 8) | (b3 as u32)) & 0xff
        == b3 as u32) by (bit_vector);
}

/// Two values with the same big-endian bytes are the same value.
pub proof fn lemma_be_i32_injective(v1: i32, v2: i32)
    requires
        be_i32_bytes(v1) == be_i32_bytes(v2),
    ensures
        v1 == v2,
{
    let u1 = v1 as u32;
    let u2 = v2 as u32;
    assert(be_i32_bytes(v1)[0] == be_i32_bytes(v2)[0]);
    assert(be_i32_bytes(v1)[1] == be_i32_bytes(v2)[1]);
    assert(be_i32_bytes(v1)[2] == be_i32_bytes(v2)[2]);
    assert(be_i32_bytes(v1)[3] == be_i32_bytes(v2)[3]);
    assert((((u1 >> 24) & 0xff) as u8 == ((u2 >> 24) & 0xff) as u8 && ((u1 >> 16) & 0xff) as u8 == (
    (u2 >> 16) & 0xff) as u8 && ((u1 >> 8) & 0xff) as u8 == ((u2 >> 8) & 0xff) as u8 && (u1
        & 0xff) as u8 == (u2 & 0xff) as u8) ==> u1 == u2) by (bit_vector);
    assert(v1 as u32 == u1 && v2 as u32 == u2 && u1 == u2 ==> v1 == v2) by (bit_vector);
}

/// A big-endian 64-bit value decomposes back into the bytes it was built of.
pub proof fn lemma_be_i64_compose(b: Seq<u8>)
    requires
        b.len() == 8,
    ensures
        ({
            let u = ((b[0] as u64) << 56) | ((b[1] as u64) << 48) | ((b[2] as u64) << 40) | ((
            b[3] as u64) << 32) | ((b[4] as u64) << 24) | ((b[5] as u64) << 16) | ((b[6] as u64)
                << 8) | (b[7] as u64);
            &&& ((u >> 56) & 0xff) == b[0] as u64
            &&& ((u >> 48) & 0xff) == b[1] as u64
            &&& ((u >> 40) & 0xff) == b[2] as u64
            &&& ((u >> 32) & 0xff) == b[3] as u64
            &&& ((u >> 24) & 0xff) == b[4] as u64
            &&& ((u >> 16) & 0xff) == b[5] as u64
            &&& ((u >> 8) & 0xff) == b[6] as u64
            &&& (u & 0xff) == b[7] as u64
        }),
{
    let b0 = b[0];
    let b1 = b[1];
    let b2 = b[2];
    let b3 = b[3];
    let b4 = b[4];
    let b5 = b[5];
    let b6 = b[6];
    let b7 = b[7];
    assert({
        let u = ((b0 as u64) << 56) | ((b1 as u64) << 48) | ((b2 as u64) << 40) | ((b3 as u64)
            << 32) | ((b4 as u64) << 24) | ((b5 as u64) << 16) | ((b6 as u64) << 8) | (b7 as u64);
        &&& ((u >> 56) & 0xff) == b0 as u64
        &&& ((u >> 48) & 0xff) == b1 as u64
        &&& ((u >> 40) & 0xff) == b2 as u64
        &&& ((u >> 32) & 0xff) == b3 as u64
        &&& ((u >> 24) & 0xff) == b4 as u64
        &&& ((u >> 16) & 0xff) == b5 as u64
        &&& ((u >> 8) & 0xff) == b6 as u64
        &&& (u & 0xff) == b7 as u64
    }) by (bit_vector);
}

/// Sequential typed reads over a byte source. `data` is the whole underlying
/// content and `pos` the read position; reads advance `pos` and never change
/// `data`.
pub trait DataInput: Sized {
    /// The whole underlying byte content.
    spec fn data(&self) -> Seq<u8>;

    /// The current read position.
    spec fn pos(&self) -> int;

    /// Well-formedness of the reader state.
    spec fn inv(&self) -> bool;

    /// A well-formed reader's position lies inside its data, and the data
    /// fits the 64-bit sizes the interface reports.
    proof fn inv_bounds(&self)
        requires
            self.inv(),
        ensures
            0 <= self.pos() <= self.data().len(),
            self.data().len() < 0x8000_0000_0000_0000,
    ;

    /// Reads the next byte.
    fn read_byte(&mut self) -> (r: Result<u8, IndexError>)
        requires
            old(self).inv(),
        ensures
            final(self).inv(),
            final(self).data() == old(self).data(),
            old(self).pos() < old(self).data().len() ==> r == Ok::<u8, IndexError>(
                old(self).data()[old(self).pos()],
            ) && final(self).pos() == old(self).pos() + 1,
            old(self).pos() >= old(self).data().len() ==> r == Err::<u8, IndexError>(
                IndexError::CorruptIndex(CorruptionKind::UnexpectedEof),
            ) && final(self).pos() == old(self).pos(),
    ;

    /// The current position, as the interface reports it.
    fn file_pointer(&self) -> (r: i64)
        requires
            self.inv(),
        ensures
            r == self.pos(),
    ;

    /// The total length of the underlying content.
    fn len(&self) -> (r: u64)
        requires
            self.inv(),
        ensures
            r == self.data().len(),
    ;
}

/// Reads the next `len` bytes.
pub fn read_bytes<T: DataInput>(input: &mut T, len: usize) -> (r: Result<Vec<u8>, IndexError>)
    requires
        old(input).inv(),
    ensures
        final(input).inv(),
        final(input).data() == old(input).data(),
        old(input).pos() + len <= old(input).data().len() ==> ({
            &&& r matches Ok(v) && v@ == old(input).data().subrange(
                old(input).pos(),
                old(input).pos() + len,
            )
            &&& final(input).pos() == old(input).pos() + len
        }),
        old(input).pos() + len > old(input).data().len() ==> ({
            &&& r == Err::<Vec<u8>, IndexError>(
                IndexError::CorruptIndex(CorruptionKind::UnexpectedEof),
            )
            &&& final(input).pos() == old(input).pos()
        }),
{
    proof {
        old(input).inv_bounds();
    }
    let ghost p = old(input).pos();
    let ghost d = old(input).data();
    if (len as u64) > input.len() - (input.file_pointer() as u64) {
        return Err(IndexError::CorruptIndex(CorruptionKind::UnexpectedEof));
    }
    let mut v: Vec<u8> = Vec::new();
    let mut i: usize = 0;
    proof {
        assert(p + len <= d.len());
        assert(v@ =~= d.subrange(p, p + 0));
    }
    while i < len
        invariant
            input.inv(),
            input.data() == d,
            input.pos() == p + i,
            0 <= i <= len,
            0 <= p,
            p + len <= d.len(),
            v@ == d.subrange(p, p + i),
        decreases len - i,
    {
        let b = match input.read_byte() {
            Ok(b) => b,
            Err(e) => {
                return Err(e);
            },
        };
        proof {
            assert(b == d[p + i]);
        }
        v.push(b);
        proof {
            assert(v@ == d.subrange(p, p + i).push(d[p + i]));
            assert(v@ =~= d.subrange(p, p + i + 1));
        }
        i = i + 1;
    }
    Ok(v)
}

/// Reads a big-endian 32-bit integer.
pub fn read_int<T: DataInput>(input: &mut T) -> (r: Result<i32, IndexError>)
    requires
        old(input).inv(),
    ensures
        final(input).inv(),
        final(input).data() == old(input).data(),
        old(input).pos() + 4 <= old(input).data().len() ==> ({
            &&& r matches Ok(v) && be_i32_bytes(v) == old(input).data().subrange(
                old(input).pos(),
                old(input).pos() + 4,
            ) && v == be_i32_val(
                old(input).data().subrange(old(input).pos(), old(input).pos() + 4),
            )
            &&& final(input).pos() == old(input).pos() + 4
        }),
        old(input).pos() + 4 > old(input).data().len() ==> ({
            &&& r == Err::<i32, IndexError>(IndexError::CorruptIndex(CorruptionKind::UnexpectedEof))
            &&& final(input).pos() == old(input).pos()
        }),
{
    proof {
        old(input).inv_bounds();
    }
    let ghost p = old(input).pos();
    let ghost d = old(input).data();
    if 4u64 > input.len() - (input.file_pointer() as u64) {
        return Err(IndexError::CorruptIndex(CorruptionKind::UnexpectedEof));
    }
    let b0 = match input.read_byte() {
        Ok(b) => b,
        Err(e) => {
            return Err(e);
        },
    };
    let b1 = match input.read_byte() {
        Ok(b) => b,
        Err(e) => {
            return Err(e);
        },
    };
    let b2 = match input.read_byte() {
        Ok(b) => b,
        Err(e) => {
            return Err(e);
        },
    };
    let b3 = match input.read_byte() {
        Ok(b) => b,
        Err(e) => {
            return Err(e);
        },
    };
    let u: u32 = ((b0 as u32) << 24) | ((b1 as u32) << 16) | ((b2 as u32) << 8) | (b3 as u32);
    let v: i32 = u as i32;
    proof {
        lemma_be_i32_compose(b0, b1, b2, b3);
        assert((u as i32) as u32 == u) by (bit_vector);
        assert(((b0 as u32) & 0xff) as u8 == b0) by (bit_vector);
        assert(((b1 as u32) & 0xff) as u8 == b1) by (bit_vector);
        assert(((b2 as u32) & 0xff) as u8 == b2) by (bit_vector);
        assert(((b3 as u32) & 0xff) as u8 == b3) by (bit_vector);
        assert(((u >> 24) & 0xff) < 256 && ((u >> 16) & 0xff) < 256 && ((u >> 8) & 0xff) < 256 && (u
            & 0xff) < 256) by (bit_vector);
        assert(be_i32_bytes(v) =~= d.subrange(p, p + 4));
        assert(d.subrange(p, p + 4)[0] == b0 && d.subrange(p, p + 4)[1] == b1 && d.subrange(
            p,
            p + 4,
        )[2] == b2 && d.subrange(p, p + 4)[3] == b3);
        assert(be_i32_val(d.subrange(p, p + 4)) == v);
    }
    Ok(v)
}

/// Reads a big-endian 64-bit integer.
pub fn read_long<T: DataInput>(input: &mut T) -> (r: Result<i64, IndexError>)
    requires
        old(input).inv(),
    ensures
        final(input).inv(),
        final(input).data() == old(input).data(),
        old(input).pos() + 8 <= old(input).data().len() ==> ({
            &&& r matches Ok(v) && be_i64_bytes(v) == old(input).data().subrange(
                old(input).pos(),
                old(input).pos() + 8,
            ) && v == be_i64_val(
                old(input).data().subrange(old(input).pos(), old(input).pos() + 8),
            )
            &&& final(input).pos() == old(input).pos() + 8
        }),
        old(input).pos() + 8 > old(input).data().len() ==> ({
            &&& r == Err::<i64, IndexError>(IndexError::CorruptIndex(CorruptionKind::UnexpectedEof))
            &&& final(input).pos() == old(input).pos()
        }),
{
    proof {
        old(input).inv_bounds();
    }
    let ghost p = old(input).pos();
    let ghost d = old(input).data();
    let bytes = match read_bytes(input, 8) {
        Ok(v) => v,
        Err(e) => {
            return Err(e);
        },
    };
    let u: u64 = ((bytes[0] as u64) << 56) | ((bytes[1] as u64) << 48) | ((bytes[2] as u64) << 40)
        | ((bytes[3] as u64) << 32) | ((bytes[4] as u64) << 24) | ((bytes[5] as u64) << 16) | ((
    bytes[6] as u64) << 8) | (bytes[7] as u64);
    let v: i64 = u as i64;
    proof {
        lemma_be_i64_compose(bytes@);
        assert((u as i64) as u64 == u) by (bit_vector);
        let c0 = bytes@[0];
        let c1 = bytes@[1];
        let c2 = bytes@[2];
        let c3 = bytes@[3];
        let c4 = bytes@[4];
        let c5 = bytes@[5];
        let c6 = bytes@[6];
        let c7 = bytes@[7];
        assert(((c0 as u64) & 0xff) as u8 == c0 && ((c1 as u64) & 0xff) as u8 == c1 && ((
        c2 as u64) & 0xff) as u8 == c2 && ((c3 as u64) & 0xff) as u8 == c3 && ((c4 as u64)
            & 0xff) as u8 == c4 && ((c5 as u64) & 0xff) as u8 == c5 && ((c6 as u64) & 0xff) as u8
            == c6 && ((c7 as u64) & 0xff) as u8 == c7) by (bit_vector);
        assert(be_i64_bytes(v) =~= d.subrange(p, p + 8));
        assert(d.subrange(p, p + 8) == bytes@);
        assert(be_i64_val(d.subrange(p, p + 8)) == v);
    }
    Ok(v)
}

/// Reads a variable-length non-negative integer of at most 32 bits.
pub fn read_vint<T: DataInput>(input: &mut T) -> (r: Result<u32, IndexError>)
    requires
        old(input).inv(),
    ensures
        final(input).inv(),
        final(input).data() == old(input).data(),
        match r {
            Ok(n) => vint_parse(old(input).data().skip(old(input).pos())) == Some(
                (n as int, final(input).pos() - old(input).pos()),
            ),
            Err(e) => match vint_parse(old(input).data().skip(old(input).pos())) {
                None => e == IndexError::CorruptIndex(CorruptionKind::UnexpectedEof),
                Some(p) => p.0 >= 0x1_0000_0000 && e == IndexError::CorruptIndex(
                    CorruptionKind::MalformedVInt,
                ),
            },
        },
    decreases old(input).data().len() - old(input).pos(),
{
    proof {
        old(input).inv_bounds();
    }
    let ghost p = old(input).pos();
    let ghost d = old(input).data();
    let ghost s = d.skip(p);
    let b = match input.read_byte() {
        Ok(b) => b,
        Err(e) => {
            proof {
                assert(s.len() == 0);
            }
            return Err(e);
        },
    };
    proof {
        assert(s[0] == d[p]);
    }
    if b < 128 {
        return Ok(b as u32);
    }
    proof {
        assert(s.drop_first() =~= d.skip(p + 1));
    }
    let rest = match read_vint(input) {
        Ok(n) => n,
        Err(e) => {
            return Err(e);
        },
    };
    let x: u32 = (b - 128) as u32;
    if rest <= (0xFFFF_FFFFu32 - x) / 128 {
        proof {
            vstd::arithmetic::div_mod::lemma_fundamental_div_mod((0xFFFF_FFFFu32 - x) as int, 128);
        }
        let n: u32 = x + 128 * rest;
        proof {
            assert(vint_parse(s) == Some((n as int, final(input).pos() - p)));
        }
        Ok(n)
    } else {
        proof {
            vstd::arithmetic::div_mod::lemma_fundamental_div_mod((0xFFFF_FFFFu32 - x) as int, 128);
            assert((rest as int) * 128 == 128 * (rest as int));
            assert(rest as int >= ((0xFFFF_FFFFu32 - x) as int) / 128 + 1);
            assert(128 * (rest as int) >= 128 * (((0xFFFF_FFFFu32 - x) as int) / 128 + 1))
                by (nonlinear_arith)
                requires
                    rest as int >= ((0xFFFF_FFFFu32 - x) as int) / 128 + 1,
            ;
            assert((x as int) + 128 * (rest as int) >= 0x1_0000_0000);
        }
        Err(IndexError::CorruptIndex(CorruptionKind::MalformedVInt))
    }
}

/// An append-only byte buffer with typed writes: the in-memory form of a
/// segment file being written.
pub struct RamOutput {
    bytes: Vec<u8>,
}

impl View for RamOutput {
    type V = Seq<u8>;

    closed spec fn view(&self) -> Seq<u8> {
        self.bytes@
    }
}

impl RamOutput {
    /// An empty output.
    pub fn new() -> (r: RamOutput)
        ensures
            r@ == Seq::<u8>::empty(),
    {
        RamOutput { bytes: Vec::new() }
    }

    /// The number of bytes written so far.
    pub fn len(&self) -> (r: usize)
        ensures
            r == self@.len(),
    {
        self.bytes.len()
    }

    /// Gives up the buffer: the written bytes.
    pub fn into_bytes(self) -> (r: Vec<u8>)
        ensures
            r@ == self@,
    {
        self.bytes
    }

    /// A borrowed look at the written bytes.
    pub fn as_bytes(&self) -> (r: &Vec<u8>)
        ensures
            r@ == self@,
    {
        &self.bytes
    }

    /// Appends one byte.
    pub fn write_byte(&mut self, b: u8)
        ensures
            final(self)@ == old(self)@.push(b),
    {
        self.bytes.push(b);
    }

    /// Appends `length` bytes of `b` starting at `offset`.
    pub fn write_bytes(&mut self, b: &[u8], offset: usize, length: usize)
        requires
            offset + length <= b@.len(),
        ensures
            final(self)@ == old(self)@ + b@.subrange(offset as int, offset + length),
    {
        let blen: usize = b.len();
        let mut i: usize = 0;
        while i < length
            invariant
                0 <= i <= length,
                offset + length <= b@.len(),
                b@.len() == blen,
                self@ == old(self)@ + b@.subrange(offset as int, offset + i),
            decreases length - i,
        {
            self.bytes.push(b[offset + i]);
            proof {
                assert(self@ =~= old(self)@ + b@.subrange(offset as int, offset + i + 1));
            }
            i = i + 1;
        }
        proof {
            assert(self@ =~= old(self)@ + b@.subrange(offset as int, offset + length));
        }
    }

    /// Appends a big-endian 32-bit integer.
    pub fn write_int(&mut self, v: i32)
        ensures
            final(self)@ == old(self)@ + be_i32_bytes(v),
    {
        let u = v as u32;
        self.bytes.push(((u >> 24) & 0xff) as u8);
        self.bytes.push(((u >> 16) & 0xff) as u8);
        self.bytes.push(((u >> 8) & 0xff) as u8);
        self.bytes.push((u & 0xff) as u8);
        proof {
            assert(self@ =~= old(self)@ + be_i32_bytes(v));
        }
    }

    /// Appends a big-endian 64-bit integer.
    pub fn write_long(&mut self, v: i64)
        ensures
            final(self)@ == old(self)@ + be_i64_bytes(v),
    {
        let u = v as u64;
        self.bytes.push(((u >> 56) & 0xff) as u8);
        self.bytes.push(((u >> 48) & 0xff) as u8);
        self.bytes.push(((u >> 40) & 0xff) as u8);
        self.bytes.push(((u >> 32) & 0xff) as u8);
        self.bytes.push(((u >> 24) & 0xff) as u8);
        self.bytes.push(((u >> 16) & 0xff) as u8);
        self.bytes.push(((u >> 8) & 0xff) as u8);
        self.bytes.push((u & 0xff) as u8);
        proof {
            assert(self@ =~= old(self)@ + be_i64_bytes(v));
        }
    }

    /// Appends a variable-length integer.
    pub fn write_vint(&mut self, n: u32)
        ensures
            final(self)@ == old(self)@ + vint_bytes(n),
    {
        let mut v: u32 = n;
        while v >= 128
            invariant
                self@ + vint_bytes(v) == old(self)@ + vint_bytes(n),
            decreases v,
        {
            self.bytes.push((v % 128 + 128) as u8);
            proof {
                assert(self@ + vint_bytes(v / 128) =~= old(self)@ + vint_bytes(n));
            }
            v = v / 128;
        }
        self.bytes.push(v as u8);
        proof {
            assert(vint_bytes(v) =~= seq![v as u8]);
            assert(self@ =~= old(self)@ + vint_bytes(n));
        }
    }

    /// Appends a string as a variable-length byte count followed by its
    /// UTF-8 bytes.
    pub fn write_string(&mut self, s: &str)
        requires
            s.spec_bytes().len() < 0x1_0000_0000,
        ensures
            final(self)@ == old(self)@ + vint_bytes(s.spec_bytes().len() as u32) + s.spec_bytes(),
    {
        let bytes = s.as_bytes();
        self.write_vint(bytes.len() as u32);
        self.write_bytes(bytes, 0, bytes.len());
        proof {
            assert(bytes@.subrange(0, bytes@.len() as int) =~= s.spec_bytes());
        }
    }
}

/// A seekable sequential reader over owned bytes: the in-memory form of an
/// opened segment file.
pub struct RamInput {
    bytes: Vec<u8>,
    position: usize,
}

impl RamInput {
    /// A reader positioned at the start of `bytes`.
    pub fn new(bytes: Vec<u8>) -> (r: RamInput)
        requires
            bytes@.len() < 0x8000_0000_0000_0000,
        ensures
            r.inv(),
            r.data() == bytes@,
            r.pos() == 0,
    {
        RamInput { bytes, position: 0 }
    }

    /// Moves the read position to `target`, which must lie inside the data.
    pub fn seek(&mut self, target: i64) -> (r: Result<(), IndexError>)
        requires
            old(self).inv(),
        ensures
            final(self).inv(),
            final(self).data() == old(self).data(),
            0 <= target <= old(self).data().len() ==> r == Ok::<(), IndexError>(())
                && final(self).pos() == target,
            !(0 <= target <= old(self).data().len()) ==> r == Err::<(), IndexError>(
                IndexError::CorruptIndex(CorruptionKind::UnexpectedEof),
            ) && final(self).pos() == old(self).pos(),
    {
        if target < 0 || (target as u64) > self.bytes.len() as u64 {
            return Err(IndexError::CorruptIndex(CorruptionKind::UnexpectedEof));
        }
        self.position = target as usize;
        Ok(())
    }

    /// Gives up the reader: the underlying bytes.
    pub fn into_bytes(self) -> (r: Vec<u8>)
        ensures
            r@ == self.data(),
    {
        self.bytes
    }

    /// A fresh reader over the same bytes, positioned at the start.
    pub fn clone_input(&self) -> (r: RamInput)
        requires
            self.inv(),
        ensures
            r.inv(),
            r.data() == self.data(),
            r.pos() == 0,
    {
        let n = self.bytes.len();
        let mut copy: Vec<u8> = Vec::new();
        let mut i: usize = 0;
        while i < n
            invariant
                0 <= i <= n,
                n == self.bytes@.len(),
                copy@ == self.bytes@.take(i as int),
            decreases n - i,
        {
            copy.push(self.bytes[i]);
            proof {
                assert(copy@ =~= self.bytes@.take(i + 1));
            }
            i = i + 1;
        }
        proof {
            assert(copy@ =~= self.bytes@);
        }
        RamInput { bytes: copy, position: 0 }
    }
}

impl DataInput for RamInput {
    closed spec fn data(&self) -> Seq<u8> {
        self.bytes@
    }

    closed spec fn pos(&self) -> int {
        self.position as int
    }

    closed spec fn inv(&self) -> bool {
        self.position <= self.bytes@.len() && self.bytes@.len() < 0x8000_0000_0000_0000
    }

    proof fn inv_bounds(&self) {
    }

    fn read_byte(&mut self) -> (r: Result<u8, IndexError>) {
        if self.position >= self.bytes.len() {
            return Err(IndexError::CorruptIndex(CorruptionKind::UnexpectedEof));
        }
        let b = self.bytes[self.position];
        self.position = self.position + 1;
        Ok(b)
    }

    fn file_pointer(&self) -> (r: i64) {
        self.position as i64
    }

    fn len(&self) -> (r: u64) {
        self.bytes.len() as u64
    }
}

/// A sequential reader that keeps a running CRC-32 of every byte read so far.
pub struct ChecksumIndexInput {
    bytes: Vec<u8>,
    position: usize,
    state: u32,
}

impl ChecksumIndexInput {
    /// Wraps a reader positioned at the start; the checksum then covers
    /// exactly the bytes read through this wrapper.
    pub fn new(input: RamInput) -> (r: ChecksumIndexInput)
        requires
            input.inv(),
            input.pos() == 0,
        ensures
            r.inv(),
            r.data() == input.data(),
            r.pos() == 0,
    {
        ChecksumIndexInput { bytes: input.into_bytes(), position: 0, state: CRC32_INIT }
    }

    /// The CRC-32 of the bytes read so far.
    pub fn checksum(&self) -> (r: i64)
        requires
            self.inv(),
        ensures
            r == crc32_value(self.data().take(self.pos())),
            0 <= r < 0x1_0000_0000,
    {
        (self.state ^ CRC32_INIT) as i64
    }
}

impl DataInput for ChecksumIndexInput {
    closed spec fn data(&self) -> Seq<u8> {
        self.bytes@
    }

    closed spec fn pos(&self) -> int {
        self.position as int
    }

    closed spec fn inv(&self) -> bool {
        &&& self.position <= self.bytes@.len()
        &&& self.bytes@.len() < 0x8000_0000_0000_0000
        &&& self.state == crc32_state(self.bytes@.take(self.position as int))
    }

    proof fn inv_bounds(&self) {
    }

    fn read_byte(&mut self) -> (r: Result<u8, IndexError>) {
        if self.position >= self.bytes.len() {
            return Err(IndexError::CorruptIndex(CorruptionKind::UnexpectedEof));
        }
        let b = self.bytes[self.position];
        proof {
            assert(self.bytes@.take(self.position + 1).drop_last() =~= self.bytes@.take(
                self.position as int,
            ));
            assert(self.bytes@.take(self.position + 1).last() == b);
        }
        self.state = crc32_update(self.state, b);
        self.position = self.position + 1;
        Ok(b)
    }

    fn file_pointer(&self) -> (r: i64) {
        self.position as i64
    }

    fn len(&self) -> (r: u64) {
        self.bytes.len() as u64
    }
}

/// Random access typed reads at explicit positions, without a cursor.
pub trait RandomAccessInput: Sized {
    /// The whole underlying byte content.
    spec fn contents(&self) -> Seq<u8>;

    /// Reads the byte at `pos`.
    fn read_byte(&self, pos: i64) -> (r: Result<u8, IndexError>)
        ensures
            0 <= pos && pos + 1 <= self.contents().len() ==> r == Ok::<u8, IndexError>(
                self.contents()[pos as int],
            ),
            !(0 <= pos && pos + 1 <= self.contents().len()) ==> r == Err::<u8, IndexError>(
                IndexError::CorruptIndex(CorruptionKind::UnexpectedEof),
            ),
    ;

    /// Reads a big-endian 16-bit integer at `pos`.
    fn read_short(&self, pos: i64) -> (r: Result<i16, IndexError>)
        ensures
            0 <= pos && pos + 2 <= self.contents().len() ==> (r matches Ok(v) && be_i16_bytes(v)
                == self.contents().subrange(pos as int, pos + 2)),
            !(0 <= pos && pos + 2 <= self.contents().len()) ==> r == Err::<i16, IndexError>(
                IndexError::CorruptIndex(CorruptionKind::UnexpectedEof),
            ),
    ;

    /// Reads a big-endian 32-bit integer at `pos`.
    fn read_int(&self, pos: i64) -> (r: Result<i32, IndexError>)
        ensures
            0 <= pos && pos + 4 <= self.contents().len() ==> (r matches Ok(v) && be_i32_bytes(v)
                == self.contents().subrange(pos as int, pos + 4)),
            !(0 <= pos && pos + 4 <= self.contents().len()) ==> r == Err::<i32, IndexError>(
                IndexError::CorruptIndex(CorruptionKind::UnexpectedEof),
            ),
    ;

    /// Reads a big-endian 64-bit integer at `pos`.
    fn read_long(&self, pos: i64) -> (r: Result<i64, IndexError>)
        ensures
            0 <= pos && pos + 8 <= self.contents().len() ==> (r matches Ok(v) && be_i64_bytes(v)
                == self.contents().subrange(pos as int, pos + 8)),
            !(0 <= pos && pos + 8 <= self.contents().len()) ==> r == Err::<i64, IndexError>(
                IndexError::CorruptIndex(CorruptionKind::UnexpectedEof),
            ),
    ;
}

impl RandomAccessInput for RamInput {
    closed spec fn contents(&self) -> Seq<u8> {
        self.bytes@
    }

    fn read_byte(&self, pos: i64) -> (r: Result<u8, IndexError>) {
        if pos < 0 || (pos as u64) >= self.bytes.len() as u64 {
            return Err(IndexError::CorruptIndex(CorruptionKind::UnexpectedEof));
        }
        Ok(self.bytes[pos as usize])
    }

    fn read_short(&self, pos: i64) -> (r: Result<i16, IndexError>) {
        if pos < 0 || (self.bytes.len() as u64) < 2 || (pos as u64) > self.bytes.len() as u64 - 2 {
            return Err(IndexError::CorruptIndex(CorruptionKind::UnexpectedEof));
        }
        let b0 = self.bytes[pos as usize];
        let b1 = self.bytes[pos as usize + 1];
        let u: u16 = ((b0 as u16) << 8) | (b1 as u16);
        let v: i16 = u as i16;
        proof {
            assert({
                let u = ((b0 as u16) << 8) | (b1 as u16);
                ((u >> 8) & 0xff) == b0 as u16 && (u & 0xff) == b1 as u16
            }) by (bit_vector);
            assert((u as i16) as u16 == u) by (bit_vector);
            assert(((b0 as u16) & 0xff) as u8 == b0 && ((b1 as u16) & 0xff) as u8 == b1)
                by (bit_vector);
            assert(be_i16_bytes(v) =~= self.contents().subrange(pos as int, pos + 2));
        }
        Ok(v)
    }

    fn read_int(&self, pos: i64) -> (r: Result<i32, IndexError>) {
        if pos < 0 || (self.bytes.len() as u64) < 4 || (pos as u64) > self.bytes.len() as u64 - 4 {
            return Err(IndexError::CorruptIndex(CorruptionKind::UnexpectedEof));
        }
        let p = pos as usize;
        let b0 = self.bytes[p];
        let b1 = self.bytes[p + 1];
        let b2 = self.bytes[p + 2];
        let b3 = self.bytes[p + 3];
        let u: u32 = ((b0 as u32) << 24) | ((b1 as u32) << 16) | ((b2 as u32) << 8) | (b3 as u32);
        let v: i32 = u as i32;
        proof {
            lemma_be_i32_compose(b0, b1, b2, b3);
            assert((u as i32) as u32 == u) by (bit_vector);
            assert(((b0 as u32) & 0xff) as u8 == b0 && ((b1 as u32) & 0xff) as u8 == b1 && ((
            b2 as u32) & 0xff) as u8 == b2 && ((b3 as u32) & 0xff) as u8 == b3) by (bit_vector);
            assert(be_i32_bytes(v) =~= self.contents().subrange(pos as int, pos + 4));
        }
        Ok(v)
    }

    fn read_long(&self, pos: i64) -> (r: Result<i64, IndexError>) {
        if pos < 0 || (self.bytes.len() as u64) < 8 || (pos as u64) > self.bytes.len() as u64 - 8 {
            return Err(IndexError::CorruptIndex(CorruptionKind::UnexpectedEof));
        }
        let p = pos as usize;
        let b0 = self.bytes[p];
        let b1 = self.bytes[p + 1];
        let b2 = self.bytes[p + 2];
        let b3 = self.bytes[p + 3];
        let b4 = self.bytes[p + 4];
        let b5 = self.bytes[p + 5];
        let b6 = self.bytes[p + 6];
        let b7 = self.bytes[p + 7];
        let u: u64 = ((b0 as u64) << 56) | ((b1 as u64) << 48) | ((b2 as u64) << 40) | ((b3 as u64)
            << 32) | ((b4 as u64) << 24) | ((b5 as u64) << 16) | ((b6 as u64) << 8) | (b7 as u64);
        let v: i64 = u as i64;
        proof {
            let ghost bs = self.contents().subrange(pos as int, pos + 8);
            assert(bs.len() == 8);
            assert(bs[0] == b0 && bs[1] == b1 && bs[2] == b2 && bs[3] == b3 && bs[4] == b4 && bs[5]
                == b5 && bs[6] == b6 && bs[7] == b7);
            lemma_be_i64_compose(bs);
            assert((u as i64) as u64 == u) by (bit_vector);
            assert(((b0 as u64) & 0xff) as u8 == b0 && ((b1 as u64) & 0xff) as u8 == b1 && ((
            b2 as u64) & 0xff) as u8 == b2 && ((b3 as u64) & 0xff) as u8 == b3 && ((b4 as u64)
                & 0xff) as u8 == b4 && ((b5 as u64) & 0xff) as u8 == b5 && ((b6 as u64)
                & 0xff) as u8 == b6 && ((b7 as u64) & 0xff) as u8 == b7) by (bit_vector);
            assert(be_i64_bytes(v) =~= bs);
        }
        Ok(v)
    }
}

} // verus!

verus! {

/// The files of `s` whose name is not `name`, in order.
pub open spec fn files_without(s: Seq<(Seq<u8>, Seq<u8>)>, name: Seq<u8>) -> Seq<(Seq<u8>, Seq<u8>)>
    decreases s.len(),
{
    if s.len() == 0 {
        Seq::empty()
    } else {
        let rest = files_without(s.drop_first(), name);
        if s[0].0 == name {
            rest
        } else {
            seq![s[0]] + rest
        }
    }
}

/// Every file that survives a removal was there before, so a name already
/// absent stays absent.
pub proof fn lemma_files_without_subset(s: Seq<(Seq<u8>, Seq<u8>)>, name: Seq<u8>)
    ensures
        forall|i: int|
            0 <= i < files_without(s, name).len() ==> exists|j: int|
                0 <= j < s.len() && s[j] == #[trigger] files_without(s, name)[i],
        forall|i: int|
            0 <= i < files_without(s, name).len() ==> (#[trigger] files_without(s, name)[i]).0
                != name,
    decreases s.len(),
{
    let v = files_without(s, name);
    if s.len() > 0 {
        lemma_files_without_subset(s.drop_first(), name);
        let rest = files_without(s.drop_first(), name);
        assert forall|i: int| 0 <= i < v.len() implies exists|j: int|
            0 <= j < s.len() && s[j] == #[trigger] v[i] by {
            if s[0].0 == name {
                let j0 = choose|j0: int|
                    0 <= j0 < s.drop_first().len() && s.drop_first()[j0] == rest[i];
                assert(s[j0 + 1] == v[i]);
            } else {
                if i == 0 {
                    assert(s[0] == v[0]);
                } else {
                    let j0 = choose|j0: int|
                        0 <= j0 < s.drop_first().len() && s.drop_first()[j0] == rest[i - 1];
                    assert(s[j0 + 1] == v[i]);
                }
            }
        }
    }
}

/// A directory of named files held in memory: the writers append whole
/// files, the readers open copies. Names are compared by their bytes.
pub struct RamDirectory {
    files: Vec<(String, Vec<u8>)>,
}

impl RamDirectory {
    /// The (name bytes, content) pairs of the files, in creation order.
    pub closed spec fn files_spec(&self) -> Seq<(Seq<u8>, Seq<u8>)> {
        self.files@.map_values(
            |f: (String, Vec<u8>)| (vstd::utf8::encode_utf8(f.0@), f.1@),
        )
    }

    /// An empty directory.
    pub fn new() -> (r: RamDirectory)
        ensures
            r.files_spec() == Seq::<(Seq<u8>, Seq<u8>)>::empty(),
    {
        let r = RamDirectory { files: Vec::new() };
        proof {
            assert(r.files_spec() =~= Seq::<(Seq<u8>, Seq<u8>)>::empty());
        }
        r
    }

    /// How many files the directory holds.
    pub fn file_count(&self) -> (r: usize)
        ensures
            r == self.files_spec().len(),
    {
        self.files.len()
    }

    /// Creates a file with the given content.
    pub fn write_file(&mut self, name: String, bytes: Vec<u8>)
        ensures
            final(self).files_spec() == old(self).files_spec().push(
                (vstd::utf8::encode_utf8(name@), bytes@),
            ),
    {
        self.files.push((name, bytes));
        proof {
            assert(final(self).files_spec() =~= old(self).files_spec().push(
                (vstd::utf8::encode_utf8(self.files@.last().0@), self.files@.last().1@),
            ));
        }
    }

    /// Opens a reader over the first file of that name, if any.
    pub fn open_input(&self, name: &str) -> (r: Option<RamInput>)
        requires
            forall|i: int|
                0 <= i < self.files_spec().len() ==> (#[trigger] self.files_spec()[i]).1.len()
                    < 0x8000_0000_0000_0000,
        ensures
            match r {
                Some(input) => {
                    &&& input.inv()
                    &&& input.pos() == 0
                    &&& exists|i: int|
                        0 <= i < self.files_spec().len() && (#[trigger] self.files_spec()[i]).0
                            == vstd::utf8::encode_utf8(name@) && input.data()
                            == self.files_spec()[i].1
                },
                None => forall|i: int|
                    0 <= i < self.files_spec().len() ==> (#[trigger] self.files_spec()[i]).0
                        != vstd::utf8::encode_utf8(name@),
            },
{
        let n = self.files.len();
        let mut i: usize = 0;
        while i < n
            invariant
                0 <= i <= n,
                n == self.files@.len(),
                forall|i: int|
                    0 <= i < self.files_spec().len() ==> (#[trigger] self.files_spec()[i]).1.len()
                        < 0x8000_0000_0000_0000,
                forall|k: int|
                    0 <= k < i ==> (#[trigger] self.files_spec()[k]).0 != vstd::utf8::encode_utf8(
                        name@,
                    ),
            decreases n - i,
        {
            proof {
                assert(self.files_spec()[i as int] == (
                    vstd::utf8::encode_utf8(self.files@[i as int].0@),
                    self.files@[i as int].1@,
                ));
            }
            if crate::delete_queue::str_eq(self.files[i].0.as_str(), name) {
                let bytes = crate::delete_queue::clone_bytes(&self.files[i].1);
                return Some(RamInput::new(bytes));
            }
            proof {
                vstd::utf8::encode_utf8_decode_utf8(self.files@[i as int].0@);
                vstd::utf8::encode_utf8_decode_utf8(name@);
            }
            i = i + 1;
        }
        None
    }

    /// The names of all files, in creation order.
    pub fn list_all(&self) -> (r: Vec<String>)
        ensures
            r@.len() == self.files_spec().len(),
            forall|i: int|
                0 <= i < r@.len() ==> vstd::utf8::encode_utf8(#[trigger] r@[i]@) == (
                self.files_spec()[i]).0,
    {
        let mut names: Vec<String> = Vec::new();
        let n = self.files.len();
        let mut i: usize = 0;
        while i < n
            invariant
                0 <= i <= n,
                n == self.files@.len(),
                names@.len() == i as int,
                forall|k: int|
                    0 <= k < i ==> vstd::utf8::encode_utf8(#[trigger] names@[k]@) == (
                    self.files_spec()[k]).0,
            decreases n - i,
        {
            proof {
                assert(self.files_spec()[i as int] == (
                    vstd::utf8::encode_utf8(self.files@[i as int].0@),
                    self.files@[i as int].1@,
                ));
            }
            names.push(self.files[i].0.clone());
            i = i + 1;
        }
        names
    }

    /// Removes every file of that name, keeping the rest in order.
    pub fn delete_file(&mut self, name: &str)
        ensures
            final(self).files_spec() == files_without(
                old(self).files_spec(),
                vstd::utf8::encode_utf8(name@),
            ),
            forall|i: int|
                0 <= i < final(self).files_spec().len() ==> (
                #[trigger] final(self).files_spec()[i]).0 != vstd::utf8::encode_utf8(name@),
    {
        let ghost olds = self.files_spec();
        let ghost target = vstd::utf8::encode_utf8(name@);
        let mut kept: Vec<(String, Vec<u8>)> = Vec::new();
        proof {
            assert(kept@.map_values(|f: (String, Vec<u8>)| (vstd::utf8::encode_utf8(f.0@), f.1@))
                + files_without(olds, target) =~= files_without(olds, target));
        }
        while self.files.len() > 0
            invariant
                target == vstd::utf8::encode_utf8(name@),
                kept@.map_values(|f: (String, Vec<u8>)| (vstd::utf8::encode_utf8(f.0@), f.1@))
                    + files_without(
                    self.files@.map_values(
                        |f: (String, Vec<u8>)| (vstd::utf8::encode_utf8(f.0@), f.1@),
                    ),
                    target,
                ) == files_without(olds, target),
            decreases self.files@.len(),
        {
            let ghost pre = self.files@.map_values(
                |f: (String, Vec<u8>)| (vstd::utf8::encode_utf8(f.0@), f.1@),
            );
            let entry = self.files.remove(0);
            proof {
                assert(self.files@.map_values(
                    |f: (String, Vec<u8>)| (vstd::utf8::encode_utf8(f.0@), f.1@),
                ) =~= pre.drop_first());
                assert(pre[0] == (vstd::utf8::encode_utf8(entry.0@), entry.1@));
            }
            let keep = !crate::delete_queue::str_eq(entry.0.as_str(), name);
            if keep {
                proof {
                    vstd::utf8::encode_utf8_decode_utf8(entry.0@);
                    vstd::utf8::encode_utf8_decode_utf8(name@);
                    assert(pre[0].0 != target);
                }
                let ghost kept_pre = kept@;
                kept.push(entry);
                proof {
                    assert(kept@.map_values(
                        |f: (String, Vec<u8>)| (vstd::utf8::encode_utf8(f.0@), f.1@),
                    ) =~= kept_pre.map_values(
                        |f: (String, Vec<u8>)| (vstd::utf8::encode_utf8(f.0@), f.1@),
                    ).push(pre[0]));
                    assert(kept@.map_values(
                        |f: (String, Vec<u8>)| (vstd::utf8::encode_utf8(f.0@), f.1@),
                    ) + files_without(pre.drop_first(), target) =~= files_without(olds, target));
                }
            } else {
                proof {
                    assert(entry.0@ == name@);
                    assert(pre[0].0 == target);
                }
            }
        }
        self.files = kept;
        proof {
            assert(self.files@.map_values(
                |f: (String, Vec<u8>)| (vstd::utf8::encode_utf8(f.0@), f.1@),
            ).len() == kept@.len());
            assert(files_without(
                Seq::<(Seq<u8>, Seq<u8>)>::empty(),
                target,
            ) =~= Seq::<(Seq<u8>, Seq<u8>)>::empty());
            assert(final(self).files_spec() =~= files_without(olds, target));
            lemma_files_without_subset(olds, target);
        }
    }
}

} // verus!
