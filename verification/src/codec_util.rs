//! Codec framing: every segment file is bracketed by a magic-tagged header
//! and a sixteen-byte trailer holding a CRC-32 of everything before the
//! checksum field.
//!
//! The byte layouts are defined by specification functions
//! ([`header_bytes`], [`index_header_bytes`], [`footer_bytes_for`]) and the
//! verification functions are specified by parse functions over raw bytes
//! ([`spec_check_header`] and companions), so that writing and checking can
//! be related byte for byte.

use vstd::prelude::*;
use vstd::string::*;

use crate::crc32::{crc32_prefix, crc32_value};
use crate::errors::{ArgumentKind, CorruptionKind, IndexError};
use crate::store::{
    be_i32_bytes, be_i32_val, be_i64_bytes, be_i64_val, lemma_be_i32_injective,
    lemma_be_i32_val_of_bytes, lemma_be_i64_val_of_bytes, lemma_vint_round_trip, read_bytes,
    read_int, read_long, read_vint, vint_bytes, vint_parse, ChecksumIndexInput, DataInput,
    RamInput, RamOutput,
};

verus! {

/// The magic that opens every codec header.
pub const CODEC_MAGIC: i32 = 0x3FD7_6C17;

/// The magic that opens every codec footer: the header magic, complemented.
pub const FOOTER_MAGIC: i32 = !CODEC_MAGIC;

/// Segment identifiers are exactly this many bytes.
pub const ID_LENGTH: usize = 16;

/// The bytes of a plain header: magic, length-prefixed codec name, version.
pub open spec fn header_bytes(codec: Seq<u8>, version: i32) -> Seq<u8> {
    be_i32_bytes(CODEC_MAGIC) + vint_bytes(codec.len() as u32) + codec + be_i32_bytes(version)
}

/// The bytes of an index header: a plain header followed by the sixteen-byte
/// segment id, a one-byte suffix length and the suffix.
pub open spec fn index_header_bytes(codec: Seq<u8>, version: i32, id: Seq<u8>, suffix: Seq<u8>) -> Seq<
    u8,
> {
    header_bytes(codec, version) + id + seq![suffix.len() as u8] + suffix
}

/// The sixteen bytes that close a file whose content so far is `data`:
/// footer magic, algorithm id zero, and the CRC-32 of `data` followed by
/// those eight bytes, stored as a 64-bit value.
pub open spec fn footer_bytes_for(data: Seq<u8>) -> Seq<u8> {
    be_i32_bytes(FOOTER_MAGIC) + be_i32_bytes(0) + be_i64_bytes(
        crc32_value(data + be_i32_bytes(FOOTER_MAGIC) + be_i32_bytes(0)),
    )
}

/// A successful variable-length parse consumes at least one and at most all
/// of the bytes, and yields a non-negative value.
pub proof fn lemma_vint_parse_bounds(s: Seq<u8>)
    ensures
        vint_parse(s) matches Some(p) ==> 1 <= p.1 <= s.len() && 0 <= p.0,
    decreases s.len(),
{
    if s.len() > 0 && s[0] >= 128 {
        lemma_vint_parse_bounds(s.drop_first());
    }
}

/// A successful header check consumes at least five bytes and at most all.
pub proof fn lemma_spec_check_header_no_magic_bounds(
    s: Seq<u8>,
    codec: Seq<u8>,
    min_ver: i32,
    max_ver: i32,
)
    ensures
        spec_check_header_no_magic(s, codec, min_ver, max_ver) matches Ok(p) ==> 5 <= p.1
            <= s.len(),
{
    lemma_vint_parse_bounds(s);
}

/// A successful full-header check consumes at least nine bytes and at most all.
pub proof fn lemma_spec_check_header_bounds(s: Seq<u8>, codec: Seq<u8>, min_ver: i32, max_ver: i32)
    ensures
        spec_check_header(s, codec, min_ver, max_ver) matches Ok(p) ==> 9 <= p.1 <= s.len(),
{
    if s.len() >= 4 {
        lemma_spec_check_header_no_magic_bounds(s.skip(4), codec, min_ver, max_ver);
    }
}

/// A whole codec-framed file around an arbitrary payload: an index header
/// with an empty suffix, the payload, and the checksummed footer.
pub open spec fn framed_segment_file(
    codec: Seq<u8>,
    version: i32,
    id: Seq<u8>,
    payload: Seq<u8>,
) -> Seq<u8> {
    let framed = index_header_bytes(codec, version, id, Seq::<u8>::empty()) + payload;
    framed + footer_bytes_for(framed)
}

/// What checking a plain header without its magic finds in `s`: the stored
/// version and the number of bytes consumed, or the first failure.
pub open spec fn spec_check_header_no_magic(
    s: Seq<u8>,
    codec: Seq<u8>,
    min_ver: i32,
    max_ver: i32,
) -> Result<(i32, int), IndexError> {
    match vint_parse(s) {
        None => Err(IndexError::CorruptIndex(CorruptionKind::UnexpectedEof)),
        Some(p) => {
            let clen = p.0;
            let l = p.1;
            if clen >= 0x1_0000_0000 {
                Err(IndexError::CorruptIndex(CorruptionKind::MalformedVInt))
            } else if l + clen > s.len() {
                Err(IndexError::CorruptIndex(CorruptionKind::UnexpectedEof))
            } else if s.subrange(l, l + clen) != codec {
                Err(IndexError::CorruptIndex(CorruptionKind::CodecMismatch))
            } else if l + clen + 4 > s.len() {
                Err(IndexError::CorruptIndex(CorruptionKind::UnexpectedEof))
            } else {
                let v = be_i32_val(s.subrange(l + clen, l + clen + 4));
                if v < min_ver || v > max_ver {
                    Err(
                        IndexError::CorruptIndex(
                            CorruptionKind::VersionMismatch { actual: v, min: min_ver, max: max_ver },
                        ),
                    )
                } else {
                    Ok((v, l + clen + 4))
                }
            }
        },
    }
}

/// What checking a plain header finds in `s`: the stored version and the
/// number of bytes consumed, or the first failure.
pub open spec fn spec_check_header(s: Seq<u8>, codec: Seq<u8>, min_ver: i32, max_ver: i32) -> Result<
    (i32, int),
    IndexError,
> {
    if s.len() < 4 {
        Err(IndexError::CorruptIndex(CorruptionKind::UnexpectedEof))
    } else if s.subrange(0, 4) != be_i32_bytes(CODEC_MAGIC) {
        Err(
            IndexError::CorruptIndex(
                CorruptionKind::MagicMismatch { actual: be_i32_val(s.subrange(0, 4)) },
            ),
        )
    } else {
        match spec_check_header_no_magic(s.skip(4), codec, min_ver, max_ver) {
            Ok(p) => Ok((p.0, p.1 + 4)),
            Err(e) => Err(e),
        }
    }
}

/// What checking the sixteen-byte segment id finds in `s`.
pub open spec fn spec_check_id(s: Seq<u8>, expected_id: Seq<u8>) -> Result<int, IndexError> {
    if s.len() < 16 {
        Err(IndexError::CorruptIndex(CorruptionKind::UnexpectedEof))
    } else if s.subrange(0, 16) != expected_id {
        Err(IndexError::CorruptIndex(CorruptionKind::IdMismatch))
    } else {
        Ok(16int)
    }
}

/// What checking the length-prefixed suffix finds in `s`.
pub open spec fn spec_check_suffix(s: Seq<u8>, expected_suffix: Seq<u8>) -> Result<
    int,
    IndexError,
> {
    if s.len() < 1 {
        Err(IndexError::CorruptIndex(CorruptionKind::UnexpectedEof))
    } else {
        let slen = s[0] as int;
        if 1 + slen > s.len() {
            Err(IndexError::CorruptIndex(CorruptionKind::UnexpectedEof))
        } else if s.subrange(1, 1 + slen) != expected_suffix {
            Err(IndexError::CorruptIndex(CorruptionKind::SuffixMismatch))
        } else {
            Ok(1 + slen)
        }
    }
}

/// What checking a full index header finds in `s`: the stored version and
/// the number of bytes consumed, or the first failure.
pub open spec fn spec_check_index_header(
    s: Seq<u8>,
    codec: Seq<u8>,
    min_ver: i32,
    max_ver: i32,
    expected_id: Seq<u8>,
    expected_suffix: Seq<u8>,
) -> Result<(i32, int), IndexError> {
    match spec_check_header(s, codec, min_ver, max_ver) {
        Err(e) => Err(e),
        Ok(p) => match spec_check_id(s.skip(p.1), expected_id) {
            Err(e) => Err(e),
            Ok(used_id) => match spec_check_suffix(s.skip(p.1 + used_id), expected_suffix) {
                Err(e) => Err(e),
                Ok(used_suffix) => Ok((p.0, p.1 + used_id + used_suffix)),
            },
        },
    }
}

/// Writes a plain header: magic, length-prefixed codec name, version.
/// Codec names of 128 bytes or more are rejected before anything is written.
pub fn write_header(out: &mut RamOutput, codec: &str, version: i32) -> (r: Result<(), IndexError>)
    ensures
        codec.spec_bytes().len() < 128 ==> r == Ok::<(), IndexError>(()) && final(out)@ == old(
            out,
        )@ + header_bytes(codec.spec_bytes(), version),
        codec.spec_bytes().len() >= 128 ==> r == Err::<(), IndexError>(
            IndexError::IllegalArgument(
                ArgumentKind::CodecNameTooLong { len: codec.spec_bytes().len() as usize },
            ),
        ) && final(out)@ == old(out)@,
{
    let clen = codec.as_bytes().len();
    if clen >= 128 {
        return Err(IndexError::IllegalArgument(ArgumentKind::CodecNameTooLong { len: clen }));
    }
    out.write_int(CODEC_MAGIC);
    out.write_string(codec);
    out.write_int(version);
    proof {
        assert(final(out)@ =~= old(out)@ + header_bytes(codec.spec_bytes(), version));
    }
    Ok(())
}

/// Writes an index header: a plain header, the sixteen-byte segment id, and
/// the length-prefixed suffix. A wrong-sized id or an overlong codec name is
/// rejected before anything is written; an overlong suffix is detected only
/// after the header and id have gone out, as the layout is written in order.
pub fn write_index_header(
    out: &mut RamOutput,
    codec: &str,
    version: i32,
    id: &[u8],
    suffix: &str,
) -> (r: Result<(), IndexError>)
    ensures
        id@.len() != 16 ==> r == Err::<(), IndexError>(
            IndexError::IllegalArgument(ArgumentKind::InvalidId { len: id@.len() as usize }),
        ) && final(out)@ == old(out)@,
        id@.len() == 16 && codec.spec_bytes().len() >= 128 ==> r == Err::<(), IndexError>(
            IndexError::IllegalArgument(
                ArgumentKind::CodecNameTooLong { len: codec.spec_bytes().len() as usize },
            ),
        ) && final(out)@ == old(out)@,
        id@.len() == 16 && codec.spec_bytes().len() < 128 && suffix.spec_bytes().len() >= 256 ==> r
            == Err::<(), IndexError>(
            IndexError::IllegalArgument(
                ArgumentKind::SuffixTooLong { len: suffix.spec_bytes().len() as usize },
            ),
        ) && final(out)@ == old(out)@ + header_bytes(codec.spec_bytes(), version) + id@,
        id@.len() == 16 && codec.spec_bytes().len() < 128 && suffix.spec_bytes().len() < 256 ==> r
            == Ok::<(), IndexError>(()) && final(out)@ == old(out)@ + index_header_bytes(
            codec.spec_bytes(),
            version,
            id@,
            suffix.spec_bytes(),
        ),
{
    if id.len() != 16 {
        return Err(IndexError::IllegalArgument(ArgumentKind::InvalidId { len: id.len() }));
    }
    match write_header(out, codec, version) {
        Ok(()) => (),
        Err(e) => {
            return Err(e);
        },
    }
    out.write_bytes(id, 0, id.len());
    proof {
        assert(id@.subrange(0, id@.len() as int) =~= id@);
    }
    let slen = suffix.as_bytes().len();
    if slen >= 256 {
        return Err(IndexError::IllegalArgument(ArgumentKind::SuffixTooLong { len: slen }));
    }
    out.write_byte(slen as u8);
    out.write_bytes(suffix.as_bytes(), 0, slen);
    proof {
        assert(suffix.spec_bytes().subrange(0, slen as int) =~= suffix.spec_bytes());
        assert(final(out)@ =~= old(out)@ + index_header_bytes(
            codec.spec_bytes(),
            version,
            id@,
            suffix.spec_bytes(),
        ));
    }
    Ok(())
}

/// The byte length of a plain header for this codec name.
pub fn header_length(codec: &str) -> (r: usize)
    requires
        codec.spec_bytes().len() + 9 <= usize::MAX,
    ensures
        r == 9 + codec.spec_bytes().len(),
{
    9 + codec.as_bytes().len()
}

/// The byte length of an index header for this codec name and suffix.
pub fn index_header_length(codec: &str, suffix: &str) -> (r: usize)
    requires
        codec.spec_bytes().len() + suffix.spec_bytes().len() + 26 <= usize::MAX,
    ensures
        r == 9 + codec.spec_bytes().len() + 16 + 1 + suffix.spec_bytes().len(),
{
    header_length(codec) + ID_LENGTH + 1 + suffix.as_bytes().len()
}

/// The byte length of a codec footer.
pub fn footer_length() -> (r: usize)
    ensures
        r == 16,
{
    16
}

/// Checks a plain header at the reader's position: magic, codec name,
/// version within `[min_ver, max_ver]`. Returns the stored version.
pub fn check_header<T: DataInput>(
    input: &mut T,
    codec: &str,
    min_ver: i32,
    max_ver: i32,
) -> (r: Result<i32, IndexError>)
    requires
        old(input).inv(),
    ensures
        final(input).inv(),
        final(input).data() == old(input).data(),
        match spec_check_header(
            old(input).data().skip(old(input).pos()),
            codec.spec_bytes(),
            min_ver,
            max_ver,
        ) {
            Ok(p) => r == Ok::<i32, IndexError>(p.0) && final(input).pos() == old(input).pos()
                + p.1,
            Err(e) => r == Err::<i32, IndexError>(e),
        },
{
    proof {
        old(input).inv_bounds();
    }
    let ghost p = old(input).pos();
    let ghost d = old(input).data();
    let ghost s = d.skip(p);
    let actual_header = match read_int(input) {
        Ok(v) => v,
        Err(e) => {
            proof {
                assert(s.len() < 4);
            }
            return Err(e);
        },
    };
    proof {
        assert(s.subrange(0, 4) =~= d.subrange(p, p + 4));
    }
    if actual_header != CODEC_MAGIC {
        proof {
            if s.subrange(0, 4) == be_i32_bytes(CODEC_MAGIC) {
                lemma_be_i32_injective(actual_header, CODEC_MAGIC);
            }
        }
        return Err(
            IndexError::CorruptIndex(CorruptionKind::MagicMismatch { actual: actual_header }),
        );
    }
    proof {
        assert(s.skip(4) =~= d.skip(p + 4));
    }
    check_header_no_magic(input, codec, min_ver, max_ver)
}

/// Checks a plain header whose magic has already been consumed: codec name
/// and version within `[min_ver, max_ver]`. Returns the stored version.
pub fn check_header_no_magic<T: DataInput>(
    input: &mut T,
    codec: &str,
    min_ver: i32,
    max_ver: i32,
) -> (r: Result<i32, IndexError>)
    requires
        old(input).inv(),
    ensures
        final(input).inv(),
        final(input).data() == old(input).data(),
        match spec_check_header_no_magic(
            old(input).data().skip(old(input).pos()),
            codec.spec_bytes(),
            min_ver,
            max_ver,
        ) {
            Ok(p) => r == Ok::<i32, IndexError>(p.0) && final(input).pos() == old(input).pos()
                + p.1,
            Err(e) => r == Err::<i32, IndexError>(e),
        },
{
    proof {
        old(input).inv_bounds();
    }
    let ghost p = old(input).pos();
    let ghost d = old(input).data();
    let ghost s = d.skip(p);
    let clen = match read_vint(input) {
        Ok(n) => n,
        Err(e) => {
            return Err(e);
        },
    };
    let ghost l = input.pos() - p;
    proof {
        lemma_vint_parse_bounds(s);
    }
    let actual_codec = match read_bytes(input, clen as usize) {
        Ok(v) => v,
        Err(e) => {
            proof {
                assert(l + clen > s.len());
            }
            return Err(e);
        },
    };
    proof {
        assert(s.subrange(l, l + clen) =~= d.subrange(p + l, p + l + clen));
    }
    let expected = codec.as_bytes();
    if !bytes_equal(&actual_codec, expected) {
        return Err(IndexError::CorruptIndex(CorruptionKind::CodecMismatch));
    }
    let actual_ver = match read_int(input) {
        Ok(v) => v,
        Err(e) => {
            proof {
                assert(l + clen + 4 > s.len());
            }
            return Err(e);
        },
    };
    proof {
        assert(s.subrange(l + clen, l + clen + 4) =~= d.subrange(p + l + clen, p + l + clen + 4));
    }
    if actual_ver < min_ver || actual_ver > max_ver {
        return Err(
            IndexError::CorruptIndex(
                CorruptionKind::VersionMismatch { actual: actual_ver, min: min_ver, max: max_ver },
            ),
        );
    }
    Ok(actual_ver)
}

/// Whether the vector and the slice hold the same bytes.
pub fn bytes_equal(a: &Vec<u8>, b: &[u8]) -> (r: bool)
    ensures
        r == (a@ == b@),
{
    if a.len() != b.len() {
        proof {
            assert(a@.len() != b@.len());
        }
        return false;
    }
    let n = a.len();
    let mut i: usize = 0;
    while i < n
        invariant
            0 <= i <= n,
            n == a@.len() == b@.len(),
            forall|k: int| 0 <= k < i ==> a@[k] == b@[k],
        decreases n - i,
    {
        if a[i] != b[i] {
            return false;
        }
        i = i + 1;
    }
    proof {
        assert(a@ =~= b@);
    }
    true
}

/// Checks a full index header: plain header, segment id, suffix. Returns the
/// stored version.
pub fn check_index_header<T: DataInput>(
    input: &mut T,
    codec: &str,
    min_ver: i32,
    max_ver: i32,
    expected_id: &[u8],
    expected_suffix: &str,
) -> (r: Result<i32, IndexError>)
    requires
        old(input).inv(),
    ensures
        final(input).inv(),
        final(input).data() == old(input).data(),
        match spec_check_index_header(
            old(input).data().skip(old(input).pos()),
            codec.spec_bytes(),
            min_ver,
            max_ver,
            expected_id@,
            expected_suffix.spec_bytes(),
        ) {
            Ok(p) => r == Ok::<i32, IndexError>(p.0) && final(input).pos() == old(input).pos()
                + p.1,
            Err(e) => r == Err::<i32, IndexError>(e),
        },
{
    proof {
        old(input).inv_bounds();
    }
    let ghost p = old(input).pos();
    let ghost d = old(input).data();
    let ghost s = d.skip(p);
    let version = match check_header(input, codec, min_ver, max_ver) {
        Ok(v) => v,
        Err(e) => {
            return Err(e);
        },
    };
    proof {
        lemma_spec_check_header_bounds(s, codec.spec_bytes(), min_ver, max_ver);
        assert(s.skip(input.pos() - p) =~= d.skip(input.pos()));
    }
    match check_index_header_id(input, expected_id) {
        Ok(()) => (),
        Err(e) => {
            return Err(e);
        },
    }
    proof {
        assert(s.skip(input.pos() - p) =~= d.skip(input.pos()));
    }
    match check_index_header_suffix(input, expected_suffix) {
        Ok(()) => (),
        Err(e) => {
            return Err(e);
        },
    }
    Ok(version)
}

/// Checks the sixteen-byte segment id at the reader's position.
fn check_index_header_id<T: DataInput>(input: &mut T, expected_id: &[u8]) -> (r: Result<
    (),
    IndexError,
>)
    requires
        old(input).inv(),
    ensures
        final(input).inv(),
        final(input).data() == old(input).data(),
        match spec_check_id(old(input).data().skip(old(input).pos()), expected_id@) {
            Ok(used) => r == Ok::<(), IndexError>(()) && final(input).pos() == old(input).pos()
                + used,
            Err(e) => r == Err::<(), IndexError>(e),
        },
{
    proof {
        old(input).inv_bounds();
    }
    let ghost p = old(input).pos();
    let ghost d = old(input).data();
    let ghost s = d.skip(p);
    let actual_id = match read_bytes(input, 16) {
        Ok(v) => v,
        Err(e) => {
            return Err(e);
        },
    };
    proof {
        assert(s.subrange(0, 16) =~= d.subrange(p, p + 16));
    }
    if !bytes_equal(&actual_id, expected_id) {
        return Err(IndexError::CorruptIndex(CorruptionKind::IdMismatch));
    }
    Ok(())
}

/// Checks the length-prefixed suffix at the reader's position.
pub fn check_index_header_suffix<T: DataInput>(input: &mut T, expected_suffix: &str) -> (r: Result<
    (),
    IndexError,
>)
    requires
        old(input).inv(),
    ensures
        final(input).inv(),
        final(input).data() == old(input).data(),
        match spec_check_suffix(
            old(input).data().skip(old(input).pos()),
            expected_suffix.spec_bytes(),
        ) {
            Ok(used) => r == Ok::<(), IndexError>(()) && final(input).pos() == old(input).pos()
                + used,
            Err(e) => r == Err::<(), IndexError>(e),
        },
{
    proof {
        old(input).inv_bounds();
    }
    let ghost p = old(input).pos();
    let ghost d = old(input).data();
    let ghost s = d.skip(p);
    let suffix_len = match input.read_byte() {
        Ok(b) => b,
        Err(e) => {
            proof {
                assert(s.len() < 1);
            }
            return Err(e);
        },
    };
    proof {
        assert(s[0] == d[p]);
    }
    let suffix_bytes = match read_bytes(input, suffix_len as usize) {
        Ok(v) => v,
        Err(e) => {
            return Err(e);
        },
    };
    proof {
        assert(s.subrange(1, 1 + suffix_len as int) =~= d.subrange(p + 1, p + 1 + suffix_len as int));
    }
    if !bytes_equal(&suffix_bytes, expected_suffix.as_bytes()) {
        return Err(IndexError::CorruptIndex(CorruptionKind::SuffixMismatch));
    }
    Ok(())
}

} // verus!

// The footer side: writing the sixteen-byte trailer and verifying it.
use crate::crc32::crc32_of;

verus! {

/// What validating a footer at `pos` in `s` finds: sixteen bytes must
/// remain, opening with the footer magic and the zero algorithm id.
pub open spec fn spec_validate_footer(s: Seq<u8>, pos: int) -> Result<(), IndexError> {
    let remaining = s.len() - pos;
    if remaining < 16 {
        Err(
            IndexError::CorruptIndex(
                CorruptionKind::Truncated { remaining: remaining as i64, expected: 16 },
            ),
        )
    } else if remaining > 16 {
        Err(
            IndexError::CorruptIndex(
                CorruptionKind::Extended { remaining: remaining as i64, expected: 16 },
            ),
        )
    } else {
        let magic = be_i32_val(s.subrange(pos, pos + 4));
        if magic != FOOTER_MAGIC {
            Err(IndexError::CorruptIndex(CorruptionKind::FooterMagicMismatch { actual: magic }))
        } else {
            let alg = be_i32_val(s.subrange(pos + 4, pos + 8));
            if alg != 0 {
                Err(IndexError::CorruptIndex(CorruptionKind::UnknownAlgorithmId { id: alg }))
            } else {
                Ok(())
            }
        }
    }
}

/// What reading the stored checksum at `pos` in `s` finds: an eight-byte
/// value whose high 32 bits must be zero.
pub open spec fn spec_read_crc(s: Seq<u8>, pos: int) -> Result<i64, IndexError> {
    if pos + 8 > s.len() {
        Err(IndexError::CorruptIndex(CorruptionKind::UnexpectedEof))
    } else {
        let v = be_i64_val(s.subrange(pos, pos + 8));
        if v < 0 || v > 0xFFFF_FFFF {
            Err(IndexError::CorruptIndex(CorruptionKind::ChecksumHighBits { value: v }))
        } else {
            Ok(v)
        }
    }
}

/// What checking a footer at `pos` in `s` finds: the validated footer's
/// stored checksum must equal the CRC-32 of everything before the checksum
/// field. Returns that checksum.
pub open spec fn spec_check_footer(s: Seq<u8>, pos: int) -> Result<i64, IndexError> {
    match spec_validate_footer(s, pos) {
        Err(e) => Err(e),
        Ok(()) => {
            let actual = crc32_value(s.take(pos + 8));
            match spec_read_crc(s, pos + 8) {
                Err(e) => Err(e),
                Ok(expected) => if actual != expected {
                    Err(
                        IndexError::CorruptIndex(
                            CorruptionKind::ChecksumMismatch { expected, actual },
                        ),
                    )
                } else {
                    Ok(actual)
                },
            }
        },
    }
}

/// Writes the codec footer: footer magic, algorithm id zero, and the CRC-32
/// of everything written so far including those eight bytes.
pub fn write_footer(out: &mut RamOutput)
    ensures
        final(out)@ == old(out)@ + footer_bytes_for(old(out)@),
{
    out.write_int(FOOTER_MAGIC);
    out.write_int(0);
    let n = out.len();
    let crc: u32 = crc32_prefix(out.as_bytes().as_slice(), n);
    proof {
        assert(out@.take(n as int) =~= old(out)@ + be_i32_bytes(FOOTER_MAGIC) + be_i32_bytes(0));
    }
    out.write_long(crc as i64);
    proof {
        assert(crc as i64 == crc32_value(old(out)@ + be_i32_bytes(FOOTER_MAGIC) + be_i32_bytes(0)));
        assert(final(out)@ =~= old(out)@ + footer_bytes_for(old(out)@));
    }
}

/// Validates the footer at the reader's position: exactly sixteen bytes must
/// remain, with the footer magic and the zero algorithm id. Leaves the
/// reader before the checksum field.
pub fn validate_footer<T: DataInput>(input: &mut T) -> (r: Result<(), IndexError>)
    requires
        old(input).inv(),
    ensures
        final(input).inv(),
        final(input).data() == old(input).data(),
        match spec_validate_footer(old(input).data(), old(input).pos()) {
            Ok(()) => r == Ok::<(), IndexError>(()) && final(input).pos() == old(input).pos() + 8,
            Err(e) => r == Err::<(), IndexError>(e),
        },
{
    proof {
        old(input).inv_bounds();
    }
    let ghost p = old(input).pos();
    let ghost d = old(input).data();
    let remaining: i64 = (input.len() as i64) - input.file_pointer();
    if remaining < 16 {
        return Err(
            IndexError::CorruptIndex(CorruptionKind::Truncated { remaining, expected: 16 }),
        );
    }
    if remaining > 16 {
        return Err(
            IndexError::CorruptIndex(CorruptionKind::Extended { remaining, expected: 16 }),
        );
    }
    let magic = match read_int(input) {
        Ok(v) => v,
        Err(e) => {
            proof {
                assert(false);
            }
            return Err(e);
        },
    };
    if magic != FOOTER_MAGIC {
        return Err(IndexError::CorruptIndex(CorruptionKind::FooterMagicMismatch { actual: magic }));
    }
    let algorithm_id = match read_int(input) {
        Ok(v) => v,
        Err(e) => {
            proof {
                assert(false);
            }
            return Err(e);
        },
    };
    if algorithm_id != 0 {
        return Err(
            IndexError::CorruptIndex(CorruptionKind::UnknownAlgorithmId { id: algorithm_id }),
        );
    }
    Ok(())
}

/// Reads the stored checksum: an eight-byte value whose high 32 bits must be
/// zero.
fn read_crc<T: DataInput>(input: &mut T) -> (r: Result<i64, IndexError>)
    requires
        old(input).inv(),
    ensures
        final(input).inv(),
        final(input).data() == old(input).data(),
        match spec_read_crc(old(input).data(), old(input).pos()) {
            Ok(v) => r == Ok::<i64, IndexError>(v) && final(input).pos() == old(input).pos() + 8,
            Err(e) => r == Err::<i64, IndexError>(e),
        },
{
    proof {
        old(input).inv_bounds();
    }
    let val = match read_long(input) {
        Ok(v) => v,
        Err(e) => {
            return Err(e);
        },
    };
    if val < 0 || val > 0xFFFF_FFFF {
        return Err(IndexError::CorruptIndex(CorruptionKind::ChecksumHighBits { value: val }));
    }
    Ok(val)
}

/// Validates the footer at the reader's position and compares the stored
/// checksum with the one accumulated while reading the file. Returns the
/// checksum on success; the reader is then at end of file.
pub fn check_footer(input: &mut ChecksumIndexInput) -> (r: Result<i64, IndexError>)
    requires
        old(input).inv(),
    ensures
        final(input).inv(),
        final(input).data() == old(input).data(),
        match spec_check_footer(old(input).data(), old(input).pos()) {
            Ok(v) => r == Ok::<i64, IndexError>(v) && final(input).pos() == old(input).data().len(),
            Err(e) => r == Err::<i64, IndexError>(e),
        },
{
    proof {
        old(input).inv_bounds();
    }
    match validate_footer(input) {
        Ok(()) => (),
        Err(e) => {
            return Err(e);
        },
    }
    let actual_checksum = input.checksum();
    let expected_checksum = match read_crc(input) {
        Ok(v) => v,
        Err(e) => {
            return Err(e);
        },
    };
    if actual_checksum != expected_checksum {
        return Err(
            IndexError::CorruptIndex(
                CorruptionKind::ChecksumMismatch {
                    expected: expected_checksum,
                    actual: actual_checksum,
                },
            ),
        );
    }
    Ok(actual_checksum)
}

/// Reads the stored checksum after the given checksum was computed by some
/// other pass over the file, and compares the two.
pub fn check_checksum<T: DataInput>(input: &mut T, actual_checksum: i64) -> (r: Result<
    (),
    IndexError,
>)
    requires
        old(input).inv(),
    ensures
        final(input).inv(),
        final(input).data() == old(input).data(),
        match spec_read_crc(old(input).data(), old(input).pos()) {
            Ok(v) => if actual_checksum != v {
                r == Err::<(), IndexError>(
                    IndexError::CorruptIndex(
                        CorruptionKind::ChecksumMismatch { expected: v, actual: actual_checksum },
                    ),
                )
            } else {
                r == Ok::<(), IndexError>(()) && final(input).pos() == old(input).pos() + 8
            },
            Err(e) => r == Err::<(), IndexError>(e),
        },
{
    let expected_checksum = match read_crc(input) {
        Ok(v) => v,
        Err(e) => {
            return Err(e);
        },
    };
    if actual_checksum != expected_checksum {
        return Err(
            IndexError::CorruptIndex(
                CorruptionKind::ChecksumMismatch {
                    expected: expected_checksum,
                    actual: actual_checksum,
                },
            ),
        );
    }
    Ok(())
}

/// What seeking to the footer and reading its stored checksum finds.
pub open spec fn spec_retrieve_checksum(s: Seq<u8>) -> Result<i64, IndexError> {
    if s.len() < 16 {
        Err(
            IndexError::CorruptIndex(
                CorruptionKind::Truncated { remaining: s.len() as i64, expected: 16 },
            ),
        )
    } else {
        match spec_validate_footer(s, s.len() - 16) {
            Err(e) => Err(e),
            Ok(()) => spec_read_crc(s, s.len() - 8),
        }
    }
}

/// Seeks to the footer, validates it, and returns the stored checksum
/// without recomputing one.
pub fn retrieve_checksum(input: &mut RamInput) -> (r: Result<i64, IndexError>)
    requires
        old(input).inv(),
    ensures
        final(input).inv(),
        final(input).data() == old(input).data(),
        match spec_retrieve_checksum(old(input).data()) {
            Ok(v) => r == Ok::<i64, IndexError>(v) && final(input).pos()
                == final(input).data().len(),
            Err(e) => r == Err::<i64, IndexError>(e),
        },
{
    proof {
        old(input).inv_bounds();
    }
    let length = input.len();
    if length < 16 {
        return Err(
            IndexError::CorruptIndex(
                CorruptionKind::Truncated { remaining: length as i64, expected: 16 },
            ),
        );
    }
    match input.seek((length - 16) as i64) {
        Ok(()) => (),
        Err(e) => {
            proof {
                assert(false);
            }
            return Err(e);
        },
    }
    match validate_footer(input) {
        Ok(()) => (),
        Err(e) => {
            return Err(e);
        },
    }
    read_crc(input)
}

/// What streaming a whole file through a checksum and checking its footer
/// finds: the footer must validate and the stored checksum must equal the
/// CRC-32 of everything before the checksum field.
pub open spec fn spec_checksum_entire_file(s: Seq<u8>) -> Result<i64, IndexError> {
    if s.len() < 16 {
        Err(
            IndexError::CorruptIndex(
                CorruptionKind::Truncated { remaining: s.len() as i64, expected: 16 },
            ),
        )
    } else {
        spec_check_footer(s, s.len() - 16)
    }
}

/// Streams the file through a fresh checksum from the start, sixty-four
/// kibibytes at a time, stopping sixteen bytes before end of file; then
/// validates the footer and compares checksums.
pub fn checksum_entire_file(input: &RamInput) -> (r: Result<i64, IndexError>)
    requires
        input.inv(),
    ensures
        match spec_checksum_entire_file(DataInput::data(input)) {
            Ok(v) => r == Ok::<i64, IndexError>(v),
            Err(e) => r == Err::<i64, IndexError>(e),
        },
{
    let index = input.clone_input();
    proof {
        index.inv_bounds();
    }
    let ghost d = DataInput::data(input);
    let mut checksum = ChecksumIndexInput::new(index);
    let len = checksum.len();
    if len < 16 {
        return Err(
            IndexError::CorruptIndex(
                CorruptionKind::Truncated { remaining: len as i64, expected: 16 },
            ),
        );
    }
    let content_len: u64 = len - 16;
    let mut pos: u64 = 0;
    while pos < content_len
        invariant
            checksum.inv(),
            checksum.data() == d,
            checksum.pos() == pos,
            pos <= content_len,
            content_len == d.len() - 16,
        decreases content_len - pos,
    {
        let size: u64 = if content_len - pos < 65536 {
            content_len - pos
        } else {
            65536
        };
        match read_bytes(&mut checksum, size as usize) {
            Ok(_) => (),
            Err(e) => {
                proof {
                    assert(false);
                }
                return Err(e);
            },
        }
        pos = pos + size;
    }
    match validate_footer(&mut checksum) {
        Ok(()) => (),
        Err(e) => {
            return Err(e);
        },
    }
    let actual = checksum.checksum();
    match check_checksum(&mut checksum, actual) {
        Ok(()) => (),
        Err(e) => {
            return Err(e);
        },
    }
    Ok(actual)
}

/// Law: a header written for a codec name shorter than 128 bytes reads back
/// as written: checking it against the same codec name and a version range
/// containing the written version succeeds, returns the written version, and
/// consumes exactly the header, whatever bytes follow.
pub proof fn lemma_header_round_trip(
    codec: Seq<u8>,
    version: i32,
    rest: Seq<u8>,
    min_ver: i32,
    max_ver: i32,
)
    requires
        codec.len() < 128,
        min_ver <= version <= max_ver,
    ensures
        spec_check_header(header_bytes(codec, version) + rest, codec, min_ver, max_ver) == Ok::<
            (i32, int),
            IndexError,
        >((version, 9 + codec.len() as int)),
{
    let s = header_bytes(codec, version) + rest;
    assert(s.subrange(0, 4) =~= be_i32_bytes(CODEC_MAGIC));
    let tail = s.skip(4);
    assert(tail =~= vint_bytes(codec.len() as u32) + (codec + be_i32_bytes(version) + rest));
    lemma_vint_round_trip(codec.len() as u32, codec + be_i32_bytes(version) + rest);
    assert(vint_bytes(codec.len() as u32) =~= seq![codec.len() as u8]);
    let l = 1int;
    let clen = codec.len() as int;
    assert(tail.subrange(l, l + clen) =~= codec);
    assert(tail.subrange(l + clen, l + clen + 4) =~= be_i32_bytes(version));
    lemma_be_i32_val_of_bytes(version);
    assert(spec_check_header_no_magic(tail, codec, min_ver, max_ver) == Ok::<(i32, int), IndexError>(
        (version, 5 + clen),
    ));
}

/// Law: an index header written for a codec name shorter than 128 bytes, a
/// sixteen-byte id and a suffix shorter than 256 bytes reads back as
/// written, whatever bytes follow.
pub proof fn lemma_index_header_round_trip(
    codec: Seq<u8>,
    version: i32,
    id: Seq<u8>,
    suffix: Seq<u8>,
    rest: Seq<u8>,
    min_ver: i32,
    max_ver: i32,
)
    requires
        codec.len() < 128,
        suffix.len() < 256,
        id.len() == 16,
        min_ver <= version <= max_ver,
    ensures
        spec_check_index_header(
            index_header_bytes(codec, version, id, suffix) + rest,
            codec,
            min_ver,
            max_ver,
            id,
            suffix,
        ) == Ok::<(i32, int), IndexError>(
            (version, 9 + codec.len() + 17 + suffix.len() as int),
        ),
{
    let s = index_header_bytes(codec, version, id, suffix) + rest;
    let after_header = id + (seq![suffix.len() as u8] + suffix + rest);
    assert(s =~= header_bytes(codec, version) + (id + seq![suffix.len() as u8] + suffix + rest));
    lemma_header_round_trip(
        codec,
        version,
        id + seq![suffix.len() as u8] + suffix + rest,
        min_ver,
        max_ver,
    );
    let hlen = 9 + codec.len() as int;
    assert(s.skip(hlen) =~= id + seq![suffix.len() as u8] + suffix + rest);
    let sid = s.skip(hlen);
    assert(sid.subrange(0, 16) =~= id);
    assert(spec_check_id(sid, id) == Ok::<int, IndexError>(16int));
    let ssuf = s.skip(hlen + 16);
    assert(ssuf =~= seq![suffix.len() as u8] + suffix + rest);
    assert(ssuf[0] == suffix.len() as u8);
    assert(ssuf.subrange(1, 1 + suffix.len() as int) =~= suffix);
    assert(spec_check_suffix(ssuf, suffix) == Ok::<int, IndexError>(1 + suffix.len() as int));
}

/// Law: a file closed by a freshly written footer checks clean: the footer
/// validates and the stored checksum equals the computed one, which the
/// check returns.
pub proof fn lemma_footer_round_trip(body: Seq<u8>)
    ensures
        ({
            let file = body + footer_bytes_for(body);
            spec_check_footer(file, body.len() as int) == Ok::<i64, IndexError>(
                crc32_value(body + be_i32_bytes(FOOTER_MAGIC) + be_i32_bytes(0)),
            )
        }),
{
    let file = body + footer_bytes_for(body);
    let n = body.len() as int;
    let crc = crc32_value(body + be_i32_bytes(FOOTER_MAGIC) + be_i32_bytes(0));
    assert(file.len() - n == 16);
    assert(file.subrange(n, n + 4) =~= be_i32_bytes(FOOTER_MAGIC));
    assert(file.subrange(n + 4, n + 8) =~= be_i32_bytes(0));
    lemma_be_i32_val_of_bytes(FOOTER_MAGIC);
    lemma_be_i32_val_of_bytes(0);
    assert(spec_validate_footer(file, n) == Ok::<(), IndexError>(()));
    assert(file.take(n + 8) =~= body + be_i32_bytes(FOOTER_MAGIC) + be_i32_bytes(0));
    assert(file.subrange(n + 8, n + 16) =~= be_i64_bytes(crc));
    lemma_be_i64_val_of_bytes(crc);
    assert(0 <= crc <= 0xFFFF_FFFF);
    assert(spec_read_crc(file, n + 8) == Ok::<i64, IndexError>(crc));
}

} // verus!
