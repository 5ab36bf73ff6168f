//! The record codec: saving one `(key, value)` record into a byte buffer,
//! and parsing one back out of a byte slice.
//!
//! A record is laid out as a little-endian `u32` key length, the key bytes,
//! one to eight space bytes of padding so that the value lands on an 8-byte
//! boundary, and the eight bytes of the value's IEEE-754 bit pattern.
//! Regions are written and read in the host's native byte order and are not
//! shared across architectures; every supported host is little-endian, so
//! the fixed little-endian layout here is the native one.

use vstd::prelude::*;

use crate::error::{is_oob_err, MmapError};
use crate::util::{
    dec_str, le32_bytes, le64_bytes, le_u32, le_u64, read_u32, read_u64, usize_to_string,
    write_bytes, write_fill, write_u32_le, write_u64_le,
};

verus! {

/// A key may be at most this long, so that its length survives a round trip
/// through the signed 32-bit lengths some readers use.
pub open spec fn valid_encoded_len(encoded_len: int) -> bool {
    0 <= encoded_len <= 0x7fff_ffff
}

/// Count of padding bytes after a key of the given length: the smallest
/// count in `1 ..= 8` that brings length header plus key plus padding to a
/// multiple of eight.
pub open spec fn spec_padding_len(encoded_len: int) -> int {
    8 - (4 + encoded_len) % 8
}

/// Offset of the value within a record whose key has the given length.
pub open spec fn spec_value_offset(encoded_len: int) -> int {
    4 + encoded_len + spec_padding_len(encoded_len)
}

/// Total byte length of a record whose key has the given length.
pub open spec fn spec_total_len(encoded_len: int) -> int {
    spec_value_offset(encoded_len) + 8
}

/// The encoded bytes of one record.
pub open spec fn spec_entry_bytes(key: Seq<u8>, value: u64) -> Seq<u8> {
    le32_bytes(key.len() as int) + key + Seq::new(
        spec_padding_len(key.len() as int) as nat,
        |i: int| 32u8,
    ) + le64_bytes(value as int)
}

/// The padding always lands the value on an 8-byte boundary, and is one to
/// eight bytes long.
pub proof fn lemma_padding_alignment(encoded_len: int)
    requires
        0 <= encoded_len,
    ensures
        (4 + encoded_len + spec_padding_len(encoded_len)) % 8 == 0,
        1 <= spec_padding_len(encoded_len) <= 8,
        spec_total_len(encoded_len) % 8 == 0,
{
    let s = 4 + encoded_len;
    vstd::arithmetic::div_mod::lemma_fundamental_div_mod(s, 8);
    assert(s + 8 - s % 8 == 8 * (s / 8) + 8);
    vstd::arithmetic::div_mod::lemma_mod_multiples_basic(s / 8 + 1, 8);
}

/// The message of the error that `save` returns when the record does not
/// fit.
pub open spec fn entry_len_msg(total_len: int, slice_len: int) -> Seq<char> {
    "entry length "@ + dec_str(total_len) + " larger than slice length "@ + dec_str(slice_len)
}

/// Whether `e` is the does-not-fit error of `save` for the given lengths.
pub open spec fn is_entry_len_err(e: MmapError, total_len: int, slice_len: int) -> bool {
    &&& e matches MmapError::Other(m)
    &&& m@ == entry_len_msg(total_len, slice_len)
}

/// The logic to save a record, or parse one from a byte slice.
#[derive(PartialEq, Eq, Clone, Debug)]
pub struct RawEntry<'a> {
    pub bytes: &'a [u8],
    pub encoded_len: usize,
}

impl<'a> RawEntry<'a> {
    /// A well-formed parsed record: `bytes` holds key, padding and value
    /// (the four length bytes already stripped).
    pub open spec fn wf(self) -> bool {
        &&& valid_encoded_len(self.encoded_len as int)
        &&& self.bytes@.len() == spec_total_len(self.encoded_len as int) - 4
    }

    /// The key bytes of a parsed record.
    pub open spec fn spec_json(self) -> Seq<u8> {
        self.bytes@.subrange(0, self.encoded_len as int)
    }

    /// The bit pattern of the value of a parsed record.
    pub open spec fn spec_value(self) -> int {
        le_u64(
            self.bytes@.subrange(
                spec_value_offset(self.encoded_len as int) - 4,
                spec_total_len(self.encoded_len as int) - 4,
            ),
        )
    }

    /// Save a record at `pos` in `bytes`, returning the value offset within
    /// the newly created record. Fails, leaving the buffer unchanged, when
    /// the key is over-long or the record does not fit.
    pub fn save(bytes: &mut Vec<u8>, pos: usize, key: &[u8], value: u64) -> (r: Result<
        usize,
        MmapError,
    >)
        requires
            pos <= old(bytes)@.len(),
        ensures
            r is Ok <==> valid_encoded_len(key@.len() as int) && pos + spec_total_len(
                key@.len() as int,
            ) <= old(bytes)@.len(),
            r is Ok ==> ({
                &&& r->Ok_0 == spec_value_offset(key@.len() as int)
                &&& final(bytes)@.len() == old(bytes)@.len()
                &&& final(bytes)@.subrange(pos as int, pos + spec_total_len(key@.len() as int))
                    == spec_entry_bytes(key@, value)
                &&& forall|j: int|
                    0 <= j < final(bytes)@.len() && !(pos <= j < pos + spec_total_len(
                        key@.len() as int,
                    )) ==> final(bytes)@[j] == old(bytes)@[j]
            }),
            r is Err ==> final(bytes)@ == old(bytes)@,
            r is Err ==> ({
                if !valid_encoded_len(key@.len() as int) {
                    r->Err_0 == MmapError::KeyLength
                } else {
                    is_entry_len_err(
                        r->Err_0,
                        spec_total_len(key@.len() as int),
                        old(bytes)@.len() - pos,
                    )
                }
            }),
    {
        let total_len = match Self::calc_total_len(key.len()) {
            Ok(t) => t,
            Err(e) => {
                return Err(e);
            },
        };

        if total_len > bytes.len() - pos {
            let mut msg = String::from_str("entry length ");
            msg.append(usize_to_string(total_len).as_str());
            msg.append(" larger than slice length ");
            let avail = bytes.len() - pos;
            msg.append(usize_to_string(avail).as_str());
            proof {
                assert(msg@ =~= entry_len_msg(
                    spec_total_len(key@.len() as int),
                    old(bytes)@.len() - pos,
                ));
            }
            return Err(MmapError::Other(msg));
        }

        let key_len: u32 = key.len() as u32;
        let pad_len = Self::padding_len(key.len());
        let value_offset = 4 + key.len() + pad_len;

        write_u32_le(bytes, pos, key_len);
        let ghost s1 = bytes@;
        write_bytes(bytes, pos + 4, key);
        let ghost s2 = bytes@;
        write_fill(bytes, pos + 4 + key.len(), pad_len, 32u8);
        let ghost s3 = bytes@;
        write_u64_le(bytes, pos + value_offset, value);

        proof {
            let klen = key@.len() as int;
            let total = spec_total_len(klen);
            let eb = spec_entry_bytes(key@, value);
            assert forall|j: int| 0 <= j < total implies bytes@[pos + j] == eb[j] by {
                if j < 4 {
                    assert(s1[pos + j] == le32_bytes(klen)[j]);
                    assert(s2[pos + j] == s1[pos + j]);
                    assert(s3[pos + j] == s2[pos + j]);
                    assert(bytes@[pos + j] == s3[pos + j]);
                } else if j < 4 + klen {
                    assert(s2[pos + j] == key@[j - 4]);
                    assert(s3[pos + j] == s2[pos + j]);
                    assert(bytes@[pos + j] == s3[pos + j]);
                } else if j < 4 + klen + spec_padding_len(klen) {
                    let pstart = pos + 4 + klen;
                    let pcount = spec_padding_len(klen);
                    assert(s3.subrange(pstart, pstart + pcount) == Seq::new(
                        pcount as nat,
                        |i: int| 32u8,
                    ));
                    assert(s3.subrange(pstart, pstart + pcount)[pos + j - pstart] == 32u8);
                    assert(s3[pos + j] == 32u8);
                    assert(bytes@[pos + j] == s3[pos + j]);
                } else {
                    assert(bytes@.subrange(pos + spec_value_offset(klen), pos + total)
                        == le64_bytes(value as int));
                    assert(bytes@[pos + j] == le64_bytes(value as int)[j - spec_value_offset(
                        klen,
                    )]);
                }
            }
            assert(bytes@.subrange(pos as int, pos + total) =~= eb);
        }

        Ok(value_offset)
    }

    /// Parse the record at the start of `bytes`.
    pub fn from_slice(bytes: &'a [u8]) -> (r: Result<RawEntry<'a>, MmapError>)
        ensures
            r is Ok <==> (4 <= bytes@.len() && valid_encoded_len(le_u32(bytes@.subrange(0, 4)))
                && spec_total_len(le_u32(bytes@.subrange(0, 4))) <= bytes@.len()),
            r is Ok ==> ({
                let enc = le_u32(bytes@.subrange(0, 4));
                &&& r->Ok_0.wf()
                &&& r->Ok_0.encoded_len == enc
                &&& r->Ok_0.bytes@ == bytes@.subrange(4, spec_total_len(enc))
            }),
            r is Err ==> ({
                if bytes@.len() < 4 {
                    is_oob_err(r->Err_0, 0, bytes@.len() as int)
                } else if !valid_encoded_len(le_u32(bytes@.subrange(0, 4))) {
                    r->Err_0 == MmapError::KeyLength
                } else {
                    is_oob_err(
                        r->Err_0,
                        spec_total_len(le_u32(bytes@.subrange(0, 4))),
                        bytes@.len() as int,
                    )
                }
            }),
    {
        let encoded_len = match read_u32(bytes, 0) {
            Ok(l) => l as usize,
            Err(e) => {
                return Err(e);
            },
        };

        let total_len = match Self::calc_total_len(encoded_len) {
            Ok(t) => t,
            Err(e) => {
                return Err(e);
            },
        };

        if total_len > bytes.len() {
            return Err(MmapError::out_of_bounds(total_len, bytes.len()));
        }

        let rest = vstd::slice::slice_subrange(bytes, 4, total_len);
        Ok(RawEntry { bytes: rest, encoded_len })
    }

    /// Read the bit pattern of the record's value.
    pub fn value(&self) -> (v: u64)
        requires
            self.wf(),
        ensures
            v == self.spec_value(),
    {
        let offset = self.encoded_len + Self::padding_len(self.encoded_len);
        read_u64(self.bytes, offset).unwrap()
    }

    /// The length of the record's key, without padding.
    pub fn encoded_len(&self) -> (l: usize)
        ensures
            l == self.encoded_len,
    {
        self.encoded_len
    }

    /// The key bytes of the record, excluding padding.
    pub fn json(&self) -> (j: &[u8])
        requires
            self.wf(),
        ensures
            j@ == self.spec_json(),
    {
        vstd::slice::slice_subrange(self.bytes, 0, self.encoded_len)
    }

    /// The total length of the record: length header, key, padding and
    /// value.
    pub fn total_len(&self) -> (t: usize)
        requires
            self.wf(),
        ensures
            t == spec_total_len(self.encoded_len as int),
    {
        Self::calc_total_len(self.encoded_len).unwrap()
    }

    /// The total length of a record whose key has length `encoded_len`.
    /// Rejects over-long keys.
    pub fn calc_total_len(encoded_len: usize) -> (r: Result<usize, MmapError>)
        ensures
            r is Ok <==> valid_encoded_len(encoded_len as int),
            r is Ok ==> r->Ok_0 == spec_total_len(encoded_len as int),
            r is Err ==> r->Err_0 == MmapError::KeyLength,
    {
        match Self::calc_value_offset(encoded_len) {
            Ok(v) => Ok(v + 8),
            Err(e) => Err(e),
        }
    }

    /// The value offset of a record whose key has length `encoded_len`.
    /// Rejects over-long keys.
    pub fn calc_value_offset(encoded_len: usize) -> (r: Result<usize, MmapError>)
        ensures
            r is Ok <==> valid_encoded_len(encoded_len as int),
            r is Ok ==> r->Ok_0 == spec_value_offset(encoded_len as int),
            r is Err ==> r->Err_0 == MmapError::KeyLength,
    {
        match Self::check_encoded_len(encoded_len) {
            Ok(_) => Ok(4 + encoded_len + Self::padding_len(encoded_len)),
            Err(e) => Err(e),
        }
    }

    /// The number of padding bytes after a key of length `encoded_len`.
    pub fn padding_len(encoded_len: usize) -> (p: usize)
        ensures
            p == spec_padding_len(encoded_len as int),
    {
        proof {
            vstd::arithmetic::div_mod::lemma_add_mod_noop(4, encoded_len as int, 8);
            vstd::arithmetic::div_mod::lemma_mod_twice(encoded_len as int, 8);
        }
        8 - (4 + encoded_len % 8) % 8
    }

    fn check_encoded_len(encoded_len: usize) -> (r: Result<(), MmapError>)
        ensures
            r is Ok <==> valid_encoded_len(encoded_len as int),
            r is Err ==> r->Err_0 == MmapError::KeyLength,
    {
        if encoded_len as u64 > 0x7fff_ffff {
            return Err(MmapError::KeyLength);
        }
        Ok(())
    }
}

/// A buffer that holds a record's encoded bytes at `used` yields the
/// saved value when the eight bytes at the record's value offset are read
/// back.
pub proof fn lemma_value_in_buffer(b: Seq<u8>, used: int, key: Seq<u8>, value: u64)
    requires
        valid_encoded_len(key.len() as int),
        0 <= used,
        used + spec_total_len(key.len() as int) <= b.len(),
        b.subrange(used, used + spec_total_len(key.len() as int)) == spec_entry_bytes(key, value),
    ensures
        le_u64(
            b.subrange(
                used + spec_value_offset(key.len() as int),
                used + spec_total_len(key.len() as int),
            ),
        ) == value,
{
    let klen = key.len() as int;
    let total = spec_total_len(klen);
    let vo = spec_value_offset(klen);
    let eb = spec_entry_bytes(key, value);
    assert forall|k: int| 0 <= k < 8 implies b.subrange(used + vo, used + total)[k] == le64_bytes(
        value as int,
    )[k] by {
        assert(b.subrange(used, used + total)[vo + k] == eb[vo + k]);
        assert(eb[vo + k] == le64_bytes(value as int)[k]);
    }
    assert(b.subrange(used + vo, used + total) =~= le64_bytes(value as int));
    crate::util::lemma_le64_round_trip(value as int);
}

/// Decoding a saved record yields the key and value that were saved: the
/// length header reads back as the key's length, the key bytes sit after
/// it, and the last eight bytes read back as the value's bit pattern.
pub proof fn lemma_entry_round_trip(key: Seq<u8>, value: u64)
    requires
        valid_encoded_len(key.len() as int),
    ensures
        ({
            let b = spec_entry_bytes(key, value);
            let enc = key.len() as int;
            &&& b.len() == spec_total_len(enc)
            &&& le_u32(b.subrange(0, 4)) == enc
            &&& b.subrange(4, 4 + enc) == key
            &&& le_u64(b.subrange(spec_value_offset(enc), spec_total_len(enc))) == value
        }),
{
    let b = spec_entry_bytes(key, value);
    let enc = key.len() as int;
    crate::util::lemma_le32_round_trip(enc);
    crate::util::lemma_le64_round_trip(value as int);
    assert(b.subrange(0, 4) =~= le32_bytes(enc));
    assert(b.subrange(4, 4 + enc) =~= key);
    assert(b.subrange(spec_value_offset(enc), spec_total_len(enc)) =~= le64_bytes(value as int));
}

} // verus!
