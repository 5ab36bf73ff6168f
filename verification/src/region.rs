//! The growable backing region: an owned byte arena with the 8-byte header
//! at offset zero and the record stream after it.
//!
//! Offsets handed out by the write path stay valid across growth because
//! they are plain indexes into the arena, re-checked against `used` and the
//! capacity on every access. Mapping the arena onto a file, and the page
//! arithmetic of doing so, belong to the embedding; the sizing helper
//! [`next_page_boundary`] takes the page size as an argument.

use vstd::prelude::*;

use crate::error::{is_oob_err, MmapError, RubyError};
use crate::raw_entry::{
    spec_entry_bytes, spec_total_len, spec_value_offset, valid_encoded_len, RawEntry,
};
use crate::util::{
    dec_str, le32_bytes, le_u32, le_u64, read_u32, read_u64, usize_to_string, write_u32_le,
    write_u64_le, CheckedOps,
};
use crate::HEADER_SIZE;

verus! {

/// The message of the error that [`Region::save_value`] returns for an
/// offset inside the header.
pub open spec fn overwrite_header_msg(offset: int) -> Seq<char> {
    "writing to offset "@ + dec_str(offset) + " would overwrite file header"@
}

/// The message of the error that [`Region::load_value`] returns for an
/// offset inside the header.
pub open spec fn read_header_msg(offset: int) -> Seq<char> {
    "reading from offset "@ + dec_str(offset) + " would read the file header"@
}

/// The message of the error that [`Region::initialize_entry`] returns when
/// the arena is too small.
pub open spec fn capacity_lt_msg(capacity: int, needed: int) -> Seq<char> {
    "mmap capacity "@ + dec_str(capacity) + " less than "@ + dec_str(needed)
}

/// The capacity the growth policy reaches from `cap`: strictly doubling
/// while the capacity does not exceed `needed`, so one spare byte always
/// remains past the written data.
pub open spec fn spec_grow_cap(cap: int, needed: int) -> int
    recommends
        cap > 0,
    decreases (if cap <= needed {
        needed + 1 - cap
    } else {
        0
    }),
{
    if cap <= 0 || cap > needed {
        cap
    } else {
        spec_grow_cap(2 * cap, needed)
    }
}

/// The grown capacity is at least the starting one and exceeds `needed`.
pub proof fn lemma_grow_cap_ge(cap: int, needed: int)
    requires
        cap > 0,
    ensures
        spec_grow_cap(cap, needed) >= cap,
        spec_grow_cap(cap, needed) > needed,
    decreases (if cap <= needed {
        needed + 1 - cap
    } else {
        0
    }),
{
    if cap <= needed {
        lemma_grow_cap_ge(2 * cap, needed);
    }
}

/// A process-local backing region: a byte arena of fixed capacity (grown
/// explicitly), and the length of the data considered written.
pub struct Region {
    data: Vec<u8>,
    len: usize,
}

impl Region {
    /// The arena's bytes; their count is the capacity.
    pub closed spec fn spec_bytes(self) -> Seq<u8> {
        self.data@
    }

    /// The number of bytes considered written.
    pub closed spec fn spec_len(self) -> int {
        self.len as int
    }

    /// The arena always has room for the header. A region opened over a
    /// store shorter than a header keeps that shorter written length, so
    /// only the capacity floor is invariant.
    pub open spec fn inv(self) -> bool {
        self.spec_bytes().len() >= HEADER_SIZE
    }

    /// The `used` header field, read from the first four bytes; a stored
    /// zero means an empty region and reads as `HEADER_SIZE`.
    pub open spec fn spec_used(self) -> int
        recommends
            self.inv(),
    {
        let raw = le_u32(self.spec_bytes().subrange(0, 4));
        if raw == 0 {
            HEADER_SIZE as int
        } else {
            raw
        }
    }

    /// Builds a region over the contents of a backing store, padding with
    /// zeroes so there is always room for the header.
    pub fn new(contents: Vec<u8>) -> (r: Region)
        ensures
            r.inv(),
            r.spec_len() == contents@.len(),
            contents@.len() >= HEADER_SIZE ==> r.spec_bytes() == contents@,
            contents@.len() < HEADER_SIZE ==> r.spec_bytes() == contents@ + Seq::new(
                (HEADER_SIZE - contents@.len()) as nat,
                |i: int| 0u8,
            ),
    {
        let len = contents.len();
        let mut data = contents;
        let ghost orig = data@;
        if data.len() < HEADER_SIZE {
            data.resize(HEADER_SIZE, 0u8);
            proof {
                assert(data@ =~= orig + Seq::new((HEADER_SIZE - orig.len()) as nat, |i: int| 0u8));
            }
        }
        Region { data, len }
    }

    /// The length of data written to the backing store.
    pub fn len(&self) -> (l: usize)
        ensures
            l == self.spec_len(),
    {
        self.len
    }

    /// The total capacity of the arena.
    pub fn capacity(&self) -> (c: usize)
        ensures
            c == self.spec_bytes().len(),
    {
        self.data.len()
    }

    /// Update the length of the region considered written.
    pub fn set_len(&mut self, len: usize)
        ensures
            final(self).spec_len() == len,
            final(self).spec_bytes() == old(self).spec_bytes(),
    {
        self.len = len;
    }

    /// Load the `used` header: the size of the metrics data written.
    pub fn load_used(&self) -> (r: Result<u32, MmapError>)
        requires
            self.inv(),
        ensures
            r is Ok,
            r->Ok_0 == self.spec_used(),
    {
        match read_u32(self.data.as_slice(), 0) {
            Ok(0) => Ok(HEADER_SIZE as u32),
            u => u,
        }
    }

    /// Update the `used` header to the value provided.
    pub fn save_used(&mut self, used: u32) -> (r: Result<(), MmapError>)
        requires
            old(self).inv(),
        ensures
            r is Ok,
            final(self).inv(),
            final(self).spec_len() == old(self).spec_len(),
            final(self).spec_bytes().len() == old(self).spec_bytes().len(),
            final(self).spec_bytes().subrange(0, 4) == le32_bytes(used as int),
            forall|j: int|
                4 <= j < final(self).spec_bytes().len() ==> final(self).spec_bytes()[j] == old(self).spec_bytes()[j],
    {
        write_u32_le(&mut self.data, 0, used);
        Ok(())
    }

    /// Load a metric value's bit pattern from `offset`. The offset must lie
    /// within the written data, outside the header, and the value within
    /// the capacity.
    pub fn load_value(&self, offset: usize) -> (r: Result<u64, MmapError>)
        requires
            self.inv(),
        ensures
            r is Ok <==> offset < self.spec_len() + 8 && offset >= HEADER_SIZE && offset + 8
                <= self.spec_bytes().len(),
            r is Ok ==> r->Ok_0 == le_u64(self.spec_bytes().subrange(offset as int, offset + 8)),
            r is Err ==> ({
                if offset >= self.spec_len() + 8 {
                    is_oob_err(r->Err_0, offset + 8, self.spec_len())
                } else if offset < HEADER_SIZE {
                    r->Err_0 matches MmapError::Other(m) && m@ == read_header_msg(offset as int)
                } else {
                    is_oob_err(r->Err_0, offset + 8, self.spec_bytes().len() as int)
                }
            }),
    {
        if offset >= self.len && offset - self.len >= 8 {
            return Err(MmapError::out_of_bounds_wide(offset as u128 + 8, self.len as u128));
        }
        if offset < HEADER_SIZE {
            let mut msg = String::from_str("reading from offset ");
            msg.append(usize_to_string(offset).as_str());
            msg.append(" would read the file header");
            proof {
                assert(msg@ =~= read_header_msg(offset as int));
            }
            return Err(MmapError::Other(msg));
        }
        read_u64(self.data.as_slice(), offset)
    }

    /// Copy `dst.len()` bytes of the arena, starting at `offset`, into
    /// `dst`: how an embedding mirrors the arena into its own store.
    pub fn read_into(&self, offset: usize, dst: &mut Vec<u8>) -> (r: Result<(), MmapError>)
        ensures
            final(dst)@.len() == old(dst)@.len(),
            r is Ok <==> offset + old(dst)@.len() <= self.spec_bytes().len(),
            r is Ok ==> final(dst)@ == self.spec_bytes().subrange(
                offset as int,
                offset + old(dst)@.len(),
            ),
            r is Err ==> final(dst)@ == old(dst)@ && is_oob_err(
                r->Err_0,
                offset + old(dst)@.len(),
                self.spec_bytes().len() as int,
            ),
    {
        let n = dst.len();
        if offset > self.data.len() || self.data.len() - offset < n {
            return Err(
                MmapError::out_of_bounds_wide(
                    offset as u128 + n as u128,
                    self.data.len() as u128,
                ),
            );
        }
        let cap = self.data.len();
        let mut i: usize = 0;
        while i < n
            invariant
                n == dst@.len(),
                0 <= i <= n,
                cap == self.spec_bytes().len(),
                offset + n <= cap,
                forall|j: int| 0 <= j < i ==> dst@[j] == self.spec_bytes()[offset + j],
            decreases n - i,
        {
            dst[i] = *vstd::std_specs::vec::vec_index(&self.data, offset + i);
            i = i + 1;
        }
        proof {
            assert(dst@ =~= self.spec_bytes().subrange(offset as int, offset + dst@.len()));
        }
        Ok(())
    }

    /// Save a metric value's bit pattern to an existing record at `offset`.
    /// Rejects offsets outside the written data, inside the header, or whose
    /// value would not leave at least one byte of spare capacity.
    pub fn save_value(&mut self, offset: usize, value: u64) -> (r: Result<(), MmapError>)
        requires
            old(self).inv(),
        ensures
            final(self).inv(),
            final(self).spec_len() == old(self).spec_len(),
            r is Ok <==> offset < old(self).spec_len() + 8 && offset >= HEADER_SIZE && offset + 8
                < old(self).spec_bytes().len(),
            r is Ok ==> ({
                &&& final(self).spec_bytes().len() == old(self).spec_bytes().len()
                &&& final(self).spec_bytes().subrange(offset as int, offset + 8)
                    == crate::util::le64_bytes(value as int)
                &&& forall|j: int|
                    0 <= j < final(self).spec_bytes().len() && !(offset <= j < offset + 8)
                        ==> final(self).spec_bytes()[j] == old(self).spec_bytes()[j]
            }),
            r is Err ==> final(self).spec_bytes() == old(self).spec_bytes(),
            r is Err ==> ({
                if offset >= old(self).spec_len() + 8 {
                    is_oob_err(r->Err_0, offset + 8, old(self).spec_len())
                } else if offset < HEADER_SIZE {
                    r->Err_0 matches MmapError::Other(m) && m@ == overwrite_header_msg(
                        offset as int,
                    )
                } else {
                    is_oob_err(r->Err_0, offset + 8, old(self).spec_bytes().len() as int)
                }
            }),
    {
        if offset >= self.len && offset - self.len >= 8 {
            return Err(MmapError::out_of_bounds_wide(offset as u128 + 8, self.len as u128));
        }
        if offset < HEADER_SIZE {
            let mut msg = String::from_str("writing to offset ");
            msg.append(usize_to_string(offset).as_str());
            msg.append(" would overwrite file header");
            proof {
                assert(msg@ =~= overwrite_header_msg(offset as int));
            }
            return Err(MmapError::Other(msg));
        }
        // The write must leave at least one byte of capacity spare, so a
        // NUL-terminated view of the region can always be formed.
        if offset >= self.data.len() || self.data.len() - offset <= 8 {
            let end = offset as u128 + 8;
            return Err(MmapError::out_of_bounds_wide(end, self.data.len() as u128));
        }
        write_u64_le(&mut self.data, offset, value);
        Ok(())
    }

    /// Append a record for `key` with value `value` at the end of the
    /// written data, updating the `used` header; returns the absolute offset
    /// of the record's value. Fails when the arena is at capacity: callers
    /// grow the region first.
    pub fn initialize_entry(&mut self, key: &[u8], value: u64) -> (r: Result<usize, MmapError>)
        requires
            old(self).inv(),
        ensures
            final(self).inv(),
            final(self).spec_len() == old(self).spec_len(),
            r is Ok <==> ({
                &&& valid_encoded_len(key@.len() as int)
                &&& old(self).spec_used() + spec_total_len(key@.len() as int) <= usize::MAX
                &&& old(self).spec_used() + spec_total_len(key@.len() as int) <= old(self).spec_bytes().len()
                &&& old(self).spec_used() + spec_total_len(key@.len() as int) <= u32::MAX
            }),
            r is Ok ==> ({
                let used = old(self).spec_used();
                let total = spec_total_len(key@.len() as int);
                &&& r->Ok_0 == used + spec_value_offset(key@.len() as int)
                &&& final(self).spec_bytes().len() == old(self).spec_bytes().len()
                &&& used >= 4 ==> final(self).spec_bytes().subrange(used, used + total)
                    == spec_entry_bytes(key@, value)
                &&& final(self).spec_bytes().subrange(0, 4) == le32_bytes(used + total)
                &&& final(self).spec_used() == used + total
                &&& forall|j: int|
                    0 <= j < final(self).spec_bytes().len() && !(used <= j < used + total) && !(0
                        <= j < 4) ==> final(self).spec_bytes()[j] == old(self).spec_bytes()[j]
            }),
            r is Err ==> final(self).spec_bytes() == old(self).spec_bytes(),
            r is Err ==> ({
                let used = old(self).spec_used();
                let total = spec_total_len(key@.len() as int);
                if !valid_encoded_len(key@.len() as int) {
                    r->Err_0 == MmapError::KeyLength
                } else if used + total > usize::MAX {
                    r->Err_0 is Overflow
                } else if used + total > old(self).spec_bytes().len() {
                    r->Err_0 matches MmapError::Other(m) && m@ == capacity_lt_msg(
                        old(self).spec_bytes().len() as int,
                        used + total,
                    )
                } else {
                    r->Err_0 is FailedCast
                }
            }),
    {
        let current_used = match self.load_used() {
            Ok(u) => u as usize,
            Err(e) => {
                return Err(e);
            },
        };
        let entry_length = match RawEntry::calc_total_len(key.len()) {
            Ok(t) => t,
            Err(e) => {
                return Err(e);
            },
        };

        let new_used = match current_used.add_chk(entry_length) {
            Ok(n) => n,
            Err(e) => {
                return Err(e);
            },
        };

        // Growing the arena cannot be done from here; the caller expands
        // first.
        if self.data.len() < new_used {
            let mut msg = String::from_str("mmap capacity ");
            msg.append(usize_to_string(self.data.len()).as_str());
            msg.append(" less than ");
            msg.append(usize_to_string(new_used).as_str());
            proof {
                assert(msg@ =~= capacity_lt_msg(
                    old(self).spec_bytes().len() as int,
                    old(self).spec_used() + spec_total_len(key@.len() as int),
                ));
            }
            return Err(MmapError::Other(msg));
        }

        let new_used32 = match crate::util::cast_chk(new_used, "used") {
            Ok(v) => v,
            Err(e) => {
                return Err(e);
            },
        };

        let value_offset = match RawEntry::save(&mut self.data, current_used, key, value) {
            Ok(v) => v,
            Err(e) => {
                proof {
                    assert(false);
                }
                return Err(e);
            },
        };

        let ghost mid = self.data@;
        let position = current_used + value_offset;

        write_u32_le(&mut self.data, 0, new_used32);

        proof {
            let used = old(self).spec_used();
            let total = spec_total_len(key@.len() as int);
            if used >= 4 {
                assert(self.data@.subrange(used, used + total) =~= mid.subrange(
                    used,
                    used + total,
                ));
            }
            crate::util::lemma_le32_round_trip(used + total);
            assert(self.data@.subrange(0, 4) =~= le32_bytes(used + total));
        }

        Ok(position)
    }

    /// Expand the arena until it is `target_cap` bytes long; the new bytes
    /// read as zero, like the hole a backing file is extended with.
    /// Requesting a capacity smaller than the current one is an error, and
    /// requesting the current one changes nothing: growth is idempotent.
    pub fn expand_to_fit(&mut self, target_cap: usize) -> (r: Result<(), MmapError>)
        requires
            old(self).inv(),
        ensures
            final(self).inv(),
            r is Ok <==> target_cap >= old(self).spec_bytes().len(),
            target_cap == old(self).spec_bytes().len() ==> *final(self) == *old(self),
            r is Ok ==> ({
                &&& final(self).spec_bytes().len() == target_cap
                &&& final(self).spec_bytes().subrange(0, old(self).spec_bytes().len() as int)
                    == old(self).spec_bytes()
                &&& forall|j: int|
                    old(self).spec_bytes().len() <= j < target_cap ==> final(self).spec_bytes()[j]
                        == 0u8
                &&& target_cap != old(self).spec_bytes().len() ==> final(self).spec_len()
                    == target_cap
                &&& target_cap == old(self).spec_bytes().len() ==> final(self).spec_len() == old(self).spec_len()
            }),
            r is Err ==> *final(self) == *old(self),
            r is Err ==> ({
                &&& r->Err_0 matches MmapError::Legacy { msg, ruby_err }
                &&& msg@ == "Can't reduce the size of mmap"@
                &&& ruby_err == RubyError::Arg
            }),
    {
        if target_cap < self.data.len() {
            return Err(
                MmapError::legacy(String::from_str("Can't reduce the size of mmap"), RubyError::Arg),
            );
        }
        if target_cap != self.data.len() {
            let ghost orig = self.data@;
            self.data.resize(target_cap, 0u8);
            self.len = target_cap;
            proof {
                assert(self.data@.subrange(0, orig.len() as int) =~= orig);
            }
        }
        Ok(())
    }

    /// Check that the arena can take a record for a key of length
    /// `key_len` beyond the written data — with one byte to spare — and
    /// strictly double its capacity until it can.
    pub fn check_expand(&mut self, key_len: usize) -> (r: Result<(), MmapError>)
        requires
            old(self).inv(),
        ensures
            final(self).inv(),
            r is Ok <==> ({
                &&& valid_encoded_len(key_len as int)
                &&& old(self).spec_used() + spec_total_len(key_len as int) <= usize::MAX
                &&& spec_grow_cap(
                    old(self).spec_bytes().len() as int,
                    old(self).spec_used() + spec_total_len(key_len as int),
                ) <= usize::MAX
            }),
            r is Ok ==> ({
                let needed = old(self).spec_used() + spec_total_len(key_len as int);
                &&& final(self).spec_bytes().len() == spec_grow_cap(
                    old(self).spec_bytes().len() as int,
                    needed,
                )
                &&& final(self).spec_used() + spec_total_len(key_len as int)
                    < final(self).spec_bytes().len()
                &&& (old(self).spec_bytes().len() > needed ==> *final(self) == *old(self))
                &&& (old(self).spec_bytes().len() <= needed ==> final(self).spec_len() == final(self).spec_bytes().len())
            }),
            final(self).spec_used() == old(self).spec_used(),
            final(self).spec_bytes().len() >= old(self).spec_bytes().len(),
            final(self).spec_bytes().subrange(0, old(self).spec_bytes().len() as int) == old(self).spec_bytes(),
            r is Err ==> ({
                ||| r->Err_0 == MmapError::KeyLength
                ||| r->Err_0 is Overflow
            }),
    {
        let used = match self.load_used() {
            Ok(u) => u as usize,
            Err(e) => {
                return Err(e);
            },
        };
        let entry_len = match RawEntry::calc_total_len(key_len) {
            Ok(t) => t,
            Err(e) => {
                return Err(e);
            },
        };

        let needed = match used.add_chk(entry_len) {
            Ok(n) => n,
            Err(e) => {
                return Err(e);
            },
        };

        // The region must keep at least one byte beyond the written data,
        // so the written bytes can always be viewed as a NUL-terminated
        // string: grow while the new length would not leave one.
        while self.capacity() <= needed
            invariant
                self.inv(),
                valid_encoded_len(key_len as int),
                needed == old(self).spec_used() + spec_total_len(key_len as int),
                self.spec_used() == old(self).spec_used(),
                self.spec_bytes().len() >= old(self).spec_bytes().len(),
                self.spec_bytes().subrange(0, old(self).spec_bytes().len() as int) == old(self).spec_bytes(),
                spec_grow_cap(self.spec_bytes().len() as int, needed as int) == spec_grow_cap(
                    old(self).spec_bytes().len() as int,
                    needed as int,
                ),
                self.spec_bytes().len() == old(self).spec_bytes().len() ==> *self == *old(self),
                self.spec_bytes().len() > old(self).spec_bytes().len() ==> self.spec_len()
                    == self.spec_bytes().len(),
            decreases (if self.spec_bytes().len() <= needed {
                needed + 1 - self.spec_bytes().len()
            } else {
                0
            }),
        {
            let cap = self.capacity();
            let target = match cap.mul_chk(2) {
                Ok(t) => t,
                Err(e) => {
                    proof {
                        lemma_grow_cap_ge(2 * cap as int, needed as int);
                    }
                    return Err(e);
                },
            };
            proof {
                assert(cap == self.spec_bytes().len());
                assert(target.as_int() == cap.as_int() * 2);
                assert(target == 2 * cap);
                assert(target >= cap);
            }
            let ghost before = self.spec_bytes();
            let expanded = self.expand_to_fit(target);
            proof {
                assert(expanded is Ok);
                assert forall|j: int| 0 <= j < before.len() implies self.spec_bytes()[j]
                    == before[j] by {
                    assert(self.spec_bytes().subrange(0, before.len() as int)[j]
                        == self.spec_bytes()[j]);
                }
                assert(self.spec_bytes().subrange(0, 4) =~= before.subrange(0, 4));
                assert(self.spec_bytes().subrange(0, old(self).spec_bytes().len() as int)
                    =~= old(self).spec_bytes());
            }
        }
        Ok(())
    }

    /// Whether the append path can take a record for a key of length
    /// `klen`: a legal key, growth that stays within `usize`, an advanced
    /// `used` that still fits its 32-bit header field, and — where no
    /// growth is needed — a new value that lands inside the written data.
    pub open spec fn spec_can_append(self, klen: int) -> bool {
        let used = self.spec_used();
        let total = spec_total_len(klen);
        &&& valid_encoded_len(klen)
        &&& used + total <= usize::MAX
        &&& spec_grow_cap(self.spec_bytes().len() as int, used + total) <= usize::MAX
        &&& used + total <= u32::MAX
        &&& (self.spec_bytes().len() > used + total ==> used + spec_value_offset(klen)
            < self.spec_len() + 8)
    }

    /// Append a record for `key` holding `value`, growing the arena as
    /// needed, and read the stored bit pattern back. Returns the value and
    /// its absolute offset.
    #[verifier::rlimit(100)]
    fn append_record(&mut self, key: &[u8], value: u64) -> (r: Result<(u64, usize), MmapError>)
        requires
            old(self).inv(),
        ensures
            final(self).inv(),
            r is Ok <==> old(self).spec_can_append(key@.len() as int),
            r is Ok ==> ({
                let used = old(self).spec_used();
                let total = spec_total_len(key@.len() as int);
                let pos = r->Ok_0.1;
                &&& pos == used + spec_value_offset(key@.len() as int)
                &&& final(self).spec_used() == used + total
                &&& used >= 4 ==> final(self).spec_bytes().subrange(used, used + total)
                    == spec_entry_bytes(key@, value)
                &&& forall|j: int|
                    4 <= j < old(self).spec_bytes().len() && !(used <= j < used + total)
                        ==> final(self).spec_bytes()[j] == old(self).spec_bytes()[j]
                &&& pos + 8 <= final(self).spec_bytes().len()
                &&& r->Ok_0.0 == le_u64(final(self).spec_bytes().subrange(pos as int, pos + 8))
                &&& used >= 4 ==> r->Ok_0.0 == value
            }),
    {
        let ghost klen = key@.len() as int;
        proof {
            crate::raw_entry::lemma_padding_alignment(klen);
        }

        self.check_expand(key.len())?;

        let ghost grown = *self;
        let value_offset = match self.initialize_entry(key, value) {
            Ok(v) => v,
            Err(e) => {
                return Err(e);
            },
        };

        proof {
            let used = grown.spec_used();
            assert(value_offset == used + spec_value_offset(klen));
            assert(spec_value_offset(klen) >= 8);
            assert(value_offset >= HEADER_SIZE);
            assert(value_offset + 8 == used + spec_total_len(klen));
            assert(value_offset + 8 < self.spec_bytes().len());
            if old(self).spec_bytes().len() <= used + spec_total_len(klen) {
                assert(grown.spec_len() == grown.spec_bytes().len());
                assert(value_offset < self.spec_len() + 8);
            } else {
                assert(grown == *old(self));
            }
            if used >= 4 {
                crate::raw_entry::lemma_value_in_buffer(
                    self.spec_bytes(),
                    used,
                    key@,
                    value,
                );
            }
        }

        // Where no growth happened, the read-back fails exactly when the
        // new value lands past the written data: the append condition's
        // final conjunct.
        let v = match self.load_value(value_offset) {
            Ok(v) => v,
            Err(e) => {
                return Err(e);
            },
        };
        Ok((v, value_offset))
    }

    /// Fetch the value at `position` if one is known for the key, and
    /// otherwise append a fresh record with the default value, growing the
    /// arena as needed. Returns the value's bit pattern, and the record's
    /// value offset when one was created, so the caller can remember it.
    pub fn fetch_entry(&mut self, position: Option<usize>, key: &[u8], default_value: u64) -> (r:
        Result<(u64, Option<usize>), MmapError>)
        requires
            old(self).inv(),
        ensures
            final(self).inv(),
            position matches Some(pos) ==> *final(self) == *old(self) && (r is Ok <==> pos < old(self).spec_len() + 8 && pos >= HEADER_SIZE && pos + 8 <= old(self).spec_bytes().len()),
            position matches Some(pos) ==> (r is Ok ==> r->Ok_0 == (
                le_u64(old(self).spec_bytes().subrange(pos as int, pos + 8)) as u64,
                Option::<usize>::None,
            )),
            position is None ==> (r is Ok <==> old(self).spec_can_append(key@.len() as int)),
            position is None && r is Ok ==> ({
                let used = old(self).spec_used();
                let total = spec_total_len(key@.len() as int);
                let pos = r->Ok_0.1->Some_0;
                &&& r->Ok_0.1 is Some
                &&& pos == used + spec_value_offset(key@.len() as int)
                &&& final(self).spec_used() == used + total
                &&& used >= 4 ==> final(self).spec_bytes().subrange(used, used + total)
                    == spec_entry_bytes(key@, default_value)
                &&& forall|j: int|
                    4 <= j < old(self).spec_bytes().len() && !(used <= j < used + total)
                        ==> final(self).spec_bytes()[j] == old(self).spec_bytes()[j]
                &&& pos + 8 <= final(self).spec_bytes().len()
                &&& r->Ok_0.0 == le_u64(final(self).spec_bytes().subrange(pos as int, pos + 8))
                &&& used >= 4 ==> r->Ok_0.0 == default_value
            }),
    {
        if let Some(pos) = position {
            let v = self.load_value(pos)?;
            return Ok((v, None));
        }

        match self.append_record(key, default_value) {
            Ok((v, off)) => Ok((v, Some(off))),
            Err(e) => Err(e),
        }
    }

    /// Update the value of an existing record at `position`, or append a
    /// fresh record holding `value`, growing the arena as needed. Returns
    /// the stored bit pattern, and the record's value offset when one was
    /// created.
    pub fn upsert_entry(&mut self, position: Option<usize>, key: &[u8], value: u64) -> (r: Result<
        (u64, Option<usize>),
        MmapError,
    >)
        requires
            old(self).inv(),
        ensures
            final(self).inv(),
            position matches Some(pos) ==> (r is Ok <==> pos < old(self).spec_len() + 8 && pos
                >= HEADER_SIZE && pos + 8 < old(self).spec_bytes().len()),
            position matches Some(pos) ==> (r is Ok ==> {
                &&& r->Ok_0.0 == value
                &&& r->Ok_0.1 is None
                &&& final(self).spec_bytes().subrange(pos as int, pos + 8)
                    == crate::util::le64_bytes(value as int)
                &&& forall|j: int|
                    0 <= j < final(self).spec_bytes().len() && !(pos <= j < pos + 8) ==> final(self).spec_bytes()[j] == old(self).spec_bytes()[j]
            }),
            position is None ==> (r is Ok <==> old(self).spec_can_append(key@.len() as int)),
            position is None && r is Ok ==> ({
                let used = old(self).spec_used();
                let total = spec_total_len(key@.len() as int);
                let pos = r->Ok_0.1->Some_0;
                &&& r->Ok_0.1 is Some
                &&& pos == used + spec_value_offset(key@.len() as int)
                &&& final(self).spec_used() == used + total
                &&& used >= 4 ==> final(self).spec_bytes().subrange(used, used + total)
                    == spec_entry_bytes(key@, value)
                &&& forall|j: int|
                    4 <= j < old(self).spec_bytes().len() && !(used <= j < used + total)
                        ==> final(self).spec_bytes()[j] == old(self).spec_bytes()[j]
                &&& pos + 8 <= final(self).spec_bytes().len()
                &&& r->Ok_0.0 == le_u64(final(self).spec_bytes().subrange(pos as int, pos + 8))
                &&& used >= 4 ==> r->Ok_0.0 == value
            }),
    {
        if let Some(pos) = position {
            self.save_value(pos, value)?;
            let v = match self.load_value(pos) {
                Ok(v) => v,
                Err(e) => {
                    return Err(e);
                },
            };
            proof {
                crate::util::lemma_le64_round_trip(value as int);
            }
            return Ok((v, None));
        }

        match self.append_record(key, value) {
            Ok((v, off)) => Ok((v, Some(off))),
            Err(e) => Err(e),
        }
    }
}

/// The smallest doubling of `page_size` that reaches `len`.
pub open spec fn spec_next_page_boundary(len: int, page_size: int) -> int
    recommends
        page_size > 0,
    decreases (if page_size < len { len - page_size } else { 0 }),
{
    if page_size <= 0 || page_size >= len {
        page_size
    } else {
        spec_next_page_boundary(len, 2 * page_size)
    }
}

/// The result of [`spec_next_page_boundary`] is at least the page size.
pub proof fn lemma_next_page_boundary_ge(len: int, page_size: int)
    requires
        page_size > 0,
    ensures
        spec_next_page_boundary(len, page_size) >= page_size,
    decreases (if page_size < len { len - page_size } else { 0 }),
{
    if page_size < len {
        lemma_next_page_boundary_ge(len, 2 * page_size);
    }
}

/// The smallest whole multiple-by-doubling of the system page size that
/// holds `len` bytes: what a backing file is extended to before mapping.
pub fn next_page_boundary(len: i64, page_size: i64) -> (r: Result<i64, MmapError>)
    requires
        page_size > 0,
    ensures
        r is Ok <==> spec_next_page_boundary(len as int, page_size as int) <= i64::MAX,
        r is Ok ==> r->Ok_0 == spec_next_page_boundary(len as int, page_size as int),
        r is Err ==> r->Err_0 is Overflow,
{
    let mut ps = page_size;
    while ps < len
        invariant
            0 < ps <= i64::MAX,
            spec_next_page_boundary(len as int, ps as int) == spec_next_page_boundary(
                len as int,
                page_size as int,
            ),
        decreases (if ps < len { len - ps } else { 0 }),
    {
        ps = match ps.mul_chk(2) {
            Ok(p) => p,
            Err(e) => {
                proof {
                    lemma_next_page_boundary_ge(len as int, 2 * ps as int);
                }
                return Err(e);
            },
        };
    }
    Ok(ps)
}

} // verus!
