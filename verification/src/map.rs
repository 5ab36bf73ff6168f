//! The aggregate map: one entry per record key, built by scanning each
//! source region in turn and merging records that share a key, then handed
//! out as a list sorted by key for deterministic output.
//!
//! The map is an association list with pairwise-distinct keys; a lookup
//! probes with a borrowed key and allocates only on a true miss. A probe
//! is a linear scan, where a hash map would be constant-time: regions hold
//! at most a few thousand distinct keys, and the scan compares reasoned-
//! about bytes rather than trusted hashes.

use vstd::prelude::*;

use crate::error::MmapError;
use crate::file_entry::{BorrowedData, EntryData, EntryMetadata, FileEntry, FileInfo};
use crate::raw_entry::{spec_total_len, spec_value_offset, valid_encoded_len, RawEntry};
use crate::util::{dec_str, le_u32, le_u64, read_u32, slices_eq, usize_to_string};
use crate::HEADER_SIZE;

verus! {

/// A record key: the metric text, and the pid where significant.
pub type SpecKey = (Seq<u8>, Option<Seq<u8>>);

/// The mathematical content of one aggregate-map entry.
pub struct EntryKV {
    pub key: SpecKey,
    pub meta: EntryMetadata,
}

/// The mathematical content of a list of entries.
pub open spec fn entry_views(s: Seq<FileEntry>) -> Seq<EntryKV> {
    s.map_values(|e: FileEntry| EntryKV { key: e.data.spec_key(), meta: e.meta })
}

/// Unfolds one position of [`entry_views`].
pub proof fn lemma_entry_views_index(s: Seq<FileEntry>, i: int)
    requires
        0 <= i < s.len(),
    ensures
        entry_views(s).len() == s.len(),
        entry_views(s)[i] == (EntryKV { key: s[i].data.spec_key(), meta: s[i].meta }),
{
}

/// Index of the entry holding `key`, or `-1` when no entry does.
pub open spec fn spec_find(s: Seq<EntryKV>, key: SpecKey) -> int
    decreases s.len(),
{
    if s.len() == 0 {
        -1
    } else if s[0].key == key {
        0
    } else {
        let r = spec_find(s.drop_first(), key);
        if r == -1 {
            -1
        } else {
            r + 1
        }
    }
}

/// What storing one record does to the map: merge into the entry that
/// holds the key, or append a new entry.
pub open spec fn spec_store_step(s: Seq<EntryKV>, key: SpecKey, meta: EntryMetadata) -> Seq<
    EntryKV,
> {
    let i = spec_find(s, key);
    if i == -1 {
        s.push(EntryKV { key, meta })
    } else {
        s.update(i, EntryKV { key, meta: s[i].meta.spec_merge(meta) })
    }
}

/// `spec_find` returns either `-1` or a position holding the key.
pub proof fn lemma_spec_find(s: Seq<EntryKV>, key: SpecKey)
    ensures
        spec_find(s, key) == -1 ==> forall|i: int| 0 <= i < s.len() ==> s[i].key != key,
        spec_find(s, key) != -1 ==> 0 <= spec_find(s, key) < s.len() && s[spec_find(s, key)].key
            == key,
    decreases s.len(),
{
    if s.len() != 0 && s[0].key != key {
        lemma_spec_find(s.drop_first(), key);
        assert forall|i: int| 1 <= i < s.len() implies s.drop_first()[i - 1] == s[i] by {}
    }
}

/// One record of a region's stream: key bytes and value bit pattern.
pub struct RawRecord {
    pub key: Seq<u8>,
    pub value: u64,
}

/// The records of the stream `s[pos .. used]`, or `None` where a record is
/// malformed: an over-long key length, or a record length past `used`.
/// Scanning stops when fewer than four bytes of the stream remain.
pub open spec fn spec_scan(s: Seq<u8>, pos: int, used: int) -> Option<Seq<RawRecord>>
    decreases used - pos,
{
    if !(0 <= pos && pos + 4 < used && used <= s.len()) {
        Some(seq![])
    } else {
        let enc = le_u32(s.subrange(pos, pos + 4));
        if !valid_encoded_len(enc) {
            None
        } else {
            let total = spec_total_len(enc);
            if pos + total > used {
                None
            } else {
                let key = s.subrange(pos + 4, pos + 4 + enc);
                let value = le_u64(s.subrange(pos + spec_value_offset(enc), pos + total)) as u64;
                match spec_scan(s, pos + total, used) {
                    Some(rest) => Some(seq![RawRecord { key, value }] + rest),
                    None => None,
                }
            }
        }
    }
}

/// The position of the first malformed record of the stream `s[pos ..
/// used]`: where the scan stops short, this is the record it stopped at
/// (and `pos` itself when the stream holds no record at all).
pub open spec fn spec_scan_fail_pos(s: Seq<u8>, pos: int, used: int) -> int
    decreases used - pos,
{
    if !(0 <= pos && pos + 4 < used && used <= s.len()) {
        pos
    } else {
        let enc = le_u32(s.subrange(pos, pos + 4));
        if !valid_encoded_len(enc) {
            pos
        } else {
            let total = spec_total_len(enc);
            if pos + total > used {
                pos
            } else {
                spec_scan_fail_pos(s, pos + total, used)
            }
        }
    }
}

/// The records of the stream's well-formed prefix: scanning stops at the
/// first malformed record instead of failing.
pub open spec fn spec_scan_prefix(s: Seq<u8>, pos: int, used: int) -> Seq<RawRecord>
    decreases used - pos,
{
    if !(0 <= pos && pos + 4 < used && used <= s.len()) {
        seq![]
    } else {
        let enc = le_u32(s.subrange(pos, pos + 4));
        if !valid_encoded_len(enc) {
            seq![]
        } else {
            let total = spec_total_len(enc);
            if pos + total > used {
                seq![]
            } else {
                let key = s.subrange(pos + 4, pos + 4 + enc);
                let value = le_u64(s.subrange(pos + spec_value_offset(enc), pos + total)) as u64;
                seq![RawRecord { key, value }] + spec_scan_prefix(s, pos + total, used)
            }
        }
    }
}

/// What storing a stream of records does to the map, given the metadata the
/// source region assigns and whether its pid is part of the key. `None`
/// where a record's key is not UTF-8.
pub open spec fn spec_store_all(
    s: Seq<EntryKV>,
    records: Seq<RawRecord>,
    mode: crate::file_entry::AggregationMode,
    type_: crate::file_entry::MetricType,
    pid: Seq<u8>,
    pid_sig: bool,
) -> Option<Seq<EntryKV>>
    decreases records.len(),
{
    if records.len() == 0 {
        Some(s)
    } else if !vstd::utf8::valid_utf8(records[0].key) {
        None
    } else {
        let key = (
            records[0].key,
            if pid_sig {
                Some(pid)
            } else {
                None
            },
        );
        let meta = EntryMetadata { multiprocess_mode: mode, type_, value: records[0].value };
        spec_store_all(spec_store_step(s, key, meta), records.drop_first(), mode, type_, pid, pid_sig)
    }
}

/// Byte-lexicographic order: `a` is no later than `b`.
pub open spec fn bytes_le(a: Seq<u8>, b: Seq<u8>) -> bool
    decreases a.len(),
{
    if a.len() == 0 {
        true
    } else if b.len() == 0 {
        false
    } else if a[0] < b[0] {
        true
    } else if a[0] > b[0] {
        false
    } else {
        bytes_le(a.drop_first(), b.drop_first())
    }
}

/// The order is total.
pub proof fn lemma_bytes_le_total(a: Seq<u8>, b: Seq<u8>)
    ensures
        bytes_le(a, b) || bytes_le(b, a),
    decreases a.len(),
{
    if a.len() != 0 && b.len() != 0 && a[0] == b[0] {
        lemma_bytes_le_total(a.drop_first(), b.drop_first());
    }
}

/// Sort order of the final record list: by metric text, then by pid, an
/// absent pid first.
pub open spec fn spec_key_le(a: SpecKey, b: SpecKey) -> bool {
    if a.0 == b.0 {
        match (a.1, b.1) {
            (Option::None, _) => true,
            (Option::Some(_), Option::None) => false,
            (Option::Some(x), Option::Some(y)) => bytes_le(x, y),
        }
    } else {
        bytes_le(a.0, b.0)
    }
}

/// The order is reflexive.
pub proof fn lemma_bytes_le_refl(a: Seq<u8>)
    ensures
        bytes_le(a, a),
    decreases a.len(),
{
    if a.len() != 0 {
        lemma_bytes_le_refl(a.drop_first());
    }
}

/// The order is antisymmetric.
pub proof fn lemma_bytes_le_antisym(a: Seq<u8>, b: Seq<u8>)
    requires
        bytes_le(a, b),
        bytes_le(b, a),
    ensures
        a == b,
    decreases a.len(),
{
    if a.len() != 0 && b.len() != 0 {
        assert(a[0] == b[0]);
        lemma_bytes_le_antisym(a.drop_first(), b.drop_first());
        assert(a.len() == b.len());
        assert forall|i: int| 0 <= i < a.len() implies a[i] == b[i] by {
            if i > 0 {
                assert(a.drop_first()[i - 1] == b.drop_first()[i - 1]);
            }
        }
        assert(a =~= b);
    } else {
        assert(a =~= b);
    }
}

/// The order is transitive.
pub proof fn lemma_bytes_le_trans(a: Seq<u8>, b: Seq<u8>, c: Seq<u8>)
    requires
        bytes_le(a, b),
        bytes_le(b, c),
    ensures
        bytes_le(a, c),
    decreases a.len(),
{
    if a.len() != 0 && b.len() != 0 && c.len() != 0 && a[0] == b[0] && b[0] == c[0] {
        lemma_bytes_le_trans(a.drop_first(), b.drop_first(), c.drop_first());
    }
}

/// The sort order is total.
pub proof fn lemma_key_le_total(a: SpecKey, b: SpecKey)
    ensures
        spec_key_le(a, b) || spec_key_le(b, a),
{
    lemma_bytes_le_total(a.0, b.0);
    if a.1 is Some && b.1 is Some {
        lemma_bytes_le_total(a.1->0, b.1->0);
    }
}

/// The sort order is reflexive.
pub proof fn lemma_key_le_refl(a: SpecKey)
    ensures
        spec_key_le(a, a),
{
    lemma_bytes_le_refl(a.0);
    if a.1 is Some {
        lemma_bytes_le_refl(a.1->0);
    }
}

/// The sort order is transitive.
pub proof fn lemma_key_le_trans(a: SpecKey, b: SpecKey, c: SpecKey)
    ensures
        spec_key_le(a, b) && spec_key_le(b, c) ==> spec_key_le(a, c),
{
    if spec_key_le(a, b) && spec_key_le(b, c) {
        if a.0 == b.0 && b.0 == c.0 {
            if a.1 is Some && b.1 is Some && c.1 is Some {
                lemma_bytes_le_trans(a.1->0, b.1->0, c.1->0);
            }
        } else if a.0 == b.0 {
        } else if b.0 == c.0 {
        } else {
            lemma_bytes_le_trans(a.0, b.0, c.0);
            if a.0 == c.0 {
                lemma_bytes_le_antisym(a.0, b.0);
            }
        }
    }
}

/// Byte-lexicographic comparison.
pub fn bytes_le_exec(a: &[u8], b: &[u8]) -> (r: bool)
    ensures
        r == bytes_le(a@, b@),
{
    let n = if a.len() < b.len() {
        a.len()
    } else {
        b.len()
    };
    proof {
        assert(a@.skip(0) =~= a@);
        assert(b@.skip(0) =~= b@);
    }
    let mut i: usize = 0;
    while i < n
        invariant
            0 <= i <= n,
            n == (if a@.len() < b@.len() {
                a@.len() as int
            } else {
                b@.len() as int
            }),
            bytes_le(a@, b@) == bytes_le(a@.skip(i as int), b@.skip(i as int)),
        decreases n - i,
    {
        let x = *vstd::slice::slice_index_get(a, i);
        let y = *vstd::slice::slice_index_get(b, i);
        if x < y {
            return true;
        }
        if x > y {
            return false;
        }
        proof {
            assert(a@.skip(i as int).drop_first() =~= a@.skip(i + 1));
            assert(b@.skip(i as int).drop_first() =~= b@.skip(i + 1));
        }
        i = i + 1;
    }
    proof {
        if a@.len() <= b@.len() {
            assert(a@.skip(i as int).len() == 0);
        } else {
            assert(b@.skip(i as int).len() == 0);
            assert(a@.skip(i as int).len() > 0);
        }
    }
    a.len() <= b.len()
}

/// Comparison of two record keys in the sort order.
pub fn key_le(a: &EntryData, b: &EntryData) -> (r: bool)
    ensures
        r == spec_key_le(a.spec_key(), b.spec_key()),
{
    if slices_eq(a.json.as_slice(), b.json.as_slice()) {
        match (&a.pid, &b.pid) {
            (None, _) => true,
            (Some(_), None) => false,
            (Some(x), Some(y)) => bytes_le_exec(x.as_slice(), y.as_slice()),
        }
    } else {
        bytes_le_exec(a.json.as_slice(), b.json.as_slice())
    }
}

/// The aggregate map: one entry per record key.
pub struct EntryMap {
    entries: Vec<FileEntry>,
}

impl EntryMap {
    /// The entries' mathematical content, in insertion order.
    pub closed spec fn view_entries(self) -> Seq<EntryKV> {
        entry_views(self.entries@)
    }

    /// Keys are pairwise distinct.
    pub open spec fn wf(self) -> bool {
        forall|i: int, j: int|
            0 <= i < j < self.view_entries().len() ==> #[trigger] self.view_entries()[i].key
                != #[trigger] self.view_entries()[j].key
    }

    /// Construct a new, empty map.
    pub fn new() -> (r: EntryMap)
        ensures
            r.wf(),
            r.view_entries() == Seq::<EntryKV>::empty(),
    {
        let r = EntryMap { entries: Vec::new() };
        proof {
            assert(r.view_entries() =~= Seq::<EntryKV>::empty());
        }
        r
    }

    /// If the map already contains the key, merge the value into the
    /// existing entry; otherwise copy the key and insert a new entry.
    /// Fails only when allocating the copy fails.
    pub fn merge_or_store(&mut self, data: BorrowedData<'_>, meta: EntryMetadata) -> (r: Result<
        (),
        MmapError,
    >)
        requires
            old(self).wf(),
        ensures
            final(self).wf(),
            r is Ok ==> final(self).view_entries() == spec_store_step(
                old(self).view_entries(),
                data.spec_key(),
                meta,
            ),
            spec_find(old(self).view_entries(), data.spec_key()) != -1 ==> r is Ok,
            r is Err ==> *final(self) == *old(self) && r->Err_0 is OutOfMemory,
    {
        let ghost key = data.spec_key();
        let n = self.entries.len();
        let mut i: usize = 0;
        while i < n
            invariant
                *self == *old(self),
                old(self).wf(),
                key == data.spec_key(),
                n == self.entries@.len(),
                0 <= i <= n,
                forall|j: int| 0 <= j < i ==> #[trigger] self.entries@[j].data.spec_key() != key,
            decreases n - i,
        {
            let hit = vstd::std_specs::vec::vec_index(&self.entries, i).data.matches(&data);

            if hit {
                let ghost vs = old(self).view_entries();
                proof {
                    lemma_entry_views_index(old(self).entries@, i as int);
                    assert forall|j: int| 0 <= j < i implies #[trigger] vs[j].key != key by {
                        lemma_entry_views_index(old(self).entries@, j);
                    }
                }
                let entry = vstd::std_specs::vec::vec_index_mut(&mut self.entries, i);
                entry.meta.merge(&meta);
                proof {
                    assert(vs[i as int].key == key);
                    lemma_find_first(vs, key, i as int);
                    assert forall|x: int| 0 <= x < self.entries@.len() implies #[trigger] self.view_entries()[x] == spec_store_step(vs, key, meta)[x] by {
                        lemma_entry_views_index(self.entries@, x);
                        lemma_entry_views_index(old(self).entries@, x);
                    }
                    assert(self.view_entries() =~= spec_store_step(vs, key, meta));
                    assert forall|x: int| 0 <= x < self.view_entries().len() implies #[trigger] self.view_entries()[x].key == vs[x].key by {
                        lemma_entry_views_index(self.entries@, x);
                        lemma_entry_views_index(old(self).entries@, x);
                    }
                    assert forall|i1: int, j1: int|
                        0 <= i1 < j1 < self.view_entries().len() implies #[trigger] self.view_entries()[i1].key != #[trigger] self.view_entries()[j1].key by {
                        assert(self.view_entries()[i1].key == vs[i1].key);
                        assert(self.view_entries()[j1].key == vs[j1].key);
                    }
                }
                return Ok(());
            }
            i = i + 1;
        }

        let owned = match EntryData::from_borrowed(data) {
            Ok(o) => o,
            Err(e) => {
                proof {
                    assert forall|j: int|
                        0 <= j < old(self).view_entries().len() implies #[trigger] old(self).view_entries()[j].key != key by {
                        lemma_entry_views_index(old(self).entries@, j);
                    }
                    if spec_find(old(self).view_entries(), key) != -1 {
                        lemma_spec_find(old(self).view_entries(), key);
                    }
                }
                return Err(e);
            },
        };
        self.entries.push(FileEntry { data: owned, meta });
        proof {
            let ghost vs = old(self).view_entries();
            assert forall|j: int| 0 <= j < vs.len() implies #[trigger] vs[j].key != key by {
                lemma_entry_views_index(old(self).entries@, j);
            }
            if spec_find(vs, key) != -1 {
                lemma_spec_find(vs, key);
            }
            assert(spec_find(vs, key) == -1);
            assert forall|x: int| 0 <= x < self.entries@.len() implies #[trigger] self.view_entries()[x] == spec_store_step(vs, key, meta)[x] by {
                lemma_entry_views_index(self.entries@, x);
                if x < old(self).entries@.len() {
                    lemma_entry_views_index(old(self).entries@, x);
                }
            }
            assert(self.view_entries() =~= spec_store_step(vs, key, meta));
            assert forall|i1: int, j1: int|
                0 <= i1 < j1 < self.view_entries().len() implies #[trigger] self.view_entries()[i1].key
                != #[trigger] self.view_entries()[j1].key by {
                if j1 == self.view_entries().len() - 1 {
                    assert(self.view_entries()[i1] == vs[i1]);
                }
            }
        }
        Ok(())
    }

    /// Consume the map, returning its entries sorted by key: by metric
    /// text and then by pid, both byte-lexicographic.
    pub fn into_sorted(self) -> (r: Result<Vec<FileEntry>, MmapError>)
        ensures
            r is Ok,
            r->Ok_0@.to_multiset() == self.view_seq().to_multiset(),
            forall|i: int, j: int|
                0 <= i < j < r->Ok_0@.len() ==> spec_key_le(
                    #[trigger] r->Ok_0@[i].data.spec_key(),
                    #[trigger] r->Ok_0@[j].data.spec_key(),
                ),
    {
        broadcast use vstd::seq_lib::group_to_multiset_ensures;

        let mut src = self.entries;
        let ghost orig = src@;
        let mut out: Vec<FileEntry> = Vec::new();
        proof {
            assert(out@.to_multiset().add(src@.to_multiset()) =~= orig.to_multiset()) by {
                out@.to_multiset_ensures();
                src@.to_multiset_ensures();
            }
        }
        while src.len() > 0
            invariant
                out@.to_multiset().add(src@.to_multiset()) =~= orig.to_multiset(),
                forall|i: int, j: int|
                    0 <= i < j < out@.len() ==> spec_key_le(
                        #[trigger] out@[i].data.spec_key(),
                        #[trigger] out@[j].data.spec_key(),
                    ),
                forall|i: int, j: int|
                    0 <= i < out@.len() && 0 <= j < src@.len() ==> spec_key_le(
                        #[trigger] out@[i].data.spec_key(),
                        #[trigger] src@[j].data.spec_key(),
                    ),
            decreases src@.len(),
        {
            let n = src.len();
            let mut m: usize = 0;
            let mut k: usize = 1;
            proof {
                lemma_key_le_refl(src@[0].data.spec_key());
            }
            while k < n
                invariant
                    n == src@.len(),
                    0 <= m < k <= n,
                    forall|j: int|
                        0 <= j < k ==> spec_key_le(
                            src@[m as int].data.spec_key(),
                            #[trigger] src@[j].data.spec_key(),
                        ),
                decreases n - k,
            {
                let smaller = key_le(&src.as_slice()[k].data, &src.as_slice()[m].data);
                proof {
                    lemma_key_le_total(
                        src@[k as int].data.spec_key(),
                        src@[m as int].data.spec_key(),
                    );
                    lemma_key_le_refl(src@[k as int].data.spec_key());
                    if smaller {
                        assert forall|j: int| 0 <= j < k + 1 implies spec_key_le(
                            src@[k as int].data.spec_key(),
                            #[trigger] src@[j].data.spec_key(),
                        ) by {
                            if j < k {
                                lemma_key_le_trans(
                                    src@[k as int].data.spec_key(),
                                    src@[m as int].data.spec_key(),
                                    src@[j].data.spec_key(),
                                );
                            }
                        }
                    }
                }
                if smaller {
                    m = k;
                }
                k = k + 1;
            }
            let ghost src_before = src@;
            let ghost out_before = out@;
            let e = src.remove(m);
            out.push(e);
            proof {
                src_before.to_multiset_ensures();
                out_before.to_multiset_ensures();
                assert(out@.to_multiset().add(src@.to_multiset()) =~= orig.to_multiset());
            }
        }
        proof {
            assert(src@.to_multiset() =~= Seq::<FileEntry>::empty().to_multiset());
            assert(out@.to_multiset() =~= orig.to_multiset());
        }
        Ok(out)
    }

    /// The entries' mathematical content as stored (kept abstract so the
    /// sort can speak of whole entries).
    pub closed spec fn view_seq(self) -> Seq<FileEntry> {
        self.entries@
    }

    /// How many distinct keys the map holds.
    pub fn len(&self) -> (n: usize)
        ensures
            n == self.view_entries().len(),
    {
        self.entries.len()
    }

    /// The metadata stored under the borrowed key, if any.
    pub fn get(&self, data: &BorrowedData<'_>) -> (r: Option<EntryMetadata>)
        ensures
            r is Some <==> spec_find(self.view_entries(), data.spec_key()) != -1,
            r matches Some(meta) ==> meta == self.view_entries()[spec_find(
                self.view_entries(),
                data.spec_key(),
            )].meta,
    {
        let ghost key = data.spec_key();
        let n = self.entries.len();
        let mut i: usize = 0;
        while i < n
            invariant
                key == data.spec_key(),
                n == self.entries@.len(),
                0 <= i <= n,
                forall|j: int| 0 <= j < i ==> #[trigger] self.entries@[j].data.spec_key() != key,
            decreases n - i,
        {
            let hit = vstd::std_specs::vec::vec_index(&self.entries, i).data.matches(data);
            if hit {
                proof {
                    lemma_entry_views_index(self.entries@, i as int);
                    assert forall|j: int| 0 <= j < i implies #[trigger] self.view_entries()[j].key
                        != key by {
                        lemma_entry_views_index(self.entries@, j);
                    }
                    lemma_find_first(self.view_entries(), key, i as int);
                }
                return Some(self.entries[i].meta);
            }
            i = i + 1;
        }
        proof {
            assert forall|j: int|
                0 <= j < self.view_entries().len() implies #[trigger] self.view_entries()[j].key
                != key by {
                lemma_entry_views_index(self.entries@, j);
            }
            if spec_find(self.view_entries(), key) != -1 {
                lemma_spec_find(self.view_entries(), key);
            }
        }
        None
    }

    /// Parse the record stream of one region and store every record.
    /// A `used` header larger than the region is a fatal corruption error,
    /// raised before any record is merged; a malformed record or a
    /// non-UTF-8 key aborts the region's scan where it stands.
    pub fn process_buffer(&mut self, file_info: &FileInfo, source: &[u8]) -> (r: Result<
        (),
        MmapError,
    >)
        requires
            old(self).wf(),
        ensures
            final(self).wf(),
            source@.len() < HEADER_SIZE ==> r is Ok && *final(self) == *old(self),
            source@.len() >= HEADER_SIZE && le_u32(source@.subrange(0, 4)) > source@.len() ==> ({
                &&& r is Err
                &&& *final(self) == *old(self)
                &&& r->Err_0 matches MmapError::PromParsing(m)
                &&& m@ == corrupt_msg(
                    file_info.path@,
                    le_u32(source@.subrange(0, 4)),
                    source@.len() as int,
                )
            }),
            r is Ok && source@.len() >= HEADER_SIZE ==> ({
                let used = le_u32(source@.subrange(0, 4));
                &&& used <= source@.len()
                &&& spec_scan_store(
                    source@,
                    HEADER_SIZE as int,
                    used,
                    old(self).view_entries(),
                    *file_info,
                ) == Some(final(self).view_entries())
            }),
            source@.len() >= HEADER_SIZE && le_u32(source@.subrange(0, 4)) <= source@.len()
                && spec_scan(source@, HEADER_SIZE as int, le_u32(source@.subrange(0, 4))) is None
                ==> r is Err,
            source@.len() >= HEADER_SIZE && le_u32(source@.subrange(0, 4)) <= source@.len()
                && spec_scan_store(
                source@,
                HEADER_SIZE as int,
                le_u32(source@.subrange(0, 4)),
                old(self).view_entries(),
                *file_info,
            ) is Some ==> r is Ok || r->Err_0 is OutOfMemory,
            r is Err ==> ({
                ||| r->Err_0 is OutOfMemory
                ||| r->Err_0 is PromParsing
                ||| r->Err_0 is Encoding
                ||| r->Err_0 == MmapError::KeyLength
                ||| r->Err_0 is OutOfBounds
            }),
            source@.len() >= HEADER_SIZE && le_u32(source@.subrange(0, 4)) <= source@.len()
                && spec_scan(source@, HEADER_SIZE as int, le_u32(source@.subrange(0, 4))) == Some(
                Seq::<RawRecord>::empty(),
            ) ==> r is Ok,
            r is Err && r->Err_0 is OutOfBounds && source@.len() >= HEADER_SIZE && le_u32(
                source@.subrange(0, 4),
            ) <= source@.len() ==> ({
                let used = le_u32(source@.subrange(0, 4));
                let p = spec_scan_fail_pos(source@, HEADER_SIZE as int, used);
                crate::error::is_oob_err(
                    r->Err_0,
                    spec_total_len(le_u32(source@.subrange(p, p + 4))),
                    used - p,
                )
            }),
            r is Err && (r->Err_0 is OutOfBounds || r->Err_0 == MmapError::KeyLength)
                && source@.len() >= HEADER_SIZE && le_u32(source@.subrange(0, 4))
                <= source@.len() ==> spec_store_all(
                old(self).view_entries(),
                spec_scan_prefix(source@, HEADER_SIZE as int, le_u32(source@.subrange(0, 4))),
                file_info.multiprocess_mode,
                file_info.type_,
                file_info.pid@,
                spec_pid_sig(*file_info),
            ) == Some(final(self).view_entries()),
    {
        if source.len() < HEADER_SIZE {
            return Ok(());
        }

        let used = match read_u32(source, 0) {
            Ok(u) => u as usize,
            Err(e) => {
                proof {
                    assert(false);
                }
                return Err(e);
            },
        };

        if used > source.len() {
            let mut msg = String::from_str("source file ");
            msg.append(file_info.path.as_str());
            msg.append(" corrupted, used ");
            msg.append(usize_to_string(used).as_str());
            msg.append(" > file size ");
            msg.append(usize_to_string(source.len()).as_str());
            proof {
                assert(msg@ =~= corrupt_msg(
                    file_info.path@,
                    le_u32(source@.subrange(0, 4)),
                    source@.len() as int,
                ));
            }
            return Err(MmapError::PromParsing(msg));
        }

        let mut pos: usize = HEADER_SIZE;
        while pos < used && used - pos > 4
            invariant
                self.wf(),

                HEADER_SIZE <= pos,

                used <= source@.len(),
                used == le_u32(source@.subrange(0, 4)),
                pos == HEADER_SIZE || HEADER_SIZE + 4 < used,
                spec_scan_fail_pos(source@, HEADER_SIZE as int, used as int)
                    == spec_scan_fail_pos(source@, pos as int, used as int),
                spec_scan_store(
                    source@,
                    pos as int,
                    used as int,
                    self.view_entries(),
                    *file_info,
                ) == spec_scan_store(
                    source@,
                    HEADER_SIZE as int,
                    used as int,
                    old(self).view_entries(),
                    *file_info,
                ),
                spec_store_all(
                    self.view_entries(),
                    spec_scan_prefix(source@, pos as int, used as int),
                    file_info.multiprocess_mode,
                    file_info.type_,
                    file_info.pid@,
                    spec_pid_sig(*file_info),
                ) == spec_store_all(
                    old(self).view_entries(),
                    spec_scan_prefix(source@, HEADER_SIZE as int, used as int),
                    file_info.multiprocess_mode,
                    file_info.type_,
                    file_info.pid@,
                    spec_pid_sig(*file_info),
                ),
            decreases used - pos,
        {
            let ghost views0 = self.view_entries();
            let sub = vstd::slice::slice_subrange(source, pos, used);
            proof {
                assert(sub@.subrange(0, 4) =~= source@.subrange(pos as int, pos + 4));
                // The stream holds at least one record, so the empty-stream
                // success clause cannot be at issue on any error path here.
                assert(spec_scan(source@, HEADER_SIZE as int, used as int) != Some(
                    Seq::<RawRecord>::empty(),
                ));
            }
            let raw_entry = match RawEntry::from_slice(sub) {
                Ok(e) => e,
                Err(e) => {
                    proof {
                        assert(spec_scan(source@, pos as int, used as int) is None);
                        assert(spec_scan_fail_pos(source@, pos as int, used as int)
                            == pos as int);
                        assert(spec_scan_prefix(source@, pos as int, used as int)
                            =~= Seq::<RawRecord>::empty());
                        assert(spec_store_all(
                            views0,
                            Seq::<RawRecord>::empty(),
                            file_info.multiprocess_mode,
                            file_info.type_,
                            file_info.pid@,
                            spec_pid_sig(*file_info),
                        ) == Some(views0));
                        assert(e is OutOfBounds || e == MmapError::KeyLength) by {
                            if !(sub@.len() < 4) && crate::raw_entry::valid_encoded_len(
                                le_u32(sub@.subrange(0, 4)),
                            ) {
                                assert(crate::error::is_oob_err(
                                    e,
                                    spec_total_len(le_u32(sub@.subrange(0, 4))),
                                    sub@.len() as int,
                                ));
                            } else if !(sub@.len() < 4) {
                            } else {
                                assert(crate::error::is_oob_err(e, 0, sub@.len() as int));
                            }
                        }
                    }
                    return Err(e);
                },
            };
            let ghost enc = raw_entry.encoded_len as int;
            let ghost total = spec_total_len(enc);
            let ghost rec = RawRecord {
                key: source@.subrange(pos + 4, pos + 4 + enc),
                value: le_u64(
                    source@.subrange(pos + spec_value_offset(enc), pos + total),
                ) as u64,
            };
            proof {
                assert(raw_entry.spec_json() =~= rec.key);
                assert(sub@.subrange(4 + enc + crate::raw_entry::spec_padding_len(enc), total - 4
                    + 4) =~= source@.subrange(pos + spec_value_offset(enc), pos + total));
                assert(raw_entry.spec_value() == rec.value);
                assert(spec_scan(source@, pos as int, used as int) matches Some(rs) && rs
                    == seq![rec] + spec_scan(source@, pos + total, used as int)->Some_0
                    || spec_scan(source@, pos + total, used as int) is None && spec_scan(
                    source@,
                    pos as int,
                    used as int,
                ) is None);
            }

            let meta = match EntryMetadata::new(&raw_entry, file_info) {
                Ok(m) => m,
                Err(e) => {
                    proof {
                        assert(false);
                    }
                    return Err(e);
                },
            };
            let pid_significant = meta.is_pid_significant();
            let data = match BorrowedData::new(&raw_entry, file_info, pid_significant) {
                Ok(d) => d,
                Err(e) => {
                    proof {
                        let rest = spec_scan(source@, pos + total, used as int);
                        if rest is Some {
                            lemma_store_all_unfold(
                                views0,
                                rec,
                                rest->Some_0,
                                file_info.multiprocess_mode,
                                file_info.type_,
                                file_info.pid@,
                                spec_pid_sig(*file_info),
                            );
                        }
                        assert(spec_scan_store(
                            source@,
                            pos as int,
                            used as int,
                            views0,
                            *file_info,
                        ) is None);
                    }
                    return Err(e);
                },
            };

            match self.merge_or_store(data, meta) {
                Ok(_) => {},
                Err(e) => {
                    return Err(e);
                },
            }

            proof {
                let rest = spec_scan(source@, pos + total, used as int);
                if rest is Some {
                    lemma_store_all_unfold(
                        views0,
                        rec,
                        rest->Some_0,
                        file_info.multiprocess_mode,
                        file_info.type_,
                        file_info.pid@,
                        spec_pid_sig(*file_info),
                    );
                }
                assert(spec_scan_fail_pos(source@, pos as int, used as int)
                    == spec_scan_fail_pos(source@, pos + total, used as int));
                assert(spec_scan_prefix(source@, pos as int, used as int) == seq![rec]
                    + spec_scan_prefix(source@, pos + total, used as int));
                lemma_store_all_unfold(
                    views0,
                    rec,
                    spec_scan_prefix(source@, pos + total, used as int),
                    file_info.multiprocess_mode,
                    file_info.type_,
                    file_info.pid@,
                    spec_pid_sig(*file_info),
                );
            }
            pos = pos + raw_entry.total_len();
        }
        Ok(())
    }

    /// Read each region buffer in turn into the map.
    pub fn aggregate_files(&mut self, list: &Vec<(FileInfo, Vec<u8>)>) -> (r: Result<
        (),
        MmapError,
    >)
        requires
            old(self).wf(),
        ensures
            final(self).wf(),
            r is Ok ==> spec_aggregate(old(self).view_entries(), list@) == Some(
                final(self).view_entries(),
            ),
            r is Err ==> spec_aggregate(old(self).view_entries(), list@) is None || r->Err_0
                is OutOfMemory,
            r is Err ==> ({
                ||| r->Err_0 is OutOfMemory
                ||| r->Err_0 is PromParsing
                ||| r->Err_0 is Encoding
                ||| r->Err_0 == MmapError::KeyLength
                ||| r->Err_0 is OutOfBounds
            }),
    {
        let n = list.len();
        let mut idx: usize = 0;
        proof {
            assert(list@.skip(0) =~= list@);
        }
        while idx < n
            invariant
                self.wf(),
                n == list@.len(),
                0 <= idx <= n,
                spec_aggregate(self.view_entries(), list@.skip(idx as int)) == spec_aggregate(
                    old(self).view_entries(),
                    list@,
                ),
            decreases n - idx,
        {
            let ghost views0 = self.view_entries();
            proof {
                assert(list@.skip(idx as int)[0] == list@[idx as int]);
                assert(list@.skip(idx as int).drop_first() =~= list@.skip(idx + 1));
            }
            let item = vstd::std_specs::vec::vec_index(list, idx);
            match self.process_buffer(&item.0, item.1.as_slice()) {
                Ok(_) => {},
                Err(e) => {
                    proof {
                        let s0 = item.1@;
                        if !(e is OutOfMemory) {
                            assert(spec_aggregate(views0, list@.skip(idx as int)) is None);
                        }
                    }
                    return Err(e);
                },
            }
            idx = idx + 1;
        }
        proof {
            assert(list@.skip(n as int).len() == 0);
        }
        Ok(())
    }
}

/// Read the region buffers provided and convert their merged records to a
/// Prometheus text exposition: aggregate, sort by key, render.
pub fn to_metrics(file_list: Vec<(FileInfo, Vec<u8>)>) -> (r: Result<Vec<u8>, MmapError>)
    ensures
        r is Ok ==> spec_aggregate(Seq::<EntryKV>::empty(), file_list@) is Some,
        r is Err ==> ({
            ||| spec_aggregate(Seq::<EntryKV>::empty(), file_list@) is None
            ||| r->Err_0 is OutOfMemory
            ||| r->Err_0 is Legacy
        }),
        r is Ok ==> exists|aggregated: Seq<FileEntry>, sorted: Seq<FileEntry>|
            {
                &&& #[trigger] entry_views(aggregated) == spec_aggregate(
                    Seq::<EntryKV>::empty(),
                    file_list@,
                )->Some_0
                &&& #[trigger] sorted.to_multiset() == aggregated.to_multiset()
                &&& forall|i: int, j: int|
                    0 <= i < j < sorted.len() ==> spec_key_le(
                        #[trigger] sorted[i].data.spec_key(),
                        #[trigger] sorted[j].data.spec_key(),
                    )
                &&& crate::file_entry::spec_entries_text(sorted, None).1 == sorted.len()
                &&& r->Ok_0@ == crate::file_entry::spec_entries_text(sorted, None).0
            },
        r is Err && r->Err_0 is Legacy ==> spec_aggregate(
            Seq::<EntryKV>::empty(),
            file_list@,
        ) is Some,
        r is Err && r->Err_0 is Legacy ==> exists|
            aggregated: Seq<FileEntry>,
            sorted: Seq<FileEntry>,
        |
            {
                &&& #[trigger] entry_views(aggregated) == spec_aggregate(
                    Seq::<EntryKV>::empty(),
                    file_list@,
                )->Some_0
                &&& #[trigger] sorted.to_multiset() == aggregated.to_multiset()
                &&& forall|i: int, j: int|
                    0 <= i < j < sorted.len() ==> spec_key_le(
                        #[trigger] sorted[i].data.spec_key(),
                        #[trigger] sorted[j].data.spec_key(),
                    )
                &&& crate::file_entry::spec_entries_text(sorted, None).1 != sorted.len()
                &&& (r->Err_0 matches MmapError::Legacy { msg, ruby_err } && msg@
                    == crate::file_entry::processed_msg(
                    crate::file_entry::spec_entries_text(sorted, None).1,
                    sorted.len() as int,
                ) && ruby_err == crate::error::RubyError::Runtime)
            },
{
    let mut map = EntryMap::new();
    match map.aggregate_files(&file_list) {
        Ok(_) => {},
        Err(e) => {
            return Err(e);
        },
    }
    let ghost aggregated = map.view_seq();
    let sorted = match map.into_sorted() {
        Ok(s) => s,
        Err(e) => {
            return Err(e);
        },
    };
    let ghost sorted_v = sorted@;
    match FileEntry::entries_to_string(sorted) {
        Ok(out) => {
            proof {
                assert(entry_views(aggregated) == spec_aggregate(
                    Seq::<EntryKV>::empty(),
                    file_list@,
                )->Some_0 && sorted_v.to_multiset() == aggregated.to_multiset());
            }
            Ok(out)
        },
        Err(e) => {
            proof {
                assert(entry_views(aggregated) == spec_aggregate(
                    Seq::<EntryKV>::empty(),
                    file_list@,
                )->Some_0 && sorted_v.to_multiset() == aggregated.to_multiset());
            }
            Err(e)
        },
    }
}

/// Read the region buffers provided and convert their merged records to the
/// binary exposition: aggregate, sort by key, group and encode.
pub fn to_protobuf(file_list: Vec<(FileInfo, Vec<u8>)>) -> (r: Result<Vec<u8>, MmapError>)
    ensures
        r is Ok ==> spec_aggregate(Seq::<EntryKV>::empty(), file_list@) is Some,
        r is Err ==> ({
            ||| spec_aggregate(Seq::<EntryKV>::empty(), file_list@) is None
            ||| r->Err_0 is OutOfMemory
            ||| r->Err_0 is Other
        }),
        r is Ok ==> exists|aggregated: Seq<FileEntry>, sorted: Seq<FileEntry>|
            {
                &&& #[trigger] entry_views(aggregated) == spec_aggregate(
                    Seq::<EntryKV>::empty(),
                    file_list@,
                )->Some_0
                &&& #[trigger] sorted.to_multiset() == aggregated.to_multiset()
                &&& forall|i: int, j: int|
                    0 <= i < j < sorted.len() ==> spec_key_le(
                        #[trigger] sorted[i].data.spec_key(),
                        #[trigger] sorted[j].data.spec_key(),
                    )
                &&& crate::protobuf::spec_build_groups(
                    Seq::<crate::protobuf::GroupView>::empty(),
                    sorted,
                ) is Some
                &&& r->Ok_0@ == crate::protobuf::spec_families_bytes(
                    crate::protobuf::spec_build_groups(
                        Seq::<crate::protobuf::GroupView>::empty(),
                        sorted,
                    )->Some_0,
                    0,
                )
            },
        r is Err && r->Err_0 is Other ==> spec_aggregate(
            Seq::<EntryKV>::empty(),
            file_list@,
        ) is Some,
        r is Err && r->Err_0 is Other ==> exists|
            aggregated: Seq<FileEntry>,
            sorted: Seq<FileEntry>,
        |
            {
                &&& #[trigger] entry_views(aggregated) == spec_aggregate(
                    Seq::<EntryKV>::empty(),
                    file_list@,
                )->Some_0
                &&& #[trigger] sorted.to_multiset() == aggregated.to_multiset()
                &&& forall|i: int, j: int|
                    0 <= i < j < sorted.len() ==> spec_key_le(
                        #[trigger] sorted[i].data.spec_key(),
                        #[trigger] sorted[j].data.spec_key(),
                    )
                &&& crate::protobuf::spec_build_groups(
                    Seq::<crate::protobuf::GroupView>::empty(),
                    sorted,
                ) is None
            },
{
    let mut map = EntryMap::new();
    match map.aggregate_files(&file_list) {
        Ok(_) => {},
        Err(e) => {
            return Err(e);
        },
    }
    let ghost aggregated = map.view_seq();
    let sorted = match map.into_sorted() {
        Ok(s) => s,
        Err(e) => {
            return Err(e);
        },
    };
    let ghost sorted_v = sorted@;
    match crate::protobuf::entries_to_protobuf(sorted) {
        Ok(out) => {
            proof {
                assert(entry_views(aggregated) == spec_aggregate(
                    Seq::<EntryKV>::empty(),
                    file_list@,
                )->Some_0 && sorted_v.to_multiset() == aggregated.to_multiset());
            }
            Ok(out)
        },
        Err(e) => {
            proof {
                assert(entry_views(aggregated) == spec_aggregate(
                    Seq::<EntryKV>::empty(),
                    file_list@,
                )->Some_0 && sorted_v.to_multiset() == aggregated.to_multiset());
            }
            Err(e)
        },
    }
}

/// Whether the pid is part of the keys a region produces: value-independent.
pub open spec fn spec_pid_sig(info: FileInfo) -> bool {
    (EntryMetadata {
        multiprocess_mode: info.multiprocess_mode,
        type_: info.type_,
        value: 0,
    }).spec_pid_significant()
}

/// The message of the corruption error for a `used` header past the end of
/// the region.
pub open spec fn corrupt_msg(path: Seq<char>, used: int, len: int) -> Seq<char> {
    "source file "@ + path + " corrupted, used "@ + dec_str(used) + " > file size "@ + dec_str(len)
}

/// Scan the stream and store what it holds: `None` where the stream is
/// malformed or a key is not UTF-8.
pub open spec fn spec_scan_store(
    s: Seq<u8>,
    pos: int,
    used: int,
    views: Seq<EntryKV>,
    info: FileInfo,
) -> Option<Seq<EntryKV>> {
    match spec_scan(s, pos, used) {
        Option::None => Option::None,
        Option::Some(rs) => spec_store_all(
            views,
            rs,
            info.multiprocess_mode,
            info.type_,
            info.pid@,
            spec_pid_sig(info),
        ),
    }
}

/// What aggregating a list of regions does to the map: each region's
/// stream scanned and stored in turn. Regions shorter than a header hold
/// nothing. `None` where any region is corrupt.
pub open spec fn spec_aggregate(views: Seq<EntryKV>, files: Seq<(FileInfo, Vec<u8>)>) -> Option<
    Seq<EntryKV>,
>
    decreases files.len(),
{
    if files.len() == 0 {
        Some(views)
    } else {
        let s = files[0].1@;
        if s.len() < HEADER_SIZE {
            spec_aggregate(views, files.drop_first())
        } else {
            let used = le_u32(s.subrange(0, 4));
            if used > s.len() {
                None
            } else {
                match spec_scan_store(s, HEADER_SIZE as int, used, views, files[0].0) {
                    Option::None => Option::None,
                    Option::Some(v) => spec_aggregate(v, files.drop_first()),
                }
            }
        }
    }
}

/// Unfolds one step of [`spec_store_all`].
proof fn lemma_store_all_unfold(
    views: Seq<EntryKV>,
    rec: RawRecord,
    rest: Seq<RawRecord>,
    mode: crate::file_entry::AggregationMode,
    type_: crate::file_entry::MetricType,
    pid: Seq<u8>,
    pid_sig: bool,
)
    ensures
        spec_store_all(views, seq![rec] + rest, mode, type_, pid, pid_sig) == (
        if vstd::utf8::valid_utf8(rec.key) {
            spec_store_all(
                spec_store_step(
                    views,
                    (
                        rec.key,
                        if pid_sig {
                            Some(pid)
                        } else {
                            None
                        },
                    ),
                    EntryMetadata { multiprocess_mode: mode, type_, value: rec.value },
                ),
                rest,
                mode,
                type_,
                pid,
                pid_sig,
            )
        } else {
            Option::<Seq<EntryKV>>::None
        }),
{
    assert((seq![rec] + rest)[0] == rec);
    assert((seq![rec] + rest).drop_first() =~= rest);
}

/// If no position before `i` holds the key and position `i` does, then `i`
/// is what `spec_find` returns.
proof fn lemma_find_first(s: Seq<EntryKV>, key: SpecKey, i: int)
    requires
        0 <= i < s.len(),
        s[i].key == key,
        forall|j: int| 0 <= j < i ==> #[trigger] s[j].key != key,
    ensures
        spec_find(s, key) == i,
    decreases i,
{
    if i > 0 {
        assert forall|j: int| 0 <= j < i - 1 implies #[trigger] s.drop_first()[j].key != key by {
            assert(s.drop_first()[j] == s[j + 1]);
        }
        lemma_find_first(s.drop_first(), key, i - 1);
    }
}

} // verus!
