//! One aggregated metrics record: its key (the metric text and, where
//! significant, the owning process's id), its metadata, and the rule for
//! combining two records that share a key.

use vstd::prelude::*;

use crate::error::{MmapError, RubyError};
use crate::metric_text::{null_bytes, parse_metric_text, spec_parse_metric_text, MetricText,
    MetricTextView};
use crate::raw_entry::RawEntry;
use crate::util::{dec_str, slices_eq, usize_to_string, validate_utf8};
use crate::value::{f64_add, f64_text, spec_max, spec_min, value_add, value_max, value_min,
    value_text};

verus! {

/// How the values that several processes report for one gauge are combined.
/// `All` keeps them apart, one record per process.
#[derive(PartialEq, Eq, Structural, Clone, Copy, Debug)]
pub enum AggregationMode {
    Min,
    Max,
    Livesum,
    All,
}

/// The type of a metric family.
#[derive(PartialEq, Eq, Structural, Clone, Copy, Debug)]
pub enum MetricType {
    Counter,
    Gauge,
    Histogram,
    Summary,
}

impl MetricType {
    /// The type's name, as it appears in the text exposition.
    pub open spec fn spec_name(self) -> Seq<u8> {
        match self {
            MetricType::Counter => seq![99u8, 111u8, 117u8, 110u8, 116u8, 101u8, 114u8],
            MetricType::Gauge => seq![103u8, 97u8, 117u8, 103u8, 101u8],
            MetricType::Histogram => seq![
                104u8,
                105u8,
                115u8,
                116u8,
                111u8,
                103u8,
                114u8,
                97u8,
                109u8,
            ],
            MetricType::Summary => seq![115u8, 117u8, 109u8, 109u8, 97u8, 114u8, 121u8],
        }
    }

    /// The type's name as a string, for embedders that show it: the same
    /// bytes [`MetricType::name_bytes`] yields.
    pub fn name(&self) -> (r: &'static str)
        ensures
            r@.map_values(|c: char| c as u8) == self.spec_name(),
    {
        proof {
            reveal_strlit("counter");
            reveal_strlit("gauge");
            reveal_strlit("histogram");
            reveal_strlit("summary");
        }
        let r = match self {
            MetricType::Counter => "counter",
            MetricType::Gauge => "gauge",
            MetricType::Histogram => "histogram",
            MetricType::Summary => "summary",
        };
        proof {
            assert(r@.map_values(|c: char| c as u8) =~= self.spec_name());
        }
        r
    }

    /// The type's name, as it appears in the text exposition.
    pub fn name_bytes(&self) -> (r: Vec<u8>)
        ensures
            r@ == self.spec_name(),
    {
        let r: Vec<u8> = match self {
            MetricType::Counter => {
                let a: [u8; 7] = [99, 111, 117, 110, 116, 101, 114];
                vstd::slice::slice_to_vec(a.as_slice())
            },
            MetricType::Gauge => {
                let a: [u8; 5] = [103, 97, 117, 103, 101];
                vstd::slice::slice_to_vec(a.as_slice())
            },
            MetricType::Histogram => {
                let a: [u8; 9] = [104, 105, 115, 116, 111, 103, 114, 97, 109];
                vstd::slice::slice_to_vec(a.as_slice())
            },
            MetricType::Summary => {
                let a: [u8; 7] = [115, 117, 109, 109, 97, 114, 121];
                vstd::slice::slice_to_vec(a.as_slice())
            },
        };
        proof {
            assert(r@ =~= self.spec_name());
        }
        r
    }
}

/// The details of one source region: where it came from, how large it was,
/// and the mode, type and process id its samples carry. Opening and reading
/// the backing file belongs to the embedding; this holds the plain values
/// the aggregation logic reads.
#[derive(Clone, Debug)]
pub struct FileInfo {
    pub path: String,
    pub len: usize,
    pub multiprocess_mode: AggregationMode,
    pub type_: MetricType,
    pub pid: Vec<u8>,
}

/// The primary data payload for a [`FileEntry`]: the metric text and the
/// associated pid, where significant. The key of the aggregate map.
#[derive(PartialEq, Eq, Clone, Debug)]
pub struct EntryData {
    pub json: Vec<u8>,
    pub pid: Option<Vec<u8>>,
}

/// A borrowed copy of the metric text and pid, used to probe the aggregate
/// map without copying the (often large) metric text.
#[derive(PartialEq, Eq, Clone, Debug)]
pub struct BorrowedData<'a> {
    pub json: &'a [u8],
    pub pid: Option<&'a [u8]>,
}

impl EntryData {
    /// The mathematical key: metric text bytes and optional pid bytes.
    pub open spec fn spec_key(self) -> (Seq<u8>, Option<Seq<u8>>) {
        (
            self.json@,
            match self.pid {
                Some(p) => Some(p@),
                None => None,
            },
        )
    }

    /// Whether this owned key equals the borrowed key.
    pub fn matches(&self, other: &BorrowedData<'_>) -> (r: bool)
        ensures
            r == (self.spec_key() == other.spec_key()),
    {
        let json_eq = slices_eq(self.json.as_slice(), other.json);
        let pid_eq = match (&self.pid, &other.pid) {
            (Some(a), Some(b)) => slices_eq(a.as_slice(), b),
            (None, None) => true,
            _ => false,
        };
        json_eq && pid_eq
    }

    /// Copies a borrowed key into an owned one, surfacing allocation
    /// failure on the metric text as an error.
    pub fn from_borrowed(borrowed: BorrowedData<'_>) -> (r: Result<EntryData, MmapError>)
        ensures
            r is Ok ==> r->Ok_0.spec_key() == borrowed.spec_key(),
            r is Err ==> r->Err_0 == MmapError::OutOfMemory(borrowed.json@.len() as usize),
    {
        let mut json: Vec<u8> = Vec::new();
        if json.try_reserve(borrowed.json.len()).is_err() {
            return Err(MmapError::OutOfMemory(borrowed.json.len()));
        }
        json.extend_from_slice(borrowed.json);
        let pid = match borrowed.pid {
            Some(p) => Some(vstd::slice::slice_to_vec(p)),
            None => None,
        };
        let r = EntryData { json, pid };
        proof {
            assert(r.spec_key() == borrowed.spec_key());
        }
        Ok(r)
    }
}

impl<'a> BorrowedData<'a> {
    /// The mathematical key: metric text bytes and optional pid bytes.
    pub open spec fn spec_key(self) -> (Seq<u8>, Option<Seq<u8>>) {
        (
            self.json@,
            match self.pid {
                Some(p) => Some(p@),
                None => None,
            },
        )
    }

    /// Borrows the key of a parsed record: its metric text, which must be
    /// UTF-8, and the region's pid where significant.
    pub fn new(raw_entry: &'a RawEntry<'a>, file_info: &'a FileInfo, pid_significant: bool) -> (r:
        Result<BorrowedData<'a>, MmapError>)
        requires
            raw_entry.wf(),
        ensures
            r is Ok <==> vstd::utf8::valid_utf8(raw_entry.spec_json()),
            r is Ok ==> r->Ok_0.spec_key() == (
                raw_entry.spec_json(),
                if pid_significant {
                    Some(file_info.pid@)
                } else {
                    None::<Seq<u8>>
                },
            ),
            r is Err ==> r->Err_0 is Encoding,
    {
        let json = raw_entry.json();
        if !validate_utf8(json) {
            return Err(
                MmapError::Encoding(String::from_str("invalid UTF-8 in entry JSON")),
            );
        }

        let pid = if pid_significant {
            Some(file_info.pid.as_slice())
        } else {
            None
        };

        Ok(BorrowedData { json, pid })
    }
}

/// The metadata associated with a record: its aggregation mode and type,
/// and the value's bit pattern. The value of the aggregate map.
#[derive(PartialEq, Eq, Structural, Clone, Copy, Debug)]
pub struct EntryMetadata {
    pub multiprocess_mode: AggregationMode,
    pub type_: MetricType,
    pub value: u64,
}

/// A metrics record extracted from a region.
#[derive(Clone, Debug)]
pub struct FileEntry {
    pub data: EntryData,
    pub meta: EntryMetadata,
}

impl EntryMetadata {
    /// Reads the metadata of one parsed record: the region's mode and type,
    /// and the record's value.
    pub fn new(mmap_entry: &RawEntry<'_>, file: &FileInfo) -> (r: Result<EntryMetadata, MmapError>)
        requires
            mmap_entry.wf(),
        ensures
            r is Ok,
            r->Ok_0 == (EntryMetadata {
                multiprocess_mode: file.multiprocess_mode,
                type_: file.type_,
                value: mmap_entry.spec_value() as u64,
            }),
    {
        let value = mmap_entry.value();
        Ok(
            EntryMetadata {
                multiprocess_mode: file.multiprocess_mode,
                type_: file.type_,
                value,
            },
        )
    }

    /// The combination rule of two records that share a key: gauges combine
    /// by their mode (`all` keeps the later value), every other type sums.
    pub open spec fn spec_merge(self, other: EntryMetadata) -> EntryMetadata {
        let v = if self.type_ == MetricType::Gauge {
            match self.multiprocess_mode {
                AggregationMode::Min => spec_min(self.value, other.value),
                AggregationMode::Max => spec_max(self.value, other.value),
                AggregationMode::Livesum => f64_add(self.value, other.value),
                AggregationMode::All => other.value,
            }
        } else {
            f64_add(self.value, other.value)
        };
        EntryMetadata { value: v, ..self }
    }

    /// Combine values with another record's metadata.
    pub fn merge(&mut self, other: &EntryMetadata)
        ensures
            *final(self) == old(self).spec_merge(*other),
    {
        if self.type_ == MetricType::Gauge {
            match self.multiprocess_mode {
                AggregationMode::Min => {
                    self.value = value_min(self.value, other.value);
                },
                AggregationMode::Max => {
                    self.value = value_max(self.value, other.value);
                },
                AggregationMode::Livesum => {
                    self.value = value_add(self.value, other.value);
                },
                AggregationMode::All => {
                    self.value = other.value;
                },
            }
        } else {
            self.value = value_add(self.value, other.value);
        }
    }

    /// Whether the process id is part of this record's key: exactly for
    /// gauges whose mode is none of `min`, `max`, `livesum`.
    pub open spec fn spec_pid_significant(self) -> bool {
        self.type_ == MetricType::Gauge && !(self.multiprocess_mode == AggregationMode::Min
            || self.multiprocess_mode == AggregationMode::Max || self.multiprocess_mode
            == AggregationMode::Livesum)
    }

    /// Validate if pid is significant for the metric.
    pub fn is_pid_significant(&self) -> (r: bool)
        ensures
            r == self.spec_pid_significant(),
    {
        let mp = self.multiprocess_mode;
        self.type_ == MetricType::Gauge && !(mp == AggregationMode::Min || mp
            == AggregationMode::Max || mp == AggregationMode::Livesum)
    }
}

/// Merging is commutative for `min`- and `max`-mode gauges: the two records
/// hold the same mode and type, and combining them in either order yields
/// the same value. The summing modes (`livesum`, and every non-gauge type)
/// combine with floating-point addition, which is not associative, and
/// whose commutativity is a property of the arithmetic itself rather than
/// of this crate; those legs are exercised by tests instead.
pub proof fn lemma_merge_commutative(a: EntryMetadata, b: EntryMetadata)
    requires
        a.type_ == MetricType::Gauge,
        b.type_ == a.type_,
        b.multiprocess_mode == a.multiprocess_mode,
        a.multiprocess_mode == AggregationMode::Min || a.multiprocess_mode == AggregationMode::Max,
    ensures
        a.spec_merge(b) == b.spec_merge(a),
{
}

/// Merging is associative for `min`- and `max`-mode gauges.
pub proof fn lemma_merge_associative(a: EntryMetadata, b: EntryMetadata, c: EntryMetadata)
    requires
        a.type_ == MetricType::Gauge,
        b.type_ == a.type_,
        c.type_ == a.type_,
        b.multiprocess_mode == a.multiprocess_mode,
        c.multiprocess_mode == a.multiprocess_mode,
        a.multiprocess_mode == AggregationMode::Min || a.multiprocess_mode == AggregationMode::Max,
    ensures
        a.spec_merge(b).spec_merge(c) == a.spec_merge(b.spec_merge(c)),
{
}

/// For an `all`-mode gauge the last value applied wins: the merge is
/// order-dependent by design, since the pid is part of the key in this mode
/// and true collisions only occur for updates from one process.
pub proof fn lemma_merge_all_last_wins(a: EntryMetadata, b: EntryMetadata)
    requires
        a.type_ == MetricType::Gauge,
        a.multiprocess_mode == AggregationMode::All,
    ensures
        a.spec_merge(b).value == b.value,
{
}

impl FileEntry {
    /// Strips one leading and one trailing double-quote byte, where
    /// present.
    pub open spec fn spec_trim_quotes(s: Seq<u8>) -> Seq<u8> {
        let a = if s.len() >= 1 && s[0] == 34u8 {
            s.skip(1)
        } else {
            s
        };
        if a.len() >= 1 && a[a.len() - 1] == 34u8 {
            a.take(a.len() - 1)
        } else {
            a
        }
    }

    /// Strips one leading and one trailing double-quote byte, where
    /// present.
    pub fn trim_quotes(s: &[u8]) -> (r: Vec<u8>)
        ensures
            r@ == Self::spec_trim_quotes(s@),
    {
        let len = s.len();
        let start: usize = if len > 0 && *vstd::slice::slice_index_get(s, 0) == 34u8 {
            1
        } else {
            0
        };
        let end: usize = if len > start && *vstd::slice::slice_index_get(s, len - 1) == 34u8 {
            len - 1
        } else {
            len
        };
        let r = vstd::slice::slice_to_vec(vstd::slice::slice_subrange(s, start, end));
        proof {
            assert(r@ =~= Self::spec_trim_quotes(s@));
        }
        r
    }
}

/// The bytes of `# HELP `.
pub open spec fn help_prefix() -> Seq<u8> {
    seq![35u8, 32u8, 72u8, 69u8, 76u8, 80u8, 32u8]
}

/// The bytes of ` Multiprocess metric` and a newline.
pub open spec fn help_suffix() -> Seq<u8> {
    seq![
        32u8,
        77u8,
        117u8,
        108u8,
        116u8,
        105u8,
        112u8,
        114u8,
        111u8,
        99u8,
        101u8,
        115u8,
        115u8,
        32u8,
        109u8,
        101u8,
        116u8,
        114u8,
        105u8,
        99u8,
        10u8,
    ]
}

/// The bytes of `# TYPE `.
pub open spec fn type_prefix() -> Seq<u8> {
    seq![35u8, 32u8, 84u8, 89u8, 80u8, 69u8, 32u8]
}

/// The bytes of `{pid="`.
pub open spec fn pid_open() -> Seq<u8> {
    seq![123u8, 112u8, 105u8, 100u8, 61u8, 34u8]
}

/// The bytes of `,pid="`.
pub open spec fn pid_sep() -> Seq<u8> {
    seq![44u8, 112u8, 105u8, 100u8, 61u8, 34u8]
}

/// How one label value renders in a text line: a JSON `null` becomes an
/// empty quoted string, a string keeps its own quotes, anything else
/// (numbers, `true`, `false`) is wrapped in quotes.
pub open spec fn spec_render_value(raw: Seq<u8>) -> Seq<u8> {
    if raw == null_bytes() {
        seq![34u8, 34u8]
    } else if raw.len() > 0 && raw[0] == 34u8 {
        raw
    } else {
        seq![34u8] + raw + seq![34u8]
    }
}

/// The rendered `label=value` pairs from position `i` on, comma-separated.
pub open spec fn spec_label_pairs(labels: Seq<Seq<u8>>, values: Seq<Seq<u8>>, i: int) -> Seq<u8>
    recommends
        labels.len() == values.len(),
        0 <= i,
    decreases labels.len() - i,
{
    if i < 0 || i >= labels.len() {
        seq![]
    } else {
        labels[i] + seq![61u8] + spec_render_value(values[i]) + (
        if i < labels.len() - 1 {
            seq![44u8]
        } else {
            Seq::<u8>::empty()
        }) + spec_label_pairs(labels, values, i + 1)
    }
}

/// The two header lines emitted when a new family begins.
pub open spec fn spec_header(family: Seq<u8>, t: MetricType) -> Seq<u8> {
    help_prefix() + family + help_suffix() + type_prefix() + family + seq![32u8] + t.spec_name()
        + seq![10u8]
}

/// The name-and-labels part of one text line: the metric name, its labels
/// in braces, and the pid as a final label where significant. A record
/// without labels gets braces only for the pid.
pub open spec fn spec_entry_prefix(m: MetricTextView, pid: Option<Seq<u8>>) -> Seq<u8> {
    if m.labels.len() == 0 {
        m.metric_name + (match pid {
            Option::Some(p) => pid_open() + p + seq![34u8, 125u8],
            Option::None => Seq::<u8>::empty(),
        })
    } else {
        m.metric_name + seq![123u8] + spec_label_pairs(m.labels, m.values, 0) + (match pid {
            Option::Some(p) => pid_sep() + p + seq![34u8],
            Option::None => Seq::<u8>::empty(),
        }) + seq![125u8]
    }
}

/// One whole text line: name and labels, a space, the rendered value, a
/// newline.
pub open spec fn spec_entry_line(m: MetricTextView, pid: Option<Seq<u8>>, value: u64) -> Seq<u8> {
    spec_entry_prefix(m, pid) + seq![32u8] + f64_text(value) + seq![10u8]
}

/// The full text exposition of `entries`, rendered in order with `prev` as
/// the family of the line last emitted: the output bytes, and how many
/// entries rendered. An entry whose metric text does not parse, or whose
/// label and value counts differ, is skipped and not counted.
pub open spec fn spec_entries_text(entries: Seq<FileEntry>, prev: Option<Seq<u8>>) -> (Seq<u8>, int)
    decreases entries.len(),
{
    if entries.len() == 0 {
        (Seq::<u8>::empty(), 0)
    } else {
        let e = entries[0];
        match spec_parse_metric_text(e.data.json@) {
            Option::None => spec_entries_text(entries.drop_first(), prev),
            Option::Some(m) => {
                if m.labels.len() != m.values.len() {
                    spec_entries_text(entries.drop_first(), prev)
                } else {
                    let hdr = if prev == Some(m.family_name) {
                        Seq::<u8>::empty()
                    } else {
                        spec_header(m.family_name, e.meta.type_)
                    };
                    let pid_v = match e.data.pid {
                        Option::Some(p) => Some(p@),
                        Option::None => None,
                    };
                    let line = spec_entry_line(m, pid_v, e.meta.value);
                    let rest = spec_entries_text(entries.drop_first(), Some(m.family_name));
                    (hdr + line + rest.0, rest.1 + 1)
                }
            },
        }
    }
}

/// The message of the error raised when any entry was skipped.
pub open spec fn processed_msg(processed: int, total: int) -> Seq<char> {
    "Processed entries "@ + dec_str(processed) + " != map entries "@ + dec_str(total)
}

impl FileEntry {
    /// Append the `# HELP` / `# TYPE` header for `family` to `out`.
    fn append_header(&self, family_name: &[u8], out: &mut Vec<u8>)
        ensures
            final(out)@ == old(out)@ + spec_header(family_name@, self.meta.type_),
    {
        let a: [u8; 7] = [35, 32, 72, 69, 76, 80, 32];
        let b: [u8; 21] = [
            32,
            77,
            117,
            108,
            116,
            105,
            112,
            114,
            111,
            99,
            101,
            115,
            115,
            32,
            109,
            101,
            116,
            114,
            105,
            99,
            10,
        ];
        let c: [u8; 7] = [35, 32, 84, 89, 80, 69, 32];
        out.extend_from_slice(a.as_slice());
        out.extend_from_slice(family_name);
        out.extend_from_slice(b.as_slice());
        out.extend_from_slice(c.as_slice());
        out.extend_from_slice(family_name);
        out.push(32u8);
        let name = self.meta.type_.name_bytes();
        out.extend_from_slice(name.as_slice());
        out.push(10u8);
        proof {
            assert(final(out)@ =~= old(out)@ + spec_header(family_name@, self.meta.type_));
        }
    }

    /// Append one rendered label value to `out`.
    fn append_value(raw: &[u8], out: &mut Vec<u8>)
        ensures
            final(out)@ == old(out)@ + spec_render_value(raw@),
    {
        let null_word: [u8; 4] = [0x6e, 0x75, 0x6c, 0x6c];
        if slices_eq(raw, null_word.as_slice()) {
            proof {
                assert(null_word@ =~= null_bytes());
            }
            out.push(34u8);
            out.push(34u8);
            proof {
                assert(final(out)@ =~= old(out)@ + spec_render_value(raw@));
            }
        } else if raw.len() > 0 && *vstd::slice::slice_index_get(raw, 0) == 34u8 {
            proof {
                assert(null_word@ =~= null_bytes());
            }
            out.extend_from_slice(raw);
            proof {
                assert(final(out)@ =~= old(out)@ + spec_render_value(raw@));
            }
        } else {
            proof {
                assert(null_word@ =~= null_bytes());
            }
            out.push(34u8);
            out.extend_from_slice(raw);
            out.push(34u8);
            proof {
                assert(final(out)@ =~= old(out)@ + spec_render_value(raw@));
            }
        }
    }

    /// Append the name-and-labels part of this record's text line to `out`.
    fn append_entry(&self, json_data: &MetricText, out: &mut Vec<u8>)
        requires
            json_data.labels@.len() == json_data.values@.len(),
        ensures
            final(out)@ == old(out)@ + spec_entry_prefix(
                json_data.view_spec(),
                match self.data.pid {
                    Option::Some(p) => Some(p@),
                    Option::None => None,
                },
            ),
    {
        out.extend_from_slice(json_data.metric_name.as_slice());

        if json_data.labels.len() == 0 {
            if let Some(pid) = &self.data.pid {
                let a: [u8; 6] = [123, 112, 105, 100, 61, 34];
                out.extend_from_slice(a.as_slice());
                out.extend_from_slice(pid.as_slice());
                out.push(34u8);
                out.push(125u8);
                proof {
                    assert(a@ =~= pid_open());
                }
            }
            proof {
                assert(final(out)@ =~= old(out)@ + spec_entry_prefix(
                    json_data.view_spec(),
                    match self.data.pid {
                        Option::Some(p) => Some(p@),
                        Option::None => None,
                    },
                ));
            }
            return ;
        }

        out.push(123u8);
        let ghost base = out@;
        let ghost lv = json_data.view_spec();

        let n = json_data.labels.len();
        let mut i: usize = 0;
        while i < n
            invariant
                n == json_data.labels@.len(),
                json_data.labels@.len() == json_data.values@.len(),
                0 <= i <= n,
                lv == json_data.view_spec(),
                base + spec_label_pairs(lv.labels, lv.values, 0) == out@ + spec_label_pairs(
                    lv.labels,
                    lv.values,
                    i as int,
                ),
            decreases n - i,
        {
            let ghost before = out@;
            let key = vstd::std_specs::vec::vec_index(&json_data.labels, i);
            out.extend_from_slice(key.as_slice());
            out.push(61u8);
            let val = vstd::std_specs::vec::vec_index(&json_data.values, i);
            Self::append_value(val.as_slice(), out);
            if i < n - 1 {
                out.push(44u8);
            }
            proof {
                assert(lv.labels[i as int] == json_data.labels@[i as int]@);
                assert(lv.values[i as int] == json_data.values@[i as int]@);
                assert(out@ =~= before + (lv.labels[i as int] + seq![61u8] + spec_render_value(
                    lv.values[i as int],
                ) + (if i < n - 1 {
                    seq![44u8]
                } else {
                    Seq::<u8>::empty()
                })));
                assert(before + (spec_label_pairs(lv.labels, lv.values, i as int)) =~= before + (
                lv.labels[i as int] + seq![61u8] + spec_render_value(lv.values[i as int]) + (
                if i < n - 1 {
                    seq![44u8]
                } else {
                    Seq::<u8>::empty()
                }) + spec_label_pairs(lv.labels, lv.values, i + 1)));
                assert(base + spec_label_pairs(lv.labels, lv.values, 0) =~= out@
                    + spec_label_pairs(lv.labels, lv.values, i + 1));
            }
            i = i + 1;
        }

        if let Some(pid) = &self.data.pid {
            let a: [u8; 6] = [44, 112, 105, 100, 61, 34];
            out.extend_from_slice(a.as_slice());
            out.extend_from_slice(pid.as_slice());
            out.push(34u8);
            proof {
                assert(a@ =~= pid_sep());
            }
        }
        out.push(125u8);
        proof {
            assert(final(out)@ =~= old(out)@ + spec_entry_prefix(
                json_data.view_spec(),
                match self.data.pid {
                    Option::Some(p) => Some(p@),
                    Option::None => None,
                },
            ));
        }
    }

    /// Convert the sorted entries into the Prometheus text format. Renders
    /// every entry, emitting the family header whenever the family changes;
    /// if any entry had to be skipped, the whole conversion fails with a
    /// count-mismatch error instead of producing partial output.
    #[verifier::rlimit(100)]
    pub fn entries_to_string(entries: Vec<FileEntry>) -> (r: Result<Vec<u8>, MmapError>)
        ensures
            r is Ok <==> spec_entries_text(entries@, None).1 == entries@.len(),
            r is Ok ==> r->Ok_0@ == spec_entries_text(entries@, None).0,
            r is Err ==> ({
                &&& r->Err_0 matches MmapError::Legacy { msg, ruby_err }
                &&& msg@ == processed_msg(
                    spec_entries_text(entries@, None).1,
                    entries@.len() as int,
                )
                &&& ruby_err == RubyError::Runtime
            }),
    {
        let mut out: Vec<u8> = Vec::new();
        let mut prev_name: Option<Vec<u8>> = None;

        let entry_count = entries.len();
        let mut processed_count: usize = 0;

        proof {
            assert(entries@.skip(0) =~= entries@);
        }

        let mut idx: usize = 0;
        while idx < entry_count
            invariant
                entry_count == entries@.len(),
                0 <= idx <= entry_count,
                processed_count <= idx,
                ({
                    let whole = spec_entries_text(entries@, None);
                    let rest = spec_entries_text(
                        entries@.skip(idx as int),
                        match prev_name {
                            Option::Some(p) => Some(p@),
                            Option::None => None,
                        },
                    );
                    &&& whole.0 == out@ + rest.0
                    &&& whole.1 == processed_count + rest.1
                }),
            decreases entry_count - idx,
        {
            let ghost prev_v = match &prev_name {
                Option::Some(p) => Some(p@),
                Option::None => None::<Seq<u8>>,
            };
            proof {
                assert(entries@.skip(idx as int)[0] == entries@[idx as int]);
                assert(entries@.skip(idx as int).drop_first() =~= entries@.skip(idx + 1));
            }
            let entry = vstd::std_specs::vec::vec_index(&entries, idx);
            let metrics_data = match parse_metric_text(entry.data.json.as_slice()) {
                Some(m) => m,
                None => {
                    idx = idx + 1;
                    continue ;
                },
            };
            if metrics_data.labels.len() != metrics_data.values.len() {
                idx = idx + 1;
                continue ;
            }

            let same_family = match &prev_name {
                Some(p) => slices_eq(p.as_slice(), metrics_data.family_name.as_slice()),
                None => false,
            };
            proof {
                assert(same_family == (prev_v == Some(metrics_data.view_spec().family_name)));
            }
            if !same_family {
                entry.append_header(metrics_data.family_name.as_slice(), &mut out);
            }

            entry.append_entry(&metrics_data, &mut out);

            out.push(32u8);
            let value = value_text(entry.meta.value);
            out.extend_from_slice(value.as_slice());
            out.push(10u8);

            processed_count = processed_count + 1;
            prev_name = Some(metrics_data.family_name);

            proof {
                let whole = spec_entries_text(entries@, None);
                let m = metrics_data.view_spec();
                let rest_new = spec_entries_text(entries@.skip(idx + 1), Some(m.family_name));
                assert(whole.0 =~= out@ + rest_new.0);
            }
            idx = idx + 1;
        }

        proof {
            assert(entries@.skip(entry_count as int).len() == 0);
        }

        if processed_count != entry_count {
            let mut msg = String::from_str("Processed entries ");
            msg.append(usize_to_string(processed_count).as_str());
            msg.append(" != map entries ");
            msg.append(usize_to_string(entry_count).as_str());
            proof {
                assert(msg@ =~= processed_msg(
                    spec_entries_text(entries@, None).1,
                    entries@.len() as int,
                ));
            }
            return Err(MmapError::legacy(msg, RubyError::Runtime));
        }

        Ok(out)
    }
}

} // verus!
