//! The binary exposition: metric-family messages in the conventional
//! Prometheus protobuf schema, each preceded by a varint length.
//!
//! The wire format is written directly: base-128 varints, little-endian
//! doubles, and length-delimited submessages, with the field numbers of the
//! `io.prometheus.client` schema.

use vstd::prelude::*;

use crate::error::MmapError;
use crate::file_entry::{FileEntry, MetricType};
use crate::metric_text::{parse_metric_text, spec_parse_metric_text, MetricText};
use crate::util::{le64_bytes, slices_eq, write_u64_le};
use crate::value::{value_add, value_parse, value_trunc};

verus! {

/// The base-128 varint encoding of a non-negative integer: seven bits per
/// byte, least significant first, the high bit marking continuation.
pub open spec fn spec_varint(x: int) -> Seq<u8>
    recommends
        x >= 0,
    decreases x,
{
    if 0 <= x < 0x80 {
        seq![x as u8]
    } else if x >= 0x80 {
        seq![(x % 0x80 + 0x80) as u8] + spec_varint(x / 0x80)
    } else {
        seq![]
    }
}

/// A field tag: field number and wire type packed into one varint.
pub open spec fn spec_tag(field: int, wire: int) -> Seq<u8> {
    spec_varint(field * 8 + wire)
}

/// A length-delimited field: strings and embedded messages.
pub open spec fn spec_len_field(field: int, payload: Seq<u8>) -> Seq<u8> {
    spec_tag(field, 2) + spec_varint(payload.len() as int) + payload
}

/// A double field, holding the bit pattern given.
pub open spec fn spec_double_field(field: int, bits: u64) -> Seq<u8> {
    spec_tag(field, 1) + le64_bytes(bits as int)
}

/// A varint field.
pub open spec fn spec_varint_field(field: int, v: int) -> Seq<u8> {
    spec_tag(field, 0) + spec_varint(v)
}

/// Append the varint encoding of `x` to `out`.
pub fn put_varint(out: &mut Vec<u8>, x: u64)
    ensures
        final(out)@ == old(out)@ + spec_varint(x as int),
{
    let mut cur = x;
    while cur >= 0x80
        invariant
            old(out)@ + spec_varint(x as int) == out@ + spec_varint(cur as int),
        decreases cur,
    {
        out.push((cur % 0x80 + 0x80) as u8);
        proof {
            assert(old(out)@ + spec_varint(x as int) =~= out@ + spec_varint(cur as int / 0x80));
        }
        cur = cur / 0x80;
    }
    out.push(cur as u8);
    proof {
        assert(final(out)@ =~= old(out)@ + spec_varint(x as int));
    }
}

/// Append a field tag to `out`.
fn put_tag(out: &mut Vec<u8>, field: u32, wire: u32)
    requires
        field * 8 + wire <= u64::MAX,
    ensures
        final(out)@ == old(out)@ + spec_tag(field as int, wire as int),
{
    put_varint(out, (field as u64) * 8 + (wire as u64));
}

/// Append a length-delimited field to `out`.
fn put_len_field(out: &mut Vec<u8>, field: u32, payload: &[u8])
    requires
        field * 8 + 2 <= u64::MAX,
    ensures
        final(out)@ == old(out)@ + spec_len_field(field as int, payload@),
{
    put_tag(out, field, 2);
    put_varint(out, payload.len() as u64);
    out.extend_from_slice(payload);
    proof {
        assert(final(out)@ =~= old(out)@ + spec_len_field(field as int, payload@));
    }
}

/// Append a double field to `out`.
fn put_double_field(out: &mut Vec<u8>, field: u32, bits: u64)
    requires
        field * 8 + 1 <= u64::MAX,
    ensures
        final(out)@ == old(out)@ + spec_double_field(field as int, bits),
{
    put_tag(out, field, 1);
    let n = out.len();
    let zeros: [u8; 8] = [0, 0, 0, 0, 0, 0, 0, 0];
    out.extend_from_slice(zeros.as_slice());
    write_u64_le(out, n, bits);
    proof {
        assert(final(out)@.subrange(n as int, n + 8) == le64_bytes(bits as int));
        assert(final(out)@ =~= old(out)@ + spec_double_field(field as int, bits));
    }
}

/// Append a varint field to `out`.
fn put_varint_field(out: &mut Vec<u8>, field: u32, v: u64)
    requires
        field * 8 <= u64::MAX,
    ensures
        final(out)@ == old(out)@ + spec_varint_field(field as int, v as int),
{
    put_tag(out, field, 0);
    put_varint(out, v);
    proof {
        assert(final(out)@ =~= old(out)@ + spec_varint_field(field as int, v as int));
    }
}

/// One label of a family message.
pub struct LabelPairView {
    pub name: Seq<u8>,
    pub value: Seq<u8>,
}

/// One classic histogram bucket: its cumulative count (kept as a float
/// accumulator) and its upper bound.
pub struct BucketView {
    pub cumulative_count_float: u64,
    pub upper_bound: u64,
}

/// One summary quantile entry.
pub struct QuantileView {
    pub quantile: Option<u64>,
    pub value: u64,
}

/// The mathematical content of one output group: a family message with one
/// metric.
pub struct GroupView {
    pub family: Seq<u8>,
    pub name: Seq<u8>,
    pub mtype: MetricType,
    pub labels: Seq<LabelPairView>,
    pub value: u64,
    pub buckets: Seq<BucketView>,
    pub sample_count: Option<u64>,
    pub sample_sum: Option<u64>,
    pub quantiles: Seq<QuantileView>,
}

/// One output group under construction.
pub struct Group {
    pub family: Vec<u8>,
    pub name: Vec<u8>,
    pub mtype: MetricType,
    pub labels: Vec<(Vec<u8>, Vec<u8>)>,
    pub value: u64,
    pub buckets: Vec<(u64, u64)>,
    pub sample_count: Option<u64>,
    pub sample_sum: Option<u64>,
    pub quantiles: Vec<(Option<u64>, u64)>,
}

impl Group {
    /// The group's mathematical content.
    pub open spec fn view_spec(self) -> GroupView {
        GroupView {
            family: self.family@,
            name: self.name@,
            mtype: self.mtype,
            labels: self.labels@.map_values(
                |p: (Vec<u8>, Vec<u8>)| LabelPairView { name: p.0@, value: p.1@ },
            ),
            value: self.value,
            buckets: self.buckets@.map_values(
                |b: (u64, u64)| BucketView { cumulative_count_float: b.0, upper_bound: b.1 },
            ),
            sample_count: self.sample_count,
            sample_sum: self.sample_sum,
            quantiles: self.quantiles@.map_values(
                |q: (Option<u64>, u64)| QuantileView { quantile: q.0, value: q.1 },
            ),
        }
    }
}

/// The bytes of a `LabelPair` message.
pub open spec fn spec_label_pair_msg(p: LabelPairView) -> Seq<u8> {
    spec_len_field(1, p.name) + spec_len_field(2, p.value)
}

/// The labels of a metric, as its repeated field 1.
pub open spec fn spec_labels_bytes(ls: Seq<LabelPairView>, i: int) -> Seq<u8>
    decreases ls.len() - i,
{
    if i < 0 || i >= ls.len() {
        Seq::<u8>::empty()
    } else {
        spec_len_field(1, spec_label_pair_msg(ls[i])) + spec_labels_bytes(ls, i + 1)
    }
}

/// The buckets of a histogram, as its repeated field 3. Field 4 (the float
/// count) precedes field 2 (the bound), as the schema declares them.
pub open spec fn spec_buckets_bytes(bs: Seq<BucketView>, i: int) -> Seq<u8>
    decreases bs.len() - i,
{
    if i < 0 || i >= bs.len() {
        Seq::<u8>::empty()
    } else {
        spec_len_field(
            3,
            spec_double_field(4, bs[i].cumulative_count_float) + spec_double_field(
                2,
                bs[i].upper_bound,
            ),
        ) + spec_buckets_bytes(bs, i + 1)
    }
}

/// The quantile entries of a summary, as its repeated field 3.
pub open spec fn spec_quantiles_bytes(qs: Seq<QuantileView>, i: int) -> Seq<u8>
    decreases qs.len() - i,
{
    if i < 0 || i >= qs.len() {
        Seq::<u8>::empty()
    } else {
        spec_len_field(
            3,
            (match qs[i].quantile {
                Option::Some(q) => spec_double_field(1, q),
                Option::None => Seq::<u8>::empty(),
            }) + spec_double_field(2, qs[i].value),
        ) + spec_quantiles_bytes(qs, i + 1)
    }
}

/// The bytes of a `Summary` message.
pub open spec fn spec_summary_msg(g: GroupView) -> Seq<u8> {
    (match g.sample_count {
        Option::Some(c) => spec_varint_field(1, c as int),
        Option::None => Seq::<u8>::empty(),
    }) + (match g.sample_sum {
        Option::Some(s) => spec_double_field(2, s),
        Option::None => Seq::<u8>::empty(),
    }) + spec_quantiles_bytes(g.quantiles, 0)
}

/// The bytes of a `Metric` message: the labels, then the one payload the
/// type calls for.
pub open spec fn spec_metric_msg(g: GroupView) -> Seq<u8> {
    spec_labels_bytes(g.labels, 0) + (match g.mtype {
        MetricType::Gauge => spec_len_field(2, spec_double_field(1, g.value)),
        MetricType::Counter => spec_len_field(3, spec_double_field(1, g.value)),
        MetricType::Summary => spec_len_field(4, spec_summary_msg(g)),
        MetricType::Histogram => spec_len_field(7, spec_buckets_bytes(g.buckets, 0)),
    })
}

/// The wire value of the schema's metric-type enum.
pub open spec fn spec_type_enum(t: MetricType) -> int {
    match t {
        MetricType::Counter => 0,
        MetricType::Gauge => 1,
        MetricType::Summary => 2,
        MetricType::Histogram => 4,
    }
}

/// The bytes of `Multiprocess metric`, the help text of every family.
pub open spec fn proto_help_bytes() -> Seq<u8> {
    seq![
        77u8,
        117u8,
        108u8,
        116u8,
        105u8,
        112u8,
        114u8,
        111u8,
        99u8,
        101u8,
        115u8,
        115u8,
        32u8,
        109u8,
        101u8,
        116u8,
        114u8,
        105u8,
        99u8,
    ]
}

/// The bytes of a `MetricFamily` message.
pub open spec fn spec_family_msg(g: GroupView) -> Seq<u8> {
    spec_len_field(1, g.name) + spec_len_field(2, proto_help_bytes()) + spec_varint_field(
        3,
        spec_type_enum(g.mtype),
    ) + spec_len_field(4, spec_metric_msg(g))
}

/// The whole binary exposition: each family message preceded by its varint
/// length.
pub open spec fn spec_families_bytes(gs: Seq<GroupView>, i: int) -> Seq<u8>
    decreases gs.len() - i,
{
    if i < 0 || i >= gs.len() {
        Seq::<u8>::empty()
    } else {
        spec_varint(spec_family_msg(gs[i]).len() as int) + spec_family_msg(gs[i])
            + spec_families_bytes(gs, i + 1)
    }
}

/// Encode the labels of `g` into `out`.
fn put_labels(labels: &Vec<(Vec<u8>, Vec<u8>)>, out: &mut Vec<u8>)
    ensures
        final(out)@ == old(out)@ + spec_labels_bytes(
            labels@.map_values(|p: (Vec<u8>, Vec<u8>)| LabelPairView { name: p.0@, value: p.1@ }),
            0,
        ),
{
    let ghost lv = labels@.map_values(
        |p: (Vec<u8>, Vec<u8>)| LabelPairView { name: p.0@, value: p.1@ },
    );
    let n = labels.len();
    let mut i: usize = 0;
    while i < n
        invariant
            n == labels@.len(),
            0 <= i <= n,
            lv == labels@.map_values(
                |p: (Vec<u8>, Vec<u8>)| LabelPairView { name: p.0@, value: p.1@ },
            ),
            old(out)@ + spec_labels_bytes(lv, 0) == out@ + spec_labels_bytes(lv, i as int),
        decreases n - i,
    {
        let ghost before = out@;
        let pair = vstd::std_specs::vec::vec_index(labels, i);
        let mut msg: Vec<u8> = Vec::new();
        put_len_field(&mut msg, 1, pair.0.as_slice());
        put_len_field(&mut msg, 2, pair.1.as_slice());
        proof {
            assert(msg@ =~= spec_label_pair_msg(lv[i as int]));
        }
        put_len_field(out, 1, msg.as_slice());
        proof {
            assert(before + spec_labels_bytes(lv, i as int) =~= out@ + spec_labels_bytes(
                lv,
                i + 1,
            ));
            assert(old(out)@ + spec_labels_bytes(lv, 0) =~= out@ + spec_labels_bytes(lv, i + 1));
        }
        i = i + 1;
    }
}

/// Encode one group as its length-prefixed `MetricFamily` message,
/// appended to `out`.
fn put_family(g: &Group, out: &mut Vec<u8>)
    ensures
        final(out)@ == old(out)@ + spec_varint(spec_family_msg(g.view_spec()).len() as int)
            + spec_family_msg(g.view_spec()),
{
    let ghost gv = g.view_spec();

    // The metric payload.
    let mut payload: Vec<u8> = Vec::new();
    match g.mtype {
        MetricType::Gauge => {
            let mut inner: Vec<u8> = Vec::new();
            put_double_field(&mut inner, 1, g.value);
            put_len_field(&mut payload, 2, inner.as_slice());
        },
        MetricType::Counter => {
            let mut inner: Vec<u8> = Vec::new();
            put_double_field(&mut inner, 1, g.value);
            put_len_field(&mut payload, 3, inner.as_slice());
        },
        MetricType::Summary => {
            let mut inner: Vec<u8> = Vec::new();
            match &g.sample_count {
                Some(c) => put_varint_field(&mut inner, 1, *c),
                None => {},
            }
            match &g.sample_sum {
                Some(s) => put_double_field(&mut inner, 2, *s),
                None => {},
            }
            let ghost qv = gv.quantiles;
            let qn = g.quantiles.len();
            let mut qi: usize = 0;
            proof {
                assert(inner@ =~= (match gv.sample_count {
                    Option::Some(c) => spec_varint_field(1, c as int),
                    Option::None => Seq::<u8>::empty(),
                }) + (match gv.sample_sum {
                    Option::Some(s) => spec_double_field(2, s),
                    Option::None => Seq::<u8>::empty(),
                }));
            }
            let ghost base = inner@;
            while qi < qn
                invariant
                    qn == g.quantiles@.len(),
                    0 <= qi <= qn,
                    qv == g.view_spec().quantiles,
                    g.quantiles@.len() == qv.len(),
                    base + spec_quantiles_bytes(qv, 0) == inner@ + spec_quantiles_bytes(
                        qv,
                        qi as int,
                    ),
                decreases qn - qi,
            {
                let ghost before = inner@;
                let q = vstd::std_specs::vec::vec_index(&g.quantiles, qi);
                let mut qmsg: Vec<u8> = Vec::new();
                match &q.0 {
                    Some(x) => put_double_field(&mut qmsg, 1, *x),
                    None => {},
                }
                put_double_field(&mut qmsg, 2, q.1);
                proof {
                    assert(qmsg@ =~= (match qv[qi as int].quantile {
                        Option::Some(x) => spec_double_field(1, x),
                        Option::None => Seq::<u8>::empty(),
                    }) + spec_double_field(2, qv[qi as int].value));
                }
                put_len_field(&mut inner, 3, qmsg.as_slice());
                proof {
                    assert(before + spec_quantiles_bytes(qv, qi as int) =~= inner@
                        + spec_quantiles_bytes(qv, qi + 1));
                    assert(base + spec_quantiles_bytes(qv, 0) =~= inner@ + spec_quantiles_bytes(
                        qv,
                        qi + 1,
                    ));
                }
                qi = qi + 1;
            }
            proof {
                assert(inner@ =~= spec_summary_msg(gv));
            }
            put_len_field(&mut payload, 4, inner.as_slice());
        },
        MetricType::Histogram => {
            let mut inner: Vec<u8> = Vec::new();
            let ghost bv = gv.buckets;
            let bn = g.buckets.len();
            let mut bi: usize = 0;
            proof {
                assert(inner@ =~= Seq::<u8>::empty());
            }
            while bi < bn
                invariant
                    bn == g.buckets@.len(),
                    0 <= bi <= bn,
                    bv == g.view_spec().buckets,
                    g.buckets@.len() == bv.len(),
                    spec_buckets_bytes(bv, 0) == inner@ + spec_buckets_bytes(bv, bi as int),
                decreases bn - bi,
            {
                let ghost before = inner@;
                let b = vstd::std_specs::vec::vec_index(&g.buckets, bi);
                let mut bmsg: Vec<u8> = Vec::new();
                put_double_field(&mut bmsg, 4, b.0);
                put_double_field(&mut bmsg, 2, b.1);
                proof {
                    assert(bmsg@ =~= spec_double_field(4, bv[bi as int].cumulative_count_float)
                        + spec_double_field(2, bv[bi as int].upper_bound));
                }
                put_len_field(&mut inner, 3, bmsg.as_slice());
                proof {
                    assert(before + spec_buckets_bytes(bv, bi as int) =~= inner@
                        + spec_buckets_bytes(bv, bi + 1));
                    assert(spec_buckets_bytes(bv, 0) =~= inner@ + spec_buckets_bytes(bv, bi + 1));
                }
                bi = bi + 1;
            }
            put_len_field(&mut payload, 7, inner.as_slice());
        },
    }

    // The family message around it.
    let mut msg: Vec<u8> = Vec::new();
    put_len_field(&mut msg, 1, g.name.as_slice());
    let help: [u8; 19] = [
        77,
        117,
        108,
        116,
        105,
        112,
        114,
        111,
        99,
        101,
        115,
        115,
        32,
        109,
        101,
        116,
        114,
        105,
        99,
    ];
    put_len_field(&mut msg, 2, help.as_slice());
    proof {
        assert(help@ =~= proto_help_bytes());
    }
    let type_val: u64 = match g.mtype {
        MetricType::Counter => 0,
        MetricType::Gauge => 1,
        MetricType::Summary => 2,
        MetricType::Histogram => 4,
    };
    put_varint_field(&mut msg, 3, type_val);

    let mut metric: Vec<u8> = Vec::new();
    put_labels(&g.labels, &mut metric);
    metric.append(&mut payload);
    proof {
        assert(metric@ =~= spec_metric_msg(gv));
    }
    put_len_field(&mut msg, 4, metric.as_slice());
    proof {
        assert(msg@ =~= spec_family_msg(gv));
    }

    put_varint(out, msg.len() as u64);
    out.extend_from_slice(msg.as_slice());
    proof {
        assert(final(out)@ =~= old(out)@ + spec_varint(spec_family_msg(gv).len() as int)
            + spec_family_msg(gv));
    }
}


/// The label pairs of one record as the exposition sees them: one pair of
/// quotes trimmed from each name and raw value.
pub open spec fn spec_pairs(m: crate::metric_text::MetricTextView) -> Seq<LabelPairView> {
    Seq::new(
        m.labels.len(),
        |i: int|
            LabelPairView {
                name: FileEntry::spec_trim_quotes(m.labels[i]),
                value: FileEntry::spec_trim_quotes(m.values[i]),
            },
    )
}

/// The bytes of `le`.
pub open spec fn le_label() -> Seq<u8> {
    seq![108u8, 101u8]
}

/// The bytes of `+Inf`.
pub open spec fn inf_text() -> Seq<u8> {
    seq![43u8, 73u8, 110u8, 102u8]
}

/// The bytes of `quantile`.
pub open spec fn quantile_label() -> Seq<u8> {
    seq![113u8, 117u8, 97u8, 110u8, 116u8, 105u8, 108u8, 101u8]
}

/// The bytes of `_count`.
pub open spec fn count_suffix() -> Seq<u8> {
    seq![95u8, 99u8, 111u8, 117u8, 110u8, 116u8]
}

/// The bytes of `_sum`.
pub open spec fn sum_suffix() -> Seq<u8> {
    seq![95u8, 115u8, 117u8, 109u8]
}

/// The bytes of `_bucket`.
pub open spec fn bucket_suffix() -> Seq<u8> {
    seq![95u8, 98u8, 117u8, 99u8, 107u8, 101u8, 116u8]
}

/// The pairs with the named label left out.
pub open spec fn spec_excl(ps: Seq<LabelPairView>, name: Seq<u8>) -> Seq<LabelPairView> {
    ps.filter(|p: LabelPairView| p.name != name)
}

/// The value of the last pair carrying the named label, if any: a repeated
/// discriminator label is read through to its last occurrence.
pub open spec fn spec_last_value(ps: Seq<LabelPairView>, name: Seq<u8>) -> Option<Seq<u8>>
    decreases ps.len(),
{
    if ps.len() == 0 {
        None
    } else if ps.last().name == name {
        Some(ps.last().value)
    } else {
        spec_last_value(ps.drop_last(), name)
    }
}

/// Whether some pair carries the given label name and value.
pub open spec fn spec_has_pair(ps: Seq<LabelPairView>, name: Seq<u8>, value: Seq<u8>) -> bool {
    exists|i: int| 0 <= i < ps.len() && ps[i].name == name && ps[i].value == value
}

/// Whether `s` ends with `suffix`.
pub open spec fn spec_ends_with(s: Seq<u8>, suffix: Seq<u8>) -> bool {
    s.len() >= suffix.len() && s.subrange(s.len() - suffix.len(), s.len() as int) == suffix
}

/// `s` without `suffix`, where it ends with it.
pub open spec fn spec_strip(s: Seq<u8>, suffix: Seq<u8>) -> Seq<u8> {
    if spec_ends_with(s, suffix) {
        s.subrange(0, s.len() - suffix.len())
    } else {
        s
    }
}

/// A histogram row's metric name with `_bucket`, `_sum`, `_count` stripped
/// in turn, recovering the family's base name.
pub open spec fn spec_strip_histogram(name: Seq<u8>) -> Seq<u8> {
    spec_strip(spec_strip(spec_strip(name, bucket_suffix()), sum_suffix()), count_suffix())
}

/// Index of the group with this family, type and label set, or `-1`.
pub open spec fn spec_gfind(
    gs: Seq<GroupView>,
    family: Seq<u8>,
    mtype: MetricType,
    labels: Seq<LabelPairView>,
) -> int
    decreases gs.len(),
{
    if gs.len() == 0 {
        -1
    } else if gs[0].family == family && gs[0].mtype == mtype && gs[0].labels == labels {
        0
    } else {
        let r = spec_gfind(gs.drop_first(), family, mtype, labels);
        if r == -1 {
            -1
        } else {
            r + 1
        }
    }
}

/// `spec_gfind` returns either `-1` or a position that matches.
pub proof fn lemma_spec_gfind(
    gs: Seq<GroupView>,
    family: Seq<u8>,
    mtype: MetricType,
    labels: Seq<LabelPairView>,
)
    ensures
        spec_gfind(gs, family, mtype, labels) == -1 ==> forall|i: int|
            0 <= i < gs.len() ==> !(#[trigger] gs[i].family == family && gs[i].mtype == mtype
                && gs[i].labels == labels),
        spec_gfind(gs, family, mtype, labels) != -1 ==> ({
            let r = spec_gfind(gs, family, mtype, labels);
            &&& 0 <= r < gs.len()
            &&& gs[r].family == family
            &&& gs[r].mtype == mtype
            &&& gs[r].labels == labels
        }),
    decreases gs.len(),
{
    if gs.len() != 0 && !(gs[0].family == family && gs[0].mtype == mtype && gs[0].labels
        == labels) {
        lemma_spec_gfind(gs.drop_first(), family, mtype, labels);
        assert forall|i: int| 1 <= i < gs.len() implies gs.drop_first()[i - 1] == gs[i] by {}
    }
}

/// Unsigned 64-bit addition that wraps, as the summary sample count does.
pub open spec fn spec_wrap_add(a: u64, b: u64) -> u64 {
    ((a + b) % 0x1_0000_0000_0000_0000) as u64
}

/// What one record does to the groups: `None` for the fatal cases (a key
/// that does not parse, a non-numeric `le` or `quantile`, a fresh histogram
/// group without a bound); a record with mismatched label and value counts
/// changes nothing.
pub open spec fn spec_apply_entry(gs: Seq<GroupView>, e: FileEntry) -> Option<Seq<GroupView>> {
    match crate::metric_text::spec_parse_metric_text(e.data.json@) {
        Option::None => Option::None,
        Option::Some(m) => {
            if m.labels.len() != m.values.len() {
                Option::Some(gs)
            } else {
                let ps = spec_pairs(m);
                match e.meta.type_ {
                    MetricType::Counter | MetricType::Gauge => Option::Some(
                        spec_apply_simple(gs, m, ps, e.meta.type_, e.meta.value),
                    ),
                    MetricType::Histogram => spec_apply_histogram(gs, m, ps, e.meta.value),
                    MetricType::Summary => spec_apply_summary(gs, m, ps, e.meta.value),
                }
            }
        },
    }
}

/// A counter or gauge record: its group is replaced whole, or appended.
pub open spec fn spec_apply_simple(
    gs: Seq<GroupView>,
    m: crate::metric_text::MetricTextView,
    ps: Seq<LabelPairView>,
    mtype: MetricType,
    value: u64,
) -> Seq<GroupView> {
    let g = GroupView {
        family: m.family_name,
        name: m.metric_name,
        mtype,
        labels: ps,
        value,
        buckets: Seq::empty(),
        sample_count: None,
        sample_sum: None,
        quantiles: Seq::empty(),
    };
    let i = spec_gfind(gs, m.family_name, mtype, ps);
    if i == -1 {
        gs.push(g)
    } else {
        gs.update(i, g)
    }
}

/// A histogram row: a `+Inf` bound is dropped; otherwise the row's value
/// accumulates into the bucket with its bound, or founds the group.
pub open spec fn spec_apply_histogram(
    gs: Seq<GroupView>,
    m: crate::metric_text::MetricTextView,
    ps: Seq<LabelPairView>,
    value: u64,
) -> Option<Seq<GroupView>> {
    if spec_has_pair(ps, le_label(), inf_text()) {
        Option::Some(gs)
    } else {
        let lex = spec_excl(ps, le_label());
        let le_bits = match spec_last_value(ps, le_label()) {
            Option::None => Option::None,
            Option::Some(raw) => crate::value::f64_parse(raw),
        };
        if spec_last_value(ps, le_label()) is Some && le_bits is None {
            Option::None
        } else {
            let i = spec_gfind(gs, m.family_name, MetricType::Histogram, lex);
            if i != -1 {
                Option::Some(
                    match le_bits {
                        Option::None => gs,
                        Option::Some(bits) => gs.update(
                            i,
                            GroupView {
                                buckets: gs[i].buckets.map_values(
                                    |b: BucketView|
                                        if b.upper_bound == bits {
                                            BucketView {
                                                cumulative_count_float: crate::value::f64_add(
                                                    b.cumulative_count_float,
                                                    value,
                                                ),
                                                upper_bound: b.upper_bound,
                                            }
                                        } else {
                                            b
                                        },
                                ),
                                ..gs[i]
                            },
                        ),
                    },
                )
            } else {
                match le_bits {
                    Option::None => Option::None,
                    Option::Some(bits) => Option::Some(
                        gs.push(
                            GroupView {
                                family: m.family_name,
                                name: spec_strip_histogram(m.metric_name),
                                mtype: MetricType::Histogram,
                                labels: lex,
                                value: 0,
                                buckets: seq![
                                    BucketView {
                                        cumulative_count_float: value,
                                        upper_bound: bits,
                                    },
                                ],
                                sample_count: None,
                                sample_sum: None,
                                quantiles: Seq::empty(),
                            },
                        ),
                    ),
                }
            }
        }
    }
}

/// A summary row: a `_count` or `_sum` name accumulates the totals, any
/// other accumulates into the quantile entry with its discriminator.
pub open spec fn spec_apply_summary(
    gs: Seq<GroupView>,
    m: crate::metric_text::MetricTextView,
    ps: Seq<LabelPairView>,
    value: u64,
) -> Option<Seq<GroupView>> {
    let qex = spec_excl(ps, quantile_label());
    let q_bits = match spec_last_value(ps, quantile_label()) {
        Option::None => Option::None,
        Option::Some(raw) => crate::value::f64_parse(raw),
    };
    if spec_last_value(ps, quantile_label()) is Some && q_bits is None {
        Option::None
    } else {
        let is_count = spec_ends_with(m.metric_name, count_suffix());
        let is_sum = !is_count && spec_ends_with(m.metric_name, sum_suffix());
        let i = spec_gfind(gs, m.family_name, MetricType::Summary, qex);
        if i != -1 {
            let g = gs[i];
            let g2 = if is_count {
                GroupView {
                    sample_count: Some(
                        spec_wrap_add(
                            match g.sample_count {
                                Option::Some(c) => c,
                                Option::None => 0,
                            },
                            crate::value::f64_trunc(value),
                        ),
                    ),
                    ..g
                }
            } else if is_sum {
                GroupView {
                    sample_sum: Some(
                        crate::value::f64_add(
                            value,
                            match g.sample_sum {
                                Option::Some(s) => s,
                                Option::None => 0,
                            },
                        ),
                    ),
                    ..g
                }
            } else {
                let hit = exists|k: int| 0 <= k < g.quantiles.len() && g.quantiles[k].quantile
                    == q_bits;
                if hit {
                    GroupView {
                        quantiles: g.quantiles.map_values(
                            |q: QuantileView|
                                if q.quantile == q_bits {
                                    QuantileView {
                                        quantile: q.quantile,
                                        value: crate::value::f64_add(q.value, value),
                                    }
                                } else {
                                    q
                                },
                        ),
                        ..g
                    }
                } else {
                    GroupView {
                        quantiles: g.quantiles.push(QuantileView { quantile: q_bits, value }),
                        ..g
                    }
                }
            };
            Option::Some(gs.update(i, g2))
        } else {
            let g = if is_count {
                GroupView {
                    family: m.family_name,
                    name: spec_strip(m.metric_name, count_suffix()),
                    mtype: MetricType::Summary,
                    labels: qex,
                    value: 0,
                    buckets: Seq::empty(),
                    sample_count: Some(crate::value::f64_trunc(value)),
                    sample_sum: None,
                    quantiles: Seq::empty(),
                }
            } else if is_sum {
                GroupView {
                    family: m.family_name,
                    name: spec_strip(m.metric_name, sum_suffix()),
                    mtype: MetricType::Summary,
                    labels: qex,
                    value: 0,
                    buckets: Seq::empty(),
                    sample_count: None,
                    sample_sum: Some(value),
                    quantiles: Seq::empty(),
                }
            } else {
                GroupView {
                    family: m.family_name,
                    name: m.metric_name,
                    mtype: MetricType::Summary,
                    labels: qex,
                    value: 0,
                    buckets: Seq::empty(),
                    sample_count: None,
                    sample_sum: None,
                    quantiles: seq![QuantileView { quantile: q_bits, value }],
                }
            };
            Option::Some(gs.push(g))
        }
    }
}

/// What the whole record list does to the groups, applied in order.
pub open spec fn spec_build_groups(gs: Seq<GroupView>, entries: Seq<FileEntry>) -> Option<
    Seq<GroupView>,
>
    decreases entries.len(),
{
    if entries.len() == 0 {
        Option::Some(gs)
    } else {
        match spec_apply_entry(gs, entries[0]) {
            Option::None => Option::None,
            Option::Some(gs2) => spec_build_groups(gs2, entries.drop_first()),
        }
    }
}

/// Whether `s` ends with `suffix`.
fn ends_with(s: &[u8], suffix: &[u8]) -> (r: bool)
    ensures
        r == (s@.len() >= suffix@.len() && s@.subrange(
            s@.len() - suffix@.len(),
            s@.len() as int,
        ) == suffix@),
{
    if s.len() < suffix.len() {
        return false;
    }
    slices_eq(vstd::slice::slice_subrange(s, s.len() - suffix.len(), s.len()), suffix)
}

/// The mathematical content of a pair list.
pub open spec fn pair_views(s: Seq<(Vec<u8>, Vec<u8>)>) -> Seq<LabelPairView> {
    s.map_values(|p: (Vec<u8>, Vec<u8>)| LabelPairView { name: p.0@, value: p.1@ })
}

/// Unfolds one position of [`pair_views`].
proof fn lemma_pair_views_index(s: Seq<(Vec<u8>, Vec<u8>)>, i: int)
    requires
        0 <= i < s.len(),
    ensures
        pair_views(s).len() == s.len(),
        pair_views(s)[i] == (LabelPairView { name: s[i].0@, value: s[i].1@ }),
{
}

/// The mathematical content of the group list.
pub open spec fn group_views(s: Seq<Group>) -> Seq<GroupView> {
    s.map_values(|g: Group| g.view_spec())
}

/// Unfolds one position of [`group_views`].
proof fn lemma_group_views_index(s: Seq<Group>, i: int)
    requires
        0 <= i < s.len(),
    ensures
        group_views(s).len() == s.len(),
        group_views(s)[i] == s[i].view_spec(),
{
}

/// Extending the scanned prefix by one pair extends a matching-pair search
/// by that pair alone.
proof fn lemma_has_pair_take_step(pv: Seq<LabelPairView>, i: int, name: Seq<u8>, value: Seq<u8>)
    requires
        0 <= i < pv.len(),
    ensures
        spec_has_pair(pv.take(i + 1), name, value) == (spec_has_pair(pv.take(i), name, value) || (
        pv[i].name == name && pv[i].value == value)),
{
    let t0 = pv.take(i);
    let t1 = pv.take(i + 1);
    if spec_has_pair(t0, name, value) {
        let k = choose|k: int| 0 <= k < t0.len() && t0[k].name == name && t0[k].value == value;
        assert(t1[k].name == name && t1[k].value == value);
    }
    if pv[i].name == name && pv[i].value == value {
        assert(t1[i].name == name && t1[i].value == value);
    }
    if spec_has_pair(t1, name, value) {
        let k = choose|k: int| 0 <= k < t1.len() && t1[k].name == name && t1[k].value == value;
        if k < i {
            assert(t0[k].name == name && t0[k].value == value);
        }
    }
}

/// Whether two label lists hold the same pairs in the same order.
fn labels_eq(a: &Vec<(Vec<u8>, Vec<u8>)>, b: &Vec<(Vec<u8>, Vec<u8>)>) -> (r: bool)
    ensures
        r == (pair_views(a@) == pair_views(b@)),
{
    proof {
        assert(pair_views(a@).len() == a@.len());
        assert(pair_views(b@).len() == b@.len());
    }
    if a.len() != b.len() {
        return false;
    }
    let n = a.len();
    let mut i: usize = 0;
    while i < n
        invariant
            n == a@.len() == b@.len(),
            0 <= i <= n,
            forall|j: int| 0 <= j < i ==> #[trigger] pair_views(a@)[j] == pair_views(b@)[j],
        decreases n - i,
    {
        let pa = vstd::std_specs::vec::vec_index(a, i);
        let pb = vstd::std_specs::vec::vec_index(b, i);
        let name_eq = slices_eq(pa.0.as_slice(), pb.0.as_slice());
        let value_eq = slices_eq(pa.1.as_slice(), pb.1.as_slice());
        proof {
            lemma_pair_views_index(a@, i as int);
            lemma_pair_views_index(b@, i as int);
        }
        if !name_eq || !value_eq {
            proof {
                assert(pair_views(a@)[i as int] != pair_views(b@)[i as int]);
            }
            return false;
        }
        i = i + 1;
    }
    proof {
        assert(pair_views(a@) =~= pair_views(b@));
    }
    true
}

/// Index of the group with this family, type and label set, if any.
fn find_group(
    groups: &Vec<Group>,
    family: &[u8],
    mtype: &MetricType,
    labels: &Vec<(Vec<u8>, Vec<u8>)>,
) -> (r: Option<usize>)
    ensures
        ({
            let fi = spec_gfind(group_views(groups@), family@, *mtype, pair_views(labels@));
            &&& r is Some <==> fi != -1
            &&& r matches Some(i) ==> i == fi
        }),
{
    let ghost gv = group_views(groups@);
    let ghost lv = pair_views(labels@);
    let n = groups.len();
    let mut i: usize = 0;
    while i < n
        invariant
            gv == group_views(groups@),
            lv == pair_views(labels@),
            n == groups@.len(),
            0 <= i <= n,
            forall|j: int|
                0 <= j < i ==> !(#[trigger] gv[j].family == family@ && gv[j].mtype == *mtype
                    && gv[j].labels == lv),
        decreases n - i,
    {
        let g = vstd::std_specs::vec::vec_index(groups, i);
        let fam_eq = slices_eq(g.family.as_slice(), family);
        let kind_eq = g.mtype == *mtype;
        let lbl_eq = labels_eq(&g.labels, labels);
        proof {
            lemma_group_views_index(groups@, i as int);
        }
        if fam_eq && kind_eq && lbl_eq {
            proof {
                lemma_gfind_first(gv, family@, *mtype, lv, i as int);
            }
            return Some(i);
        }
        i = i + 1;
    }
    proof {
        if spec_gfind(gv, family@, *mtype, lv) != -1 {
            lemma_spec_gfind(gv, family@, *mtype, lv);
        }
    }
    None
}

/// If no earlier position matches and `i` does, `spec_gfind` returns `i`.
proof fn lemma_gfind_first(
    gs: Seq<GroupView>,
    family: Seq<u8>,
    mtype: MetricType,
    labels: Seq<LabelPairView>,
    i: int,
)
    requires
        0 <= i < gs.len(),
        gs[i].family == family && gs[i].mtype == mtype && gs[i].labels == labels,
        forall|j: int|
            0 <= j < i ==> !(#[trigger] gs[j].family == family && gs[j].mtype == mtype
                && gs[j].labels == labels),
    ensures
        spec_gfind(gs, family, mtype, labels) == i,
    decreases i,
{
    if i > 0 {
        assert forall|j: int|
            0 <= j < i - 1 implies !(#[trigger] gs.drop_first()[j].family == family
            && gs.drop_first()[j].mtype == mtype && gs.drop_first()[j].labels == labels) by {
            assert(gs.drop_first()[j] == gs[j + 1]);
        }
        assert(gs.drop_first()[i - 1] == gs[i]);
        lemma_gfind_first(gs.drop_first(), family, mtype, labels, i - 1);
    }
}

/// The label pairs of one parsed record, a pair of quotes trimmed from
/// each name and raw value.
fn build_pairs(m: &MetricText) -> (pairs: Vec<(Vec<u8>, Vec<u8>)>)
    requires
        m.labels@.len() == m.values@.len(),
    ensures
        pair_views(pairs@) == spec_pairs(m.view_spec()),
{
    let ghost mv = m.view_spec();
    let mut pairs: Vec<(Vec<u8>, Vec<u8>)> = Vec::new();
    let ln = m.labels.len();
    let mut li: usize = 0;
    while li < ln
        invariant
            mv == m.view_spec(),
            ln == m.labels@.len(),
            m.labels@.len() == m.values@.len(),
            0 <= li <= ln,
            pairs@.len() == li,
            forall|k: int| 0 <= k < li ==> #[trigger] pair_views(pairs@)[k] == spec_pairs(mv)[k],
        decreases ln - li,
    {
        let name = FileEntry::trim_quotes(
            vstd::std_specs::vec::vec_index(&m.labels, li).as_slice(),
        );
        let value = FileEntry::trim_quotes(
            vstd::std_specs::vec::vec_index(&m.values, li).as_slice(),
        );
        let ghost prev = pairs@;
        pairs.push((name, value));
        proof {
            assert(m.labels@[li as int]@ =~= mv.labels[li as int]);
            assert(m.values@[li as int]@ =~= mv.values[li as int]);
            assert forall|k: int|
                0 <= k < li + 1 implies #[trigger] pair_views(pairs@)[k] == spec_pairs(mv)[k] by {
                lemma_pair_views_index(pairs@, k);
                if k < li {
                    lemma_pair_views_index(prev, k);
                    assert(pairs@[k] == prev[k]);
                } else {
                    assert(pairs@[k] == (name, value));
                    assert(pair_views(pairs@)[k].name == name@);
                    assert(name@ == FileEntry::spec_trim_quotes(mv.labels[k]));
                    assert(value@ == FileEntry::spec_trim_quotes(mv.values[k]));
                }
            }
        }
        li = li + 1;
    }
    proof {
        assert(pair_views(pairs@) =~= spec_pairs(mv));
    }
    pairs
}

/// Splits one record's pairs around the discriminator label `dname`: the
/// pairs without it, the last value it carried, and whether any occurrence
/// of it carried `+Inf`.
fn split_pairs(pairs: &Vec<(Vec<u8>, Vec<u8>)>, dname: &[u8]) -> (r: (
    Vec<(Vec<u8>, Vec<u8>)>,
    Option<Vec<u8>>,
    bool,
))
    ensures
        ({
            let pv = pair_views(pairs@);
            &&& pair_views(r.0@) == spec_excl(pv, dname@)
            &&& (match r.1 {
                Option::Some(v) => Option::Some(v@),
                Option::None => Option::None::<Seq<u8>>,
            }) == spec_last_value(pv, dname@)
            &&& r.2 == spec_has_pair(pv, dname@, inf_text())
        }),
{
    let ghost pv = pair_views(pairs@);
    let inf_word: [u8; 4] = [43, 73, 110, 102];
    proof {
        assert(inf_word@ =~= inf_text());
    }
    let mut labels_ex: Vec<(Vec<u8>, Vec<u8>)> = Vec::new();
    let mut raw: Option<Vec<u8>> = None;
    let mut saw = false;
    let pn = pairs.len();
    let mut pi: usize = 0;
    proof {
        assert(pv.take(0) =~= Seq::<LabelPairView>::empty());
        assert(pair_views(labels_ex@) =~= Seq::<LabelPairView>::empty());
        assert(spec_excl(pv.take(0), dname@) =~= Seq::<LabelPairView>::empty());
    }
    while pi < pn
        invariant
            inf_word@ == inf_text(),
            pv == pair_views(pairs@),
            pn == pairs@.len(),
            0 <= pi <= pn,
            pair_views(labels_ex@) == spec_excl(pv.take(pi as int), dname@),
            (match raw {
                Option::Some(v) => Option::Some(v@),
                Option::None => Option::None::<Seq<u8>>,
            }) == spec_last_value(pv.take(pi as int), dname@),
            saw == spec_has_pair(pv.take(pi as int), dname@, inf_text()),
        decreases pn - pi,
    {
        let p = vstd::std_specs::vec::vec_index(pairs, pi);
        let ghost t0 = pv.take(pi as int);
        let ghost t1 = pv.take(pi + 1);
        proof {
            lemma_pair_views_index(pairs@, pi as int);
            assert(t1.drop_last() =~= t0);
            assert(t1.last() == pv[pi as int]);
            lemma_has_pair_take_step(pv, pi as int, dname@, inf_text());
        }
        let name_is_d = slices_eq(p.0.as_slice(), dname);
        if name_is_d {
            if slices_eq(p.1.as_slice(), inf_word.as_slice()) {
                saw = true;
            }
            raw = Some(vstd::slice::slice_to_vec(p.1.as_slice()));
            proof {
                reveal_with_fuel(Seq::filter, 2);
                assert(t1.last().name == dname@);
                assert(t1.len() != 0);
                assert(t1.drop_last() == t0);
                assert(spec_excl(t1, dname@) == spec_excl(t0, dname@));
            }
        } else {
            labels_ex.push(
                (
                    vstd::slice::slice_to_vec(p.0.as_slice()),
                    vstd::slice::slice_to_vec(p.1.as_slice()),
                ),
            );
            proof {
                reveal_with_fuel(Seq::filter, 2);
                assert(t1.last().name != dname@);
                assert(t1.len() != 0);
                assert(t1.drop_last() == t0);
                assert(spec_excl(t1, dname@) == spec_excl(t0, dname@).push(pv[pi as int]));
                let ghost le = labels_ex@;
                lemma_pair_views_index(le, le.len() - 1);
                assert forall|k: int|
                    0 <= k < le.len() implies #[trigger] pair_views(le)[k] == spec_excl(
                    t1,
                    dname@,
                )[k] by {
                    lemma_pair_views_index(le, k);
                    if k < le.len() - 1 {
                        lemma_pair_views_index(le.drop_last(), k);
                        assert(pair_views(le)[k] == pair_views(le.drop_last())[k]);
                    }
                }
                assert(pair_views(le) =~= spec_excl(t1, dname@));
            }
        }
        pi = pi + 1;
    }
    proof {
        assert(pv.take(pn as int) =~= pv);
    }
    (labels_ex, raw, saw)
}

/// Strips `_bucket`, then `_sum`, then `_count` from a histogram row's
/// metric name, where present, to recover the family's base name.
fn strip_histogram_suffixes(name: &[u8]) -> (r: Vec<u8>)
    ensures
        r@ == spec_strip_histogram(name@),
{
    let bucket_word: [u8; 7] = [95, 98, 117, 99, 107, 101, 116];
    let sum_word: [u8; 4] = [95, 115, 117, 109];
    let count_word: [u8; 6] = [95, 99, 111, 117, 110, 116];
    proof {
        assert(bucket_word@ =~= bucket_suffix());
        assert(sum_word@ =~= sum_suffix());
        assert(count_word@ =~= count_suffix());
    }
    let mut end = name.len();
    proof {
        assert(name@.subrange(0, end as int) =~= name@);
    }
    if ends_with(vstd::slice::slice_subrange(name, 0, end), bucket_word.as_slice()) {
        end = end - 7;
    }
    proof {
        assert(name@.subrange(0, end as int) =~= spec_strip(name@, bucket_suffix()));
    }
    let ghost s1 = name@.subrange(0, end as int);
    if ends_with(vstd::slice::slice_subrange(name, 0, end), sum_word.as_slice()) {
        end = end - 4;
    }
    proof {
        assert(name@.subrange(0, end as int) =~= spec_strip(s1, sum_suffix()));
    }
    let ghost s2 = name@.subrange(0, end as int);
    if ends_with(vstd::slice::slice_subrange(name, 0, end), count_word.as_slice()) {
        end = end - 6;
    }
    proof {
        assert(name@.subrange(0, end as int) =~= spec_strip(s2, count_suffix()));
    }
    vstd::slice::slice_to_vec(vstd::slice::slice_subrange(name, 0, end))
}

/// Apply one record to the groups under construction.
#[verifier::rlimit(100)]
fn apply_entry(groups: &mut Vec<Group>, entry: &FileEntry) -> (r: Result<(), MmapError>)
    ensures
        r is Ok <==> spec_apply_entry(group_views(old(groups)@), *entry) is Some,
        r is Ok ==> group_views(final(groups)@) == spec_apply_entry(
            group_views(old(groups)@),
            *entry,
        )->Some_0,
        r is Err ==> final(groups)@ == old(groups)@ && r->Err_0 is Other,
{
    let ghost gv0 = group_views(groups@);

    let m = match parse_metric_text(entry.data.json.as_slice()) {
        Some(m) => m,
        None => {
            return Err(MmapError::Other(String::from_str("cannot parse json entry")));
        },
    };
    if m.labels.len() != m.values.len() {
        return Ok(());
    }

    let ghost mv = m.view_spec();
    let pairs = build_pairs(&m);
    let ghost ps = spec_pairs(mv);

    match entry.meta.type_ {
        MetricType::Counter | MetricType::Gauge => {
            let found = find_group(groups, m.family_name.as_slice(), &entry.meta.type_, &pairs);
            let g = Group {
                family: m.family_name,
                name: m.metric_name,
                mtype: entry.meta.type_,
                labels: pairs,
                value: entry.meta.value,
                buckets: Vec::new(),
                sample_count: None,
                sample_sum: None,
                quantiles: Vec::new(),
            };
            proof {
                assert(g.view_spec().buckets =~= Seq::<BucketView>::empty());
                assert(g.view_spec().quantiles =~= Seq::<QuantileView>::empty());
            }
            match found {
                Some(gi) => {
                    proof {
                        lemma_spec_gfind(gv0, mv.family_name, entry.meta.type_, ps);
                    }
                    let slot = vstd::std_specs::vec::vec_index_mut(groups, gi);
                    *slot = g;
                    proof {
                        assert forall|x: int|
                            0 <= x < groups@.len() implies #[trigger] group_views(groups@)[x]
                            == spec_apply_simple(gv0, mv, ps, entry.meta.type_, entry.meta.value)[x]
                             by {
                            lemma_group_views_index(groups@, x);
                            lemma_group_views_index(old(groups)@, x);
                        }
                        assert(group_views(groups@) =~= spec_apply_simple(
                            gv0,
                            mv,
                            ps,
                            entry.meta.type_,
                            entry.meta.value,
                        ));
                    }
                },
                None => {
                    groups.push(g);
                    proof {
                        assert forall|x: int|
                            0 <= x < groups@.len() implies #[trigger] group_views(groups@)[x]
                            == spec_apply_simple(gv0, mv, ps, entry.meta.type_, entry.meta.value)[x]
                             by {
                            lemma_group_views_index(groups@, x);
                            if x < old(groups)@.len() {
                                lemma_group_views_index(old(groups)@, x);
                            }
                        }
                        assert(group_views(groups@) =~= spec_apply_simple(
                            gv0,
                            mv,
                            ps,
                            entry.meta.type_,
                            entry.meta.value,
                        ));
                    }
                },
            }
            Ok(())
        },
        MetricType::Histogram => {
            let le_word: [u8; 2] = [108, 101];
            proof {
                assert(le_word@ =~= le_label());
            }
            let (labels_ex, le_raw, saw_inf) = split_pairs(&pairs, le_word.as_slice());
            if saw_inf {
                return Ok(());
            }
            let le_bits: Option<u64> = match &le_raw {
                Some(raw) => match value_parse(raw.as_slice()) {
                    Some(bits) => Some(bits),
                    None => {
                        return Err(MmapError::Other(String::from_str("failed to parse le")));
                    },
                },
                None => None,
            };
            let found = find_group(
                groups,
                m.family_name.as_slice(),
                &MetricType::Histogram,
                &labels_ex,
            );
            proof {
                assert(pair_views(labels_ex@) == spec_excl(ps, le_label()));
            }
            match found {
                Some(gi) => {
                    proof {
                        lemma_spec_gfind(
                            gv0,
                            mv.family_name,
                            MetricType::Histogram,
                            spec_excl(ps, le_label()),
                        );
                    }
                    if let Some(bits) = le_bits {
                        let ghost old_g = groups@[gi as int];
                        let slot = vstd::std_specs::vec::vec_index_mut(groups, gi);
                        let bn = slot.buckets.len();
                        let mut bi: usize = 0;
                        while bi < bn
                            invariant
                                bn == slot.buckets@.len(),
                                0 <= bi <= bn,
                                slot.buckets@.len() == old_g.buckets@.len(),
                                slot.family == old_g.family,
                                slot.name == old_g.name,
                                slot.mtype == old_g.mtype,
                                slot.labels == old_g.labels,
                                slot.value == old_g.value,
                                slot.sample_count == old_g.sample_count,
                                slot.sample_sum == old_g.sample_sum,
                                slot.quantiles == old_g.quantiles,
                                forall|k: int|
                                    0 <= k < bi ==> #[trigger] slot.buckets@[k] == (
                                    if old_g.buckets@[k].1 == bits {
                                        (
                                            crate::value::f64_add(
                                                old_g.buckets@[k].0,
                                                entry.meta.value,
                                            ),
                                            old_g.buckets@[k].1,
                                        )
                                    } else {
                                        old_g.buckets@[k]
                                    }),
                                forall|k: int|
                                    bi <= k < bn ==> #[trigger] slot.buckets@[k]
                                        == old_g.buckets@[k],
                            decreases bn - bi,
                        {
                            let b = vstd::std_specs::vec::vec_index_mut(&mut slot.buckets, bi);
                            if b.1 == bits {
                                b.0 = value_add(b.0, entry.meta.value);
                            }
                            bi = bi + 1;
                        }
                        proof {
                            let spec_gs = spec_apply_histogram(
                                gv0,
                                mv,
                                ps,
                                entry.meta.value,
                            )->Some_0;
                            assert(slot.view_spec().buckets =~= old_g.view_spec().buckets
                                .map_values(
                                |bb: BucketView|
                                    if bb.upper_bound == bits {
                                        BucketView {
                                            cumulative_count_float: crate::value::f64_add(
                                                bb.cumulative_count_float,
                                                entry.meta.value,
                                            ),
                                            upper_bound: bb.upper_bound,
                                        }
                                    } else {
                                        bb
                                    },
                            ));
                            assert forall|x: int|
                                0 <= x < groups@.len() implies #[trigger] group_views(groups@)[x]
                                == spec_gs[x] by {
                                lemma_group_views_index(groups@, x);
                                lemma_group_views_index(old(groups)@, x);
                            }
                            assert(group_views(groups@) =~= spec_gs);
                        }
                    }
                    Ok(())
                },
                None => {
                    let bits = match le_bits {
                        Some(bits) => bits,
                        None => {
                            return Err(MmapError::Other(String::from_str("got no LE")));
                        },
                    };
                    let mut buckets: Vec<(u64, u64)> = Vec::new();
                    buckets.push((entry.meta.value, bits));
                    let g = Group {
                        family: m.family_name,
                        name: strip_histogram_suffixes(m.metric_name.as_slice()),
                        mtype: MetricType::Histogram,
                        labels: labels_ex,
                        value: 0,
                        buckets,
                        sample_count: None,
                        sample_sum: None,
                        quantiles: Vec::new(),
                    };
                    proof {
                        assert(g.view_spec().buckets =~= seq![
                            BucketView {
                                cumulative_count_float: entry.meta.value,
                                upper_bound: bits,
                            },
                        ]);
                        assert(g.view_spec().quantiles =~= Seq::<QuantileView>::empty());
                    }
                    groups.push(g);
                    proof {
                        let spec_gs = spec_apply_histogram(
                            gv0,
                            mv,
                            ps,
                            entry.meta.value,
                        )->Some_0;
                        assert forall|x: int|
                            0 <= x < groups@.len() implies #[trigger] group_views(groups@)[x]
                            == spec_gs[x] by {
                            lemma_group_views_index(groups@, x);
                            if x < old(groups)@.len() {
                                lemma_group_views_index(old(groups)@, x);
                            }
                        }
                        assert(group_views(groups@) =~= spec_gs);
                    }
                    Ok(())
                },
            }
        },
        MetricType::Summary => {
            let quantile_word: [u8; 8] = [113, 117, 97, 110, 116, 105, 108, 101];
            let sum_word: [u8; 4] = [95, 115, 117, 109];
            let count_word: [u8; 6] = [95, 99, 111, 117, 110, 116];
            proof {
                assert(quantile_word@ =~= quantile_label());
                assert(sum_word@ =~= sum_suffix());
                assert(count_word@ =~= count_suffix());
            }
            let (labels_ex, q_raw, _) = split_pairs(&pairs, quantile_word.as_slice());
            let q_bits: Option<u64> = match &q_raw {
                Some(raw) => match value_parse(raw.as_slice()) {
                    Some(bits) => Some(bits),
                    None => {
                        return Err(
                            MmapError::Other(String::from_str("failed to parse quantile")),
                        );
                    },
                },
                None => None,
            };
            let is_count = ends_with(m.metric_name.as_slice(), count_word.as_slice());
            let is_sum = !is_count && ends_with(m.metric_name.as_slice(), sum_word.as_slice());
            let found = find_group(
                groups,
                m.family_name.as_slice(),
                &MetricType::Summary,
                &labels_ex,
            );
            proof {
                assert(pair_views(labels_ex@) == spec_excl(ps, quantile_label()));
            }
            match found {
                Some(gi) => {
                    proof {
                        lemma_spec_gfind(
                            gv0,
                            mv.family_name,
                            MetricType::Summary,
                            spec_excl(ps, quantile_label()),
                        );
                    }
                    let ghost old_g = groups@[gi as int];
                    let slot = vstd::std_specs::vec::vec_index_mut(groups, gi);
                    if is_count {
                        let old_count = match &slot.sample_count {
                            Some(c) => *c,
                            None => 0,
                        };
                        slot.sample_count = Some(
                            old_count.wrapping_add(value_trunc(entry.meta.value)),
                        );
                    } else if is_sum {
                        let old_sum = match &slot.sample_sum {
                            Some(s) => *s,
                            None => 0,
                        };
                        slot.sample_sum = Some(value_add(entry.meta.value, old_sum));
                    } else {
                        let qn = slot.quantiles.len();
                        let mut found_q = false;
                        let mut qi: usize = 0;
                        while qi < qn
                            invariant
                                qn == slot.quantiles@.len(),
                                0 <= qi <= qn,
                                slot.quantiles@.len() == old_g.quantiles@.len(),
                                slot.family == old_g.family,
                                slot.name == old_g.name,
                                slot.mtype == old_g.mtype,
                                slot.labels == old_g.labels,
                                slot.value == old_g.value,
                                slot.buckets == old_g.buckets,
                                slot.sample_count == old_g.sample_count,
                                slot.sample_sum == old_g.sample_sum,
                                found_q == exists|k: int|
                                    0 <= k < qi && old_g.quantiles@[k].0 == q_bits,
                                forall|k: int|
                                    0 <= k < qi ==> #[trigger] slot.quantiles@[k] == (
                                    if old_g.quantiles@[k].0 == q_bits {
                                        (
                                            old_g.quantiles@[k].0,
                                            crate::value::f64_add(
                                                old_g.quantiles@[k].1,
                                                entry.meta.value,
                                            ),
                                        )
                                    } else {
                                        old_g.quantiles@[k]
                                    }),
                                forall|k: int|
                                    qi <= k < qn ==> #[trigger] slot.quantiles@[k]
                                        == old_g.quantiles@[k],
                            decreases qn - qi,
                        {
                            let q = vstd::std_specs::vec::vec_index_mut(&mut slot.quantiles, qi);
                            let same = match (&q.0, &q_bits) {
                                (Some(a), Some(b)) => *a == *b,
                                (None, None) => true,
                                _ => false,
                            };
                            if same {
                                q.1 = value_add(q.1, entry.meta.value);
                                found_q = true;
                                proof {
                                    assert(old_g.quantiles@[qi as int].0 == q_bits);
                                }
                            }
                            qi = qi + 1;
                        }
                        if !found_q {
                            slot.quantiles.push((q_bits, entry.meta.value));
                        }
                    }
                    proof {
                        let spec_gs = spec_apply_summary(gv0, mv, ps, entry.meta.value)->Some_0;
                        let ghost ogv = old_g.view_spec();
                        if !is_count && !is_sum {
                            assert((exists|k: int|
                                0 <= k < ogv.quantiles.len() && ogv.quantiles[k].quantile
                                    == q_bits) == (exists|k: int|
                                0 <= k < old_g.quantiles@.len() && old_g.quantiles@[k].0
                                    == q_bits)) by {
                                if exists|k: int|
                                    0 <= k < ogv.quantiles.len() && ogv.quantiles[k].quantile
                                        == q_bits {
                                    let k = choose|k: int|
                                        0 <= k < ogv.quantiles.len() && ogv.quantiles[k].quantile
                                            == q_bits;
                                    assert(old_g.quantiles@[k].0 == q_bits);
                                }
                                if exists|k: int|
                                    0 <= k < old_g.quantiles@.len() && old_g.quantiles@[k].0
                                        == q_bits {
                                    let k = choose|k: int|
                                        0 <= k < old_g.quantiles@.len() && old_g.quantiles@[k].0
                                            == q_bits;
                                    assert(ogv.quantiles[k].quantile == q_bits);
                                }
                            }
                            assert(slot.view_spec().quantiles =~= spec_gs[gi as int].quantiles);
                        }
                        assert forall|x: int|
                            0 <= x < groups@.len() implies #[trigger] group_views(groups@)[x]
                            == spec_gs[x] by {
                            lemma_group_views_index(groups@, x);
                            lemma_group_views_index(old(groups)@, x);
                        }
                        assert(group_views(groups@) =~= spec_gs);
                    }
                    Ok(())
                },
                None => {
                    let name_slice = m.metric_name.as_slice();
                    let g = if is_count {
                        Group {
                            family: m.family_name,
                            name: vstd::slice::slice_to_vec(
                                vstd::slice::slice_subrange(
                                    name_slice,
                                    0,
                                    name_slice.len() - 6,
                                ),
                            ),
                            mtype: MetricType::Summary,
                            labels: labels_ex,
                            value: 0,
                            buckets: Vec::new(),
                            sample_count: Some(value_trunc(entry.meta.value)),
                            sample_sum: None,
                            quantiles: Vec::new(),
                        }
                    } else if is_sum {
                        Group {
                            family: m.family_name,
                            name: vstd::slice::slice_to_vec(
                                vstd::slice::slice_subrange(
                                    name_slice,
                                    0,
                                    name_slice.len() - 4,
                                ),
                            ),
                            mtype: MetricType::Summary,
                            labels: labels_ex,
                            value: 0,
                            buckets: Vec::new(),
                            sample_count: None,
                            sample_sum: Some(entry.meta.value),
                            quantiles: Vec::new(),
                        }
                    } else {
                        let mut quantiles: Vec<(Option<u64>, u64)> = Vec::new();
                        quantiles.push((q_bits, entry.meta.value));
                        Group {
                            family: m.family_name,
                            name: vstd::slice::slice_to_vec(name_slice),
                            mtype: MetricType::Summary,
                            labels: labels_ex,
                            value: 0,
                            buckets: Vec::new(),
                            sample_count: None,
                            sample_sum: None,
                            quantiles,
                        }
                    };
                    proof {
                        assert(g.view_spec().buckets =~= Seq::<BucketView>::empty());
                        if is_count || is_sum {
                            assert(g.view_spec().quantiles =~= Seq::<QuantileView>::empty());
                            assert(g.name@ =~= spec_strip(
                                mv.metric_name,
                                if is_count {
                                    count_suffix()
                                } else {
                                    sum_suffix()
                                },
                            ));
                        } else {
                            assert(g.view_spec().quantiles =~= seq![
                                QuantileView { quantile: q_bits, value: entry.meta.value },
                            ]);
                        }
                    }
                    groups.push(g);
                    proof {
                        let spec_gs = spec_apply_summary(gv0, mv, ps, entry.meta.value)->Some_0;
                        assert forall|x: int|
                            0 <= x < groups@.len() implies #[trigger] group_views(groups@)[x]
                            == spec_gs[x] by {
                            lemma_group_views_index(groups@, x);
                            if x < old(groups)@.len() {
                                lemma_group_views_index(old(groups)@, x);
                            }
                        }
                        assert(group_views(groups@) =~= spec_gs);
                    }
                    Ok(())
                },
            }
        },
    }
}

/// Convert the entries into length-delimited binary metric-family
/// messages. Consecutive records of one family land in one message per
/// distinct label set (the `le` and `quantile` discriminators excluded);
/// histogram rows accumulate buckets, summary rows quantiles and the
/// `_sum` / `_count` totals. A record whose metric text does not parse,
/// or whose `le` / `quantile` value is not numeric, is a fatal error; a
/// record whose label and value counts differ is dropped.
pub fn entries_to_protobuf(entries: Vec<FileEntry>) -> (r: Result<Vec<u8>, MmapError>)
    ensures
        r is Ok <==> spec_build_groups(Seq::<GroupView>::empty(), entries@) is Some,
        r is Ok ==> r->Ok_0@ == spec_families_bytes(
            spec_build_groups(Seq::<GroupView>::empty(), entries@)->Some_0,
            0,
        ),
        r is Err ==> r->Err_0 is Other,
{
    let mut groups: Vec<Group> = Vec::new();
    proof {
        assert(group_views(groups@) =~= Seq::<GroupView>::empty());
        assert(entries@.skip(0) =~= entries@);
    }

    let n = entries.len();
    let mut idx: usize = 0;
    while idx < n
        invariant
            n == entries@.len(),
            0 <= idx <= n,
            spec_build_groups(group_views(groups@), entries@.skip(idx as int))
                == spec_build_groups(Seq::<GroupView>::empty(), entries@),
        decreases n - idx,
    {
        proof {
            assert(entries@.skip(idx as int)[0] == entries@[idx as int]);
            assert(entries@.skip(idx as int).drop_first() =~= entries@.skip(idx + 1));
        }
        let entry = vstd::std_specs::vec::vec_index(&entries, idx);
        match apply_entry(&mut groups, entry) {
            Ok(_) => {},
            Err(e) => {
                return Err(e);
            },
        }
        idx = idx + 1;
    }
    proof {
        assert(entries@.skip(n as int).len() == 0);
    }

    // Serialize each group as a length-prefixed family message.
    let mut out: Vec<u8> = Vec::new();
    let ghost gv = group_views(groups@);
    let gn = groups.len();
    let mut gi: usize = 0;
    while gi < gn
        invariant
            gn == groups@.len(),
            0 <= gi <= gn,
            gv == group_views(groups@),
            spec_families_bytes(gv, 0) == out@ + spec_families_bytes(gv, gi as int),
        decreases gn - gi,
    {
        let ghost before = out@;
        let g = vstd::std_specs::vec::vec_index(&groups, gi);
        put_family(g, &mut out);
        proof {
            lemma_group_views_index(groups@, gi as int);
            assert(before + spec_families_bytes(gv, gi as int) =~= out@ + spec_families_bytes(
                gv,
                gi + 1,
            ));
            assert(spec_families_bytes(gv, 0) =~= out@ + spec_families_bytes(gv, gi + 1));
        }
        gi = gi + 1;
    }
    proof {
        assert(out@ =~= spec_families_bytes(gv, 0));
    }
    Ok(out)
}

} // verus!
