use fast_mmaped_file::file_entry::{
    AggregationMode, EntryData, EntryMetadata, FileEntry, MetricType,
};
use fast_mmaped_file::protobuf::{entries_to_protobuf, put_varint};

fn entry(json: &str, value: f64, type_: MetricType) -> FileEntry {
    FileEntry {
        data: EntryData { json: json.as_bytes().to_vec(), pid: None },
        meta: EntryMetadata {
            multiprocess_mode: AggregationMode::All,
            type_,
            value: value.to_bits(),
        },
    }
}

#[test]
fn test_put_varint() {
    for (value, expected) in [
        (0u64, vec![0u8]),
        (1, vec![1]),
        (127, vec![127]),
        (128, vec![0x80, 0x01]),
        (300, vec![0xac, 0x02]),
        (u64::MAX, vec![0xff, 0xff, 0xff, 0xff, 0xff, 0xff, 0xff, 0xff, 0xff, 0x01]),
    ] {
        let mut out = Vec::new();
        put_varint(&mut out, value);
        assert_eq!(expected, out, "varint of {value}");
    }
}

#[test]
fn test_single_gauge_family_bytes() {
    let out = entries_to_protobuf(vec![entry(r#"["f","n",[],[]]"#, 1.0, MetricType::Gauge)])
        .unwrap();

    // Gauge submessage: double value = 1.0.
    let mut gauge = vec![0x09u8];
    gauge.extend_from_slice(&1.0f64.to_bits().to_le_bytes());
    // Metric: no labels, field 2 holds the gauge.
    let mut metric = vec![0x12, gauge.len() as u8];
    metric.extend_from_slice(&gauge);
    // MetricFamily: name, help, type enum (gauge = 1), one metric.
    let mut msg = vec![0x0a, 1, b'n', 0x12, 19];
    msg.extend_from_slice(b"Multiprocess metric");
    msg.extend_from_slice(&[0x18, 1, 0x22, metric.len() as u8]);
    msg.extend_from_slice(&metric);
    // The family message arrives length-prefixed.
    let mut expected = vec![msg.len() as u8];
    expected.extend_from_slice(&msg);

    assert_eq!(expected, out);
}

#[test]
fn test_histogram_buckets_grouped() {
    let out = entries_to_protobuf(vec![
        entry(r#"["h","h_bucket",["le"],["0.5"]]"#, 2.0, MetricType::Histogram),
        entry(r#"["h","h_bucket",["le"],["+Inf"]]"#, 3.0, MetricType::Histogram),
    ])
    .unwrap();

    // The +Inf bound is dropped, leaving one bucket: cumulative count
    // (float) 2.0, upper bound 0.5; field 4 precedes field 2.
    let mut bucket = vec![0x21u8];
    bucket.extend_from_slice(&2.0f64.to_bits().to_le_bytes());
    bucket.push(0x11);
    bucket.extend_from_slice(&0.5f64.to_bits().to_le_bytes());
    // Histogram: repeated bucket in field 3.
    let mut histogram = vec![0x1a, bucket.len() as u8];
    histogram.extend_from_slice(&bucket);
    // Metric: histogram payload in field 7.
    let mut metric = vec![0x3a, histogram.len() as u8];
    metric.extend_from_slice(&histogram);
    // MetricFamily: the `_bucket` suffix is stripped from the name, the
    // type enum for a histogram is 4.
    let mut msg = vec![0x0a, 1, b'h', 0x12, 19];
    msg.extend_from_slice(b"Multiprocess metric");
    msg.extend_from_slice(&[0x18, 4, 0x22, metric.len() as u8]);
    msg.extend_from_slice(&metric);
    let mut expected = vec![msg.len() as u8];
    expected.extend_from_slice(&msg);

    assert_eq!(expected, out);
}

#[test]
fn test_summary_accumulates() {
    let out = entries_to_protobuf(vec![
        entry(r#"["s","s_count",[],[]]"#, 3.0, MetricType::Summary),
        entry(r#"["s","s_sum",[],[]]"#, 1.5, MetricType::Summary),
        entry(r#"["s","s",["quantile"],["0.99"]]"#, 0.25, MetricType::Summary),
    ])
    .unwrap();

    // All three rows share the family and (discriminator-free) label set,
    // so one family message holds count, sum and the quantile.
    let mut summary = vec![0x08u8, 3];
    summary.push(0x11);
    summary.extend_from_slice(&1.5f64.to_bits().to_le_bytes());
    let mut quantile = vec![0x09u8];
    quantile.extend_from_slice(&0.99f64.to_bits().to_le_bytes());
    quantile.push(0x11);
    quantile.extend_from_slice(&0.25f64.to_bits().to_le_bytes());
    summary.push(0x1a);
    summary.push(quantile.len() as u8);
    summary.extend_from_slice(&quantile);

    let mut metric = vec![0x22, summary.len() as u8];
    metric.extend_from_slice(&summary);
    let mut msg = vec![0x0a, 1, b's', 0x12, 19];
    msg.extend_from_slice(b"Multiprocess metric");
    msg.extend_from_slice(&[0x18, 2, 0x22, metric.len() as u8]);
    msg.extend_from_slice(&metric);
    let mut expected = vec![msg.len() as u8];
    expected.extend_from_slice(&msg);

    assert_eq!(expected, out);
}

#[test]
fn test_counter_with_labels() {
    let out = entries_to_protobuf(vec![entry(
        r#"["c","c_total",["job"],["api"]]"#,
        7.0,
        MetricType::Counter,
    )])
    .unwrap();

    // LabelPair: name "job", value "api".
    let mut pair = vec![0x0au8, 3];
    pair.extend_from_slice(b"job");
    pair.extend_from_slice(&[0x12, 3]);
    pair.extend_from_slice(b"api");
    // Counter submessage: double value = 7.0.
    let mut counter = vec![0x09u8];
    counter.extend_from_slice(&7.0f64.to_bits().to_le_bytes());
    // Metric: the label, then the counter in field 3.
    let mut metric = vec![0x0a, pair.len() as u8];
    metric.extend_from_slice(&pair);
    metric.extend_from_slice(&[0x1a, counter.len() as u8]);
    metric.extend_from_slice(&counter);
    // MetricFamily: counters keep their name; the type enum is 0.
    let mut msg = vec![0x0a, 7];
    msg.extend_from_slice(b"c_total");
    msg.extend_from_slice(&[0x12, 19]);
    msg.extend_from_slice(b"Multiprocess metric");
    msg.extend_from_slice(&[0x18, 0, 0x22, metric.len() as u8]);
    msg.extend_from_slice(&metric);
    let mut expected = vec![msg.len() as u8];
    expected.extend_from_slice(&msg);

    assert_eq!(expected, out);
}

#[test]
fn test_unparsable_entry_is_fatal() {
    let result = entries_to_protobuf(vec![entry("[not valid", 1.0, MetricType::Gauge)]);
    assert!(result.is_err());
}
