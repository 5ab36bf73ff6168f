use fast_mmaped_file::error::MmapError;
use fast_mmaped_file::file_entry::{
    AggregationMode, BorrowedData, EntryMetadata, FileInfo, MetricType,
};
use fast_mmaped_file::map::{to_metrics, EntryMap};

/// A record's bytes: length header, key, space padding, value bits.
fn test_entry_bytes(json: &str, value: f64) -> Vec<u8> {
    let mut out = (json.len() as u32).to_ne_bytes().to_vec();
    out.extend_from_slice(json.as_bytes());
    let pad = 8 - (4 + json.len()) % 8;
    out.extend_from_slice(&vec![b' '; pad]);
    out.extend_from_slice(&value.to_ne_bytes());
    out
}

/// Format the data for a region: an optional header override sets an
/// invalid `used` size.
fn entries_to_db(entries: &[&str], values: &[f64], header: Option<u32>) -> Vec<u8> {
    let mut out = Vec::new();

    let entry_bytes: Vec<u8> = entries
        .iter()
        .zip(values)
        .flat_map(|(e, val)| test_entry_bytes(e, *val))
        .collect();

    let used = match header {
        Some(u) => u,
        None => (entry_bytes.len() + 8) as u32,
    };

    out.extend(used.to_ne_bytes());
    out.extend([0x0u8; 4]);
    out.extend(entry_bytes);

    out
}

fn gauge_meta(mode: AggregationMode, value: f64) -> EntryMetadata {
    EntryMetadata { multiprocess_mode: mode, type_: MetricType::Gauge, value: value.to_bits() }
}

fn file_info(mode: AggregationMode, type_: MetricType, pid: &str, len: usize) -> FileInfo {
    FileInfo {
        path: "test.db".to_string(),
        len,
        multiprocess_mode: mode,
        type_,
        pid: pid.as_bytes().to_vec(),
    }
}

#[test]
fn test_into_sorted() {
    let entries: Vec<(&str, &str)> = vec![
        ("zzzzzz", "worker-0_0"),
        ("zzz", "worker-0_0"),
        ("zzzaaa", "worker-0_0"),
        ("aaa", "worker-0_0"),
        ("ooo", "worker-1_0"),
        ("ooo", "worker-0_0"),
    ];

    let mut map = EntryMap::new();
    for (json, pid) in &entries {
        let data = BorrowedData { json: json.as_bytes(), pid: Some(pid.as_bytes()) };
        map.merge_or_store(data, gauge_meta(AggregationMode::All, 1.0)).unwrap();
    }

    let result = map.into_sorted();
    assert!(result.is_ok());
    let sorted = result.unwrap();
    assert_eq!(sorted.len(), 6);
    assert_eq!(sorted[0].data.json, b"aaa");
    assert_eq!(sorted[1].data.json, b"ooo");
    assert_eq!(sorted[1].data.pid.as_deref(), Some(b"worker-0_0".as_slice()));
    assert_eq!(sorted[2].data.json, b"ooo");
    assert_eq!(sorted[2].data.pid.as_deref(), Some(b"worker-1_0".as_slice()));
    assert_eq!(sorted[3].data.json, b"zzz");
    assert_eq!(sorted[4].data.json, b"zzzaaa");
    assert_eq!(sorted[5].data.json, b"zzzzzz");
}

#[test]
fn test_merge_or_store() {
    let key = "foobar";

    let starting = BorrowedData { json: key.as_bytes(), pid: Some(b"worker-0_0") };
    let matching = BorrowedData { json: key.as_bytes(), pid: Some(b"worker-0_0") };
    let same_key_different_worker =
        BorrowedData { json: key.as_bytes(), pid: Some(b"worker-1_0") };
    let unmatched = BorrowedData { json: b"another key", pid: Some(b"worker-0_0") };

    let mut map = EntryMap::new();

    map.merge_or_store(starting, gauge_meta(AggregationMode::All, 1.0)).unwrap();

    map.merge_or_store(matching, gauge_meta(AggregationMode::All, 5.0)).unwrap();
    let probe = BorrowedData { json: key.as_bytes(), pid: Some(b"worker-0_0") };
    assert_eq!(5.0f64.to_bits(), map.get(&probe).unwrap().value, "value updated");
    assert_eq!(1, map.len(), "no entry added");

    map.merge_or_store(same_key_different_worker, gauge_meta(AggregationMode::All, 100.0))
        .unwrap();
    assert_eq!(5.0f64.to_bits(), map.get(&probe).unwrap().value, "value unchanged");
    assert_eq!(2, map.len(), "additional entry added");

    map.merge_or_store(unmatched, gauge_meta(AggregationMode::All, 100.0)).unwrap();
    assert_eq!(5.0f64.to_bits(), map.get(&probe).unwrap().value, "value unchanged");
    assert_eq!(3, map.len(), "entry added");
}

#[test]
fn test_process_buffer() {
    struct TestCase {
        name: &'static str,
        json: &'static [&'static str],
        values: &'static [f64],
        used: Option<u32>,
        expected_ct: usize,
        expected_err: Option<MmapError>,
    }

    let tc = vec![
        TestCase {
            name: "single entry",
            json: &[r#"["first_family","first_name",["label_a","label_b"],["value_a","value_b"]]"#],
            values: &[1.0],
            used: None,
            expected_ct: 1,
            expected_err: None,
        },
        TestCase {
            name: "multiple entries",
            json: &[
                r#"["first_family","first_name",["label_a","label_b"],["value_a","value_b"]]"#,
                r#"["second_family","first_name",["label_a","label_b"],["value_a","value_b"]]"#,
            ],
            values: &[1.0, 2.0],
            used: None,
            expected_ct: 2,
            expected_err: None,
        },
        TestCase {
            name: "empty",
            json: &[],
            values: &[],
            used: None,
            expected_ct: 0,
            expected_err: None,
        },
        TestCase {
            name: "used too long",
            json: &[r#"["first_family","first_name",["label_a","label_b"],["value_a","value_b"]]"#],
            values: &[1.0],
            used: Some(9999),
            expected_ct: 0,
            expected_err: Some(MmapError::PromParsing(String::new())),
        },
        TestCase {
            name: "used too short",
            json: &[r#"["first_family","first_name",["label_a","label_b"],["value_a","value_b"]]"#],
            values: &[1.0],
            used: Some(15),
            expected_ct: 0,
            expected_err: Some(MmapError::out_of_bounds(88, 7)),
        },
    ];

    for case in tc {
        let name = case.name;

        let input_bytes = entries_to_db(case.json, case.values, case.used);
        let info =
            file_info(AggregationMode::Max, MetricType::Gauge, "worker-1", case.json.len());

        let mut map = EntryMap::new();
        let result = map.process_buffer(&info, &input_bytes);

        assert_eq!(case.expected_ct, map.len(), "test case: {name} - count");

        if let Some(expected_err) = case.expected_err {
            // Validate we have the right variant for the error. The
            // corruption message contains the path, so only its shape is
            // compared there.
            let err = result.unwrap_err();
            assert_eq!(
                std::mem::discriminant(&expected_err),
                std::mem::discriminant(&err),
                "test case: {name} - failure"
            );
            if let MmapError::OutOfBounds { .. } = expected_err {
                assert_eq!(expected_err, err, "test case: {name} - exact bounds error");
            }
        } else {
            assert_eq!(Ok(()), result, "test case: {name} - success");
            assert_eq!(case.json.len(), map.len(), "test case: {name} - all entries captured");
        }
    }
}

#[test]
fn test_record_overrun_keeps_prior_records() {
    // A second record truncated by `used` is fatal, but the first record
    // is already merged and stays in the map.
    let good = r#"["f","m",["a"],["x"]]"#;
    let mut input = entries_to_db(&[good, good], &[1.0, 2.0], None);
    let good_len = test_entry_bytes(good, 1.0).len();
    // Shorten `used` so the second record overruns it by one byte.
    let used = (8 + 2 * good_len - 1) as u32;
    input[0..4].copy_from_slice(&used.to_ne_bytes());

    let info = file_info(AggregationMode::Max, MetricType::Gauge, "worker-1", 2);
    let mut map = EntryMap::new();
    let err = map.process_buffer(&info, &input).unwrap_err();
    assert_eq!(
        MmapError::out_of_bounds(good_len, good_len - 1),
        err,
        "the failing record's total length against the bytes left"
    );
    assert_eq!(1, map.len(), "the record before the failure is kept");
    let probe = BorrowedData { json: good.as_bytes(), pid: None };
    assert_eq!(1.0f64.to_bits(), map.get(&probe).unwrap().value);
}

#[test]
fn test_corruption_raised_before_any_merge() {
    // A `used` header past the physical end of the region is fatal for the
    // region, and nothing is merged.
    let input = entries_to_db(&[r#"["f","m",[],[]]"#], &[1.0], Some(4096));
    let info = file_info(AggregationMode::All, MetricType::Gauge, "worker-1", 1);

    let mut map = EntryMap::new();
    let result = map.process_buffer(&info, &input);
    assert!(matches!(result, Err(MmapError::PromParsing(_))));
    assert_eq!(0, map.len());
}

#[test]
fn test_to_metrics_single_record() {
    let input = entries_to_db(&[r#"["family","name",["a","b"],["x","y"]]"#], &[1.0], None);
    let info = file_info(AggregationMode::All, MetricType::Gauge, "worker-1", 1);

    let out = to_metrics(vec![(info, input)]).unwrap();
    assert_eq!(
        "# HELP family Multiprocess metric\n# TYPE family gauge\nname{a=\"x\",b=\"y\",pid=\"worker-1\"} 1\n",
        std::str::from_utf8(&out).unwrap()
    );
}

#[test]
fn test_to_metrics_merges_across_regions() {
    let json = r#"["family","name",["a"],["x"]]"#;
    let region_1 = entries_to_db(&[json], &[1.0], None);
    let region_2 = entries_to_db(&[json], &[5.0], None);

    let out = to_metrics(vec![
        (file_info(AggregationMode::Min, MetricType::Gauge, "worker-1", 1), region_1.clone()),
        (file_info(AggregationMode::Min, MetricType::Gauge, "worker-2", 1), region_2.clone()),
    ])
    .unwrap();
    assert_eq!(
        "# HELP family Multiprocess metric\n# TYPE family gauge\nname{a=\"x\"} 1\n",
        std::str::from_utf8(&out).unwrap(),
        "min mode keeps the smaller value"
    );

    let out = to_metrics(vec![
        (file_info(AggregationMode::Max, MetricType::Gauge, "worker-1", 1), region_1.clone()),
        (file_info(AggregationMode::Max, MetricType::Gauge, "worker-2", 1), region_2.clone()),
    ])
    .unwrap();
    assert_eq!(
        "# HELP family Multiprocess metric\n# TYPE family gauge\nname{a=\"x\"} 5\n",
        std::str::from_utf8(&out).unwrap(),
        "max mode keeps the larger value"
    );

    let out = to_metrics(vec![
        (file_info(AggregationMode::Livesum, MetricType::Gauge, "worker-1", 1), region_1),
        (file_info(AggregationMode::Livesum, MetricType::Gauge, "worker-2", 1), region_2),
    ])
    .unwrap();
    assert_eq!(
        "# HELP family Multiprocess metric\n# TYPE family gauge\nname{a=\"x\"} 6\n",
        std::str::from_utf8(&out).unwrap(),
        "livesum mode sums the values"
    );
}

#[test]
fn test_label_count_mismatch_raises_aggregate_error() {
    // A record whose label and value counts differ is excluded from the
    // text output, and the processed-count check reports it.
    let input = entries_to_db(&[r#"["family","name",["a","b"],["x"]]"#], &[1.0], None);
    let info = file_info(AggregationMode::All, MetricType::Gauge, "worker-1", 1);

    let err = to_metrics(vec![(info, input)]).unwrap_err();
    assert_eq!(
        MmapError::legacy(
            "Processed entries 0 != map entries 1".to_owned(),
            fast_mmaped_file::error::RubyError::Runtime,
        ),
        err
    );
}
