use fast_mmaped_file::error::{MmapError, RubyError};
use fast_mmaped_file::file_entry::{
    AggregationMode, EntryData, EntryMetadata, FileEntry, MetricType,
};

fn mode(name: &str) -> AggregationMode {
    match name {
        "min" => AggregationMode::Min,
        "max" => AggregationMode::Max,
        "livesum" => AggregationMode::Livesum,
        _ => AggregationMode::All,
    }
}

fn metric_kind(name: &str) -> MetricType {
    match name {
        "counter" => MetricType::Counter,
        "gauge" => MetricType::Gauge,
        "histogram" => MetricType::Histogram,
        _ => MetricType::Summary,
    }
}

fn entry(json: &str, value: f64, mode_name: &str, kind: &str, pid: &str) -> FileEntry {
    let meta = EntryMetadata {
        multiprocess_mode: mode(mode_name),
        type_: metric_kind(kind),
        value: value.to_bits(),
    };
    let pid = if meta.is_pid_significant() {
        Some(pid.as_bytes().to_vec())
    } else {
        None
    };
    FileEntry { data: EntryData { json: json.as_bytes().to_vec(), pid }, meta }
}

#[test]
fn test_trim_quotes() {
    assert_eq!(b"foo".to_vec(), FileEntry::trim_quotes(b"foo"));
    assert_eq!(b"foo".to_vec(), FileEntry::trim_quotes(b"\"foo\""));
}

#[test]
fn test_merge() {
    struct TestCase {
        name: &'static str,
        metric_type: &'static str,
        multiprocess_mode: &'static str,
        values: &'static [f64],
        expected_value: f64,
    }

    let tc = vec![
        TestCase {
            name: "gauge max",
            metric_type: "gauge",
            multiprocess_mode: "max",
            values: &[1.0, 5.0],
            expected_value: 5.0,
        },
        TestCase {
            name: "gauge min",
            metric_type: "gauge",
            multiprocess_mode: "min",
            values: &[1.0, 5.0],
            expected_value: 1.0,
        },
        TestCase {
            name: "gauge livesum",
            metric_type: "gauge",
            multiprocess_mode: "livesum",
            values: &[1.0, 5.0],
            expected_value: 6.0,
        },
        TestCase {
            name: "gauge all",
            metric_type: "gauge",
            multiprocess_mode: "all",
            values: &[1.0, 5.0],
            expected_value: 5.0,
        },
        TestCase {
            name: "not a gauge",
            metric_type: "histogram",
            multiprocess_mode: "max",
            values: &[1.0, 5.0],
            expected_value: 6.0,
        },
    ];

    for case in tc {
        let name = case.name;
        let json = r#"["family","metric",["label_a","label_b"],["value_a","value_b"]]"#;

        let mut entry_a = entry(json, case.values[0], case.multiprocess_mode, case.metric_type,
            "worker-1");
        let entry_b = entry(json, case.values[1], case.multiprocess_mode, case.metric_type,
            "worker-1");
        entry_a.meta.merge(&entry_b.meta);

        assert_eq!(
            case.expected_value.to_bits(),
            entry_a.meta.value,
            "test case: {name} - value"
        );
    }
}

#[test]
fn test_merge_ignores_nan() {
    // A NaN operand loses to a number in min and max modes, matching the
    // float operations' NaN handling; region files can hold any bytes, so
    // NaN patterns are reachable.
    let json = r#"["f","m",[],[]]"#;
    for (mode_name, nan) in [
        ("max", f64::NAN),
        ("min", f64::NAN),
        ("max", -f64::NAN),
        ("min", -f64::NAN),
    ] {
        let mut a = entry(json, nan, mode_name, "gauge", "w");
        a.meta.merge(&entry(json, 1.0, mode_name, "gauge", "w").meta);
        assert_eq!(1.0f64.to_bits(), a.meta.value, "{mode_name} nan first");
        assert_eq!(f64::max(nan, 1.0), 1.0, "float max agrees");

        let mut b = entry(json, 1.0, mode_name, "gauge", "w");
        b.meta.merge(&entry(json, nan, mode_name, "gauge", "w").meta);
        assert_eq!(1.0f64.to_bits(), b.meta.value, "{mode_name} nan second");
    }

    // Two NaNs merge to a NaN.
    let mut c = entry(json, f64::NAN, "min", "gauge", "w");
    c.meta.merge(&entry(json, -f64::NAN, "min", "gauge", "w").meta);
    assert!(f64::from_bits(c.meta.value).is_nan());
}

#[test]
fn test_merge_min_max_commutative_associative() {
    let json = r#"["f","m",[],[]]"#;
    for mode_name in ["min", "max"] {
        let vals = [3.5f64, -2.0, 3.5, 0.25];
        // Commutative.
        let mut ab = entry(json, vals[0], mode_name, "gauge", "w");
        ab.meta.merge(&entry(json, vals[1], mode_name, "gauge", "w").meta);
        let mut ba = entry(json, vals[1], mode_name, "gauge", "w");
        ba.meta.merge(&entry(json, vals[0], mode_name, "gauge", "w").meta);
        assert_eq!(ab.meta.value, ba.meta.value, "{mode_name} commutative");

        // Associative.
        let mut bc = entry(json, vals[1], mode_name, "gauge", "w");
        bc.meta.merge(&entry(json, vals[2], mode_name, "gauge", "w").meta);
        let mut a_bc = entry(json, vals[0], mode_name, "gauge", "w");
        a_bc.meta.merge(&bc.meta);
        let mut ab2 = entry(json, vals[0], mode_name, "gauge", "w");
        ab2.meta.merge(&entry(json, vals[1], mode_name, "gauge", "w").meta);
        ab2.meta.merge(&entry(json, vals[2], mode_name, "gauge", "w").meta);
        assert_eq!(a_bc.meta.value, ab2.meta.value, "{mode_name} associative");
    }

    // Livesum and counter sums commute on these values too.
    let mut ab = entry(json, 1.25, "livesum", "gauge", "w");
    ab.meta.merge(&entry(json, 2.5, "livesum", "gauge", "w").meta);
    let mut ba = entry(json, 2.5, "livesum", "gauge", "w");
    ba.meta.merge(&entry(json, 1.25, "livesum", "gauge", "w").meta);
    assert_eq!(ab.meta.value, ba.meta.value, "livesum commutative");

    // For the default mode the last value applied wins.
    let mut all = entry(json, 1.0, "all", "gauge", "w");
    all.meta.merge(&entry(json, 9.0, "all", "gauge", "w").meta);
    assert_eq!(9.0f64.to_bits(), all.meta.value, "all last wins");
}

#[test]
fn test_entries_to_string_escaped_value() {
    // A string label value holding an escape renders as its raw text.
    let e = entry(r#"["family","name",["l"],["a\"b"]]"#, 1.0, "min", "gauge", "w");
    let out = FileEntry::entries_to_string(vec![e]).unwrap();
    assert_eq!(
        "# HELP family Multiprocess metric\n# TYPE family gauge\nname{l=\"a\\\"b\"} 1\n",
        std::str::from_utf8(&out).unwrap()
    );
}

#[test]
fn test_entries_to_string() {
    struct TestCase {
        name: &'static str,
        multiprocess_mode: &'static str,
        json: &'static [&'static str],
        values: &'static [f64],
        pids: &'static [&'static str],
        expected_out: Option<&'static str>,
        expected_err: Option<MmapError>,
    }

    let tc = vec![
        TestCase {
            name: "one metric, pid significant",
            multiprocess_mode: "all",
            json: &[r#"["family","name",["label_a","label_b"],["value_a","value_b"]]"#],
            values: &[1.0],
            pids: &["worker-1"],
            expected_out: Some(
                "# HELP family Multiprocess metric\n# TYPE family gauge\nname{label_a=\"value_a\",label_b=\"value_b\",pid=\"worker-1\"} 1\n",
            ),
            expected_err: None,
        },
        TestCase {
            name: "one metric, no pid",
            multiprocess_mode: "min",
            json: &[r#"["family","name",["label_a","label_b"],["value_a","value_b"]]"#],
            values: &[1.0],
            pids: &["worker-1"],
            expected_out: Some(
                "# HELP family Multiprocess metric\n# TYPE family gauge\nname{label_a=\"value_a\",label_b=\"value_b\"} 1\n",
            ),
            expected_err: None,
        },
        TestCase {
            name: "many labels",
            multiprocess_mode: "min",
            json: &[
                r#"["family","name",["label_a","label_b","label_c","label_d","label_e"],["value_a","value_b","value_c","value_d","value_e"]]"#,
            ],
            values: &[1.0],
            pids: &["worker-1"],
            expected_out: Some(
                "# HELP family Multiprocess metric\n# TYPE family gauge\nname{label_a=\"value_a\",label_b=\"value_b\",label_c=\"value_c\",label_d=\"value_d\",label_e=\"value_e\"} 1\n",
            ),
            expected_err: None,
        },
        TestCase {
            name: "floating point shown",
            multiprocess_mode: "min",
            json: &[r#"["family","name",["label_a","label_b"],["value_a","value_b"]]"#],
            values: &[1.5],
            pids: &["worker-1"],
            expected_out: Some(
                "# HELP family Multiprocess metric\n# TYPE family gauge\nname{label_a=\"value_a\",label_b=\"value_b\"} 1.5\n",
            ),
            expected_err: None,
        },
        TestCase {
            name: "numeric value",
            multiprocess_mode: "min",
            json: &[r#"["family","name",["label_a","label_b","label_c"],["value_a",403,-0.2E5]]"#],
            values: &[1.5],
            pids: &["worker-1"],
            expected_out: Some(
                "# HELP family Multiprocess metric\n# TYPE family gauge\nname{label_a=\"value_a\",label_b=\"403\",label_c=\"-0.2E5\"} 1.5\n",
            ),
            expected_err: None,
        },
        TestCase {
            name: "null value",
            multiprocess_mode: "min",
            json: &[r#"["family","name",["label_a","label_b"],["value_a",null]]"#],
            values: &[1.5],
            pids: &["worker-1"],
            expected_out: Some(
                "# HELP family Multiprocess metric\n# TYPE family gauge\nname{label_a=\"value_a\",label_b=\"\"} 1.5\n",
            ),
            expected_err: None,
        },
        TestCase {
            name: "comma in value",
            multiprocess_mode: "min",
            json: &[r#"["family","name",["label_a","label_b"],["value_a","value,_b"]]"#],
            values: &[1.5],
            pids: &["worker-1"],
            expected_out: Some(
                "# HELP family Multiprocess metric\n# TYPE family gauge\nname{label_a=\"value_a\",label_b=\"value,_b\"} 1.5\n",
            ),
            expected_err: None,
        },
        TestCase {
            name: "no labels, pid significant",
            multiprocess_mode: "all",
            json: &[r#"["family","name",[],[]]"#],
            values: &[1.0],
            pids: &["worker-1"],
            expected_out: Some(
                "# HELP family Multiprocess metric\n# TYPE family gauge\nname{pid=\"worker-1\"} 1\n",
            ),
            expected_err: None,
        },
        TestCase {
            name: "no labels, no pid",
            multiprocess_mode: "min",
            json: &[r#"["family","name",[],[]]"#],
            values: &[1.0],
            pids: &["worker-1"],
            expected_out: Some(
                "# HELP family Multiprocess metric\n# TYPE family gauge\nname 1\n",
            ),
            expected_err: None,
        },
        TestCase {
            name: "two metrics, same family, pid significant",
            multiprocess_mode: "all",
            json: &[
                r#"["family","first",["label_a","label_b"],["value_a","value_b"]]"#,
                r#"["family","second",["label_a","label_b"],["value_a","value_b"]]"#,
            ],
            values: &[1.0, 2.0],
            pids: &["worker-1", "worker-1"],
            expected_out: Some(
                "# HELP family Multiprocess metric\n# TYPE family gauge\nfirst{label_a=\"value_a\",label_b=\"value_b\",pid=\"worker-1\"} 1\nsecond{label_a=\"value_a\",label_b=\"value_b\",pid=\"worker-1\"} 2\n",
            ),
            expected_err: None,
        },
        TestCase {
            name: "two metrics, different family, pid significant",
            multiprocess_mode: "min",
            json: &[
                r#"["first_family","first_name",["label_a","label_b"],["value_a","value_b"]]"#,
                r#"["second_family","second_name",["label_a","label_b"],["value_a","value_b"]]"#,
            ],
            values: &[1.0, 2.0],
            pids: &["worker-1", "worker-1"],
            expected_out: Some(
                "# HELP first_family Multiprocess metric\n# TYPE first_family gauge\nfirst_name{label_a=\"value_a\",label_b=\"value_b\"} 1\n# HELP second_family Multiprocess metric\n# TYPE second_family gauge\nsecond_name{label_a=\"value_a\",label_b=\"value_b\"} 2\n",
            ),
            expected_err: None,
        },
        TestCase {
            name: "three metrics, two different families, pid significant",
            multiprocess_mode: "all",
            json: &[
                r#"["first_family","first_name",["label_a","label_b"],["value_a","value_b"]]"#,
                r#"["first_family","second_name",["label_a","label_b"],["value_a","value_b"]]"#,
                r#"["second_family","second_name",["label_a","label_b"],["value_a","value_b"]]"#,
            ],
            values: &[1.0, 2.0, 3.0],
            pids: &["worker-1", "worker-1", "worker-1"],
            expected_out: Some(
                "# HELP first_family Multiprocess metric\n# TYPE first_family gauge\nfirst_name{label_a=\"value_a\",label_b=\"value_b\",pid=\"worker-1\"} 1\nsecond_name{label_a=\"value_a\",label_b=\"value_b\",pid=\"worker-1\"} 2\n# HELP second_family Multiprocess metric\n# TYPE second_family gauge\nsecond_name{label_a=\"value_a\",label_b=\"value_b\",pid=\"worker-1\"} 3\n",
            ),
            expected_err: None,
        },
        TestCase {
            name: "same metrics, pid significant, separate workers",
            multiprocess_mode: "all",
            json: &[
                r#"["first_family","first_name",["label_a","label_b"],["value_a","value_b"]]"#,
                r#"["first_family","first_name",["label_a","label_b"],["value_a","value_b"]]"#,
            ],
            values: &[1.0, 2.0],
            pids: &["worker-1", "worker-2"],
            expected_out: Some(
                "# HELP first_family Multiprocess metric\n# TYPE first_family gauge\nfirst_name{label_a=\"value_a\",label_b=\"value_b\",pid=\"worker-1\"} 1\nfirst_name{label_a=\"value_a\",label_b=\"value_b\",pid=\"worker-2\"} 2\n",
            ),
            expected_err: None,
        },
        TestCase {
            name: "same metrics, pid not significant, separate workers",
            multiprocess_mode: "max",
            json: &[
                r#"["first_family","first_name",["label_a","label_b"],["value_a","value_b"]]"#,
                r#"["first_family","first_name",["label_a","label_b"],["value_a","value_b"]]"#,
            ],
            values: &[1.0, 2.0],
            pids: &["worker-1", "worker-2"],
            expected_out: Some(
                "# HELP first_family Multiprocess metric\n# TYPE first_family gauge\nfirst_name{label_a=\"value_a\",label_b=\"value_b\"} 1\nfirst_name{label_a=\"value_a\",label_b=\"value_b\"} 2\n",
            ),
            expected_err: None,
        },
        TestCase {
            name: "entry fails to parse",
            multiprocess_mode: "min",
            json: &[
                r#"["first_family","first_name",["label_a","label_b"],["value_a","value_b"]]"#,
                r#"[not valid"#,
            ],
            values: &[1.0, 2.0],
            pids: &["worker-1", "worker-1"],
            expected_out: None,
            expected_err: Some(MmapError::legacy(
                "Processed entries 1 != map entries 2".to_owned(),
                RubyError::Runtime,
            )),
        },
        TestCase {
            name: "too many values",
            multiprocess_mode: "min",
            json: &[r#"["family","name",["label_a"],["value_a","value,_b"]]"#],
            values: &[1.5],
            pids: &["worker-1"],
            expected_out: None,
            expected_err: Some(MmapError::legacy(
                "Processed entries 0 != map entries 1".to_owned(),
                RubyError::Runtime,
            )),
        },
        TestCase {
            name: "no values",
            multiprocess_mode: "min",
            json: &[r#"["family","name",["label_a"]]"#],
            values: &[1.5],
            pids: &["worker-1"],
            expected_out: None,
            expected_err: Some(MmapError::legacy(
                "Processed entries 0 != map entries 1".to_owned(),
                RubyError::Runtime,
            )),
        },
        TestCase {
            name: "no labels or values",
            multiprocess_mode: "min",
            json: &[r#"["family","name","foo"]"#],
            values: &[1.5],
            pids: &["worker-1"],
            expected_out: None,
            expected_err: Some(MmapError::legacy(
                "Processed entries 0 != map entries 1".to_owned(),
                RubyError::Runtime,
            )),
        },
        TestCase {
            name: "too many leading brackets",
            multiprocess_mode: "min",
            json: &[r#"[["family","name",["label_a","label_b"],["value_a","value_b"]]"#],
            values: &[1.5],
            pids: &["worker-1"],
            expected_out: None,
            expected_err: Some(MmapError::legacy(
                "Processed entries 0 != map entries 1".to_owned(),
                RubyError::Runtime,
            )),
        },
        TestCase {
            name: "too many trailing brackets",
            multiprocess_mode: "min",
            json: &[r#"["family","name",["label_a","label_b"],["value_a","value_b"]]]"#],
            values: &[1.5],
            pids: &["worker-1"],
            expected_out: None,
            expected_err: Some(MmapError::legacy(
                "Processed entries 0 != map entries 1".to_owned(),
                RubyError::Runtime,
            )),
        },
        TestCase {
            name: "too many leading label brackets",
            multiprocess_mode: "min",
            json: &[r#"["family","name",[["label_a","label_b"],["value_a","value_b"]]"#],
            values: &[1.5],
            pids: &["worker-1"],
            expected_out: None,
            expected_err: Some(MmapError::legacy(
                "Processed entries 0 != map entries 1".to_owned(),
                RubyError::Runtime,
            )),
        },
        TestCase {
            name: "too many leading value brackets",
            multiprocess_mode: "min",
            json: &[r#"["family","name",["label_a","label_b"],[["value_a","value_b"]]"#],
            values: &[1.5],
            pids: &["worker-1"],
            expected_out: None,
            expected_err: Some(MmapError::legacy(
                "Processed entries 0 != map entries 1".to_owned(),
                RubyError::Runtime,
            )),
        },
        TestCase {
            name: "misplaced bracket",
            multiprocess_mode: "min",
            json: &[r#"["family","name",["label_a","label_b"],]["value_a","value_b"]]"#],
            values: &[1.5],
            pids: &["worker-1"],
            expected_out: None,
            expected_err: Some(MmapError::legacy(
                "Processed entries 0 != map entries 1".to_owned(),
                RubyError::Runtime,
            )),
        },
        TestCase {
            name: "comma in numeric",
            multiprocess_mode: "min",
            json: &[r#"["family","name",["label_a","label_b"],["value_a",403,0]]"#],
            values: &[1.5],
            pids: &["worker-1"],
            expected_out: None,
            expected_err: Some(MmapError::legacy(
                "Processed entries 0 != map entries 1".to_owned(),
                RubyError::Runtime,
            )),
        },
        TestCase {
            name: "non-e letter in numeric",
            multiprocess_mode: "min",
            json: &[r#"["family","name",["label_a","label_b"],["value_a",-2.0c5]]"#],
            values: &[1.5],
            pids: &["worker-1"],
            expected_out: None,
            expected_err: Some(MmapError::legacy(
                "Processed entries 0 != map entries 1".to_owned(),
                RubyError::Runtime,
            )),
        },
    ];

    for case in tc {
        let name = case.name;

        let file_entries: Vec<FileEntry> = case
            .json
            .iter()
            .zip(case.values)
            .zip(case.pids)
            .map(|((json, value), pid)| entry(json, *value, case.multiprocess_mode, "gauge", pid))
            .collect();

        let output = FileEntry::entries_to_string(file_entries);

        if let Some(expected_out) = case.expected_out {
            assert_eq!(
                expected_out.as_bytes(),
                output.as_ref().unwrap().as_slice(),
                "test case: {name} - output"
            );
        }

        if let Some(expected_err) = case.expected_err {
            assert_eq!(expected_err, output.unwrap_err(), "test case: {name} - error");
        }
    }
}

#[test]
fn test_is_pid_significant() {
    for (mode_name, expected) in
        [("all", true), ("min", false), ("max", false), ("livesum", false)]
    {
        let e = entry(r#"["f","m",[],[]]"#, 1.0, mode_name, "gauge", "w");
        assert_eq!(expected, e.meta.is_pid_significant(), "gauge {mode_name}");
    }
    let meta = EntryMetadata {
        multiprocess_mode: AggregationMode::All,
        type_: MetricType::Counter,
        value: 0,
    };
    assert!(!meta.is_pid_significant(), "counters never carry a pid");
}
