use fast_mmaped_file::error::{MmapError, RubyError};
use fast_mmaped_file::exemplars::{parse_exemplar, read_exemplar, EXEMPLAR_ENTRY_MAX_SIZE_BYTES};
use fast_mmaped_file::metric_text::parse_metric_text;

#[test]
fn test_parse_metric_text_fields() {
    let m = parse_metric_text(br#"["family","name",["label_a","label_b"],["value_a",403,null]]"#)
        .unwrap();
    assert_eq!(b"family".to_vec(), m.family_name);
    assert_eq!(b"name".to_vec(), m.metric_name);
    assert_eq!(vec![b"label_a".to_vec(), b"label_b".to_vec()], m.labels);
    // Values keep their raw text: quotes for strings, digits for numbers.
    assert_eq!(vec![b"\"value_a\"".to_vec(), b"403".to_vec(), b"null".to_vec()], m.values);
}

#[test]
fn test_parse_metric_text_empty_lists() {
    let m = parse_metric_text(br#"["f","n",[],[]]"#).unwrap();
    assert!(m.labels.is_empty());
    assert!(m.values.is_empty());
}

#[test]
fn test_parse_metric_text_numbers() {
    // JSON numbers in all their shapes.
    for ok in [
        &br#"["f","n",["a"],[-0.2E5]]"#[..],
        br#"["f","n",["a"],[0]]"#,
        br#"["f","n",["a"],[10.25]]"#,
        br#"["f","n",["a"],[1e9]]"#,
        br#"["f","n",["a"],[-3E+2]]"#,
        br#"["f","n",["a"],[true]]"#,
        br#"["f","n",["a"],[false]]"#,
    ] {
        assert!(parse_metric_text(ok).is_some(), "{}", String::from_utf8_lossy(ok));
    }
    for bad in [
        &br#"["f","n",["a"],[-2.0c5]]"#[..],
        br#"["f","n",["a"],[01]]"#,
        br#"["f","n",["a"],[.5]]"#,
        br#"["f","n",["a"],[2.]]"#,
        br#"["f","n",["a"],[nul]]"#,
    ] {
        assert!(parse_metric_text(bad).is_none(), "{}", String::from_utf8_lossy(bad));
    }
}

#[test]
fn test_parse_metric_text_value_escapes() {
    // Escape sequences are part of the value grammar and are kept verbatim
    // in the raw text.
    let m = parse_metric_text(br#"["f","n",["a"],["va\"l"]]"#).unwrap();
    assert_eq!(vec![br#""va\"l""#.to_vec()], m.values);
    let m = parse_metric_text(br#"["f","n",["a"],["\u0041\n"]]"#).unwrap();
    assert_eq!(vec![br#""\u0041\n""#.to_vec()], m.values);

    // Malformed escapes, and escapes outside a label value, fail the parse.
    for bad in [
        &br#"["f","n",["a"],["\x"]]"#[..],
        br#"["f","n",["a"],["\u00"]]"#,
        br#"["f","n",["la\"bel"],["v"]]"#,
        br#"["fam\"ily","n",["a"],["v"]]"#,
    ] {
        assert!(parse_metric_text(bad).is_none(), "{}", String::from_utf8_lossy(bad));
    }
}

#[test]
fn test_parse_exemplar() {
    let json = br#"{"label_name":"trace_id","label_value":"abc123","value":1.5,"timestamp":1234567890}"#;
    let e = parse_exemplar(json).unwrap();
    assert_eq!(b"trace_id".to_vec(), e.label_name);
    assert_eq!(b"abc123".to_vec(), e.label_value);
    assert_eq!(1.5f64.to_bits(), e.value);
    assert_eq!(1234567890u128, e.timestamp);

    for bad in [
        &b"{}"[..],
        br#"{"label_name":"a","label_value":"b","value":x,"timestamp":1}"#,
        br#"{"label_name":"a","label_value":"b","value":1.5}"#,
        br#"{"label_name":"a","label_value":"b","value":1.5,"timestamp":}"#,
        br#"{"label_name":"a","label_value":"b","value":1.5,"timestamp":1}x"#,
    ] {
        assert!(parse_exemplar(bad).is_none(), "{}", String::from_utf8_lossy(bad));
    }

    // A zero-padded slot reads back the record; a short buffer is a bounds
    // error and garbage is a parse error.
    let mut slot = json.to_vec();
    slot.resize(EXEMPLAR_ENTRY_MAX_SIZE_BYTES, 0);
    let e = read_exemplar(&slot, 0).unwrap();
    assert_eq!(1234567890u128, e.timestamp);

    assert_eq!(
        MmapError::out_of_bounds(EXEMPLAR_ENTRY_MAX_SIZE_BYTES + 8, slot.len()),
        read_exemplar(&slot, 8).unwrap_err()
    );
    let garbage = vec![1u8; EXEMPLAR_ENTRY_MAX_SIZE_BYTES];
    assert!(matches!(read_exemplar(&garbage, 0), Err(MmapError::PromParsing(_))));
}

#[test]
fn test_parse_metric_text_malformed() {
    for bad in [
        &b"[not valid"[..],
        br#"[["family","name",["a"],["b"]]"#,
        br#"["family","name",["a"],["b"]]]"#,
        br#"["family","name",[["a"],["b"]]"#,
        br#"["family","name","foo"]"#,
        br#"["family","name",["a"]]"#,
        br#"["family","name",["a"],]["b"]]"#,
        br#"["family","name",["a"],["b"],"extra"]"#,
        b"",
        br#"["family"]"#,
        // Escapes and control bytes are outside the subset.
        br#"["fam\"ily","name",["a"],["b"]]"#,
    ] {
        assert!(parse_metric_text(bad).is_none(), "{}", String::from_utf8_lossy(bad));
    }
}

#[test]
fn test_ruby_err_mapping() {
    assert_eq!(RubyError::Arg, MmapError::ConcurrentAccess.ruby_err());
    assert_eq!(RubyError::Arg, MmapError::KeyLength.ruby_err());
    assert_eq!(RubyError::Index, MmapError::out_of_bounds(1, 0).ruby_err());
    assert_eq!(RubyError::NoMem, MmapError::OutOfMemory(64).ruby_err());
    assert_eq!(RubyError::Encoding, MmapError::Encoding("bad".to_string()).ruby_err());
    assert_eq!(RubyError::PromParsing, MmapError::PromParsing("bad".to_string()).ruby_err());
    assert_eq!(RubyError::Io, MmapError::UnmappedFile.ruby_err());
    assert_eq!(
        RubyError::Runtime,
        MmapError::legacy("boom".to_string(), RubyError::Runtime).ruby_err()
    );
    assert_eq!(RubyError::Arg, MmapError::failed_cast("usize", "u32", 300, "len").ruby_err());
    assert_eq!(RubyError::Io, MmapError::with_errno("read".to_string()).ruby_err());
}

#[test]
fn test_error_constructors() {
    assert_eq!(
        MmapError::OutOfBounds { index: "12".to_string(), len: "7".to_string() },
        MmapError::out_of_bounds(12, 7)
    );
    assert_eq!(
        MmapError::FailedCast {
            from: "usize",
            to: "u32",
            value: "300".to_string(),
            object_name: "used".to_string(),
        },
        MmapError::failed_cast("usize", "u32", 300, "used")
    );
    let err = MmapError::overflowed(-3, 4, "adding", "i64");
    assert_eq!(
        MmapError::Overflow {
            value: "-3".to_string(),
            added: "4".to_string(),
            op: "adding".to_string(),
            ty: "i64",
        },
        err
    );
}
