use fast_mmaped_file::error::MmapError;
use fast_mmaped_file::raw_entry::RawEntry;

/// A record's bytes: length header, key, space padding, value bits.
fn test_entry_bytes(json: &str, value: f64) -> Vec<u8> {
    let mut out = (json.len() as u32).to_ne_bytes().to_vec();
    out.extend_from_slice(json.as_bytes());
    let pad = 8 - (4 + json.len()) % 8;
    out.extend_from_slice(&vec![b' '; pad]);
    out.extend_from_slice(&value.to_ne_bytes());
    out
}

#[test]
fn test_from_slice() {
    struct TestCase {
        name: &'static str,
        header: u32,
        json: &'static str,
        value: f64,
        expected_enc_len: Option<usize>,
        expected_err: Option<MmapError>,
    }

    let tc = vec![
        TestCase {
            name: "ok",
            header: 61,
            json: r#"["metric","name",["label_a","label_b"],["value_a","value_b"]]"#,
            value: 1.0,
            expected_enc_len: Some(61),
            expected_err: None,
        },
        TestCase {
            name: "zero length key",
            header: 0,
            json: "",
            value: 1.0,
            expected_enc_len: Some(0),
            expected_err: None,
        },
        TestCase {
            name: "header value too large",
            header: i32::MAX as u32 + 1,
            json: "foo",
            value: 0.0,
            expected_enc_len: None,
            expected_err: Some(MmapError::KeyLength),
        },
        TestCase {
            name: "header value much longer than json len",
            header: 256,
            json: "foobar",
            value: 1.0,
            expected_enc_len: None,
            expected_err: Some(MmapError::out_of_bounds(272, 24)),
        },
        TestCase {
            name: "header off by one",
            header: 4,
            json: "123",
            value: 1.0,
            expected_enc_len: None,
            expected_err: Some(MmapError::out_of_bounds(24, 16)),
        },
    ];

    for case in tc {
        let name = case.name;
        // Build the input with the case's header, which may disagree with
        // the key's real length.
        let mut input = case.header.to_ne_bytes().to_vec();
        input.extend_from_slice(case.json.as_bytes());
        let pad = 8 - (4 + case.json.len()) % 8;
        input.extend_from_slice(&vec![b' '; pad]);
        input.extend_from_slice(&case.value.to_ne_bytes());

        let resp = RawEntry::from_slice(&input);

        if case.expected_err.is_none() {
            let resp = resp.as_ref().unwrap();
            let expected = test_entry_bytes(case.json, case.value);

            assert_eq!(&expected[4..], resp.bytes, "test case: {name} - bytes");
            assert_eq!(resp.json(), case.json.as_bytes(), "test case: {name} - json matches");
            assert_eq!(resp.total_len(), expected.len(), "test case: {name} - total_len matches");
            assert_eq!(
                resp.encoded_len(),
                case.json.len(),
                "test case: {name} - encoded_len matches"
            );
            assert!(
                resp.json().iter().all(|&c| c != b' '),
                "test case: {name} - no spaces in json"
            );
            let padding_len = RawEntry::padding_len(case.json.len());
            assert!(
                resp.bytes[resp.encoded_len()..resp.encoded_len() + padding_len]
                    .iter()
                    .all(|&c| c == b' '),
                "test case: {name} - padding is spaces"
            );
            assert_eq!(
                f64::from_bits(resp.value()),
                case.value,
                "test case: {name} - value is correct"
            );
        }

        if let Some(expected_enc_len) = case.expected_enc_len {
            assert_eq!(
                expected_enc_len,
                resp.as_ref().unwrap().encoded_len(),
                "test case: {name} - encoded len",
            );
        }

        if let Some(expected_err) = case.expected_err {
            assert_eq!(expected_err, resp.unwrap_err(), "test case: {name} - error");
        }
    }
}

#[test]
fn test_save() {
    struct TestCase {
        name: &'static str,
        key: &'static [u8],
        value: f64,
        buf_len: usize,
        expected_entry: Option<(&'static str, f64)>,
        expected_resp: Result<usize, MmapError>,
    }

    let json = r#"["metric","name",["label_a","label_b"],["value_a","value_b"]]"#;
    let key = json.as_bytes();

    let tc = vec![
        TestCase {
            name: "ok",
            key,
            value: 256.0,
            buf_len: 256,
            expected_entry: Some((json, 256.0)),
            expected_resp: Ok(72),
        },
        TestCase {
            name: "zero length key",
            key: b"",
            value: 1.0,
            buf_len: 256,
            expected_entry: Some(("", 1.0)),
            expected_resp: Ok(8),
        },
        TestCase {
            name: "infinite value",
            key,
            value: f64::INFINITY,
            buf_len: 256,
            expected_entry: Some((json, f64::INFINITY)),
            expected_resp: Ok(72),
        },
        TestCase {
            name: "buf len matches entry len",
            key,
            value: 1.0,
            buf_len: 80,
            expected_entry: Some((json, 1.0)),
            expected_resp: Ok(72),
        },
        TestCase {
            name: "buf much too short",
            key,
            value: 1.0,
            buf_len: 5,
            expected_entry: None,
            expected_resp: Err(MmapError::Other(format!(
                "entry length {} larger than slice length {}",
                80, 5,
            ))),
        },
        TestCase {
            name: "buf short by one",
            key,
            value: 1.0,
            buf_len: 79,
            expected_entry: None,
            expected_resp: Err(MmapError::Other(format!(
                "entry length {} larger than slice length {}",
                80, 79,
            ))),
        },
    ];

    for case in tc {
        let mut buf = vec![0u8; case.buf_len];
        let resp = RawEntry::save(&mut buf, 0, case.key, case.value.to_bits());

        assert_eq!(case.expected_resp, resp, "test case: {} - response", case.name);

        if let Some((json, value)) = case.expected_entry {
            let expected_buf = test_entry_bytes(json, value);
            assert_eq!(
                expected_buf,
                &buf[..expected_buf.len()],
                "test case: {} - buffer state",
                case.name
            );

            let header_len = u32::from_ne_bytes(buf[..4].try_into().unwrap());
            assert_eq!(
                case.key.len(),
                header_len as usize,
                "test case: {} - size header",
                case.name
            );
        }
    }
}

#[test]
fn test_calc_value_offset() {
    struct TestCase {
        name: &'static str,
        encoded_len: usize,
        expected_value_offset: Option<usize>,
        expected_total_len: Option<usize>,
        expected_err: Option<MmapError>,
    }

    let tc = vec![
        TestCase {
            name: "ok",
            encoded_len: 8,
            expected_value_offset: Some(16),
            expected_total_len: Some(24),
            expected_err: None,
        },
        TestCase {
            name: "padding length one",
            encoded_len: 3,
            expected_value_offset: Some(8),
            expected_total_len: Some(16),
            expected_err: None,
        },
        TestCase {
            name: "padding length eight",
            encoded_len: 4,
            expected_value_offset: Some(16),
            expected_total_len: Some(24),
            expected_err: None,
        },
        TestCase {
            name: "encoded len gt i32::MAX",
            encoded_len: i32::MAX as usize + 1,
            expected_value_offset: None,
            expected_total_len: None,
            expected_err: Some(MmapError::KeyLength),
        },
    ];

    for case in tc {
        let name = case.name;
        if let Some(expected_value_offset) = case.expected_value_offset {
            assert_eq!(
                expected_value_offset,
                RawEntry::calc_value_offset(case.encoded_len).unwrap(),
                "test case: {name} - value offset"
            );
        }

        if let Some(expected_total_len) = case.expected_total_len {
            assert_eq!(
                expected_total_len,
                RawEntry::calc_total_len(case.encoded_len).unwrap(),
                "test case: {name} - total len"
            );
        }

        if let Some(expected_err) = case.expected_err {
            assert_eq!(
                expected_err,
                RawEntry::calc_value_offset(case.encoded_len).unwrap_err(),
                "test case: {name} - err"
            );
        }
    }
}

#[test]
fn test_padding_len() {
    for encoded_len in 0..64 {
        let padding = RawEntry::padding_len(encoded_len);

        // Validate we're actually aligning to 8 bytes.
        assert!((4 + encoded_len + padding) % 8 == 0)
    }
}

#[test]
fn test_save_decode_round_trip() {
    let key = br#"["family","name",["a"],["b"]]"#;
    let value = 42.5f64;
    let mut buf = vec![0u8; 128];
    let offset = RawEntry::save(&mut buf, 0, key, value.to_bits()).unwrap();

    let entry = RawEntry::from_slice(&buf).unwrap();
    assert_eq!(entry.json(), key);
    assert_eq!(f64::from_bits(entry.value()), value);
    assert_eq!(offset, entry.total_len() - 8);
}
