use fast_mmaped_file::error::MmapError;
use fast_mmaped_file::raw_entry::RawEntry;
use fast_mmaped_file::region::{next_page_boundary, Region};
use fast_mmaped_file::HEADER_SIZE;

/// A record's bytes: length header, key, space padding, value bits.
fn test_entry_bytes(json: &str, value: f64) -> Vec<u8> {
    let mut out = (json.len() as u32).to_ne_bytes().to_vec();
    out.extend_from_slice(json.as_bytes());
    let pad = 8 - (4 + json.len()) % 8;
    out.extend_from_slice(&vec![b' '; pad]);
    out.extend_from_slice(&value.to_ne_bytes());
    out
}

fn entries_to_db(entries: &[&str], values: &[f64], header: Option<u32>) -> Vec<u8> {
    let mut out = Vec::new();
    let entry_bytes: Vec<u8> = entries
        .iter()
        .zip(values)
        .flat_map(|(e, val)| test_entry_bytes(e, *val))
        .collect();
    let used = match header {
        Some(u) => u,
        None => (entry_bytes.len() + 8) as u32,
    };
    out.extend(used.to_ne_bytes());
    out.extend([0x0u8; 4]);
    out.extend(entry_bytes);
    out
}

#[test]
fn inner_test_new() {
    let json = r#"["first_family","first_name",["label_a","label_b"],["value_a","value_b"]]"#;
    let entry_len = test_entry_bytes(json, 1.0).len();

    struct TestCase {
        name: &'static str,
        existing: bool,
        expected_len: usize,
    }

    let tc = vec![
        TestCase { name: "empty file", existing: false, expected_len: 0 },
        TestCase { name: "existing file", existing: true, expected_len: HEADER_SIZE + entry_len },
    ];

    for case in tc {
        let name = case.name;
        let data = match case.existing {
            true => entries_to_db(&[json], &[1.0], None),
            false => Vec::new(),
        };
        let orig_len = data.len();

        let region = Region::new(data);

        assert_eq!(
            region.capacity(),
            orig_len.max(HEADER_SIZE),
            "test case: {name} - capacity matches the store, floored at the header size"
        );
        assert_eq!(case.expected_len, region.len(), "test case: {name} - len set");
    }
}

#[test]
fn test_initialize_entry() {
    let json = r#"["first_family","first_name",["label_a","label_b"],["value_a","value_b"]]"#;
    let value = 1.0f64;
    let entry_len = test_entry_bytes(json, value).len();

    struct TestCase {
        name: &'static str,
        empty: bool,
        used: Option<u32>,
        expected_used: Option<u32>,
        expected_value_offset: Option<usize>,
        expected_err: Option<MmapError>,
    }

    let tc = vec![
        TestCase {
            name: "empty file, not expanded",
            empty: true,
            used: None,
            expected_used: None,
            expected_value_offset: None,
            expected_err: Some(MmapError::Other(format!(
                "mmap capacity {HEADER_SIZE} less than {}",
                entry_len + HEADER_SIZE,
            ))),
        },
        TestCase {
            name: "data in file",
            empty: false,
            used: None,
            expected_used: Some(HEADER_SIZE as u32 + (entry_len * 2) as u32),
            expected_value_offset: Some(176),
            expected_err: None,
        },
        TestCase {
            name: "data in file, invalid used larger than file",
            empty: false,
            used: Some(10_000),
            expected_used: None,
            expected_value_offset: None,
            expected_err: Some(MmapError::Other(format!(
                "mmap capacity 4096 less than {}",
                10_000 + entry_len
            ))),
        },
    ];

    for case in tc {
        let name = case.name;

        let mut data = match case.empty {
            true => Vec::new(),
            false => entries_to_db(&[json], &[1.0], case.used),
        };
        if !case.empty {
            // Ensure the arena is large enough to take additional records,
            // as the embedding's growth path normally would.
            data.resize(4096, 0);
        }
        let mut region = Region::new(data);

        let result = region.initialize_entry(json.as_bytes(), value.to_bits());

        if let Some(expected_used) = case.expected_used {
            assert_eq!(expected_used, region.load_used().unwrap(), "test case: {name} - used");
        }

        if let Some(expected_value_offset) = case.expected_value_offset {
            assert_eq!(
                expected_value_offset,
                *result.as_ref().unwrap(),
                "test case: {name} - value_offset"
            );
        }

        if let Some(expected_err) = case.expected_err {
            assert_eq!(expected_err, result.unwrap_err(), "test case: {name} - error");
        }
    }
}

#[test]
fn test_save_value() {
    let json = r#"["first_family","first_name",["label_a","label_b"],["value_a","value_b"]]"#;
    let value = 1.0f64;
    let upper_bound = test_entry_bytes(json, value).len() + HEADER_SIZE;
    let value_offset = upper_bound - 8;

    struct TestCase {
        name: &'static str,
        empty: bool,
        len: Option<usize>,
        offset: usize,
        expected_err: Option<MmapError>,
    }

    let tc = vec![
        TestCase {
            name: "existing file, in bounds",
            empty: false,
            len: None,
            offset: upper_bound - 8 - 1,
            expected_err: None,
        },
        TestCase {
            name: "existing file, out of bounds",
            empty: false,
            len: Some(100),
            offset: upper_bound * 2,
            expected_err: Some(MmapError::out_of_bounds(upper_bound * 2 + 8, 100)),
        },
        TestCase {
            name: "existing file, off by one",
            empty: false,
            len: None,
            offset: value_offset + 1,
            expected_err: Some(MmapError::out_of_bounds(value_offset + 1 + 8, upper_bound)),
        },
        TestCase {
            name: "empty file cannot be saved to",
            empty: true,
            len: None,
            offset: 8,
            expected_err: Some(MmapError::out_of_bounds(8 + 8, 0)),
        },
        TestCase {
            name: "overwrite header",
            empty: false,
            len: None,
            offset: 7,
            expected_err: Some(MmapError::Other(
                "writing to offset 7 would overwrite file header".to_string(),
            )),
        },
    ];

    for case in tc {
        let name = case.name;

        let mut data = match case.empty {
            true => Vec::new(),
            false => entries_to_db(&[json], &[1.0], None),
        };
        if let Some(len) = case.len {
            data.append(&mut vec![0xff; len - upper_bound]);
        }

        let mut region = Region::new(data);
        let result = region.save_value(case.offset, value.to_bits());

        if let Some(expected_err) = case.expected_err {
            assert_eq!(expected_err, result.unwrap_err(), "test case: {name} - expected err");
        } else {
            assert!(result.is_ok(), "test case: {name} - success");
            assert_eq!(
                value.to_bits(),
                region.load_value(case.offset).unwrap(),
                "test case: {name} - value saved"
            );
        }
    }
}

#[test]
fn test_load_value() {
    let json = r#"["first_family","first_name",["label_a","label_b"],["value_a","value_b"]]"#;
    let value = 1.0f64;
    let total_len = test_entry_bytes(json, value).len() + HEADER_SIZE;
    let value_offset = total_len - 8;

    struct TestCase {
        name: &'static str,
        offset: usize,
        expected_err: Option<MmapError>,
    }

    let tc = vec![
        TestCase { name: "in bounds", offset: value_offset, expected_err: None },
        TestCase {
            name: "inside header",
            offset: 7,
            expected_err: Some(MmapError::Other(
                "reading from offset 7 would read the file header".to_string(),
            )),
        },
        TestCase {
            name: "out of bounds",
            offset: value_offset * 2,
            expected_err: Some(MmapError::out_of_bounds(value_offset * 2 + 8, total_len)),
        },
        TestCase {
            name: "off by one",
            offset: value_offset + 1,
            expected_err: Some(MmapError::out_of_bounds(value_offset + 1 + 8, total_len)),
        },
    ];

    for case in tc {
        let name = case.name;

        let data = entries_to_db(&[json], &[1.0], None);
        let region = Region::new(data);

        let result = region.load_value(case.offset);

        if let Some(expected_err) = case.expected_err {
            assert_eq!(expected_err, result.unwrap_err(), "test case: {name} - expected err");
        } else {
            assert!(result.is_ok(), "test case: {name} - success");
            assert_eq!(value.to_bits(), result.unwrap(), "test case: {name} - value loaded");
        }
    }
}

#[test]
fn test_expand_to_fit() {
    let mut region = Region::new(Vec::new());
    assert_eq!(HEADER_SIZE, region.capacity());

    // Growth extends the arena to the requested capacity.
    region.expand_to_fit(1024).unwrap();
    assert_eq!(1024, region.capacity());
    assert_eq!(1024, region.len());

    // Growth is idempotent once the capacity has reached the target:
    // repeating the same request changes nothing.
    region.expand_to_fit(1024).unwrap();
    assert_eq!(1024, region.capacity());
    assert_eq!(1024, region.len());

    // Requesting a smaller capacity is an error, never a shrink.
    let err = region.expand_to_fit(512).unwrap_err();
    assert_eq!(
        MmapError::legacy(
            "Can't reduce the size of mmap".to_string(),
            fast_mmaped_file::error::RubyError::Arg,
        ),
        err
    );
    assert_eq!(1024, region.capacity());
}

#[test]
fn test_check_expand_doubles_capacity() {
    let mut region = Region::new(Vec::new());
    let key = b"a_rather_long_key_for_a_metric";
    let needed = HEADER_SIZE + RawEntry::calc_total_len(key.len()).unwrap();

    region.check_expand(key.len()).unwrap();
    assert!(region.capacity() > needed, "expanded past the required length");
    // The capacity strictly doubles from the header-sized arena.
    assert!(region.capacity().is_power_of_two());

    let offset = region.initialize_entry(key, 2.5f64.to_bits()).unwrap();
    assert_eq!(2.5f64.to_bits(), region.load_value(offset).unwrap());
}

#[test]
fn test_fetch_and_upsert_entry() {
    let mut region = Region::new(Vec::new());
    region.check_expand(1).unwrap();

    // A fresh key is appended with the default value.
    let (value, created) = region.fetch_entry(None, b"a", 0.5f64.to_bits()).unwrap();
    assert_eq!(0.5f64.to_bits(), value);
    let offset = created.unwrap();

    // A known position reads the stored value back.
    let (value, created) = region.fetch_entry(Some(offset), b"a", 9.0f64.to_bits()).unwrap();
    assert_eq!(0.5f64.to_bits(), value);
    assert!(created.is_none());

    // Upserting at the position overwrites in place.
    let (value, created) = region.upsert_entry(Some(offset), b"a", 3.25f64.to_bits()).unwrap();
    assert_eq!(3.25f64.to_bits(), value);
    assert!(created.is_none());
    assert_eq!(3.25f64.to_bits(), region.load_value(offset).unwrap());

    // The record stream stays decodable.
    let used = region.load_used().unwrap() as usize;
    assert_eq!(HEADER_SIZE + 16, used);
}

#[test]
fn test_next_page_boundary() {
    assert_eq!(Ok(4096), next_page_boundary(0, 4096));
    assert_eq!(Ok(4096), next_page_boundary(4096, 4096));
    assert_eq!(Ok(8192), next_page_boundary(4097, 4096));
    assert_eq!(Ok(16384), next_page_boundary(10_000, 4096));
    assert!(next_page_boundary(i64::MAX, 4096).is_err());
}
