use fast_mmaped_file::value;

#[test]
fn test_value_min_max() {
    let a = 1.0f64.to_bits();
    let b = 5.0f64.to_bits();
    assert_eq!(a, value::value_min(a, b));
    assert_eq!(a, value::value_min(b, a));
    assert_eq!(b, value::value_max(a, b));
    assert_eq!(b, value::value_max(b, a));

    // Negative values order below positive ones.
    let n = (-2.5f64).to_bits();
    assert_eq!(n, value::value_min(n, a));
    assert_eq!(a, value::value_max(n, a));
    // Two negatives order by value, not magnitude.
    let m = (-7.5f64).to_bits();
    assert_eq!(m, value::value_min(n, m));
}

#[test]
fn test_value_add() {
    let r = value::value_add(1.0f64.to_bits(), 5.0f64.to_bits());
    assert_eq!(6.0f64.to_bits(), r);

    let r = value::value_add(0.1f64.to_bits(), 0.2f64.to_bits());
    assert_eq!((0.1f64 + 0.2f64).to_bits(), r);
}

#[test]
fn test_value_text() {
    assert_eq!(b"1".to_vec(), value::value_text(1.0f64.to_bits()));
    assert_eq!(b"1.5".to_vec(), value::value_text(1.5f64.to_bits()));
    assert_eq!(b"256".to_vec(), value::value_text(256.0f64.to_bits()));
    assert_eq!(b"-2.5".to_vec(), value::value_text((-2.5f64).to_bits()));
    assert_eq!(b"0".to_vec(), value::value_text(0.0f64.to_bits()));
    assert_eq!(b"+Inf".to_vec(), value::value_text(f64::INFINITY.to_bits()));
    assert_eq!(b"-Inf".to_vec(), value::value_text(f64::NEG_INFINITY.to_bits()));
    assert_eq!(b"NaN".to_vec(), value::value_text(f64::NAN.to_bits()));
}

#[test]
fn test_value_parse() {
    assert_eq!(Some(0.5f64.to_bits()), value::value_parse(b"0.5"));
    assert_eq!(Some(10.0f64.to_bits()), value::value_parse(b"10"));
    assert_eq!(Some((-0.2e5f64).to_bits()), value::value_parse(b"-0.2E5"));
    assert_eq!(None, value::value_parse(b"abc"));
    assert_eq!(None, value::value_parse(b""));
    assert_eq!(None, value::value_parse(&[0xff, 0xfe]));
}

#[test]
fn test_value_trunc() {
    assert_eq!(3, value::value_trunc(3.7f64.to_bits()));
    assert_eq!(0, value::value_trunc(0.0f64.to_bits()));
    assert_eq!(17, value::value_trunc(17.0f64.to_bits()));
}
