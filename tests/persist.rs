use rbonsai::persist::{decimal_digits, parse_save, save_bytes};

#[test]
fn saved_pair_is_read_back() {
    assert_eq!(parse_save(b"42 600"), Some((42, 600)));
    assert_eq!(parse_save(b"  7\n13\n"), Some((7, 13)));
    assert_eq!(parse_save(b"0\t0"), Some((0, 0)));
}

#[test]
fn extra_numbers_are_ignored() {
    assert_eq!(parse_save(b"1 2 3"), Some((1, 2)));
}

#[test]
fn short_or_malformed_records_are_refused() {
    assert_eq!(parse_save(b""), None);
    assert_eq!(parse_save(b"   "), None);
    assert_eq!(parse_save(b"5"), None);
    assert_eq!(parse_save(b"4 x"), None);
    assert_eq!(parse_save(b"1 2 x"), None);
    assert_eq!(parse_save(b"-1 2"), None);
    assert_eq!(parse_save(b"12a 3"), None);
}

#[test]
fn numbers_up_to_u64_max() {
    assert_eq!(parse_save(b"18446744073709551615 0"), Some((u64::MAX, 0)));
    assert_eq!(parse_save(b"18446744073709551616 0"), None);
    assert_eq!(parse_save(b"3 99999999999999999999"), None);
}

#[test]
fn digits_are_decimal() {
    assert_eq!(decimal_digits(0), b"0".to_vec());
    assert_eq!(decimal_digits(9), b"9".to_vec());
    assert_eq!(decimal_digits(10), b"10".to_vec());
    assert_eq!(decimal_digits(1234), b"1234".to_vec());
    assert_eq!(decimal_digits(u64::MAX), b"18446744073709551615".to_vec());
}

#[test]
fn saved_record_round_trips() {
    assert_eq!(save_bytes(42, 600), b"42 600".to_vec());
    for (a, b) in [(0u64, 0u64), (42, 600), (u64::MAX, 7), (1, u64::MAX)] {
        assert_eq!(parse_save(&save_bytes(a, b)), Some((a, b)));
    }
}
