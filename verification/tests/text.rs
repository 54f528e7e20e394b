use deltalake_core::text::{i64_to_string, parse_i64, parse_usize};

#[test]
fn integers_print_in_decimal() {
    assert_eq!(i64_to_string(0), "0");
    assert_eq!(i64_to_string(-45), "-45");
    assert_eq!(i64_to_string(i64::MAX), "9223372036854775807");
    assert_eq!(i64_to_string(i64::MIN), "-9223372036854775808");
}

#[test]
fn parse_i64_reads_what_rust_reads() {
    for s in ["0", "-0", "+12", "-9223372036854775808", "9223372036854775807", "", "-", "+", "1 ", "12a", "9223372036854775808", "--1"] {
        assert_eq!(parse_i64(s), s.parse::<i64>().ok(), "{}", s);
    }
}

#[test]
fn parse_usize_reads_what_rust_reads() {
    for s in ["0", "+7", "5242880", "-1", "", "18446744073709551615", "18446744073709551616", "x"] {
        assert_eq!(parse_usize(s), s.parse::<usize>().ok(), "{}", s);
    }
}

#[test]
fn printed_integers_read_back() {
    for n in [0i64, 1, -1, 15, 123456789, i64::MAX, i64::MIN] {
        assert_eq!(parse_i64(&i64_to_string(n)), Some(n));
    }
}
