use http_server::fmt::{decimal_string, format_bytes, format_date_time, hex_string};

const BYTE_SIZE_UNIT: [&str; 9] = ["Bytes", "KB", "MB", "GB", "TB", "PB", "EB", "ZB", "YB"];

/// The label computed in floating point, as a reference for values where
/// the floating-point logarithm picks the right unit.
fn float_label(bytes: f64) -> String {
    if bytes == 0. {
        return String::from("0 Bytes");
    }
    let i = (bytes.log10() / 1024_f64.log10()).floor();
    let value = bytes / 1024_f64.powf(i);
    format!("{:.2} {}", value, BYTE_SIZE_UNIT[i as usize])
}

#[test]
fn file_explorer_formats_bytes() {
    let byte_sizes = vec![1024., 1048576., 1073741824., 1099511627776.];

    let expect = vec![
        String::from("1.00 KB"),
        String::from("1.00 MB"),
        String::from("1.00 GB"),
        String::from("1.00 TB"),
    ];

    for (idx, size) in byte_sizes.into_iter().enumerate() {
        assert_eq!(format_bytes(size as u64), expect[idx]);
    }
}

#[test]
fn fmt_formats_bytes() {
    let byte_sizes = vec![1024., 1048576., 1073741824., 1099511627776.];

    let expect = vec![
        String::from("1.00 KB"),
        String::from("1.00 MB"),
        String::from("1.00 GB"),
        String::from("1.00 TB"),
    ];

    for (idx, size) in byte_sizes.into_iter().enumerate() {
        assert_eq!(format_bytes(size as u64), expect[idx]);
    }
}

#[test]
fn formats_zero_and_small_counts() {
    assert_eq!(format_bytes(0), "0 Bytes");
    assert_eq!(format_bytes(1), "1.00 Bytes");
    assert_eq!(format_bytes(1023), "1023.00 Bytes");
    assert_eq!(format_bytes(1536), "1.50 KB");
    assert_eq!(format_bytes(1_048_575), "1024.00 KB");
    assert_eq!(format_bytes(u64::MAX), "16.00 EB");
}

#[test]
fn rounds_to_two_decimals_like_float_formatting() {
    for bytes in [1152u64, 1100, 2000, 5_000_000, 123_456_789, 987_654_321_000, 3_000_000_000_000_000] {
        assert_eq!(format_bytes(bytes), float_label(bytes as f64), "bytes = {}", bytes);
    }
    let mut b: u64 = 3;
    while b < 1_000_000_000_000 {
        assert_eq!(format_bytes(b), float_label(b as f64), "bytes = {}", b);
        b = b * 7 + 1;
    }
}

#[test]
fn formats_date_time() {
    assert_eq!(format_date_time(2021, 3, 7, 9, 5, 0), "2021/03/07 09:05:00");
    assert_eq!(format_date_time(1999, 12, 31, 23, 59, 59), "1999/12/31 23:59:59");
    assert_eq!(format_date_time(-44, 3, 15, 12, 0, 0), "-44/03/15 12:00:00");
}

#[test]
fn writes_decimal_and_hexadecimal_digits() {
    assert_eq!(decimal_string(0), "0");
    assert_eq!(decimal_string(1234567890), "1234567890");
    assert_eq!(decimal_string(u64::MAX), "18446744073709551615");
    assert_eq!(hex_string(0), "0");
    assert_eq!(hex_string(255), "ff");
    assert_eq!(hex_string(u64::MAX), "ffffffffffffffff");
}
