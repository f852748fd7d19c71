use fetchcore::text::{
    accepts_byte_ranges, derive_filename, parse_content_length, range_header_value,
};

#[test]
fn filename_is_last_segment() {
    assert_eq!(derive_filename("http://host/files/data.bin"), "data.bin");
    assert_eq!(derive_filename("http://host/a/b/c.tar.gz"), "c.tar.gz");
}

#[test]
fn filename_falls_back_without_segment() {
    assert_eq!(derive_filename("http://host/files/"), "download.bin");
    assert_eq!(derive_filename(""), "download.bin");
}

#[test]
fn filename_of_bare_name_is_itself() {
    assert_eq!(derive_filename("archive.zip"), "archive.zip");
}

#[test]
fn content_length_reads_digits() {
    assert_eq!(parse_content_length(Some(&b"800000".to_vec())), 800000);
    assert_eq!(parse_content_length(Some(&b"0".to_vec())), 0);
    assert_eq!(parse_content_length(Some(&b"+123".to_vec())), 123);
}

#[test]
fn content_length_absent_or_bad_is_zero() {
    assert_eq!(parse_content_length(None), 0);
    assert_eq!(parse_content_length(Some(&b"".to_vec())), 0);
    assert_eq!(parse_content_length(Some(&b"+".to_vec())), 0);
    assert_eq!(parse_content_length(Some(&b"12a4".to_vec())), 0);
    assert_eq!(parse_content_length(Some(&b"-5".to_vec())), 0);
}

#[test]
fn content_length_too_large_is_zero() {
    assert_eq!(parse_content_length(Some(&b"18446744073709551615".to_vec())), u64::MAX);
    assert_eq!(parse_content_length(Some(&b"18446744073709551616".to_vec())), 0);
    assert_eq!(parse_content_length(Some(&b"99999999999999999999999".to_vec())), 0);
}

#[test]
fn ranges_header_must_say_bytes() {
    assert!(accepts_byte_ranges(Some(&b"bytes".to_vec())));
    assert!(!accepts_byte_ranges(Some(&b"none".to_vec())));
    assert!(!accepts_byte_ranges(Some(&b"byte".to_vec())));
    assert!(!accepts_byte_ranges(Some(&b"bytess".to_vec())));
    assert!(!accepts_byte_ranges(None));
}

#[test]
fn range_header_is_exact() {
    assert_eq!(range_header_value(0, 99999), "bytes=0-99999");
    assert_eq!(range_header_value(87500, 100002), "bytes=87500-100002");
    assert_eq!(range_header_value(10, 10), "bytes=10-10");
}
