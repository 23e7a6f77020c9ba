use fetch_extract::probe::{
    accepts_byte_ranges, check_status, parse_length, probe, total_size_of, Capability, HttpStatus,
    Request, Strategy,
};

fn status(code: u16) -> HttpStatus {
    HttpStatus::new(code).unwrap()
}

#[test]
fn status_codes_have_three_digits() {
    assert!(HttpStatus::new(99).is_none());
    assert!(HttpStatus::new(1000).is_none());
    assert!(HttpStatus::new(0).is_none());
    assert_eq!(status(100).code(), 100);
    assert_eq!(status(999).code(), 999);
}

#[test]
fn success_is_two_hundred_to_two_ninety_nine() {
    assert!(!status(199).is_success());
    assert!(status(200).is_success());
    assert!(status(206).is_success());
    assert!(status(299).is_success());
    assert!(!status(300).is_success());
    assert!(!status(404).is_success());
}

#[test]
fn status_is_shown_with_its_reason() {
    assert_eq!(status(404).display(), "404 Not Found");
    assert_eq!(status(200).display(), "200 OK");
    assert_eq!(status(206).display(), "206 Partial Content");
    assert_eq!(status(599).display(), "599 <unknown status code>");
}

#[test]
fn refused_status_names_the_request() {
    assert_eq!(check_status(Request::Get, &status(200)), Ok(()));
    assert_eq!(check_status(Request::Get, &status(404)), Err("HTTP error: 404 Not Found".to_string()));
    assert_eq!(
        check_status(Request::Head, &status(500)),
        Err("HEAD HTTP error: 500 Internal Server Error".to_string())
    );
    assert_eq!(check_status(Request::Range, &status(206)), Ok(()));
    assert_eq!(check_status(Request::Range, &status(200)), Ok(()));
    assert_eq!(
        check_status(Request::Range, &status(416)),
        Err("Range HTTP error: 416 Range Not Satisfiable".to_string())
    );
    assert_eq!(check_status(Request::Range, &status(301)), Err("Range HTTP error: 301 Moved Permanently".to_string()));
}

#[test]
fn content_length_is_a_plain_number() {
    assert_eq!(parse_length(b"0"), Some(0));
    assert_eq!(parse_length(b"41943040"), Some(41943040));
    assert_eq!(parse_length(b"+17"), Some(17));
    assert_eq!(parse_length(b"007"), Some(7));
    assert_eq!(parse_length(b"18446744073709551615"), Some(u64::MAX));
    assert_eq!(parse_length(b"18446744073709551616"), None);
    assert_eq!(parse_length(b"99999999999999999999999"), None);
    assert_eq!(parse_length(b""), None);
    assert_eq!(parse_length(b"+"), None);
    assert_eq!(parse_length(b"-1"), None);
    assert_eq!(parse_length(b"++1"), None);
    assert_eq!(parse_length(b" 12"), None);
    assert_eq!(parse_length(b"12 "), None);
    assert_eq!(parse_length(b"1e3"), None);
    assert_eq!(parse_length(b"12\xff"), None);
}

#[test]
fn content_length_agrees_with_the_standard_parser() {
    let samples: [&str; 14] = [
        "", "0", "+0", "-0", "1", "+1", "12345", "0012", "18446744073709551615",
        "18446744073709551616", "1 ", "a", "+", "1+1",
    ];
    for text in samples {
        assert_eq!(parse_length(text.as_bytes()), text.parse::<u64>().ok(), "text {:?}", text);
    }
}

#[test]
fn missing_or_unreadable_length_is_unknown() {
    assert_eq!(total_size_of(None), 0);
    assert_eq!(total_size_of(Some(b"abc")), 0);
    assert_eq!(total_size_of(Some(b"")), 0);
    assert_eq!(total_size_of(Some(b"1024")), 1024);
}

#[test]
fn accept_ranges_is_read_without_regard_to_case() {
    assert!(accepts_byte_ranges(b"bytes"));
    assert!(accepts_byte_ranges(b"Bytes"));
    assert!(accepts_byte_ranges(b"BYTES"));
    assert!(accepts_byte_ranges(b"none, bytes"));
    assert!(accepts_byte_ranges(b"xbytesx"));
    assert!(!accepts_byte_ranges(b"none"));
    assert!(!accepts_byte_ranges(b""));
    assert!(!accepts_byte_ranges(b"byte"));
    assert!(!accepts_byte_ranges(b"b ytes"));
    assert!(!accepts_byte_ranges(b"bytes\xc3\xa9"));
    assert!(!accepts_byte_ranges(b"bytes\n"));
    assert!(accepts_byte_ranges(b"bytes\t"));
}

#[test]
fn probe_reads_size_and_range_support() {
    assert_eq!(
        probe(&status(200), Some(b"41943040"), Some(b"bytes")),
        Ok(Capability { total_size: 41943040, supports_ranges: true })
    );
    assert_eq!(
        probe(&status(200), None, Some(b"bytes")),
        Ok(Capability { total_size: 0, supports_ranges: true })
    );
    assert_eq!(
        probe(&status(204), Some(b"12"), None),
        Ok(Capability { total_size: 12, supports_ranges: false })
    );
    assert_eq!(
        probe(&status(403), Some(b"12"), Some(b"bytes")),
        Err("HEAD HTTP error: 403 Forbidden".to_string())
    );
}

#[test]
fn ranges_need_a_known_size_and_support() {
    let parallel = Capability { total_size: 1, supports_ranges: true };
    assert_eq!(parallel.choose_strategy(), Strategy::ParallelRanges);
    let unknown = Capability { total_size: 0, supports_ranges: true };
    assert_eq!(unknown.choose_strategy(), Strategy::SingleStream);
    let unsupported = Capability { total_size: 100, supports_ranges: false };
    assert_eq!(unsupported.choose_strategy(), Strategy::SingleStream);
    let neither = Capability { total_size: 0, supports_ranges: false };
    assert_eq!(neither.choose_strategy(), Strategy::SingleStream);
}
