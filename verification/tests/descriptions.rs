use pgr::capture_desc::{modest, parse_micros, split_desc, CaptureDesc, DescError};

#[test]
fn a_path_alone_is_read_whole() {
    let d = CaptureDesc::from_str("/tmp/a.b/cap").unwrap();
    assert_eq!((d.path.as_str(), d.port, d.ts_offset, d.max_duration), ("/tmp/a.b/cap", 5432, 0, u64::MAX));
    assert_eq!(d.to_text(), "/tmp/a.b/cap");
}

#[test]
fn all_parts_are_read() {
    let d = CaptureDesc::from_str("dir+1/x:6000@1m 30s+250ms").unwrap();
    assert_eq!(d.path, "dir+1/x");
    assert_eq!(d.port, 6000);
    assert_eq!(d.ts_offset, 90_000_000);
    assert_eq!(d.max_duration, 250_000);
    assert_eq!(d.to_text(), "dir+1/x:6000(@1m 30s)(+250ms)");
}

#[test]
fn parts_are_cut_from_the_end() {
    let p = split_desc("a\\b@c:7@d+e");
    assert_eq!((p.prefix, p.name, p.port, p.offset, p.duration), ("a\\", "b@c", Some("7"), Some("d"), Some("e")));
    let p = split_desc("a:1+b@c");
    assert_eq!((p.name, p.port, p.offset, p.duration), ("a", Some("1"), None, Some("b@c")));
}

#[test]
fn each_error_comes_in_its_turn() {
    let e = |s: &str| CaptureDesc::from_str(s).unwrap_err();
    assert!(matches!(e("x:9x@y+z"), DescError::InvalidDuration(t) if t == "expected number at 0"));
    assert!(matches!(e("x:9x@5q"), DescError::InvalidDuration(_)));
    assert!(matches!(e("x:65536"), DescError::InvalidPort(t) if t == "number too large to fit in target type"));
    assert!(matches!(e(":1"), DescError::EmptyPath));
    assert!(matches!(e(""), DescError::EmptyPath));
    assert!(matches!(
        e("x:"),
        DescError::InvalidPort(t) if t == "cannot parse integer from empty string"
    ));
    assert!(matches!(e("x:9x"), DescError::InvalidPort(t) if t == "invalid digit found in string"));
    assert!(matches!(
        e("x+999999999999999years"),
        DescError::InvalidDuration(t) if t.starts_with("number is too large")
    ));
    assert!(matches!(
        e("x+18446744073709551615s 1000000000ns"),
        DescError::DurationTooLong
    ));
    assert_eq!(e("x+z").to_text(), "invalid duration");
    assert_eq!(e("x:").to_text(), "invalid port");
    assert_eq!(e("").to_text(), "empty path in capture descriptor");
}

#[test]
fn durations_are_microseconds() {
    assert_eq!(parse_micros("2h 37min").ok(), Some(9_420_000_000));
    assert_eq!(parse_micros("4.2s").ok(), Some(4_200_000));
    assert_eq!(parse_micros("1500ns").ok(), Some(1));
    assert_eq!(parse_micros("0").ok(), Some(0));
    assert!(parse_micros("").is_err());
    assert!(modest("600000000000us"));
    assert!(modest("100years 11months 30days 23h 59m 59s 999ms"));
    assert!(modest("18446744073709551615s"));
    assert!(modest("18446744073709551615s 999999999ns"));
    assert!(modest("18446744073709551615ns"));
    assert!(modest("584542046090.5y"));
    assert!(parse_micros("584542046090.75y").is_err());
    assert!(parse_micros("18446744073709551615s 1s").is_err());
    assert!(parse_micros("18446744073709551614s 2000000000ns").is_err());
    assert!(!modest("18446744073709551615s 500ms 500ms"));
    assert!(!modest("18446744073709551615.5s 500ms"));
    assert!(!modest("18446744073709551615s 500ms 0.5s"));
    assert_eq!(parse_micros("600000000000.5s").ok(), Some(600_000_000_000_500_000));
    let all: u128 = 18_446_744_073_709_551_615 * 1_000_000;
    assert_eq!(parse_micros("18446744073709551615s").ok(), Some(all as u64));
    assert!(matches!(
        parse_micros("18446744073709551616s"),
        Err(DescError::InvalidDuration(t)) if t.starts_with("number is too large")
    ));
    assert!(modest("1000000000000h"));
    assert!(modest("100000000000000000m"));
    assert!(modest("7000000000000months"));
    assert!(parse_micros("8000000000000months").is_err());
    assert!(!modest("18446744073709551615s 1000000000ns"));
}

#[test]
fn the_offset_may_be_left_out() {
    let d = CaptureDesc::from_str("/tmp/cap@+1m").unwrap();
    assert_eq!((d.path.as_str(), d.port, d.ts_offset, d.max_duration), ("/tmp/cap", 5432, 0, 60_000_000));
    let d = CaptureDesc::from_str("cap:7@").unwrap();
    assert_eq!((d.path.as_str(), d.port, d.ts_offset, d.max_duration), ("cap", 7, 0, u64::MAX));
    assert!(matches!(CaptureDesc::from_str("cap@1s+"), Err(DescError::InvalidDuration(_))));
}
