use pgr::utils::addr::{Addr, AddrTable, Ip};
use pgr::utils::chars::{parse_number, same, split_two, trim};
use pgr::utils::maps;
use pgr::utils::parse::{find_zero, read_c_string, read_i16, read_i32, read_u16, read_u32};
use pgr::utils::stream::Stream;
use pgr::utils::text::{
    push_decimal, push_signed, write_escaped_bytes, write_i16_slice, write_u32_slice, DisplayBytes,
};
use pgr::utils::wire::{
    push_be, push_be32, push_le16, push_le32, push_le64, read_be, read_le16, read_le32, read_le64,
};
use std::collections::{BTreeMap, HashMap};

#[test]
fn reads_big_endian() {
    assert_eq!(read_u16(&[0x12, 0x34]), 0x1234);
    assert_eq!(read_i16(&[0xff, 0xfe]), -2);
    assert_eq!(read_u32(&[0, 1, 2, 3]), 0x0001_0203);
    assert_eq!(read_i32(&[0xff, 0xff, 0xff, 0xff]), -1);
    assert_eq!(read_i32(&[0x7f, 0xff, 0xff, 0xff]), i32::MAX);
}

#[test]
fn reads_c_strings() {
    assert_eq!(read_c_string(b"abc\0def"), Ok(("abc", 4)));
    assert_eq!(read_c_string(b"\0"), Ok(("", 1)));
    assert_eq!(read_c_string("h\u{e9}\0".as_bytes()), Ok(("h\u{e9}", 4)));
    assert_eq!(read_c_string(b"abc"), Err("Missing null terminator"));
    assert_eq!(read_c_string(b"\xff\xfe\0"), Err("Invalid UTF-8 in C string"));
    assert_eq!(find_zero(b"ab\0c\0"), Some(2));
    assert_eq!(find_zero(b"ab"), None);
}

#[test]
fn little_endian_is_read_back() {
    let mut out = Vec::new();
    push_le16(&mut out, 0x1234);
    push_le32(&mut out, 0xdead_beef);
    push_le64(&mut out, 0x0102_0304_0506_0708);
    assert_eq!(out[..6], [0x34, 0x12, 0xef, 0xbe, 0xad, 0xde]);
    assert_eq!(out[6..], [8, 7, 6, 5, 4, 3, 2, 1]);
    assert_eq!(read_le16(&out), 0x1234);
    assert_eq!(read_le32(&out[2..]), 0xdead_beef);
    assert_eq!(read_le64(&out[6..]), 0x0102_0304_0506_0708);
}

#[test]
fn big_endian_is_read_back() {
    let mut out = Vec::new();
    push_be(&mut out, 0xc0a8_0001, 4);
    assert_eq!(out, [192, 168, 0, 1]);
    assert_eq!(read_be(&out), 0xc0a8_0001);
    let mut wide = Vec::new();
    push_be(&mut wide, u128::MAX - 1, 16);
    assert_eq!(wide.len(), 16);
    assert_eq!(read_be(&wide), u128::MAX - 1);
    let mut one = Vec::new();
    push_be32(&mut one, 196608);
    assert_eq!(one, [0, 3, 0, 0]);
}

#[test]
fn trims_and_splits_lines() {
    assert_eq!(trim(" \t a b \u{a0}\n"), "a b");
    assert_eq!(trim("   "), "");
    assert_eq!(split_two("a,b,c", ","), ("a", Some("b")));
    assert_eq!(split_two("a->b", "->"), ("a", Some("b")));
    assert_eq!(split_two("plain", ","), ("plain", None));
    assert!(same("x", "x") && !same("x", "y"));
}

#[test]
fn reads_numbers_up_to_a_limit() {
    assert_eq!(parse_number("65535", 65535), Some(65535));
    assert_eq!(parse_number("65536", 65535), None);
    assert_eq!(parse_number("+7", 10), Some(7));
    assert_eq!(parse_number("007", 10), Some(7));
    assert_eq!(parse_number("", 10), None);
    assert_eq!(parse_number("+", 10), None);
    assert_eq!(parse_number("-1", 10), None);
    assert_eq!(parse_number("1x", 10), None);
    assert_eq!(parse_number("18446744073709551615", u64::MAX), Some(u64::MAX));
    assert_eq!(parse_number("18446744073709551616", u64::MAX), None);
}

#[test]
fn escapes_bytes() {
    let mut w = String::new();
    write_escaped_bytes(&mut w, b"a\t\n\r\"'\\\x00\x7f\xff~");
    assert_eq!(w, "a\\t\\n\\r\\\"\\'\\\\\\x00\\x7f\\xff~");
    let mut d = String::from("=");
    DisplayBytes(b"\x1b").write(&mut d);
    assert_eq!(d, "=\\x1b");
}

#[test]
fn prints_numbers_and_lists() {
    let mut w = String::new();
    push_decimal(&mut w, 0);
    push_decimal(&mut w, u64::MAX);
    assert_eq!(w, "018446744073709551615");
    let mut s = String::new();
    push_signed(&mut s, -15);
    push_signed(&mut s, i64::MIN);
    assert_eq!(s, "-15-9223372036854775808");
    let mut l = String::new();
    write_i16_slice(&mut l, &[0, -1, 1]);
    write_u32_slice(&mut l, &[]);
    write_u32_slice(&mut l, &[23, 25]);
    assert_eq!(l, "[0;-1;1][][23;25]");
}

#[test]
fn tables_by_address() {
    let a = Addr::new(Ip::V4(1), 10);
    let b = Addr::new(Ip::V6(1), 10);
    let mut t: AddrTable<u32> = AddrTable::new();
    t.insert(a, 1);
    t.insert(b, 2);
    t.insert(a, 3);
    assert_eq!(t.get(&a), Some(&3));
    assert_eq!(t.get(&b), Some(&2));
    assert_eq!(t.keys().len(), 2);
    assert_eq!(t.take(&a), Some(3));
    assert_eq!(t.take(&a), None);
    assert_eq!(t.keys(), vec![b]);
}

#[test]
fn maps_with_numbers_for_keys() {
    let mut m: BTreeMap<u32, char> = BTreeMap::new();
    maps::put(&mut m, 9, 'x');
    maps::put(&mut m, 3, 'y');
    assert_eq!(maps::keys(&m), vec![3, 9]);
    assert_eq!(maps::get(&m, 9), Some(&'x'));
    assert_eq!(maps::take(&mut m, 9), Some('x'));
    assert_eq!(maps::take(&mut m, 9), None);
    let mut h: HashMap<u32, char> = HashMap::new();
    maps::hash_put(&mut h, 5, 'z');
    assert_eq!(maps::hash_take(&mut h, 5), Some('z'));
    assert_eq!(maps::hash_take(&mut h, 5), None);
}

#[test]
fn streams_keep_what_is_unread() {
    let mut s = Stream::new(4);
    s.write(b"abcdef");
    s.mark_read(2);
    assert_eq!(s.data(), b"cdef");
    s.write(b"gh");
    s.mark_read(3);
    assert_eq!(s.data(), b"fgh");
    assert!(s.has_room(1000));
    s.mark_read_all();
    assert_eq!(s.data(), b"");
}
