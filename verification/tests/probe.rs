use etherparse::PacketBuilder;
use pgr::capture::reassembler::Reassembler;
use pgr::capture_common::CHUNK_SIZE;
use pgr::capture_ebpf::emit::{emit_capture, send_chunk, Chunk};
use pgr::capture_ebpf::tc_classifier::{parse_ip, try_tc_capture, OutOfBounds};

fn v4(port: u16, payload: &[u8]) -> Vec<u8> {
    let mut out = Vec::new();
    PacketBuilder::ethernet2([1; 6], [2; 6])
        .ipv4([10, 0, 0, 1], [10, 0, 0, 2], 20)
        .tcp(4000, port, 77, 1024)
        .syn()
        .write(&mut out, payload)
        .unwrap();
    out
}

#[test]
fn segments_to_the_port_are_captured() {
    let f = v4(5432, b"hello");
    let s = try_tc_capture(&f, 5432).unwrap().unwrap();
    assert_eq!(s.src_ip[..4], [10, 0, 0, 1]);
    assert_eq!(s.src_ip[4..], [0; 12]);
    assert_eq!((s.is_v6, s.src_port, s.seq, s.flags), (0, 4000, 77, 2));
    assert_eq!((s.payload_off, s.payload_len), (54, 5));
    assert_eq!(&f[54..59], b"hello");
    assert!(try_tc_capture(&f, 5433).unwrap().is_none());
    assert!(matches!(try_tc_capture(&f[..47], 5432), Err(OutOfBounds)));
    assert!(matches!(try_tc_capture(&f[..33], 5432), Err(OutOfBounds)));
    assert!(matches!(parse_ip(&f[..13]), Err(OutOfBounds)));
}

#[test]
fn version_six_is_captured() {
    let mut f = Vec::new();
    PacketBuilder::ethernet2([1; 6], [2; 6])
        .ipv6([3; 16], [4; 16], 20)
        .tcp(4000, 5432, 5, 1024)
        .write(&mut f, b"ab")
        .unwrap();
    let ip = parse_ip(&f).unwrap().unwrap();
    assert_eq!((ip.is_v6, ip.tcp_hdr_off, ip.ip_payload_len), (1, 54, 22));
    let s = try_tc_capture(&f, 5432).unwrap().unwrap();
    assert_eq!(s.src_ip, [3; 16]);
    assert_eq!((s.payload_off, s.payload_len), (74, 2));
    assert!(matches!(parse_ip(&f[..53]), Err(OutOfBounds)));
}

#[test]
fn other_packets_are_left() {
    let mut f = v4(5432, b"x");
    f[23] = 17;
    assert!(parse_ip(&f).unwrap().is_none());
    let mut f = v4(5432, b"x");
    f[14] = 0x44;
    assert!(parse_ip(&f).unwrap().is_none());
    let mut f = v4(5432, b"x");
    f[16] = 0;
    f[17] = 19;
    assert!(parse_ip(&f).unwrap().is_none());
    let mut f = v4(5432, b"x");
    f[12] = 8;
    f[13] = 6;
    assert!(parse_ip(&f).unwrap().is_none());
    let mut f = v4(5432, b"x");
    f[46] = 0x40;
    assert!(try_tc_capture(&f, 5432).unwrap().is_none());
    let mut f = v4(5432, b"x");
    f[46] = 0xf0;
    assert!(try_tc_capture(&f, 5432).unwrap().is_none());
}

#[test]
fn pieces_cover_a_segment() {
    assert_eq!(emit_capture(0, 0), Some(1));
    assert_eq!(emit_capture(1, 1), Some(1));
    assert_eq!(emit_capture(1480, 1), Some(1));
    assert_eq!(emit_capture(1481, 1), None);
    assert_eq!(emit_capture(1481, 2), Some(2));
    assert_eq!(send_chunk(10, 3000, 2), Some(Chunk { off: 2960, len: 40, seq: 2970 }));
    assert_eq!(send_chunk(u32::MAX, 3000, 1), Some(Chunk { off: 1480, len: 1480, seq: 1479 }));
    assert_eq!(send_chunk(10, 2960, 2), None);
    assert_eq!(send_chunk(10, 0, 0), None);
    assert_eq!(send_chunk(10, 5, usize::MAX), None);
}

#[test]
fn pieces_in_any_order_give_the_segment_back() {
    let payload: Vec<u8> = (0..4000u32).map(|i| (i % 251) as u8).collect();
    let n = emit_capture(payload.len(), 16).unwrap();
    assert_eq!(n, payload.len().div_ceil(CHUNK_SIZE));
    let mut r = Reassembler::default();
    let mut out = Vec::new();
    r.feed(99, true, b"", &mut out);
    for i in [2usize, 0, 1] {
        let c = send_chunk(100, payload.len(), i).unwrap();
        r.feed(c.seq, false, &payload[c.off..c.off + c.len as usize], &mut out);
    }
    assert_eq!(out, payload);
}
