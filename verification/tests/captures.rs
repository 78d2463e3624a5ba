use etherparse::{LinuxSllPacketType, PacketBuilder};
use pgr::capture::acap::{chunk_name, plain_chunk_name, AcapReader, AcapStep, AcapWriter};
use pgr::capture::ebpf::CaptureSession;
use pgr::capture::packet::{parse_packet, CapturedBlock};
use pgr::capture::pcap::{process_block, PcapReader, PcapStep};
use pgr::capture::reader::{output_plan, read_capture, CaptureKind, OutputPlan};
use pgr::capture::zcap::{
    deserialize_map, find_map, unknown_id, WireEvent, ZcapError, ZcapReader, ZcapStep, ZcapWriter,
};
use pgr::capture_common::{read_event, write_event, CaptureEvent, CHUNK_SIZE, EVENT_SIZE};
use pgr::parser::pcap::{BlockRead, CaptureReader, ReadState};
use pgr::utils::addr::{Addr, Ip};

fn next(r: &mut AcapReader, at_end: bool) -> (u8, u32, u64, bool, Vec<u8>) {
    match r.next(at_end) {
        AcapStep::NeedMore => (0, 0, 0, false, vec![]),
        AcapStep::NextChunk => (1, 0, 0, false, vec![]),
        AcapStep::Truncated => (2, 0, 0, false, vec![]),
        AcapStep::Eof => (3, 0, 0, false, vec![]),
        AcapStep::Data(d) => (4, d.id, d.ts, d.connect, d.buf.to_vec()),
    }
}

#[test]
fn records_have_their_layout() {
    let r = AcapWriter::write(1, 0x0203, b"xy");
    assert_eq!(r, [1, 0, 0, 0, 3, 2, 0, 0, 2, 0, 0, 0, b'x', b'y']);
    assert_eq!(AcapWriter::write(7, 0, b"").len(), 12);
    assert_eq!(AcapWriter::write_addr("1.2.3.4:5"), "1.2.3.4:5\n");
    assert_eq!(chunk_name(0), "0.zst");
    assert_eq!(chunk_name(12), "12.zst");
    assert_eq!(plain_chunk_name(12), "12");
    let mut w = AcapWriter::new(100);
    assert!(!w.is_full(99));
    assert!(w.is_full(100));
    w.roll_chunk();
    assert_eq!(w.chunk_idx, 1);
}

#[test]
fn written_chunks_are_read_back() {
    let mut r = AcapReader::new(0, u64::MAX);
    let mut bytes = AcapWriter::write(3, 1000, b"");
    bytes.extend(AcapWriter::write(3, 1500, b"abc"));
    bytes.extend(AcapWriter::write(4, 1200, b"d"));
    r.feed(&bytes);
    assert_eq!(next(&mut r, false), (4, 3, 0, true, vec![]));
    assert_eq!(next(&mut r, false), (4, 3, 500, false, b"abc".to_vec()));
    assert_eq!(next(&mut r, false), (4, 4, 200, false, b"d".to_vec()));
    assert_eq!(next(&mut r, false).0, 0);
    assert_eq!(next(&mut r, true).0, 1);
    r.begin_chunk();
    assert_eq!(r.chunk_idx(), 1);
    r.feed(&AcapWriter::write(3, 9000, b"e"));
    r.feed(&AcapWriter::write(3, 9040, b"f"));
    assert_eq!(next(&mut r, true), (4, 3, 200, false, b"e".to_vec()));
    assert_eq!(next(&mut r, true), (4, 3, 240, false, b"f".to_vec()));
}

#[test]
fn only_the_time_to_read_is_read() {
    let mut r = AcapReader::new(100, 50);
    for ts in [1u32, 90, 101, 151, 152] {
        r.feed(&AcapWriter::write(1, ts, b"x"));
    }
    assert_eq!(next(&mut r, true), (4, 1, 0, false, b"x".to_vec()));
    assert_eq!(next(&mut r, true), (4, 1, 50, false, b"x".to_vec()));
    assert_eq!(next(&mut r, true).0, 3);
}

#[test]
fn times_never_go_back_from_chunk_to_chunk() {
    let mut r = AcapReader::new(30, 1000);
    let mut times = Vec::new();
    for chunk in [vec![500u32, 520, 600], vec![7, 7, 90], vec![], vec![100, 101]] {
        for ts in chunk {
            r.feed(&AcapWriter::write(1, ts, b"x"));
        }
        loop {
            let (kind, _, ts, connect, buf) = next(&mut r, true);
            if kind != 4 {
                assert_eq!(kind, 1);
                break;
            }
            assert_eq!(connect, buf.is_empty());
            times.push(ts);
        }
        r.begin_chunk();
    }
    assert_eq!(times, [70, 70, 70, 153, 153, 154]);
}

#[test]
fn chunks_that_break_off_are_told() {
    let rec = AcapWriter::write(1, 2, b"abcd");
    for n in 0..rec.len() {
        let mut r = AcapReader::new(0, u64::MAX);
        r.feed(&rec[..n]);
        assert_eq!(next(&mut r, false).0, 0);
        assert_eq!(next(&mut r, true).0, if n < 4 { 1 } else { 2 });
        r.feed(&rec[n..]);
        assert_eq!(next(&mut r, true).0, 4);
    }
}

fn v4(n: u32, port: u16) -> Addr {
    Addr::new(Ip::V4(n), port)
}

fn event(addr: Addr, ts: u32, data: &[u8]) -> WireEvent {
    WireEvent { addr, ts, data: data.to_vec() }
}

#[test]
fn a_file_of_records_is_read_back() {
    let a = v4(0x0a00_0001, 4000);
    let b = Addr::new(Ip::V6(0x2001_0db8_0000_0000_0000_0000_0000_0001), 4001);
    let mut w = ZcapWriter::new();
    let mut records = w.write_event(&event(a, 10, b""));
    records.extend(w.write_event(&event(b, 12, b"hello")));
    records.extend(w.write_event(&event(a, 15, b"q")));
    let tail = w.finish();
    assert_eq!(tail.len(), 7 + 19 + 4);
    assert_eq!(tail[..7], [4, 10, 0, 0, 1, 0xa0, 0x0f]);
    let mut file = records.clone();
    file.extend_from_slice(&tail);
    let (start, len) = find_map(file.len() as u64, &file[file.len() - 4..]).unwrap();
    assert_eq!((start, len), (records.len() as u64, 26));
    let map = &file[start as usize..start as usize + len as usize];
    assert_eq!(deserialize_map(map), Ok(vec![a, b]));
    let mut r = ZcapReader::new(map).unwrap();
    r.feed(&records);
    assert!(r.has_room());
    assert!(matches!(r.next(true), ZcapStep::Data { addr, ts: 0 } if addr == a));
    assert!(matches!(r.next(true), ZcapStep::Data { addr, ts: 2 } if addr == b));
    assert!(matches!(r.next(true), ZcapStep::Data { addr, ts: 5 } if addr == a));
    assert!(matches!(r.next(false), ZcapStep::NeedMore));
    assert!(matches!(r.next(true), ZcapStep::Eof));
    assert!(r.get_buffer(&b).is_some());
    assert!(r.get_buffer(&v4(1, 1)).is_none());
}

#[test]
fn broken_files_are_told() {
    assert_eq!(find_map(3, b"abc"), Err(ZcapError::TooSmall));
    assert_eq!(find_map(10, &[7, 0, 0, 0]), Err(ZcapError::BadLength));
    assert_eq!(find_map(11, &[7, 0, 0, 0]), Ok((0, 7)));
    assert_eq!(deserialize_map(&[5]), Err(ZcapError::BadVersion));
    assert_eq!(deserialize_map(&[4, 1, 2]), Err(ZcapError::Truncated));
    assert_eq!(deserialize_map(&[]), Ok(vec![]));
    assert_eq!(ZcapError::TooSmall.to_text(), "File too small");
    assert_eq!(ZcapError::BadLength.to_text(), "Invalid zcap header/map length");
    assert_eq!(ZcapError::BadVersion.to_text(), "Invalid IP version flag in address map");
    assert_eq!(ZcapError::Truncated.to_text(), "failed to fill whole buffer");
    let mut r = ZcapReader::new(&[]).unwrap();
    r.feed(&AcapWriter::write(9, 1, b"x"));
    assert!(matches!(r.next(true), ZcapStep::UnknownId(9)));
    assert_eq!(unknown_id(9), "Unknown id: 9");
}

fn tcp_packet(port: u16, seq: u32, syn: bool, payload: &[u8]) -> Vec<u8> {
    let b = PacketBuilder::ethernet2([1, 2, 3, 4, 5, 6], [7, 8, 9, 10, 11, 12])
        .ipv4([10, 0, 0, 1], [10, 0, 0, 2], 20)
        .tcp(4000, port, seq, 1024);
    let b = if syn { b.syn() } else { b };
    let mut out = Vec::new();
    b.write(&mut out, payload).unwrap();
    out
}

fn ip6_packet(payload: &[u8]) -> Vec<u8> {
    let mut src = [0u8; 16];
    src[15] = 9;
    let b = PacketBuilder::ipv6(src, [1; 16], 20).tcp(4001, 5432, 77, 1024);
    let mut out = Vec::new();
    b.write(&mut out, payload).unwrap();
    out
}

#[test]
fn packets_are_read_behind_each_header() {
    let eth = tcp_packet(5432, 1, true, b"abc");
    let p = parse_packet(&eth).unwrap();
    assert_eq!(p.ip, Some(Ip::V4(0x0a00_0001)));
    let t = p.tcp.unwrap();
    assert_eq!((t.source_port, t.destination_port, t.sequence_number, t.syn), (4000, 5432, 1, true));
    assert_eq!(t.payload, b"abc");

    let mut sll = Vec::new();
    PacketBuilder::linux_sll(LinuxSllPacketType::OTHERHOST, 6, [1, 2, 3, 4, 5, 6, 8, 0])
        .ipv4([10, 0, 0, 7], [10, 0, 0, 2], 20)
        .tcp(4002, 5432, 5, 1024)
        .write(&mut sll, b"sll")
        .unwrap();
    let p = parse_packet(&sll).unwrap();
    assert_eq!(p.ip, Some(Ip::V4(0x0a00_0007)));
    assert_eq!(p.tcp.unwrap().payload, b"sll");

    let mut bare = Vec::new();
    PacketBuilder::ipv4([8, 0, 1, 2], [10, 0, 0, 2], 20)
        .tcp(4003, 5432, 5, 1024)
        .write(&mut bare, b"ip")
        .unwrap();
    let p = parse_packet(&bare).unwrap();
    assert_eq!(p.ip, Some(Ip::V4(0x0800_0102)));
    assert_eq!(p.tcp.unwrap().source_port, 4003);

    let ip = ip6_packet(b"xyz");
    let p = parse_packet(&ip).unwrap();
    assert!(p.ip.is_none() && p.tcp.is_none());
    let mut cooked = vec![0x86, 0xdd];
    cooked.extend_from_slice(&[0; 18]);
    cooked.extend_from_slice(&ip);
    let p = parse_packet(&cooked).unwrap();
    assert_eq!(p.ip, Some(Ip::V6(9)));
    assert_eq!(p.tcp.unwrap().source_port, 4001);
    assert!(parse_packet(&[1, 2, 3]).is_none());
}

#[test]
fn blocks_give_times_and_segments() {
    let eth = tcp_packet(5432, 1, false, b"abc");
    let legacy = CapturedBlock::Legacy { ts_sec: 2, ts_usec: 5, data: &eth };
    let p = process_block(legacy, 5432).unwrap();
    assert_eq!(p.ts, 2_000_005);
    assert_eq!(p.addr, v4(0x0a00_0001, 4000));
    assert_eq!(p.tcp.payload, b"abc");
    let enhanced = CapturedBlock::Enhanced { ts_high: 1, ts_low: 7, data: &eth };
    assert_eq!(process_block(enhanced, 5432).unwrap().ts, 0x1_0000_0007);
    assert_eq!(process_block(CapturedBlock::Simple { data: &eth }, 5432).unwrap().ts, 0);
    assert!(process_block(CapturedBlock::Simple { data: &eth }, 5433).is_none());
    assert!(process_block(CapturedBlock::Simple { data: b"" }, 5432).is_none());
    assert!(process_block(CapturedBlock::Other, 5432).is_none());
    let any = pgr::parser::pcap::process_block(CapturedBlock::Simple { data: &eth }).unwrap();
    assert_eq!(any.destination_port, 5432);
}

fn block(ts: u32, data: &[u8]) -> CapturedBlock<'_> {
    CapturedBlock::Legacy { ts_sec: 0, ts_usec: ts, data }
}

#[test]
fn a_packet_capture_is_read_in_order() {
    let mut r = PcapReader::new(5432, 0, 1000);
    let syn = tcp_packet(5432, 9, true, b"");
    let second = tcp_packet(5432, 12, false, b"cd");
    let first = tcp_packet(5432, 10, false, b"ab");
    let other = tcp_packet(80, 10, false, b"zz");
    assert!(r.has_room(100));
    assert!(matches!(r.on_block(100, block(50, &syn)), PcapStep::Continue));
    assert_eq!(r.prepare(), (100, false));
    assert_eq!(r.prepare(), (0, false));
    assert!(matches!(r.on_block(60, block(60, &second)), PcapStep::Continue));
    assert!(matches!(r.on_block(60, block(70, &other)), PcapStep::Continue));
    match r.on_block(60, block(80, &first)) {
        PcapStep::Data { id, addr, ts, connect, buf } => {
            assert_eq!((id, ts, connect), (0, 30, true));
            assert_eq!(addr, v4(0x0a00_0001, 4000));
            assert_eq!(buf, b"abcd");
        }
        _ => panic!("no data"),
    }
    assert_eq!((r.packet_count, r.fail_count, r.bytes_read), (3, 1, 280));
    assert_eq!(r.first_ts, 50);
    r.on_incomplete();
    assert_eq!(r.prepare(), (180, true));
    r.refilled();
    assert_eq!(r.prepare(), (0, false));
    let late = tcp_packet(5432, 14, false, b"e");
    assert!(matches!(
        r.on_block(1, block(90, &late)),
        PcapStep::Data { connect: false, buf, .. } if buf == b"e"
    ));
    let again = tcp_packet(5432, 99, true, b"");
    assert!(matches!(r.on_block(1, block(91, &again)), PcapStep::Continue));
    let reopened = tcp_packet(5432, 100, false, b"f");
    assert!(matches!(
        r.on_block(1, block(92, &reopened)),
        PcapStep::Data { connect: true, buf, .. } if buf == b"f"
    ));
    assert!(matches!(r.on_block(1, block(1051, &late)), PcapStep::Eof));
}

#[test]
fn packets_before_the_offset_are_skipped() {
    let mut r = PcapReader::new(5432, 100, 1000);
    let a = tcp_packet(5432, 10, false, b"ab");
    assert!(matches!(r.on_block(1, block(1, &a)), PcapStep::Continue));
    match r.on_block(1, block(101, &a)) {
        PcapStep::Data { ts, connect, buf, .. } => {
            assert_eq!((ts, connect), (0, false));
            assert_eq!(buf, b"ab");
        }
        _ => panic!("no data"),
    }
}

#[test]
fn readers_of_packets_tell_their_state() {
    let eth = tcp_packet(80, 1, false, b"abc");
    let mut r = CaptureReader::new();
    let read = BlockRead::Block { consumed: 10, block: block(3, &eth) };
    assert!(matches!(r.next(read), ReadState::Packet(p) if p.destination_port == 80 && p.ts == 3));
    assert_eq!(r.bytes_read, 10);
    let none = BlockRead::Block { consumed: 5, block: CapturedBlock::Other };
    assert!(matches!(r.next(none), ReadState::Continue));
    assert!(matches!(r.next(BlockRead::Incomplete), ReadState::Continue));
    assert_eq!(r.prepare(), (15, true));
    let failed = r.on_refill(Some(String::from("io")));
    assert!(matches!(failed, Some(ReadState::RefillFail(e)) if e == "io"));
    assert_eq!(r.prepare(), (0, true));
    assert!(r.on_refill(None).is_none());
    assert_eq!(r.prepare(), (0, false));
    assert!(matches!(r.next(BlockRead::Eof), ReadState::Eof));
    let bad = BlockRead::Fail(String::from("bad"));
    assert!(matches!(r.next(bad), ReadState::ReadFail(e) if e == "bad"));
}

fn kernel_event(port: u16, seq: u32, flags: u8, payload: &[u8]) -> CaptureEvent {
    let mut src_ip = [0u8; 16];
    src_ip[..4].copy_from_slice(&[10, 0, 0, 1]);
    let mut bytes = payload.to_vec();
    bytes.resize(CHUNK_SIZE, 0);
    CaptureEvent {
        timestamp_ns: 5_000_000,
        src_ip,
        is_v6: 0,
        src_port: port,
        seq,
        flags,
        chunk_len: payload.len() as u16,
        payload: bytes,
    }
}

#[test]
fn events_are_read_back() {
    let e = kernel_event(4000, 77, 2, b"abc");
    let mut bytes = write_event(&e);
    assert_eq!(bytes.len(), EVENT_SIZE);
    assert!(read_event(&bytes[..EVENT_SIZE - 1]).is_none());
    bytes.push(1);
    let f = read_event(&bytes).unwrap();
    assert_eq!(f.timestamp_ns, 5_000_000);
    assert_eq!(f.src_ip, e.src_ip);
    assert_eq!((f.is_v6, f.src_port, f.seq, f.flags, f.chunk_len), (0, 4000, 77, 2, 3));
    assert_eq!(f.payload, e.payload);
}

#[test]
fn events_lead_to_records() {
    let mut s = CaptureSession::new(1_000_000);
    let p = s.on_event(&kernel_event(4000, 9, 2, b""));
    assert_eq!((p.id, p.is_new, p.ts, p.start), (0, true, 4000, true));
    assert_eq!(p.addr, v4(0x0a00_0001, 4000));
    assert!(p.data.is_empty());
    let p = s.on_event(&kernel_event(4000, 12, 0x10, b"cd"));
    assert_eq!((p.id, p.is_new, p.start), (0, false, false));
    assert!(p.data.is_empty());
    let p = s.on_event(&kernel_event(4001, 500, 0x10, b"z"));
    assert_eq!((p.id, p.is_new), (1, true));
    assert_eq!(p.data, b"z");
    let p = s.on_event(&kernel_event(4000, 10, 0x10, b"ab"));
    assert_eq!((p.id, p.is_new), (0, false));
    assert_eq!(p.data, b"abcd");
    assert_eq!(s.total_recv(), 5);
    assert!(s.has_room());
}

#[test]
fn events_of_version_six_and_early_ones() {
    let mut s = CaptureSession::new(u64::MAX);
    let mut e = kernel_event(4000, 9, 0x10, b"x");
    e.is_v6 = 1;
    let p = s.on_event(&e);
    assert_eq!(p.addr.ip, Ip::V6(0x0a00_0001 << 96));
    assert_eq!(p.ts, 0);
}

#[test]
fn captures_are_files_or_folders() {
    assert_eq!(read_capture(true, false, "/x"), Ok(CaptureKind::Pcap));
    assert_eq!(read_capture(false, true, "/x"), Ok(CaptureKind::Acap));
    assert_eq!(read_capture(false, false, "/x"), Err(String::from("File does not exist: /x")));
}

#[test]
fn folders_of_captures_are_not_lost() {
    assert_eq!(output_plan(false, false, false, "/c"), Ok(OutputPlan::Create));
    assert_eq!(output_plan(true, true, true, "/c"), Ok(OutputPlan::Remove));
    assert_eq!(output_plan(true, true, false, "/c"), Err("Output directory exists: /c".to_string()));
    assert_eq!(output_plan(true, false, true, "/c"), Err("Not a directory: /c".to_string()));
}
