use pgr::capture::frame_buffer::{FrameBuffer, FrameInfo};
use pgr::capture::packet::TsPacket;
use pgr::capture::reader::CaptureData;
use pgr::capture::tcp_handler::TcpSegment;
use pgr::compare::addr_map::{has_content, parse_entry, AddrMapError, AddrMapReader};
use pgr::compare::client;
use pgr::compare::error::format_frame_mismatch;
use pgr::compare::normal::{connect_lag, CaptureSide, NormalCompare, PacketFate};
use pgr::compare::pair::ComparePair;
use pgr::compare::session::{CompareReplay, CompareSession, FindResult};
use pgr::compare::stats::CompareStats;
use pgr::compare::turns::{LoopAction, ReadOutcome, Side, Turns};
use pgr::dump::Dumper;
use pgr::dumper::dump_frame;
use pgr::replay::addr_map::entry;
use pgr::utils::addr::{Addr, Ip};

fn frame(tag: u8, body: &[u8]) -> Vec<u8> {
    let mut f = vec![tag];
    f.extend_from_slice(&(body.len() as u32 + 4).to_be_bytes());
    f.extend_from_slice(body);
    f
}

fn startup(params: &[u8]) -> Vec<u8> {
    let mut f = (params.len() as u32 + 8).to_be_bytes().to_vec();
    f.extend_from_slice(&196608u32.to_be_bytes());
    f.extend_from_slice(params);
    f
}

fn data<'a>(id: u32, ts: u64, connect: bool, buf: &'a [u8]) -> CaptureData<'a> {
    CaptureData { id, ts, connect, buf }
}

fn v4(n: u32, port: u16) -> Addr {
    Addr::new(Ip::V4(n), port)
}

#[test]
fn lines_of_the_address_map_are_read_back() {
    let line = entry(17, "10.0.0.1:4000");
    assert!(matches!(parse_entry(&line), Ok(Some((17, a))) if a == "10.0.0.1:4000"));
    assert!(matches!(parse_entry(&entry(u32::MAX, "[::1]:1")), Ok(Some((u32::MAX, a))) if a == "[::1]:1"));
    assert!(matches!(parse_entry("  # remark"), Ok(None)));
    assert!(matches!(parse_entry("   "), Ok(None)));
    assert!(matches!(parse_entry("17"), Err(AddrMapError::MissingReplayAddr)));
    assert!(matches!(parse_entry("x, y"), Err(AddrMapError::BadSourceId(t)) if t == "x"));
    assert!(has_content(" a") && !has_content("#"));
    let mut m = AddrMapReader::new();
    m.insert(v4(1, 2), 17);
    assert_eq!(m.map_addr(&v4(1, 2)), Some(17));
    assert_eq!(m.map_addr(&v4(1, 3)), None);
    let mut c = client::CompareMap::new(&m);
    assert_eq!(c.map_addr(&v4(1, 2)), Some(17));
    let p = c.take(17);
    c.put(17, p);
}

#[test]
fn lines_with_arrows_are_read() {
    assert!(matches!(pgr::compare::map::parse_entry(" a -> b "), Ok(Some((a, b))) if a == "a" && b == "b"));
    assert!(matches!(pgr::compare::map::parse_entry("# x -> y"), Ok(None)));
    assert!(pgr::compare::map::parse_entry("a b").is_err());
}

#[test]
fn frames_that_differ_are_shown() {
    let f = |offset: usize, tag: u8| FrameInfo { offset, len: 7, ts: 0, tag };
    let e = format_frame_mismatch(v4(1, 1), &f(3, b'Q'), b"a\0", v4(2, 2), &f(9, b'Q'), b"b\0");
    assert_eq!(
        e.to_text("one", "two"),
        "Compare failed: Frame contents do not match\none at 3:10 <-> two at 9:16\nFirst frame:\nQuery,\"a\"\nSecond frame:\nQuery,\"b\"\n                    "
    );
    let s = pgr::compare::pair::format_frame_mismatch(1, &f(3, b'S'), b"", 2, &f(9, b'Q'), b"b\0");
    assert_eq!(s, "Frame contents do not match:\n1 at 3:10 <=> 2 at 9:16\nSync\nQuery,\"b\"");
}

#[test]
fn differences_are_counted_on_both_sides() {
    let mut s = CompareStats::default();
    s.pair_ts(100, 150);
    s.pair_ts(100, 120);
    s.pair_ts(100, 100);
    s.pair_ts(100, 70);
    assert_eq!((s.cnt_behind, s.sum_behind, s.max_behind), (2, 70, 50));
    assert_eq!((s.cnt_ahead, s.sum_ahead, s.max_ahead, s.total_updates), (2, -30, -30, 4));
}

#[test]
fn turns_alternate_until_both_ends() {
    let mut t = Turns::new();
    assert_eq!(t.next(), Some(Side::First));
    assert_eq!(t.next(), Some(Side::Second));
    assert_eq!(t.next(), Some(Side::First));
    t.skip();
    assert_eq!(t.next(), Some(Side::First));
    t.end(Side::First);
    assert_eq!(t.next(), Some(Side::Second));
    assert_eq!(t.next(), Some(Side::Second));
    t.end(Side::Second);
    assert_eq!(t.next(), None);
}

#[test]
fn each_reading_leads_to_an_action() {
    let mut t = Turns::new();
    assert_eq!(t.next(), Some(Side::First));
    assert_eq!(t.on_read(Side::First, PacketFate::OtherPort.outcome()), LoopAction::GoOn);
    assert_eq!(t.next(), Some(Side::First));
    assert_eq!(t.on_read(Side::First, PacketFate::NoCounterpart.outcome()), LoopAction::GoOn);
    assert_eq!(t.next(), Some(Side::Second));
    assert_eq!(t.on_read(Side::Second, ReadOutcome::Nothing), LoopAction::GoOn);
    assert_eq!(t.on_read(Side::First, ReadOutcome::Failed), LoopAction::Quit);
    assert_eq!(t.on_read(Side::First, ReadOutcome::Differs), LoopAction::Fail);
    assert_eq!(t.on_read(Side::Second, ReadOutcome::Eof), LoopAction::GoOn);
    assert_eq!(t.next(), Some(Side::First));
    assert_eq!(t.on_read(Side::First, ReadOutcome::Taken), LoopAction::GoOn);
    assert_eq!(t.next(), Some(Side::First));
    assert_eq!(t.on_read(Side::First, ReadOutcome::Eof), LoopAction::Report);
}

fn packet<'a>(addr: Addr, ts: u64, port: u16, seq: u32, syn: bool, payload: &'a [u8]) -> TsPacket<'a> {
    TsPacket {
        addr,
        ts,
        destination_port: port,
        tcp: TcpSegment { sequence_number: seq, syn, payload },
    }
}

fn session_bytes(query: &[u8]) -> Vec<u8> {
    let mut s = startup(b"user\0u\0\0");
    s.extend(frame(b'Q', query));
    s
}

#[test]
fn packets_of_pairs_are_compared() {
    let (a, b) = (v4(1, 1), v4(2, 2));
    let mut m = pgr::compare::map::CompareMap::new();
    m.insert(a, b);
    let mut n = NormalCompare::new(m, 5432, 6432);
    let same = session_bytes(b"x\0");
    for (side, addr, port) in [(Side::First, a, 5432), (Side::Second, b, 6432)] {
        for p in [packet(addr, 10, port, 99, true, b""), packet(addr, 20, port, 100, false, &same)] {
            assert!(n.has_room(side, &p));
            assert!(matches!(n.on_packet(side, &p), Ok(PacketFate::Pair(x, y)) if x == a && y == b));
        }
    }
    assert!(matches!(n.on_packet(Side::First, &packet(a, 1, 1, 0, false, b"")), Ok(PacketFate::OtherPort)));
    let other = packet(v4(9, 9), 1, 5432, 0, false, b"");
    assert!(matches!(n.on_packet(Side::First, &other), Ok(PacketFate::NoCounterpart)));
    assert!(matches!(n.on_packet(Side::First, &other), Ok(PacketFate::Ignored)));
    assert_eq!((n.c1.packets, n.c1.first_ts), (4, Some(10)));
    assert_eq!(n.map.addrs(), vec![a]);
    let p = n.map.pair(&a).unwrap();
    assert_eq!((p.c1.timings.len(), p.c2.timings.len(), p.c1.connect_ts), (1, 1, Some(20)));
    let at = 100 + same.len() as u32;
    let (q1, q2) = (frame(b'Q', b"y\0"), frame(b'Q', b"z\0"));
    assert!(n.on_packet(Side::First, &packet(a, 30, 5432, at, false, &q1)).is_ok());
    match n.on_packet(Side::Second, &packet(b, 40, 6432, at, false, &q2)) {
        Err(e) => assert!(e.to_text("a", "b").contains("Query,\"y\"\nSecond frame:\nQuery,\"z\"")),
        _ => panic!("no mismatch"),
    }
    let next = packet(a, 50, 5432, at, false, &q1);
    assert!(n.has_room(Side::First, &next));
    n.c2.packets = u64::MAX;
    assert!(!n.has_room(Side::First, &next));
    assert_eq!(connect_lag(150, 100, 180, 110), 20);
    let mut s = CaptureSide::new(1);
    assert_eq!(s.on_packet(a, 5, 1, Some((a, b))), PacketFate::Pair(a, b));
}

#[test]
fn lags_are_relative_to_the_first_frame() {
    let mut p = pgr::compare::map::ClientPair { c1: pgr::compare::map::StreamClient::new(v4(1, 1)), c2: pgr::compare::map::StreamClient::new(v4(2, 2)) };
    assert_eq!(p.avg_max(), (0, 0, 0));
    p.c1.timings = vec![100, 200, 300];
    p.c2.timings = vec![1000, 1150, 1190, 1300];
    assert!(p.in_time());
    assert_eq!(p.avg_max(), (60, 3, 50));
    p.c1.timings = vec![100, 50];
    assert!(!p.in_time());
}

#[test]
fn a_replay_tells_whose_it_is() {
    let mut r = CompareReplay::new(5);
    assert_eq!(r.find_id(), FindResult::NotReady);
    r.buf.on_capture(&data(5, 0, true, &startup(b"user\0u\0pgr.client_id\x0017\0\0")));
    assert_eq!(r.find_id(), FindResult::Found(17));
    assert_eq!(r.find_id(), FindResult::Found(17));
    let mut r = CompareReplay::new(6);
    r.buf.on_capture(&data(6, 0, true, &startup(b"user\0u\0\0")));
    assert_eq!(r.find_id(), FindResult::NotFound);
}

fn replay_of(id: &[u8], query: &[u8]) -> Vec<u8> {
    let mut params = b"user\0u\0pgr.client_id\0".to_vec();
    params.extend_from_slice(id);
    params.extend_from_slice(b"\0\0");
    let mut s = startup(&params);
    s.extend(frame(b'Q', query));
    s
}

#[test]
fn a_session_finds_what_is_the_same() {
    let mut s = CompareSession::new();
    let mut entries = Some(Vec::new());
    let src = session_bytes(b"x\0");
    assert!(s.source_has_room(17, src.len()) && s.replay_has_room(5, 10));
    assert!(s.on_source(&data(17, 100, true, b""), &mut entries).is_ok());
    assert!(s.on_source(&data(17, 150, false, &src), &mut entries).is_ok());
    let rep = replay_of(b"17", b"x\0");
    assert!(s.on_replay(&data(5, 1000, true, b""), &mut entries).is_ok());
    assert!(s.on_replay(&data(5, 1080, false, &rep), &mut entries).is_ok());
    assert_eq!(s.ids(), vec![17]);
    let p = s.pair(17).unwrap();
    assert_eq!((p.stats.cnt_behind, p.stats.sum_behind, p.replay_id), (1, 30, Some(5)));
    assert_eq!(p.connect_delta(), 900);
    let list = entries.unwrap();
    assert_eq!(list.len(), 1);
    assert_eq!((list[0].src_ts, list[0].replay_ts, list[0].id), (50, 80, 17));
    assert_eq!(list[0].text, "Query,\"x\"");
}

#[test]
fn a_session_tells_the_first_difference() {
    let mut s = CompareSession::new();
    let mut entries = None;
    assert!(s.on_replay(&data(5, 0, true, &replay_of(b"17", b"y\0")), &mut entries).is_ok());
    let e = s.on_source(&data(17, 0, true, &session_bytes(b"x\0")), &mut entries).unwrap_err();
    assert!(e.starts_with("Frame contents do not match:\n17 at "));
    assert!(e.ends_with("\nQuery,\"x\"\nQuery,\"y\""));
    assert!(s.on_replay(&data(6, 0, true, &session_bytes(b"q\0")), &mut entries).is_ok());
    assert!(s.on_replay(&data(6, 1, false, b"anything"), &mut entries).is_ok());
}

#[test]
fn pairs_compare_what_waits_on_both_sides() {
    let mut src = FrameBuffer::new(1);
    let mut rep = FrameBuffer::new(2);
    src.on_capture(&data(1, 10, true, &session_bytes(b"x\0")));
    rep.on_capture(&data(2, 30, true, &session_bytes(b"x\0")));
    let mut p = ComparePair::new(1);
    p.replay_id = Some(2);
    p.read_src(15, &mut src);
    p.read_replay(45, &mut rep);
    assert_eq!(p.connect_delta(), 20);
    let mut entries = None;
    assert!(p.compare(&src, &rep, &mut entries).is_ok());
    assert_eq!((p.stats.src_frames, p.stats.replay_frames, p.stats.sum_behind), (1, 1, 10));
    assert!(p.pop_frame().is_none());
    let mut c = client::Client::new(3);
    let mut b = FrameBuffer::new(3);
    b.on_capture(&data(3, 1, true, &session_bytes(b"x\0")));
    c.read_buf(7, &mut b);
    assert_eq!((c.frame_count, c.connect_time(), c.has_frame()), (1, 7, true));
    assert_eq!(c.pop_frame().0.tag, b'Q');
    assert!(!c.has_frame());
}

#[test]
fn dumps_have_a_line_for_each_frame() {
    let mut d = Dumper::new();
    assert!(d.has_room(3, 100));
    let s = session_bytes(b"select 'a'\0");
    assert_eq!(d.on_data(&data(3, 1, true, &s[..10]), "0.000001"), "");
    assert_eq!(
        d.on_data(&data(3, 2, false, &s[10..]), "0.000002"),
        "0.000002,3,StartupMessage,196608,user:u\n0.000002,3,Query,\"select 'a'\"\n"
    );
    assert_eq!(
        d.on_data(&data(3, 3, false, &frame(b'Q', b"x")), "0.000003"),
        "0.000003,3,(Missing null terminator),Q\\x00\\x00\\x00\\x05x\n"
    );
    assert_eq!(
        dump_frame("1.2.3.4:5", 77, b'Q', b"x\0").as_deref(),
        Ok("[1.2.3.4:5] (77) -> Query,\"x\"\n")
    );
    assert_eq!(dump_frame("a", 1, b'Q', b"x"), Err("Missing null terminator"));
}
