use pgr::capture::frame_buffer::{client_tag, ConnState, FrameBuffer};
use pgr::capture::reader::CaptureData;
use pgr::capture::reassembler::Reassembler;
use pgr::capture::tcp_handler::{TcpHandler, TcpSegment};

fn frame(tag: u8, body: &[u8]) -> Vec<u8> {
    let mut f = vec![tag];
    f.extend_from_slice(&(body.len() as u32 + 4).to_be_bytes());
    f.extend_from_slice(body);
    f
}

fn startup(params: &[u8]) -> Vec<u8> {
    let mut f = (params.len() as u32 + 8).to_be_bytes().to_vec();
    f.extend_from_slice(&196608u32.to_be_bytes());
    f.extend_from_slice(params);
    f
}

fn data<'a>(ts: u64, connect: bool, buf: &'a [u8]) -> CaptureData<'a> {
    CaptureData { id: 1, ts, connect, buf }
}

fn taken(b: &mut FrameBuffer) -> Vec<(u8, u64, Vec<u8>)> {
    let mut r = Vec::new();
    loop {
        match b.pop_frame() {
            Some(f) => r.push((f.tag, f.ts, b.read_frame(&f).to_vec())),
            None => return r,
        }
    }
}

fn session() -> Vec<u8> {
    let mut s = startup(b"user\0u\0\0");
    s.extend(frame(b'Q', b"select 1\0"));
    s.extend(frame(b'P', b"\0x\0\0\0"));
    s.extend(frame(b'S', b""));
    s
}

#[test]
fn a_session_is_cut_into_its_frames() {
    let mut b = FrameBuffer::new(1);
    assert_eq!(b.conn_state(), ConnState::Unknown);
    b.on_capture(&data(7, true, b""));
    assert_eq!(b.conn_state(), ConnState::AwaitingStartup);
    assert_eq!(b.connect_time(), 7);
    b.on_capture(&data(9, false, &session()));
    assert_eq!(b.conn_state(), ConnState::Normal);
    let frames = taken(&mut b);
    assert_eq!(frames.len(), 4);
    assert_eq!(frames[0], (0, 9, startup(b"user\0u\0\0")));
    assert_eq!(frames[1], (b'Q', 9, frame(b'Q', b"select 1\0")));
    assert_eq!(frames[3].0, b'S');
}

#[test]
fn it_does_not_matter_where_captures_are_split() {
    let s = session();
    let mut whole = FrameBuffer::new(1);
    whole.on_capture(&data(0, true, &s));
    let whole = taken(&mut whole);
    for at in 0..s.len() {
        let mut b = FrameBuffer::new(1);
        b.on_capture(&data(0, true, &s[..at]));
        b.on_capture(&data(0, false, &s[at..]));
        assert_eq!(taken(&mut b), whole);
    }
}

#[test]
fn a_partial_frame_keeps_the_time_of_its_start() {
    let q = frame(b'Q', b"select 1\0");
    let mut b = FrameBuffer::new(1);
    b.on_capture(&data(0, true, &startup(b"user\0u\0\0")));
    b.on_capture(&data(10, false, &q[..6]));
    b.on_capture(&data(20, false, &q[6..]));
    let frames = taken(&mut b);
    assert_eq!(frames[1].1, 10);
}

#[test]
fn ssl_requests_come_before_the_startup() {
    let mut b = FrameBuffer::new(1);
    let mut s = vec![0, 0, 0, 8];
    s.extend_from_slice(&80877103u32.to_be_bytes());
    b.on_capture(&data(0, true, &s));
    assert_eq!(b.conn_state(), ConnState::AwaitingStartup);
    b.on_capture(&data(0, false, &startup(b"user\0u\0\0")));
    assert_eq!(b.conn_state(), ConnState::Normal);
    assert!(b.drop_startup_frames());
    assert_eq!(b.queued(), 0);
    assert!(!b.drop_startup_frames());
}

#[test]
fn a_lost_connection_is_found_again_by_three_frames() {
    let mut s = b"garbage".to_vec();
    s.extend(frame(b'Q', b"a\0"));
    s.extend(frame(b'Q', b"b\0"));
    let mut b = FrameBuffer::new(1);
    b.on_capture(&data(0, false, &s));
    assert_eq!(b.queued(), 0);
    assert_eq!(b.conn_state(), ConnState::Unknown);
    b.on_capture(&data(0, false, &frame(b'S', b"")));
    assert_eq!(b.conn_state(), ConnState::Normal);
    let tags: Vec<u8> = taken(&mut b).iter().map(|f| f.0).collect();
    assert_eq!(tags, vec![b'Q', b'Q', b'S']);
}

#[test]
fn lengths_out_of_range_lose_the_connection() {
    let mut b = FrameBuffer::new(1);
    b.on_capture(&data(0, true, &startup(b"user\0u\0\0")));
    b.on_capture(&data(0, false, &[b'Q', 0x7f, 0, 0, 0]));
    assert_eq!(b.conn_state(), ConnState::Unknown);
    assert!(client_tag(b'Q') && client_tag(b'X') && !client_tag(b'Z'));
    assert!(b.has_room(10));
}

fn feed_all(pieces: &[Vec<u8>], order: &[usize], isn: u32) -> Vec<u8> {
    let mut r = Reassembler::default();
    let mut out = Vec::new();
    assert!(!r.feed(isn.wrapping_sub(1), true, b"", &mut out));
    for &i in order.iter() {
        let before: usize = pieces[..i].iter().map(|p| p.len()).sum();
        r.feed(isn.wrapping_add(before as u32), false, &pieces[i], &mut out);
    }
    out
}

#[test]
fn reassembly_does_not_depend_on_the_order() {
    let pieces = vec![b"ab".to_vec(), b"cde".to_vec(), b"f".to_vec(), b"ghij".to_vec()];
    let orders: Vec<Vec<usize>> =
        vec![vec![0, 1, 2, 3], vec![3, 2, 1, 0], vec![1, 3, 0, 2], vec![2, 0, 3, 1]];
    for order in orders.iter() {
        assert_eq!(feed_all(&pieces, order, 1000), b"abcdefghij");
        assert_eq!(feed_all(&pieces, order, u32::MAX - 3), b"abcdefghij");
    }
}

#[test]
fn repeated_and_overlapping_segments_add_nothing_twice() {
    let mut r = Reassembler::default();
    let mut out = Vec::new();
    assert!(r.feed(10, false, b"abc", &mut out));
    assert!(!r.feed(10, false, b"abc", &mut out));
    assert!(r.feed(11, false, b"bcde", &mut out));
    assert!(!r.feed(20, false, b"zz", &mut out));
    assert_eq!(out, b"abcde");
}

#[test]
fn handlers_cut_frames_out_of_segments() {
    let s = session();
    let mut h = TcpHandler::default();
    let open = TcpSegment { sequence_number: 99, syn: true, payload: b"" };
    assert!(h.has_room(&open));
    assert!(!h.process_packet(&open));
    let late = TcpSegment { sequence_number: 110, syn: false, payload: &s[10..] };
    assert!(h.has_room(&late));
    assert!(!h.process_packet(&late));
    assert_eq!(h.reorder_count, 1);
    let first = TcpSegment { sequence_number: 100, syn: false, payload: &s[..10] };
    assert!(h.has_room(&first));
    assert!(h.process_packet(&first));
    assert_eq!(h.packet_count, 1);
    assert_eq!(h.cut_frames(5), 3);
    let f = h.peek_frame().unwrap();
    assert_eq!(h.read_frame(&f), &frame(b'Q', b"select 1\0")[..]);
    h.next_frame();
    assert_eq!(h.queued(), 2);
    h.packet_count = usize::MAX;
    assert!(!h.has_room(&first));
    h.packet_count = 1;
    h.reorder_count = usize::MAX;
    assert!(!h.has_room(&first));
    h.reorder_count = 1;
    assert!(h.has_room(&first));
}

#[test]
fn frames_tile_the_stream_and_bear_their_tags() {
    let s = session();
    for cut in 0..=s.len() {
        let mut b = FrameBuffer::new(1);
        b.on_capture(&data(1, true, &s[..cut]));
        b.on_capture(&data(2, false, &s[cut..]));
        let mut at = 0;
        let mut tags = Vec::new();
        loop {
            let f = match b.pop_frame() {
                Some(f) => f,
                None => break,
            };
            assert_eq!(f.offset, at);
            at += f.len;
            tags.push(f.tag);
            let bytes = b.read_frame(&f);
            if f.tag != 0 {
                let len = u32::from_be_bytes([bytes[1], bytes[2], bytes[3], bytes[4]]);
                assert_eq!((bytes[0], len as usize + 1), (f.tag, f.len));
            }
        }
        assert_eq!(at, s.len());
        assert_eq!(tags, [0, b'Q', b'P', b'S']);
    }
}

#[test]
fn a_segment_counts_once() {
    let mut r = Reassembler::default();
    let mut out = Vec::new();
    assert!(r.feed(5, false, b"ab", &mut out));
    assert!(!r.feed(9, false, b"ef", &mut out));
    assert!(!r.feed(9, false, b"ef", &mut out));
    assert_eq!(out, b"ab");
    assert!(r.feed(7, false, b"cd", &mut out));
    assert!(!r.feed(7, false, b"cd", &mut out));
    assert!(!r.feed(9, false, b"ef", &mut out));
    assert_eq!(out, b"abcdef");
}
