use pgr::capture::frame_buffer::FrameBuffer;
use pgr::capture::reader::CaptureData;
use pgr::pg_client::client::startup_message;
use pgr::pg_client::proto::encode_password;
use pgr::replay::addr_map::entry;
use pgr::replay::client::{ClientState, ReplayClient, ReplayConfig};
use pgr::replay::event_loop::{
    classify, flush_due, make_ud, ud_id, ud_kind, Completed, ConnCommand, ConnFate, Connection,
    ReplayLoop, KIND_CONNECT, KIND_READ, KIND_WRITE, OP_TIMEOUT, OP_WAKE,
};
use pgr::replay::frame_tags::should_replay_frame;
use pgr::replay::latency::{LatencyMap, LatencyMonitor};
use pgr::replay::manager::{too_far_ahead, ReplayManager};
use pgr::replay::pacer::Pacer;
use pgr::replay::state::{FramePlan, ReplayState};
use pgr::replay::stats::ReplayStats;
use pgr::replay::wait::{WaitInfo, WaitPlan};
use pgr::utils::addr::{Addr, Ip};

fn frame(tag: u8, body: &[u8]) -> Vec<u8> {
    let mut f = vec![tag];
    f.extend_from_slice(&(body.len() as u32 + 4).to_be_bytes());
    f.extend_from_slice(body);
    f
}

fn config(password: Option<&str>) -> ReplayConfig {
    ReplayConfig::new(
        Ip::V4(0x7f00_0001),
        5432,
        String::from("db"),
        String::from("bob"),
        password.map(|p| p.to_string()),
        1000,
    )
}

fn ready() -> Vec<u8> {
    frame(b'Z', b"I")
}

fn client(stats: &mut ReplayStats) -> ReplayClient {
    let c = config(Some("pw"));
    assert!(c.is_valid());
    let mut client = ReplayClient::connect(7, c, stats);
    client.clear_outbox();
    client
}

#[test]
fn a_client_starts_with_its_startup_message() {
    let mut stats = ReplayStats::new();
    let mut c = ReplayClient::connect(7, config(None), &mut stats);
    assert_eq!(c.state, ClientState::Connecting);
    assert_eq!(c.addr, Addr::new(Ip::V4(0x7f00_0001), 5432));
    assert!(c.has_pending_write());
    assert_eq!(c.take_outbox(), startup_message("pgr", "bob", "db"));
    assert!(!c.has_pending_write());
    assert_eq!(stats.read_total_sent(), 1);
}

#[test]
fn a_client_logs_in_and_sends_in_order() {
    let mut stats = ReplayStats::new();
    let mut c = client(&mut stats);
    let q = frame(b'Q', b"one\0");
    let s = frame(b'S', b"");
    let r = frame(b'Q', b"two\0");
    c.send_frame(b'Q', q.clone(), &mut stats);
    c.send_frame(b'S', s.clone(), &mut stats);
    c.send_frame(b'Q', r.clone(), &mut stats);
    assert!(!c.has_pending_write());
    assert!(c.on_read(&frame(b'R', &[0, 0, 0, 3]), &mut stats));
    assert_eq!(c.take_outbox(), encode_password("pw"));
    let f = ready();
    assert!(c.on_read(&f[..2], &mut stats));
    assert_eq!(c.state, ClientState::Connecting);
    assert!(c.on_read(&f[2..], &mut stats));
    assert_eq!(c.state, ClientState::Normal);
    let mut first = q.clone();
    first.extend_from_slice(&s);
    first.extend_from_slice(&r);
    assert_eq!(c.take_outbox(), first);
    assert!(c.on_read(&ready(), &mut stats));
    c.replay_frame(b'S', &s, &mut stats);
    assert_eq!(c.take_outbox(), s);
    c.replay_frame(b'Q', &q, &mut stats);
    assert!(!c.has_pending_write());
    assert!(c.on_read(&ready(), &mut stats));
    assert_eq!(c.take_outbox(), q);
}

#[test]
fn a_client_ends_for_each_reason() {
    let mut stats = ReplayStats::new();
    let mut c = client(&mut stats);
    c.on_eof();
    assert!(c.is_dead());
    let mut c = client(&mut stats);
    c.on_io_error();
    assert!(c.is_dead());
    c.send_frame(b'Q', frame(b'Q', b"x\0"), &mut stats);
    assert!(!c.has_pending_write());
    let mut c = client(&mut stats);
    assert!(c.on_read(&frame(b'R', &[0, 0, 0, 9]), &mut stats));
    assert!(c.is_dead());
    let mut c = ReplayClient::connect(1, config(None), &mut stats);
    assert!(c.on_read(&frame(b'R', &[0, 0, 0, 3]), &mut stats));
    assert!(c.is_dead());
    let mut c = client(&mut stats);
    assert!(!c.on_read(b"Z\0\0\0\x03", &mut stats));
    let mut c = client(&mut stats);
    assert!(c.on_read(&ready(), &mut stats));
    c.on_replay_end(&mut stats);
    assert_eq!(c.take_outbox(), frame(b'X', b""));
    c.requeue_unwritten(b"ab".to_vec());
    assert_eq!(c.read_outbox(), b"ab");
}

#[test]
fn marks_tell_what_they_were_made_of() {
    for kind in [KIND_CONNECT, KIND_READ, KIND_WRITE] {
        for id in [0u32, 1, u32::MAX] {
            let ud = make_ud(kind, id);
            assert_eq!((ud_kind(ud), ud_id(ud)), (kind, id));
        }
    }
    assert_eq!(classify(make_ud(KIND_READ, 5)), Completed::Read(5));
    assert_eq!(classify(make_ud(KIND_WRITE, 5)), Completed::Write(5));
    assert_eq!(classify(make_ud(KIND_CONNECT, 5)), Completed::Connect(5));
    assert_eq!(classify(OP_WAKE), Completed::Wake);
    assert_eq!(classify(OP_TIMEOUT), Completed::Timeout);
    assert_eq!(classify(0), Completed::Unknown);
    assert!(flush_due(256) && !flush_due(257));
}

#[test]
fn commands_wait_until_they_are_due() {
    let mut l = ReplayLoop::new();
    assert_eq!(l.timeout(0), None);
    l.push(ConnCommand::Connect { id: 1, ts: 2_500_000 });
    l.push(ConnCommand::Terminate { ts: 0 });
    assert_eq!(l.timeout(1_000_000), Some((1, 500_000_000)));
    assert_eq!(l.timeout(9_000_000), Some((0, 0)));
    assert!(l.next_ready(2_499_999).is_none());
    assert!(matches!(l.next_ready(2_500_000), Some(ConnCommand::Connect { id: 1, .. })));
    assert!(!l.finished(0));
    assert!(matches!(l.next_ready(0), Some(ConnCommand::Terminate { .. })));
    l.close();
    assert!(l.finished(0) && !l.finished(1));
}

#[test]
fn connections_submit_what_is_left() {
    let mut stats = ReplayStats::new();
    let mut c = Connection::new(7, ReplayClient::connect(7, config(None), &mut stats));
    let addr = Addr::new(Ip::V4(1), 2);
    assert_eq!(c.on_connect_completion(-111, addr), ConnFate::Remove);
    assert_eq!(c.on_connect_completion(0, addr), ConnFate::Keep);
    assert_eq!(c.client.addr, addr);
    assert!(c.wants_read());
    c.read_submitted(true);
    assert!(!c.wants_read());
    assert!(c.has_room() && c.prepare_write());
    c.write_submitted(true);
    assert!(!c.prepare_write());
    let all = startup_message("pgr", "bob", "db");
    assert_eq!(c.write_stream.data(), &all[..]);
    assert_eq!(c.on_write_completion(10), ConnFate::Keep);
    assert_eq!(c.write_stream.data(), &all[10..]);
    assert_eq!(c.on_read_completion(0, b"", &mut stats), ConnFate::Remove);
    let mut d = Connection::new(8, client(&mut stats));
    assert_eq!(d.on_read_completion(5, b"Z\0\0\0\x03", &mut stats), ConnFate::ShortFrame);
    assert_eq!(d.on_write_completion(-1), ConnFate::Remove);
    let mut e = Connection::new(9, client(&mut stats));
    let r = ready();
    assert_eq!(e.on_read_completion(r.len() as i32, &r, &mut stats), ConnFate::Keep);
    e.replay_frame(b'Q', &frame(b'Q', b"x\0"), &mut stats);
    e.on_replay_end(&mut stats);
    assert!(e.prepare_write());
    let mut sent = frame(b'Q', b"x\0");
    sent.extend(frame(b'X', b""));
    assert_eq!(e.write_stream.data(), &sent[..]);
    e.write_submitted(false);
    assert!(e.write_pending);
}

#[test]
fn latencies_are_those_of_the_answered_requests() {
    let mut m = LatencyMonitor::default();
    m.on_send(b'P', 10);
    m.on_send(b'B', 11);
    m.on_send(b'E', 12);
    m.on_send(b'S', 13);
    assert!(m.takes(b'1'));
    assert_eq!(m.on_response(b'1', 20), Some((b'P', 10)));
    assert_eq!(m.on_response(b'2', 25), Some((b'B', 14)));
    assert_eq!(m.on_response(b'D', 26), None);
    assert_eq!(m.on_response(b'C', 30), Some((b'E', 18)));
    assert_eq!(m.on_response(b'Z', 33), Some((b'S', 20)));
    assert_eq!(m.pending(), 0);
    m.on_send(b'P', 40);
    m.on_send(b'B', 41);
    m.on_send(b'S', 42);
    assert_eq!(m.on_response(b'E', 50), Some((b'P', 10)));
    assert_eq!(m.on_response(b'2', 51), None);
    assert_eq!(m.on_response(b'Z', 52), None);
    assert_eq!(m.pending(), 0);
}

#[test]
fn latencies_are_kept_by_client() {
    let mut m = LatencyMap::new();
    m.on_send(1, b'Q', 100);
    m.on_send(2, b'Q', 200);
    assert!(m.takes(1, b'C') && m.takes(9, b'T'));
    let s = m.on_response(1, b'C', 150).unwrap();
    assert_eq!((s.id, s.tag, s.lat_us, s.pending), (1, b'Q', 50, 0));
    assert!(m.on_response(9, b'C', 150).is_none());
    let s = m.on_response(2, b'Z', 250).unwrap();
    assert_eq!((s.id, s.lat_us), (2, 50));
}

#[test]
fn clients_are_told_to_connect_once_and_to_send_in_order() {
    let mut m = ReplayManager::new();
    let mut buf = FrameBuffer::new(3);
    let mut startup = vec![0, 0, 0, 16, 0, 3, 0, 0];
    startup.extend_from_slice(b"user\0u\0\0");
    buf.on_capture(&CaptureData { id: 3, ts: 5, connect: true, buf: &startup });
    let c = m.on_data(3, 5, &mut buf);
    assert_eq!(c.len(), 1);
    assert!(matches!(c[0], ConnCommand::Connect { id: 3, ts: 5 }));
    let mut two = frame(b'Q', b"a\0");
    two.extend(frame(b'S', b""));
    buf.on_capture(&CaptureData { id: 3, ts: 9, connect: false, buf: &two });
    let c = m.on_data(3, 9, &mut buf);
    assert_eq!(c.len(), 2);
    assert!(matches!(&c[0], ConnCommand::Send { tag: b'Q', data, flush: false, ts: 9, .. } if *data == frame(b'Q', b"a\0")));
    assert!(matches!(&c[1], ConnCommand::Send { tag: b'S', flush: true, .. }));
    assert!(too_far_ahead(2_000_001, 1_000_000) && !too_far_ahead(2_000_000, 1_000_000));
    assert!(!too_far_ahead(0, u64::MAX));
}

#[test]
fn frames_keep_their_distances_in_time() {
    let p = Pacer::start(1000);
    assert_eq!(p.time_to(1500, 200), 300);
    assert_eq!(p.time_to(500, 200), -200);
    assert_eq!(p.wait_for(1500, 100_000), Some(400_000));
    assert_eq!(p.wait_for(1500, 500_000), None);
    let w = WaitInfo::start(1000);
    assert_eq!(w.plan(1000, 0), WaitPlan::Done);
    assert_eq!(w.plan(2000, 0), WaitPlan::Spin);
    assert_eq!(w.plan(2001, 0), WaitPlan::Sleep(1));
    assert_eq!((w.time_to(1500, 700), w.deadline(1500), w.deadline(1)), (-200, 500, 0));
    let mut s = ReplayState::new();
    assert_eq!(s.pace(500, 10_000), 0);
    assert_eq!(s.pace(900, 10_100), 300);
    assert_eq!(s.pace(900, 10_400), 0);
    assert_eq!(s.pace(400, 10_400), 0);
}

#[test]
fn frames_are_sent_forgotten_or_left() {
    let plan = |tag: u8, c: bool| ReplayState::process_frame(tag, c);
    assert_eq!(plan(b'X', true), FramePlan { connect: false, send: true, forget: true, counts: false });
    assert_eq!(plan(b'X', false), FramePlan { connect: false, send: false, forget: false, counts: false });
    assert_eq!(plan(b'Q', false), FramePlan { connect: true, send: true, forget: false, counts: true });
    assert_eq!(plan(b'p', true), FramePlan { connect: false, send: false, forget: false, counts: false });
    assert!(ReplayState::check_tag(b'S') && !ReplayState::check_tag(b'C'));
    assert!(should_replay_frame(b'F') && should_replay_frame(b'X') && !should_replay_frame(b'p'));
    assert_eq!(entry(12, "127.0.0.1:9"), "12,127.0.0.1:9\n");
}

#[test]
fn counters_start_again_when_read() {
    let mut s = ReplayStats::new();
    s.log_send();
    s.log_send();
    s.log_recv();
    assert_eq!((s.read_total_sent(), s.read_delta_sent(), s.read_delta_recv()), (2, 2, 1));
    assert_eq!((s.read_total_sent(), s.read_delta_sent(), s.read_delta_recv()), (2, 0, 0));
}
