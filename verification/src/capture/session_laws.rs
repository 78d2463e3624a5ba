//! What a client sends over the wire, byte for byte, and what is found of it. The type
//! bytes and the codes are written out here.
use vstd::prelude::*;

use crate::capture::frame_buffer;
use crate::capture::frame_buffer::{ConnState, Cut, FrameBufferView};
use crate::capture::frame_laws;
use crate::capture::frame_laws::Segment;

verus! {

/// The number that stands in four bytes, most significant first.
pub open spec fn number_at(b: Seq<u8>, at: int) -> int {
    b[at] * 0x100_0000 + b[at + 1] * 0x1_0000 + b[at + 2] * 0x100 + b[at + 3]
}

/// Whether a client sends messages with this type byte: `Q`, `P`, `B`, `D`, `E`, `C`, `f`,
/// `c`, `p`, `S`, `H` or `X`.
pub open spec fn is_message_type(tag: u8) -> bool {
    ||| tag == 0x51
    ||| tag == 0x50
    ||| tag == 0x42
    ||| tag == 0x44
    ||| tag == 0x45
    ||| tag == 0x43
    ||| tag == 0x66
    ||| tag == 0x63
    ||| tag == 0x70
    ||| tag == 0x53
    ||| tag == 0x48
    ||| tag == 0x58
}

/// Whether bytes are a message: a type byte, and then their number, without that byte, in
/// four bytes, and the rest. At most ten millions are taken.
pub open spec fn is_message(f: Seq<u8>) -> bool {
    &&& f.len() >= 5
    &&& is_message_type(f[0])
    &&& number_at(f, 1) == f.len() - 1
    &&& f.len() - 1 <= 10_000_000
}

/// Whether bytes are a message without type byte: their number in four bytes, a code in
/// four more, and the rest.
pub open spec fn is_opening(f: Seq<u8>) -> bool {
    &&& f.len() >= 8
    &&& number_at(f, 0) == f.len()
    &&& f.len() <= 10_000_000
}

/// Whether bytes ask for TLS or for GSSAPI encryption.
pub open spec fn asks_encryption(f: Seq<u8>) -> bool {
    is_opening(f) && (number_at(f, 4) == 80877103 || number_at(f, 4) == 80877104)
}

/// Whether bytes open a session, or ask for a cancellation.
pub open spec fn is_startup(f: Seq<u8>) -> bool {
    is_opening(f) && number_at(f, 4) != 80877103 && number_at(f, 4) != 80877104
}

/// The type bytes that frames are looked for by are those that clients send.
pub proof fn law_message_types(tag: u8)
    ensures
        frame_buffer::is_client_tag(tag) <==> is_message_type(tag),
{
}

/// A message is found as a frame.
proof fn lemma_message(f: Seq<u8>)
    requires
        is_message(f),
    ensures
        frame_buffer::cut_at(ConnState::Normal, f) == (Cut::Frame {
            skip: 0,
            len: f.len() as int,
            tag: f[0],
        }),
        frame_buffer::state_after(ConnState::Normal, f[0], f) == ConnState::Normal,
{
    reveal(frame_buffer::cut_at);
    reveal(frame_buffer::state_after);
    let rest = f.skip(1);
    assert(rest[0] == f[1] && rest[1] == f[2] && rest[2] == f[3] && rest[3] == f[4]);
}

/// Messages may be sent one after the other.
proof fn lemma_messages(messages: Seq<Seq<u8>>)
    requires
        forall|i: int| #![trigger messages[i]] 0 <= i < messages.len() ==> is_message(messages[i]),
    ensures
        frame_laws::session(ConnState::Normal, messages),
        frame_laws::session_state(ConnState::Normal, messages) == ConnState::Normal,
        frame_laws::session_tags(ConnState::Normal, messages).len() == messages.len(),
        forall|i: int|
            #![trigger messages[i]]
            0 <= i < messages.len() ==> frame_laws::session_tags(ConnState::Normal, messages)[i]
                == messages[i][0],
    decreases messages.len(),
{
    if messages.len() > 0 {
        let rest = messages.drop_first();
        lemma_message(messages[0]);
        assert forall|i: int| #![trigger rest[i]] 0 <= i < rest.len() implies is_message(
            rest[i],
        ) by {
            assert(rest[i] == messages[i + 1]);
        }
        lemma_messages(rest);
        assert forall|i: int| #![trigger messages[i]] 0 <= i < messages.len() implies
            frame_laws::session_tags(ConnState::Normal, messages)[i] == messages[i][0] by {
            if i > 0 {
                assert(rest[i - 1] == messages[i]);
                assert(frame_laws::session_tags(ConnState::Normal, messages)[i]
                    == frame_laws::session_tags(ConnState::Normal, rest)[i - 1]);
            }
        }
    }
}

/// A message without type byte is found as a frame.
proof fn lemma_opening(f: Seq<u8>)
    requires
        is_opening(f),
    ensures
        frame_buffer::cut_at(ConnState::AwaitingStartup, f) == (Cut::Frame {
            skip: 0,
            len: f.len() as int,
            tag: 0,
        }),
        asks_encryption(f) ==> frame_buffer::state_after(ConnState::AwaitingStartup, 0, f)
            == ConnState::AwaitingStartup,
        is_startup(f) ==> frame_buffer::state_after(ConnState::AwaitingStartup, 0, f)
            == ConnState::Normal,
{
    reveal(frame_buffer::cut_at);
    reveal(frame_buffer::state_after);
    let code = f.skip(4);
    assert(code[0] == f[4] && code[1] == f[5] && code[2] == f[6] && code[3] == f[7]);
}

/// What a client sends from its first byte on: requests for encryption, which the server
/// turns down, a startup message, and messages.
pub open spec fn sent_frames(asks: Seq<Seq<u8>>, startup: Seq<u8>, messages: Seq<Seq<u8>>) -> Seq<
    Seq<u8>,
> {
    asks + seq![startup] + messages
}

/// Whether frames are what a client sends from its first byte on.
pub open spec fn is_session(asks: Seq<Seq<u8>>, startup: Seq<u8>, messages: Seq<Seq<u8>>) -> bool {
    &&& forall|i: int| #![trigger asks[i]] 0 <= i < asks.len() ==> asks_encryption(asks[i])
    &&& is_startup(startup)
    &&& forall|i: int|
        #![trigger messages[i]]
        0 <= i < messages.len() ==> is_message(messages[i])
}

/// The type byte of a frame of a session: zero up to the startup message, and the first
/// byte of the frame from then on.
pub open spec fn type_byte(frames: Seq<Seq<u8>>, startup: int, i: int) -> u8 {
    if i <= startup {
        0
    } else {
        frames[i][0]
    }
}

/// The frames of a session may be sent one after the other.
pub(crate) proof fn lemma_session(asks: Seq<Seq<u8>>, startup: Seq<u8>, messages: Seq<Seq<u8>>)
    requires
        is_session(asks, startup, messages),
    ensures
        ({
            let frames = sent_frames(asks, startup, messages);
            let tags = frame_laws::session_tags(ConnState::AwaitingStartup, frames);
            &&& frame_laws::session(ConnState::AwaitingStartup, frames)
            &&& frame_laws::session_state(ConnState::AwaitingStartup, frames) == ConnState::Normal
            &&& tags.len() == frames.len()
            &&& forall|i: int|
                #![trigger tags[i]]
                0 <= i < frames.len() ==> tags[i] == type_byte(frames, asks.len() as int, i)
        }),
    decreases asks.len(),
{
    let start = ConnState::AwaitingStartup;
    let frames = sent_frames(asks, startup, messages);
    let rest = frames.drop_first();
    let tags = frame_laws::session_tags(start, frames);
    lemma_opening(frames[0]);
    if asks.len() == 0 {
        assert(frames[0] == startup);
        assert(rest =~= messages);
        lemma_messages(messages);
        assert(frame_laws::session(start, frames));
        assert(frame_laws::session_state(start, frames) == ConnState::Normal);
        assert(tags.len() == frames.len());
        assert forall|i: int| #![trigger tags[i]] 0 <= i < frames.len() implies tags[i]
            == type_byte(frames, asks.len() as int, i) by {
            if i > 0 {
                assert(messages[i - 1] == frames[i]);
                assert(tags[i] == frame_laws::session_tags(ConnState::Normal, messages)[i - 1]);
            }
        }
    } else {
        let fewer = asks.drop_first();
        assert(asks_encryption(asks[0]));
        assert forall|i: int| #![trigger fewer[i]] 0 <= i < fewer.len() implies asks_encryption(
            fewer[i],
        ) by {
            assert(fewer[i] == asks[i + 1]);
        }
        lemma_session(fewer, startup, messages);
        assert(frames[0] == asks[0]);
        assert(rest =~= sent_frames(fewer, startup, messages));
        assert(frame_laws::session(start, frames));
        assert(frame_laws::session_state(start, frames) == ConnState::Normal);
        assert(tags.len() == frames.len());
        assert forall|i: int| #![trigger tags[i]] 0 <= i < frames.len() implies tags[i]
            == type_byte(frames, asks.len() as int, i) by {
            if i > 0 {
                assert(rest[i - 1] == frames[i]);
                assert(tags[i] == frame_laws::session_tags(start, rest)[i - 1]);
            }
        }
    }
}

/// A session is cut into exactly the frames that were sent, however its bytes are divided
/// into captures: requests for encryption and the startup message, without type byte, and
/// then each message, with its own. Each is queued with its own bytes, in order, where the
/// one before it ends; nothing is left over; and the connection is past its start.
pub proof fn law_session_cut(
    id: u32,
    segments: Seq<Segment>,
    asks: Seq<Seq<u8>>,
    startup: Seq<u8>,
    messages: Seq<Seq<u8>>,
)
    requires
        is_session(asks, startup, messages),
        segments.len() > 0,
        segments[0].connect,
        frame_laws::stream(segments) == sent_frames(asks, startup, messages).flatten(),
        frame_laws::stream(segments).len() <= usize::MAX,
    ensures
        ({
            let w = frame_laws::fed(FrameBufferView::fresh(id), segments);
            let frames = sent_frames(asks, startup, messages);
            &&& w.wf()
            &&& w.id == id
            &&& w.state == ConnState::Normal
            &&& w.at == w.start + w.data.len()
            &&& w.frames.len() == asks.len() + 1 + messages.len()
            &&& forall|i: int|
                #![trigger w.frames[i]]
                0 <= i < w.frames.len() ==> {
                    &&& w.frames[i].tag == type_byte(frames, asks.len() as int, i)
                    &&& w.frames[i].offset == frames.take(i).flatten().len()
                    &&& w.frames[i].len == frames[i].len()
                    &&& w.data.subrange(
                        w.frames[i].offset - w.start,
                        w.frames[i].offset - w.start + w.frames[i].len,
                    ) == frames[i]
                }
        }),
{
    let w = frame_laws::fed(FrameBufferView::fresh(id), segments);
    let frames = sent_frames(asks, startup, messages);
    lemma_session(asks, startup, messages);
    frame_laws::law_session_recovered(id, segments, frames);
    lemma_fed_id(FrameBufferView::fresh(id), segments);
    assert forall|i: int| #![trigger w.frames[i]] 0 <= i < w.frames.len() implies {
        &&& w.frames[i].tag == type_byte(frames, asks.len() as int, i)
        &&& w.frames[i].offset == frames.take(i).flatten().len()
        &&& w.frames[i].len == frames[i].len()
        &&& w.data.subrange(
            w.frames[i].offset - w.start,
            w.frames[i].offset - w.start + w.frames[i].len,
        ) == frames[i]
    } by {
        assert(w.frame_bytes(w.frames[i]) == frames[i]);
        assert(w.frames[i].tag == frame_laws::session_tags(ConnState::AwaitingStartup, frames)[i]);
    }
}

/// Captures do not change whose bytes these are.
proof fn lemma_fed_id(v: FrameBufferView, segments: Seq<Segment>)
    ensures
        frame_laws::fed(v, segments).id == v.id,
    decreases segments.len(),
{
    reveal(FrameBufferView::captured);
    if segments.len() > 0 {
        lemma_fed_id(v, segments.drop_last());
    }
}

/// The length of the message that the bytes start with, if all of one is there.
pub open spec fn message_at(b: Seq<u8>) -> Option<int> {
    let n = number_at(b, 1);
    if b.len() >= 5 && is_message_type(b[0]) && 4 <= n <= 10_000_000 && b.len() >= 1 + n {
        Some(1 + n)
    } else {
        None
    }
}

/// Whether the bytes start with three messages in a row.
pub open spec fn three_at(b: Seq<u8>) -> bool {
    message_at(b) matches Some(x) && message_at(b.skip(x)) matches Some(y) && message_at(
        b.skip(x + y),
    ) is Some
}

/// Messages are told by what they start with.
proof fn lemma_message_at(b: Seq<u8>)
    ensures
        frame_buffer::tagged_at(b) is Frame <==> message_at(b) is Some,
        message_at(b) matches Some(x) ==> x >= 5 && x <= b.len() && frame_buffer::tagged_at(b) == (
        Cut::Frame { skip: 0, len: x, tag: b[0] }),
{
    if b.len() >= 5 {
        let rest = b.skip(1);
        assert(rest[0] == b[1] && rest[1] == b[2] && rest[2] == b[3] && rest[3] == b[4]);
    }
}

/// Three messages in a row are a chain.
proof fn lemma_three_at(b: Seq<u8>)
    ensures
        frame_buffer::chain_at(b, 3) <==> three_at(b),
{
    reveal_with_fuel(frame_buffer::chain_at, 4);
    lemma_message_at(b);
    if let Some(x) = message_at(b) {
        lemma_message_at(b.skip(x));
        if let Some(y) = message_at(b.skip(x)) {
            assert(b.skip(x).skip(y) =~= b.skip(x + y));
            lemma_message_at(b.skip(x + y));
        }
    }
}

/// Where messages are found again.
proof fn lemma_found_at(b: Seq<u8>, k: int)
    requires
        0 <= k < b.len(),
        three_at(b.skip(k)),
        forall|j: int| 0 <= j < k ==> !three_at(#[trigger] b.skip(j)),
    ensures
        frame_buffer::resync_at(b) == Some(k),
    decreases k,
{
    assert(b.skip(0) =~= b);
    lemma_three_at(b);
    if k > 0 {
        let rest = b.skip(1);
        assert(!three_at(b.skip(0)));
        assert(rest.skip(k - 1) =~= b.skip(k));
        assert forall|j: int| 0 <= j < k - 1 implies !three_at(#[trigger] rest.skip(j)) by {
            assert(rest.skip(j) =~= b.skip(j + 1));
        }
        lemma_found_at(rest, k - 1);
    }
}

/// Where no messages are found.
proof fn lemma_found_nowhere(b: Seq<u8>)
    requires
        forall|j: int| 0 <= j < b.len() ==> !three_at(#[trigger] b.skip(j)),
    ensures
        frame_buffer::resync_at(b) is None,
    decreases b.len(),
{
    if b.len() > 0 {
        assert(b.skip(0) =~= b);
        assert(!three_at(b.skip(0)));
        lemma_three_at(b);
        let rest = b.skip(1);
        assert forall|j: int| 0 <= j < rest.len() implies !three_at(#[trigger] rest.skip(j)) by {
            assert(rest.skip(j) =~= b.skip(j + 1));
        }
        lemma_found_nowhere(rest);
    }
}

/// A connection of which nothing is known, or that was lost, is found again at the first
/// place from which on three messages follow each other, and nowhere else: what stands in
/// front of them is passed over, and the three are queued, each with its own type byte and
/// its own length.
pub proof fn law_connection_found(v: FrameBufferView, ts: u64, buf: Seq<u8>, k: int)
    requires
        v.wf(),
        v.end() + buf.len() <= usize::MAX,
        v.state == ConnState::Unknown,
        0 <= k < (v.data + buf).skip(v.at - v.start).len(),
        three_at((v.data + buf).skip(v.at - v.start).skip(k)),
        forall|j: int|
            0 <= j < k ==> !three_at(#[trigger] (v.data + buf).skip(v.at - v.start).skip(j)),
    ensures
        ({
            let w = v.captured(false, ts, buf);
            let b = (v.data + buf).skip(v.at - v.start).skip(k);
            let x = message_at(b).unwrap();
            let y = message_at(b.skip(x)).unwrap();
            let z = message_at(b.skip(x + y)).unwrap();
            let n = v.frames.len() as int;
            &&& w.frames.len() >= n + 3
            &&& w.frames[n].offset == v.at + k && w.frames[n].len == x && w.frames[n].tag == b[0]
            &&& w.frames[n + 1].offset == v.at + k + x && w.frames[n + 1].len == y
                && w.frames[n + 1].tag == b[x]
            &&& w.frames[n + 2].offset == v.at + k + x + y && w.frames[n + 2].len == z
                && w.frames[n + 2].tag == b[x + y]
        }),
{
    let u = (v.data + buf).skip(v.at - v.start);
    let b = u.skip(k);
    let t = v.next_ts(ts);
    frame_laws::lemma_captured(v, false, ts, buf);
    assert(frame_laws::unread(v, buf) == u);
    lemma_found_at(u, k);
    lemma_three_at(b);
    let x = message_at(b).unwrap();
    let y = message_at(b.skip(x)).unwrap();
    let z = message_at(b.skip(x + y)).unwrap();
    lemma_message_at(b);
    lemma_message_at(b.skip(x));
    lemma_message_at(b.skip(x + y));
    reveal(frame_buffer::cut_at);
    reveal(frame_buffer::state_after);
    let (n1, n2) = (b.skip(x), b.skip(x + y));
    let s0 = frame_buffer::scan(ConnState::Unknown, u, v.at, t);
    let s1 = frame_buffer::scan(ConnState::Normal, n1, v.at + k + x, t);
    let s2 = frame_buffer::scan(ConnState::Normal, n2, v.at + k + x + y, t);
    assert(u.skip(k + x) =~= n1);
    assert(n1.skip(0 + y) =~= n2);
    assert(frame_buffer::cut_at(ConnState::Unknown, u) == (Cut::Frame {
        skip: k,
        len: x,
        tag: b[0],
    }));
    assert(frame_buffer::cut_at(ConnState::Normal, n1) == (Cut::Frame {
        skip: 0,
        len: y,
        tag: n1[0],
    }));
    assert(frame_buffer::cut_at(ConnState::Normal, n2) == (Cut::Frame {
        skip: 0,
        len: z,
        tag: n2[0],
    }));
    assert(n1.skip(0) =~= n1);
    assert(frame_buffer::state_after(ConnState::Unknown, b[0], b) == ConnState::Normal);
    assert(frame_buffer::state_after(ConnState::Normal, n1[0], n1) == ConnState::Normal);
    assert(s0.0.drop_first() =~= s1.0);
    assert(s1.0.drop_first() =~= s2.0);
    let w = v.captured(false, ts, buf);
    let n = v.frames.len() as int;
    assert(w.frames == v.frames + s0.0);
    assert(s0.0[1] == s1.0[0]);
    assert(s1.0[1] == s2.0[0]);
    assert(s0.0[2] == s1.0[1]);
}

/// As long as three messages follow each other nowhere, a connection of which nothing is
/// known stays so: nothing is queued, and all bytes are looked at again.
pub proof fn law_connection_not_found(v: FrameBufferView, ts: u64, buf: Seq<u8>)
    requires
        v.wf(),
        v.end() + buf.len() <= usize::MAX,
        v.state == ConnState::Unknown,
        forall|j: int|
            0 <= j < (v.data + buf).skip(v.at - v.start).len() ==> !three_at(
                #[trigger] (v.data + buf).skip(v.at - v.start).skip(j),
            ),
    ensures
        ({
            let w = v.captured(false, ts, buf);
            &&& w.frames == v.frames
            &&& w.at == v.at
            &&& w.state == ConnState::Unknown
        }),
{
    let u = (v.data + buf).skip(v.at - v.start);
    frame_laws::lemma_captured(v, false, ts, buf);
    assert(frame_laws::unread(v, buf) == u);
    lemma_found_nowhere(u);
    reveal(frame_buffer::cut_at);
    let w = v.captured(false, ts, buf);
    assert(w.frames =~= v.frames);
}

/// Whether at least five bytes are there, and they cannot start a message.
pub open spec fn is_garbage(b: Seq<u8>) -> bool {
    b.len() >= 5 && !(is_message_type(b[0]) && 4 <= number_at(b, 1) <= 10_000_000)
}

/// Where bytes come that cannot start a message, the connection is lost: from there on
/// they are taken as if nothing were known of it.
pub proof fn law_connection_lost(v: FrameBufferView, ts: u64, buf: Seq<u8>)
    requires
        v.wf(),
        v.end() + buf.len() <= usize::MAX,
        v.state == ConnState::Normal || v.state == ConnState::CopyIn,
        is_garbage((v.data + buf).skip(v.at - v.start)),
    ensures
        v.captured(false, ts, buf) == (FrameBufferView {
            state: ConnState::Unknown,
            ..v
        }).captured(false, ts, buf),
{
    let u = (v.data + buf).skip(v.at - v.start);
    let rest = u.skip(1);
    assert(rest[0] == u[1] && rest[1] == u[2] && rest[2] == u[3] && rest[3] == u[4]);
    reveal(frame_buffer::cut_at);
    reveal(FrameBufferView::captured);
    let lost = FrameBufferView { state: ConnState::Unknown, ..v };
    let e = v.compacted().extended(buf);
    assert(e.data.skip(e.at - e.start) =~= u);
    assert(v.captured(false, ts, buf) =~= lost.captured(false, ts, buf));
}

/// A frame that is queued by a capture has the time of the one before, where that left
/// bytes over, and its own otherwise. One that leaves bytes over is remembered.
pub proof fn law_frame_times(v: FrameBufferView, connect: bool, ts: u64, buf: Seq<u8>, i: int)
    requires
        v.wf(),
        v.end() + buf.len() <= usize::MAX,
        v.frames.len() <= i < v.captured(connect, ts, buf).frames.len(),
    ensures
        v.captured(connect, ts, buf).frames[i].ts == match v.frame_ts {
            Some(t) => t,
            None => ts,
        },
{
    frame_laws::lemma_captured(v, connect, ts, buf);
    let b = frame_laws::unread(v, buf);
    let state = frame_laws::entry_state(v, connect);
    frame_laws::lemma_scan_order(state, b, v.at, v.next_ts(ts));
    let found = frame_buffer::scan(state, b, v.at, v.next_ts(ts)).0;
    assert(v.captured(connect, ts, buf).frames[i] == found[i - v.frames.len()]);
}

/// What a capture leaves over is remembered with its time, and nothing else is.
pub proof fn law_time_remembered(v: FrameBufferView, connect: bool, ts: u64, buf: Seq<u8>)
    requires
        v.wf(),
        v.end() + buf.len() <= usize::MAX,
    ensures
        ({
            let w = v.captured(connect, ts, buf);
            w.frame_ts == if w.at < w.start + w.data.len() {
                Some(ts)
            } else {
                None
            }
        }),
{
    frame_laws::lemma_captured(v, connect, ts, buf);
    reveal(FrameBufferView::captured);
}

/// A connection that starts where none was known of starts at the time of the capture,
/// with a message without type byte; one that is known does not start again.
pub proof fn law_connection_starts(v: FrameBufferView, ts: u64, buf: Seq<u8>)
    ensures
        v.state == ConnState::Unknown ==> v.captured(true, ts, buf) == (FrameBufferView {
            state: ConnState::AwaitingStartup,
            connect_ts: ts,
            ..v
        }).captured(false, ts, buf),
        v.state != ConnState::Unknown ==> v.captured(true, ts, buf) == v.captured(false, ts, buf),
        v.captured(false, ts, buf).connect_ts == v.connect_ts,
        v.captured(false, ts, buf).id == v.id,
{
    reveal(FrameBufferView::captured);
}

/// Bytes are let go of only at the front, and none that are still needed: those of queued
/// frames, and those that are in no frame yet.
pub proof fn law_bytes_held(v: FrameBufferView, connect: bool, ts: u64, buf: Seq<u8>)
    requires
        v.wf(),
        v.end() + buf.len() <= usize::MAX,
    ensures
        ({
            let w = v.captured(connect, ts, buf);
            &&& v.start <= w.start <= w.at
            &&& w.data == (v.data + buf).skip(w.start - v.start)
            &&& w.start <= v.at
            &&& v.frames.len() > 0 ==> w.start <= v.frames[0].offset
        }),
{
    frame_laws::lemma_captured(v, connect, ts, buf);
    frame_laws::lemma_captured_data(v, connect, ts, buf);
    let w = v.captured(connect, ts, buf);
    if v.frames.len() > 0 {
        assert(w.frames[0] == v.frames[0]);
    }
    reveal(FrameBufferView::captured);
}

/// The bytes of a queued frame, as they stand in the stream of the client.
pub open spec fn captured_bytes(v: FrameBufferView, i: int) -> Seq<u8> {
    let from = v.frames[i].offset - v.start;
    v.data.subrange(from, from + v.frames[i].len)
}

/// Whether the first `k` queued frames, and no more, are those at the front without type
/// byte.
pub open spec fn opens_with(v: FrameBufferView, k: int) -> bool {
    &&& 0 <= k <= v.frames.len()
    &&& forall|i: int| #![trigger v.frames[i]] 0 <= i < k ==> v.frames[i].tag == 0
    &&& k < v.frames.len() ==> v.frames[k].tag != 0
}

/// The frames at the front without type byte are counted right.
pub(crate) proof fn lemma_opens_with(v: FrameBufferView, k: int)
    requires
        opens_with(v, k),
    ensures
        frame_buffer::startup_frames(v.frames) == k,
        frame_buffer::session_frames(v) == v.frames.skip(k),
{
    frame_buffer::lemma_startup_frames(v.frames);
    let n = frame_buffer::startup_frames(v.frames);
    if n < k {
        assert(v.frames[n].tag == 0);
    } else if k < n {
        assert(v.frames[k].tag == 0);
    }
}

/// Copied data starts with its first message and lasts until one that it is done or failed;
/// other messages change nothing, and messages are cut alike meanwhile. A connection that was
/// lost is found again with a message.
pub proof fn law_copying(tag: u8, b: Seq<u8>)
    ensures
        frame_buffer::state_after(ConnState::Normal, tag, b) == ConnState::CopyIn <==> tag == 0x64,
        tag != 0x64 ==> frame_buffer::state_after(ConnState::Normal, tag, b) == ConnState::Normal,
        tag == 0x63 || tag == 0x66 <==> frame_buffer::state_after(ConnState::CopyIn, tag, b)
            == ConnState::Normal,
        tag != 0x63 && tag != 0x66 ==> frame_buffer::state_after(ConnState::CopyIn, tag, b)
            == ConnState::CopyIn,
        frame_buffer::state_after(ConnState::Unknown, tag, b) == ConnState::Normal,
        frame_buffer::cut_at(ConnState::CopyIn, b) == frame_buffer::cut_at(ConnState::Normal, b),
{
    reveal(frame_buffer::state_after);
    reveal(frame_buffer::cut_at);
}

} // verus!
