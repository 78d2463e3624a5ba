//! Captures that are kept in a folder: records in numbered chunks, and a map of
//! the addresses of the clients.
use vstd::prelude::*;
use vstd::string::*;

use crate::capture::reader::CaptureData;
use crate::capture::record;
use crate::capture::record::{push_record, read_record, Record, RecordView};
use crate::utils::parse::{bytes_at, bytes_from};
use crate::utils::text;
use crate::utils::text::push_decimal;
use crate::utils::wire::push_bytes;

verus! {

/// Writes chunks: when a chunk is large enough, the next one is begun.
pub struct AcapWriter {
    pub chunk_max_size: u64,
    pub chunk_idx: u32,
}

impl AcapWriter {
    /// The first chunk is begun.
    pub fn new(chunk_max_size: u64) -> (r: Self)
        ensures
            r.chunk_max_size == chunk_max_size,
            r.chunk_idx == 0,
    {
        AcapWriter { chunk_max_size, chunk_idx: 0 }
    }

    /// Whether the next chunk has to be begun before a record: so many bytes were
    /// written to this one.
    pub fn is_full(&self, count: u64) -> (r: bool)
        ensures
            r == (count >= self.chunk_max_size),
    {
        count >= self.chunk_max_size
    }

    /// The next chunk is begun.
    pub fn roll_chunk(&mut self)
        requires
            old(self).chunk_idx < u32::MAX,
        ensures
            final(self).chunk_idx == old(self).chunk_idx + 1,
            final(self).chunk_max_size == old(self).chunk_max_size,
    {
        self.chunk_idx += 1;
    }

    /// The bytes of a record.
    pub fn write(id: u32, ts: u32, data: &[u8]) -> (r: Vec<u8>)
        requires
            data@.len() <= u32::MAX,
        ensures
            r@ == record::record_bytes(id, ts, data@),
    {
        let mut out: Vec<u8> = Vec::new();
        push_record(&mut out, id, ts, data);
        assert(out@ =~= record::record_bytes(id, ts, data@));
        out
    }

    /// The line of the map for a client with the given text of its address.
    pub fn write_addr(addr: &str) -> (r: String)
        ensures
            r@ == addr@.push('\n'),
    {
        let mut line = String::new();
        line.append(addr);
        line.push('\n');
        assert(line@ =~= addr@.push('\n'));
        line
    }
}

/// The name of a compressed chunk.
pub fn chunk_name(idx: u32) -> (r: String)
    ensures
        r@ == text::decimal(idx as nat) + ".zst"@,
{
    let mut name = String::new();
    push_decimal(&mut name, idx as u64);
    name.append(".zst");
    assert(name@ =~= text::decimal(idx as nat) + ".zst"@);
    name
}

/// The name of a chunk that is not compressed.
pub fn plain_chunk_name(idx: u32) -> (r: String)
    ensures
        r@ == text::decimal(idx as nat),
{
    let mut name = String::new();
    push_decimal(&mut name, idx as u64);
    assert(name@ =~= text::decimal(idx as nat));
    name
}

/// How far reading is: the chunk, the times, and the bytes of the chunk that came
/// and were not read.
#[verifier::ext_equal]
pub struct AcapView {
    pub ts_offset: u64,
    pub max_duration: u64,
    pub chunk_idx: u32,
    pub acc_delta: u64,
    pub curr_delta: u64,
    pub first_chunk_ts: u64,
    pub rest: Seq<u8>,
}

/// What reading leads to.
#[verifier::ext_equal]
pub enum AcapOutcome {
    /// More bytes of the chunk are needed.
    NeedMore,
    /// The chunk is at its end: the next one is needed.
    NextChunk,
    /// The chunk ends within a record.
    Truncated,
    /// The time to read has ended.
    Eof,
    /// Bytes of a client. `connect` says that they are the start of a connection.
    Data { id: u32, ts: u64, connect: bool, buf: Seq<u8> },
}

impl AcapView {
    /// The times of the chunks so far add up within their limits.
    pub open spec fn wf(self) -> bool {
        &&& self.acc_delta <= self.chunk_idx * 0xFFFF_FFFF
        &&& self.curr_delta <= 0xFFFF_FFFF
    }

    /// After a record with the given time in the chunk, and that time in the whole
    /// capture. The first time in a chunk that is not zero is its start, and the
    /// last time of each chunk is the start of the next.
    pub open spec fn timed(self, ts: u64) -> (AcapView, int) {
        let first = if self.first_chunk_ts == 0 {
            ts
        } else {
            self.first_chunk_ts
        };
        let curr = if ts > first {
            (ts - first) as u64
        } else {
            0
        };
        (
            AcapView { first_chunk_ts: first, curr_delta: curr, ..self },
            self.acc_delta + curr,
        )
    }

    /// Past the record that the bytes start with.
    pub open spec fn skipped(self, len: nat) -> AcapView {
        AcapView { rest: self.rest.skip((record::HEADER_LEN + len) as int), ..self }
    }

    /// What reading leads to. Records before the time to read are skipped. `at_end`
    /// says that the chunk has no more bytes.
    pub open spec fn next(self, at_end: bool) -> (AcapView, AcapOutcome)
        decreases self.rest.len(),
    {
        match record::first_record(self.rest) {
            RecordView::Empty => (
                self,
                if at_end {
                    AcapOutcome::NextChunk
                } else {
                    AcapOutcome::NeedMore
                },
            ),
            RecordView::Partial => (
                self,
                if at_end {
                    AcapOutcome::Truncated
                } else {
                    AcapOutcome::NeedMore
                },
            ),
            RecordView::Whole { id, ts, data } => {
                let (v, t) = self.skipped(data.len()).timed(ts as u64);
                if t < self.ts_offset {
                    if v.rest.len() < self.rest.len() {
                        v.next(at_end)
                    } else {
                        (v, AcapOutcome::NeedMore)
                    }
                } else if t - self.ts_offset > self.max_duration {
                    (v, AcapOutcome::Eof)
                } else {
                    (
                        v,
                        AcapOutcome::Data {
                            id,
                            ts: (t - self.ts_offset) as u64,
                            connect: data.len() == 0,
                            buf: data,
                        },
                    )
                }
            },
        }
    }

    /// At the start of the next chunk.
    pub open spec fn rolled(self) -> AcapView {
        AcapView {
            chunk_idx: (self.chunk_idx + 1) as u32,
            acc_delta: (self.acc_delta + self.curr_delta) as u64,
            first_chunk_ts: 0,
            curr_delta: 0,
            rest: Seq::empty(),
            ..self
        }
    }
}

/// Reads the chunks of a capture.
pub struct AcapReader {
    ts_offset: u64,
    max_duration: u64,
    chunk_idx: u32,
    chunk: Vec<u8>,
    parsed: usize,
    buffer: Vec<u8>,
    acc_delta: u64,
    curr_delta: u64,
    first_chunk_ts: u64,
}

impl View for AcapReader {
    type V = AcapView;

    closed spec fn view(&self) -> AcapView {
        AcapView {
            ts_offset: self.ts_offset,
            max_duration: self.max_duration,
            chunk_idx: self.chunk_idx,
            acc_delta: self.acc_delta,
            curr_delta: self.curr_delta,
            first_chunk_ts: self.first_chunk_ts,
            rest: self.chunk@.skip(self.parsed as int),
        }
    }
}

/// What reading leads to.
pub enum AcapStep<'a> {
    NeedMore,
    NextChunk,
    Truncated,
    Eof,
    Data(CaptureData<'a>),
}

impl<'a> View for AcapStep<'a> {
    type V = AcapOutcome;

    open spec fn view(&self) -> AcapOutcome {
        match *self {
            AcapStep::NeedMore => AcapOutcome::NeedMore,
            AcapStep::NextChunk => AcapOutcome::NextChunk,
            AcapStep::Truncated => AcapOutcome::Truncated,
            AcapStep::Eof => AcapOutcome::Eof,
            AcapStep::Data(d) => AcapOutcome::Data {
                id: d.id,
                ts: d.ts,
                connect: d.connect,
                buf: d.buf@,
            },
        }
    }
}

impl AcapReader {
    /// What was read is part of what came, and the times are in their limits.
    pub closed spec fn wf(self) -> bool {
        self.parsed <= self.chunk@.len() && self@.wf()
    }

    /// At the start of the first chunk. Times before `ts_offset` are skipped, and
    /// reading ends `max_duration` after it.
    pub fn new(ts_offset: u64, max_duration: u64) -> (r: Self)
        ensures
            r.wf(),
            r@ == (AcapView {
                ts_offset,
                max_duration,
                chunk_idx: 0,
                acc_delta: 0,
                curr_delta: 0,
                first_chunk_ts: 0,
                rest: Seq::empty(),
            }),
    {
        let r = AcapReader {
            ts_offset,
            max_duration,
            chunk_idx: 0,
            chunk: Vec::new(),
            parsed: 0,
            buffer: Vec::new(),
            acc_delta: 0,
            curr_delta: 0,
            first_chunk_ts: 0,
        };
        assert(r@.rest =~= Seq::empty());
        r
    }

    /// The number of the chunk that is read.
    pub fn chunk_idx(&self) -> (r: u32)
        ensures
            r == self@.chunk_idx,
    {
        self.chunk_idx
    }

    /// Takes in bytes of the chunk.
    pub fn feed(&mut self, bytes: &[u8])
        requires
            old(self).wf(),
        ensures
            final(self).wf(),
            final(self)@ == (AcapView { rest: old(self)@.rest + bytes@, ..old(self)@ }),
    {
        let ghost before = self@;
        let mut chunk: Vec<u8> = Vec::new();
        push_bytes(&mut chunk, bytes_from(self.chunk.as_slice(), self.parsed));
        push_bytes(&mut chunk, bytes);
        self.chunk = chunk;
        self.parsed = 0;
        assert(self@.rest =~= before.rest + bytes@);
    }

    /// The next chunk is begun.
    pub fn begin_chunk(&mut self)
        requires
            old(self).wf(),
            old(self)@.chunk_idx < u32::MAX,
        ensures
            final(self).wf(),
            final(self)@ == old(self)@.rolled(),
    {
        self.chunk_idx += 1;
        self.acc_delta = self.acc_delta + self.curr_delta;
        self.first_chunk_ts = 0;
        self.curr_delta = 0;
        self.chunk = Vec::new();
        self.parsed = 0;
        assert(self@.rest =~= Seq::empty());
    }

    /// The time of a record in the whole capture.
    fn map_ts(&mut self, ts: u64) -> (r: u64)
        requires
            old(self).wf(),
            ts <= 0xFFFF_FFFF,
        ensures
            final(self).wf(),
            (final(self)@, r as int) == old(self)@.timed(ts),
            final(self).chunk == old(self).chunk,
            final(self).parsed == old(self).parsed,
            final(self).buffer == old(self).buffer,
    {
        if self.first_chunk_ts == 0 {
            self.first_chunk_ts = ts;
        }
        self.curr_delta = ts.saturating_sub(self.first_chunk_ts);
        self.acc_delta + self.curr_delta
    }

    /// Reads on. `at_end` says that the chunk has no more bytes.
    pub fn next(&mut self, at_end: bool) -> (r: AcapStep<'_>)
        requires
            old(self).wf(),
        ensures
            final(self).wf(),
            (final(self)@, r@) == old(self)@.next(at_end),
    {
        let ghost all = self@.next(at_end);
        loop
            invariant
                self.wf(),
                self@.next(at_end) == all,
                all == old(self)@.next(at_end),
            decreases self@.rest.len(),
        {
            let ghost before = self@;
            let rest = bytes_from(self.chunk.as_slice(), self.parsed);
            assert(rest@ =~= before.rest);
            let (id, ts, len) = match read_record(rest) {
                Record::Empty => {
                    return if at_end {
                        AcapStep::NextChunk
                    } else {
                        AcapStep::NeedMore
                    };
                },
                Record::Partial => {
                    return if at_end {
                        AcapStep::Truncated
                    } else {
                        AcapStep::NeedMore
                    };
                },
                Record::Whole { id, ts, data } => (id, ts, data.len()),
            };
            let mut buffer: Vec<u8> = Vec::new();
            push_bytes(&mut buffer, bytes_at(rest, record::HEADER_LEN, len));
            self.buffer = buffer;
            self.parsed = self.parsed + record::HEADER_LEN + len;
            proof {
                assert(self@.rest =~= before.skipped(len as nat).rest);
                assert(self@ == before.skipped(len as nat));
            }
            let ts_abs: u64 = self.map_ts(ts as u64);
            if ts_abs < self.ts_offset {
                continue;
            }
            let ts_relative: u64 = ts_abs - self.ts_offset;
            if ts_relative > self.max_duration {
                return AcapStep::Eof;
            }
            return AcapStep::Data(
                CaptureData {
                    id,
                    ts: ts_relative,
                    connect: self.buffer.len() == 0,
                    buf: self.buffer.as_slice(),
                },
            );
        }
    }
}

/// A record that was written: a client, a time and bytes.
pub type Written = (u32, u32, Seq<u8>);

/// The records of a chunk.
pub open spec fn chunk_bytes(rs: Seq<Written>) -> Seq<u8>
    decreases rs.len(),
{
    if rs.len() == 0 {
        Seq::empty()
    } else {
        record::record_bytes(rs[0].0, rs[0].1, rs[0].2) + chunk_bytes(rs.drop_first())
    }
}

/// What reading on to the end of the chunk leads to, in turn.
pub open spec fn outcomes(v: AcapView) -> Seq<AcapOutcome>
    decreases v.rest.len(),
{
    let (w, o) = v.next(true);
    if o is Data && w.rest.len() < v.rest.len() {
        seq![o] + outcomes(w)
    } else {
        seq![o]
    }
}

/// What there is to read of records: those from the time to read on, up to the
/// first after it.
pub open spec fn readings(v: AcapView, rs: Seq<Written>) -> Seq<AcapOutcome>
    decreases rs.len(),
{
    if rs.len() == 0 {
        seq![AcapOutcome::NextChunk]
    } else {
        let (w, t) = v.timed(rs[0].1 as u64);
        if t < v.ts_offset {
            readings(w, rs.drop_first())
        } else if t - v.ts_offset > v.max_duration {
            seq![AcapOutcome::Eof]
        } else {
            seq![
                AcapOutcome::Data {
                    id: rs[0].0,
                    ts: (t - v.ts_offset) as u64,
                    connect: rs[0].2.len() == 0,
                    buf: rs[0].2,
                },
            ] + readings(w, rs.drop_first())
        }
    }
}

/// Records that were written to a chunk are read back in order, with their clients
/// and their bytes, as far as they lie in the time to read.
pub proof fn law_chunk_read_back(v: AcapView, rs: Seq<Written>)
    requires
        v.rest == chunk_bytes(rs),
        forall|i: int| 0 <= i < rs.len() ==> (#[trigger] rs[i]).2.len() <= u32::MAX,
    ensures
        outcomes(v) == readings(v, rs),
    decreases rs.len(),
{
    if rs.len() > 0 {
        let (id, ts, data) = rs[0];
        let tail = chunk_bytes(rs.drop_first());
        record::law_record_read_back(id, ts, data, tail);
        let w = v.skipped(data.len()).timed(ts as u64).0;
        assert(w.rest == tail);
        law_chunk_read_back(w, rs.drop_first());
        lemma_readings(v.timed(ts as u64).0, w, rs.drop_first());
        let t = v.timed(ts as u64).1;
        if t < v.ts_offset {
            assert(v.next(true) == w.next(true));
            lemma_outcomes(v, w);
        }
    }
}

/// The bytes to come do not matter to what there is to read of records.
proof fn lemma_readings(v: AcapView, w: AcapView, rs: Seq<Written>)
    requires
        (AcapView { rest: v.rest, ..w }) == v,
    ensures
        readings(v, rs) == readings(w, rs),
    decreases rs.len(),
{
    if rs.len() > 0 {
        let ts = rs[0].1 as u64;
        lemma_readings(v.timed(ts).0, w.timed(ts).0, rs.drop_first());
    }
}

/// Where a record is skipped, reading goes on as from behind it.
proof fn lemma_outcomes(v: AcapView, w: AcapView)
    requires
        v.next(true) == w.next(true),
        w.rest.len() < v.rest.len(),
    ensures
        outcomes(v) == outcomes(w),
{
    lemma_next_shortens(w);
}

/// Reading bytes of a client leaves fewer to come.
proof fn lemma_next_shortens(v: AcapView)
    ensures
        v.next(true).1 is Data ==> v.next(true).0.rest.len() < v.rest.len(),
    decreases v.rest.len(),
{
    if let RecordView::Whole { id, ts, data } = record::first_record(v.rest) {
        let w = v.skipped(data.len()).timed(ts as u64).0;
        if w.rest.len() < v.rest.len() {
            lemma_next_shortens(w);
        }
    }
}

/// The first record of a chunk has the time of the last one before it.
pub proof fn law_chunks_join(v: AcapView, last: u64, first: u64)
    requires
        v.wf(),
        last <= u32::MAX,
        v.chunk_idx < u32::MAX,
    ensures
        v.timed(last).0.rolled().timed(first).1 == v.timed(last).1,
{
}

impl AcapView {
    /// The time in the whole capture of the record that was read last.
    pub open spec fn now(self) -> int {
        self.acc_delta + self.curr_delta
    }
}

/// Whether the records of a chunk fit in it, and their times rise, from one that is not
/// zero on.
pub open spec fn rising(rs: Seq<Written>) -> bool {
    &&& forall|i: int|
        #![trigger rs[i]]
        0 <= i < rs.len() ==> rs[i].2.len() <= u32::MAX && rs[i].1 > 0
    &&& forall|i: int, j: int|
        #![trigger rs[i], rs[j]]
        0 <= i <= j < rs.len() ==> rs[i].1 <= rs[j].1
}

/// Whether records come next in a chunk: its times so far are not behind theirs.
pub open spec fn comes_next(v: AcapView, rs: Seq<Written>) -> bool {
    &&& v.wf()
    &&& v.rest == chunk_bytes(rs)
    &&& rising(rs)
    &&& v.first_chunk_ts == 0 ==> v.curr_delta == 0
    &&& v.first_chunk_ts > 0 && rs.len() > 0 ==> v.first_chunk_ts + v.curr_delta <= rs[0].1
}

/// What is handed out by reading on to the end of the chunk, and of the chunks that
/// follow.
pub open spec fn handed_out(v: AcapView, chunks: Seq<Seq<Written>>) -> Seq<AcapOutcome>
    decreases chunks.len(), v.rest.len(),
{
    let (w, o) = v.next(true);
    if o is Data && w.rest.len() < v.rest.len() {
        seq![o] + handed_out(w, chunks)
    } else if o is NextChunk && chunks.len() > 0 {
        handed_out(
            AcapView { rest: chunk_bytes(chunks[0]), ..w.rolled() },
            chunks.drop_first(),
        )
    } else {
        Seq::empty()
    }
}

/// Reading on does not go back in time, and leaves records that come next.
proof fn lemma_next_rises(v: AcapView, rs: Seq<Written>) -> (left: Seq<Written>)
    requires
        comes_next(v, rs),
    ensures
        ({
            let (w, o) = v.next(true);
            &&& comes_next(w, left)
            &&& w.now() >= v.now()
            &&& w.ts_offset == v.ts_offset && w.max_duration == v.max_duration
            &&& w.chunk_idx == v.chunk_idx
            &&& o matches AcapOutcome::Data { ts, connect, buf, .. } ==> {
                &&& w.rest.len() < v.rest.len()
                &&& ts == w.now() - v.ts_offset
                &&& ts <= v.max_duration
                &&& connect == (buf.len() == 0)
            }
        }),
    decreases rs.len(),
{
    if rs.len() == 0 {
        rs
    } else {
        let (id, ts, data) = rs[0];
        let rest = rs.drop_first();
        record::law_record_read_back(id, ts, data, chunk_bytes(rest));
        let w = v.skipped(data.len()).timed(ts as u64).0;
        assert(w.rest == chunk_bytes(rest));
        assert forall|i: int| #![trigger rest[i]] 0 <= i < rest.len() implies rest[i].2.len()
            <= u32::MAX && rest[i].1 > 0 && ts <= rest[i].1 by {
            assert(rest[i] == rs[i + 1]);
            assert(rs[0].1 <= rs[i + 1].1);
        }
        assert forall|i: int, j: int|
            #![trigger rest[i], rest[j]]
            0 <= i <= j < rest.len() implies rest[i].1 <= rest[j].1 by {
            assert(rest[i] == rs[i + 1] && rest[j] == rs[j + 1]);
        }
        assert(comes_next(w, rest));
        if v.timed(ts as u64).1 < v.ts_offset {
            assert(v.next(true) == w.next(true));
            lemma_next_rises(w, rest)
        } else {
            rest
        }
    }
}

/// Where the times of each chunk rise, the times that are handed out never go back, also
/// from one chunk to the next, and stay in the time to read; and a record without bytes,
/// and no other, is the start of a connection.
pub proof fn law_times_rise(v: AcapView, rs: Seq<Written>, chunks: Seq<Seq<Written>>)
    requires
        comes_next(v, rs),
        v.chunk_idx + chunks.len() <= u32::MAX,
        forall|i: int| 0 <= i < chunks.len() ==> rising(#[trigger] chunks[i]),
    ensures
        ({
            let out = handed_out(v, chunks);
            &&& forall|i: int|
                #![trigger out[i]]
                0 <= i < out.len() ==> {
                    &&& out[i] is Data
                    &&& v.now() <= v.ts_offset + out[i]->ts
                    &&& out[i]->ts <= v.max_duration
                    &&& out[i]->connect == (out[i]->buf.len() == 0)
                }
            &&& forall|i: int, j: int|
                #![trigger out[i], out[j]]
                0 <= i <= j < out.len() ==> out[i]->ts <= out[j]->ts
        }),
    decreases chunks.len(), v.rest.len(),
{
    let (w, o) = v.next(true);
    let out = handed_out(v, chunks);
    let left = lemma_next_rises(v, rs);
    if o is Data {
        law_times_rise(w, left, chunks);
        let more = handed_out(w, chunks);
        assert forall|i: int| #![trigger out[i]] 0 < i < out.len() implies out[i] == more[i - 1] by {}
    } else if o is NextChunk && chunks.len() > 0 {
        let next = AcapView { rest: chunk_bytes(chunks[0]), ..w.rolled() };
        assert(w.acc_delta + w.curr_delta <= u64::MAX && next.wf()) by {
            assert(w.acc_delta + w.curr_delta <= (w.chunk_idx + 1) * 0xFFFF_FFFF)
                by (nonlinear_arith)
                requires
                    w.acc_delta <= w.chunk_idx * 0xFFFF_FFFF,
                    w.curr_delta <= 0xFFFF_FFFF,
            ;
        }
        assert(next.now() == w.now());
        assert forall|i: int| 0 <= i < chunks.drop_first().len() implies rising(
            #[trigger] chunks.drop_first()[i],
        ) by {
            assert(chunks.drop_first()[i] == chunks[i + 1]);
        }
        law_times_rise(next, chunks[0], chunks.drop_first());
    }
}

} // verus!
