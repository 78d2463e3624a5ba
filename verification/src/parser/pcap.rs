//! Captures of packets: the segments in them, whichever port they go to.
use vstd::prelude::*;

use crate::capture::packet;
use crate::capture::packet::{parse_packet, sender, stamp, CapturedBlock, TsPacket, TsPacketView};

verus! {

/// The segment that a block holds.
pub open spec fn segment_in(block: CapturedBlock<'_>) -> Option<TsPacketView> {
    match block.packet() {
        Some((data, ts)) => if data.len() == 0 {
            None
        } else {
            match packet::packet_in(data) {
                Some(p) => packet::stamped(packet::sent(p), ts),
                None => None,
            }
        },
        None => None,
    }
}

/// Reads the segment that a block holds.
pub fn process_block(block: CapturedBlock<'_>) -> (r: Option<TsPacket<'_>>)
    ensures
        packet::ts_view(r) == segment_in(block),
{
    let (data, ts) = match block.read() {
        Some(p) => p,
        None => {
            return None;
        },
    };
    if data.len() == 0 {
        return None;
    }
    match parse_packet(data) {
        Some(p) => stamp(sender(p), ts),
        None => None,
    }
}

/// What came of an attempt to read a block.
pub enum BlockRead<'a> {
    /// A block that takes so many bytes.
    Block { consumed: usize, block: CapturedBlock<'a> },
    /// There is no more.
    Eof,
    /// A block is not all there.
    Incomplete,
    /// The bytes are no capture.
    Fail(String),
}

/// What reading leads to.
pub enum ReadState<'a> {
    Packet(TsPacket<'a>),
    Continue,
    Eof,
    RefillFail(String),
    ReadFail(String),
}

/// How far a capture is read: how many bytes are to be dropped, whether more are
/// needed, and how many were read.
#[verifier::ext_equal]
pub struct CaptureReaderView {
    pub consume: usize,
    pub refill: bool,
    pub bytes_read: usize,
}

/// Reads a capture of packets.
pub struct CaptureReader {
    consume: usize,
    refill: bool,
    pub bytes_read: usize,
}

impl View for CaptureReader {
    type V = CaptureReaderView;

    closed spec fn view(&self) -> CaptureReaderView {
        CaptureReaderView {
            consume: self.consume,
            refill: self.refill,
            bytes_read: self.bytes_read,
        }
    }
}

impl CaptureReader {
    /// Nothing was read.
    pub fn new() -> (r: Self)
        ensures
            r@ == (CaptureReaderView { consume: 0, refill: false, bytes_read: 0 }),
    {
        CaptureReader { consume: 0, refill: false, bytes_read: 0 }
    }

    /// Before a block is read: how many bytes to drop first, and whether to get more
    /// then.
    pub fn prepare(&mut self) -> (r: (usize, bool))
        ensures
            r == (old(self)@.consume, old(self)@.refill),
            final(self)@ == (CaptureReaderView { consume: 0, ..old(self)@ }),
    {
        let n: usize = self.consume;
        self.consume = 0;
        (n, self.refill)
    }

    /// More bytes were asked for. A failure is reported, and they are asked for
    /// again.
    pub fn on_refill(&mut self, failure: Option<String>) -> (r: Option<ReadState<'static>>)
        ensures
            match failure {
                None => r is None && final(self)@ == (CaptureReaderView {
                    refill: false,
                    ..old(self)@
                }),
                Some(e) => r == Some(ReadState::RefillFail(e)) && final(self)@ == old(self)@,
            },
    {
        match failure {
            Some(e) => Some(ReadState::RefillFail(e)),
            None => {
                self.refill = false;
                None
            },
        }
    }

    /// Takes in what came of an attempt to read a block.
    pub fn next<'a>(&mut self, read: BlockRead<'a>) -> (r: ReadState<'a>)
        requires
            read matches BlockRead::Block { consumed, .. } ==> old(self)@.consume + consumed
                <= usize::MAX && old(self)@.bytes_read + consumed <= usize::MAX,
        ensures
            match read {
                BlockRead::Block { consumed, block } => final(self)@ == (CaptureReaderView {
                    consume: (old(self)@.consume + consumed) as usize,
                    bytes_read: (old(self)@.bytes_read + consumed) as usize,
                    ..old(self)@
                }) && match segment_in(block) {
                    Some(p) => r matches ReadState::Packet(q) && q@ == p,
                    None => r is Continue,
                },
                BlockRead::Eof => r is Eof && final(self)@ == old(self)@,
                BlockRead::Incomplete => r is Continue && final(self)@ == (CaptureReaderView {
                    refill: true,
                    ..old(self)@
                }),
                BlockRead::Fail(e) => r == ReadState::<'a>::ReadFail(e) && final(self)@ == old(
                    self,
                )@,
            },
    {
        match read {
            BlockRead::Block { consumed, block } => {
                self.bytes_read += consumed;
                self.consume += consumed;
                match process_block(block) {
                    Some(packet) => ReadState::Packet(packet),
                    None => ReadState::Continue,
                }
            },
            BlockRead::Eof => ReadState::Eof,
            BlockRead::Incomplete => {
                self.refill = true;
                ReadState::Continue
            },
            BlockRead::Fail(e) => ReadState::ReadFail(e),
        }
    }
}

} // verus!
