//! A replay frame by frame: when a frame is sent, and to whom. Times are in
//! microseconds.
use vstd::prelude::*;

use crate::proto::tags;

verus! {

/// When the replay started, and when the capture did.
pub struct ReplayState {
    pub capture_start: Option<u64>,
    pub capture_start_ts: Option<u64>,
}

/// What to do with a frame.
#[derive(Debug, Clone, Copy, PartialEq, Eq, Structural)]
pub struct FramePlan {
    /// A client has to be connected first.
    pub connect: bool,
    /// The frame is sent.
    pub send: bool,
    /// The client is forgotten, whether or not sending succeeds.
    pub forget: bool,
    /// A frame that was sent counts as a request, and a client to which it cannot
    /// be sent is forgotten.
    pub counts: bool,
}

/// Whether frames with this type byte are sent: queries, and the steps of the
/// extended protocol but Close and Flush.
pub open spec fn sent_tag(tag: u8) -> bool {
    ||| tag == tags::F_QUERY
    ||| tag == tags::F_PARSE
    ||| tag == tags::F_BIND
    ||| tag == tags::F_DESCRIBE
    ||| tag == tags::F_EXECUTE
    ||| tag == tags::F_SYNC
}

impl ReplayState {
    /// Nothing was replayed yet.
    pub fn new() -> (r: Self)
        ensures
            r.capture_start is None,
            r.capture_start_ts is None,
    {
        ReplayState { capture_start: None, capture_start_ts: None }
    }

    /// How long to wait before a frame that was captured at `frame_ts`; it is `now`.
    /// The first frame starts the replay.
    pub fn pace(&mut self, frame_ts: u64, now: u64) -> (r: u64)
        ensures
            match (old(self).capture_start, old(self).capture_start_ts) {
                (None, _) => final(self).capture_start == Some(now)
                    && final(self).capture_start_ts == Some(frame_ts) && r == 0,
                (Some(start), Some(start_ts)) => *final(self) == *old(self) && {
                    let captured = if frame_ts > start_ts {
                        frame_ts - start_ts
                    } else {
                        0
                    };
                    let passed = if now > start {
                        now - start
                    } else {
                        0
                    };
                    r == if captured > passed {
                        captured - passed
                    } else {
                        0
                    }
                },
                _ => *final(self) == *old(self) && r == 0,
            },
    {
        match (self.capture_start, self.capture_start_ts) {
            (None, _) => {
                self.capture_start = Some(now);
                self.capture_start_ts = Some(frame_ts);
                0
            },
            (Some(start), Some(start_ts)) => {
                let capture_elapsed: u64 = frame_ts.saturating_sub(start_ts);
                let real_elapsed: u64 = now.saturating_sub(start);
                if capture_elapsed > real_elapsed {
                    capture_elapsed - real_elapsed
                } else {
                    0
                }
            },
            _ => 0,
        }
    }

    /// Whether frames with this type byte are sent.
    pub fn check_tag(tag: u8) -> (r: bool)
        ensures
            r == sent_tag(tag),
    {
        tag == tags::F_QUERY || tag == tags::F_PARSE || tag == tags::F_BIND || tag
            == tags::F_DESCRIBE || tag == tags::F_EXECUTE || tag == tags::F_SYNC
    }

    /// What to do with a frame of a client that is connected or not.
    pub fn process_frame(tag: u8, connected: bool) -> (r: FramePlan)
        ensures
            r == if tag == tags::F_TERMINATE {
                FramePlan { connect: false, send: connected, forget: connected, counts: false }
            } else {
                FramePlan {
                    connect: !connected,
                    send: sent_tag(tag),
                    forget: false,
                    counts: sent_tag(tag),
                }
            },
    {
        if tag == tags::F_TERMINATE {
            return FramePlan { connect: false, send: connected, forget: connected, counts: false };
        }
        let send: bool = ReplayState::check_tag(tag);
        FramePlan { connect: !connected, send, forget: false, counts: send }
    }
}

} // verus!
