//! How long the server takes to answer each request.
use std::collections::{HashMap, VecDeque};

use vstd::prelude::*;
use vstd::std_specs::vecdeque::*;

use crate::capture::reader::ClientId;
use crate::proto::tags;

verus! {

/// What is known of one client: the requests that are not answered yet (type
/// byte and time), whether the server skips requests after an error, and whether
/// a description of parameters came, so that one of rows follows.
#[verifier::ext_equal]
pub struct LatencyView {
    pub pending: Seq<(u8, u64)>,
    pub in_error: bool,
    pub second_description: bool,
}

/// The microseconds from `sent` to `ts`, as a 32-bit number.
pub open spec fn latency(sent: u64, ts: u64) -> u32 {
    let us = if ts > sent {
        (ts - sent) as u64
    } else {
        0
    };
    (us % 0x1_0000_0000) as u32
}

/// Whether a request ends with the server being ready.
pub open spec fn ends_round(tag: u8) -> bool {
    tag == tags::F_SYNC || tag == tags::F_QUERY
}

/// The first request that ends with the server being ready, or the number of
/// requests where there is none.
pub open spec fn round_end(pending: Seq<(u8, u64)>) -> int
    decreases pending.len(),
{
    if pending.len() == 0 || ends_round(pending[0].0) {
        0
    } else {
        1 + round_end(pending.drop_first())
    }
}

/// The requests after the one that ends the round.
pub open spec fn after_round(pending: Seq<(u8, u64)>) -> Seq<(u8, u64)> {
    let i = round_end(pending);
    if i < pending.len() {
        pending.skip(i + 1)
    } else {
        Seq::empty()
    }
}

impl LatencyView {
    /// The first request is answered.
    pub open spec fn answered(self, ts: u64) -> (LatencyView, Option<(u8, u32)>) {
        if self.pending.len() == 0 {
            (self, None)
        } else {
            (
                LatencyView { pending: self.pending.drop_first(), ..self },
                Some((self.pending[0].0, latency(self.pending[0].1, ts))),
            )
        }
    }

    /// Whether the first request has this type byte.
    pub open spec fn awaits(self, tag: u8) -> bool {
        self.pending.len() > 0 && self.pending[0].0 == tag
    }

    /// The server is ready: the round is over. After an error nothing is
    /// reported. Otherwise the first request is, with the time since the request
    /// that ended the round.
    pub open spec fn ready(self, ts: u64) -> (LatencyView, Option<(u8, u32)>) {
        let i = round_end(self.pending);
        let over = LatencyView { pending: after_round(self.pending), in_error: false, ..self };
        if self.in_error || i >= self.pending.len() {
            (over, None)
        } else {
            (over, Some((self.pending[0].0, latency(self.pending[i].1, ts))))
        }
    }

    /// After a response with the given type byte, and the request that it answers
    /// with its latency.
    pub open spec fn responded(self, b_tag: u8, ts: u64) -> (LatencyView, Option<(u8, u32)>) {
        if b_tag == tags::B_NOTICE || b_tag == tags::B_NOTIFICATION || b_tag == tags::B_DATA_ROW {
            (self, None)
        } else if b_tag == tags::B_ERROR {
            LatencyView { in_error: true, ..self }.answered(ts)
        } else if b_tag == tags::B_READY_FOR_QUERY {
            self.ready(ts)
        } else if self.in_error {
            (self, None)
        } else if {
            ||| b_tag == tags::B_PARSE_COMPLETE && self.awaits(tags::F_PARSE)
            ||| b_tag == tags::B_BIND_COMPLETE && self.awaits(tags::F_BIND)
            ||| b_tag == tags::B_CLOSE_COMPLETE && self.awaits(tags::F_CLOSE)
            ||| (b_tag == tags::B_COMMAND_COMPLETE || b_tag == tags::B_PORTAL_SUSPENDED || b_tag
                == tags::B_EMPTY_QUERY) && (self.awaits(tags::F_EXECUTE) || self.awaits(
                tags::F_QUERY,
            ))
        } {
            self.answered(ts)
        } else if b_tag == tags::B_PARAMETER_DESC && self.awaits(tags::F_DESCRIBE) {
            (LatencyView { second_description: true, ..self }, None)
        } else if (b_tag == tags::B_ROW_DESC || b_tag == tags::B_NO_DATA) && (
        self.second_description || self.awaits(tags::F_DESCRIBE)) {
            LatencyView { second_description: false, ..self }.answered(ts)
        } else {
            (self, None)
        }
    }

    /// Whether a response makes sense: rows that were announced belong to a
    /// request.
    pub open spec fn accepts(self, b_tag: u8) -> bool {
        (b_tag == tags::B_ROW_DESC || b_tag == tags::B_NO_DATA) && !self.in_error
            && self.second_description ==> self.pending.len() > 0
    }
}

/// The requests of one client that are not answered yet.
pub struct LatencyMonitor {
    pending: VecDeque<(u8, u64)>,
    in_error: bool,
    expect_describe_second_frame: bool,
}

impl View for LatencyMonitor {
    type V = LatencyView;

    closed spec fn view(&self) -> LatencyView {
        LatencyView {
            pending: self.pending@,
            in_error: self.in_error,
            second_description: self.expect_describe_second_frame,
        }
    }
}

impl Default for LatencyMonitor {
    fn default() -> (r: Self)
        ensures
            r@ == (LatencyView { pending: Seq::empty(), in_error: false, second_description: false }),
    {
        LatencyMonitor {
            pending: VecDeque::new(),
            in_error: false,
            expect_describe_second_frame: false,
        }
    }
}

/// The microseconds from `sent` to `ts`, as a 32-bit number.
fn latency_us(sent: u64, ts: u64) -> (r: u32)
    ensures
        r == latency(sent, ts),
{
    (ts.saturating_sub(sent) % 0x1_0000_0000) as u32
}

impl LatencyMonitor {
    /// How many requests are not answered yet.
    pub fn pending(&self) -> (r: usize)
        ensures
            r == self@.pending.len(),
    {
        self.pending.len()
    }

    /// Notes a request that was sent.
    pub fn on_send(&mut self, f_tag: u8, ts: u64)
        ensures
            final(self)@ == (LatencyView {
                pending: old(self)@.pending.push((f_tag, ts)),
                ..old(self)@
            }),
    {
        self.pending.push_back((f_tag, ts));
    }

    /// Takes the first request as answered.
    fn answer(&mut self, ts: u64) -> (r: Option<(u8, u32)>)
        ensures
            (final(self)@, r) == old(self)@.answered(ts),
    {
        let ghost before = self@;
        match self.pending.pop_front() {
            Some((f_tag, sent_ts)) => {
                assert(self@.pending =~= before.pending.drop_first());
                Some((f_tag, latency_us(sent_ts, ts)))
            },
            None => None,
        }
    }

    /// Takes the first request as answered, if it has the given type byte.
    fn pop_if_front_is(&mut self, expected: u8, ts: u64) -> (r: Option<(u8, u32)>)
        ensures
            (final(self)@, r) == if old(self)@.awaits(expected) {
                old(self)@.answered(ts)
            } else {
                (old(self)@, None)
            },
    {
        if self.front_is(expected) {
            self.answer(ts)
        } else {
            None
        }
    }

    /// Whether the first request has the given type byte.
    fn front_is(&self, tag: u8) -> (r: bool)
        ensures
            r == self@.awaits(tag),
    {
        self.pending.len() > 0 && self.pending[0].0 == tag
    }

    /// Drops the requests up to the one that ends the round. Its time comes back.
    fn pop_round(&mut self) -> (r: Option<u64>)
        ensures
            final(self)@ == (LatencyView {
                pending: after_round(old(self)@.pending),
                ..old(self)@
            }),
            match r {
                Some(t) => round_end(old(self)@.pending) < old(self)@.pending.len() && t == old(
                    self,
                )@.pending[round_end(old(self)@.pending)].1,
                None => round_end(old(self)@.pending) >= old(self)@.pending.len(),
            },
    {
        let ghost all = self@.pending;
        assert(all.skip(0) =~= all);
        let ghost mut k: int = 0;
        while self.pending.len() > 0
            invariant
                0 <= k <= all.len(),
                self@ == (LatencyView { pending: all.skip(k), ..old(self)@ }),
                all == old(self)@.pending,
                round_end(all) == k + round_end(all.skip(k)),
            decreases self.pending@.len(),
        {
            let ghost before = self@.pending;
            if let Some((tag, ts)) = self.pending.pop_front() {
                assert(self@.pending =~= before.drop_first());
                assert(before.drop_first() =~= all.skip(k + 1));
                if tag == tags::F_SYNC || tag == tags::F_QUERY {
                    return Some(ts);
                }
                proof {
                    k = k + 1;
                }
            }
        }
        proof {
            assert(round_end(all) == all.len());
            assert(self@.pending =~= Seq::empty());
        }
        None
    }

    /// Whether a response makes sense.
    pub fn takes(&self, b_tag: u8) -> (r: bool)
        ensures
            r == self@.accepts(b_tag),
    {
        !((b_tag == tags::B_ROW_DESC || b_tag == tags::B_NO_DATA) && !self.in_error
            && self.expect_describe_second_frame) || self.pending.len() > 0
    }

    /// Takes in a response, and gives the request that it answers with its
    /// latency.
    pub fn on_response(&mut self, b_tag: u8, ts: u64) -> (r: Option<(u8, u32)>)
        requires
            old(self)@.accepts(b_tag),
        ensures
            (final(self)@, r) == old(self)@.responded(b_tag, ts),
    {
        if b_tag == tags::B_NOTICE || b_tag == tags::B_NOTIFICATION || b_tag == tags::B_DATA_ROW {
            return None;
        }
        if b_tag == tags::B_ERROR {
            self.in_error = true;
            return self.answer(ts);
        }
        if b_tag == tags::B_READY_FOR_QUERY {
            if self.in_error {
                self.in_error = false;
                let _ = self.pop_round();
                return None;
            }
            if self.pending.len() == 0 {
                assert(after_round(self@.pending) =~= self@.pending);
                return None;
            }
            let f_tag: u8 = self.pending[0].0;
            return match self.pop_round() {
                Some(sent_ts) => Some((f_tag, latency_us(sent_ts, ts))),
                None => None,
            };
        }
        if self.in_error {
            return None;
        }
        if b_tag == tags::B_PARSE_COMPLETE {
            self.pop_if_front_is(tags::F_PARSE, ts)
        } else if b_tag == tags::B_BIND_COMPLETE {
            self.pop_if_front_is(tags::F_BIND, ts)
        } else if b_tag == tags::B_CLOSE_COMPLETE {
            self.pop_if_front_is(tags::F_CLOSE, ts)
        } else if b_tag == tags::B_COMMAND_COMPLETE || b_tag == tags::B_PORTAL_SUSPENDED || b_tag
            == tags::B_EMPTY_QUERY {
            if self.front_is(tags::F_EXECUTE) || self.front_is(tags::F_QUERY) {
                self.answer(ts)
            } else {
                None
            }
        } else if b_tag == tags::B_PARAMETER_DESC {
            if self.front_is(tags::F_DESCRIBE) {
                self.expect_describe_second_frame = true;
            }
            None
        } else if b_tag == tags::B_ROW_DESC || b_tag == tags::B_NO_DATA {
            if self.expect_describe_second_frame {
                self.expect_describe_second_frame = false;
                self.answer(ts)
            } else if self.front_is(tags::F_DESCRIBE) {
                self.answer(ts)
            } else {
                None
            }
        } else {
            None
        }
    }
}

/// What is still not answered after a response is the end of what was not
/// answered before it: requests are answered in order, and none is added.
pub proof fn law_answers_in_order(v: LatencyView, b_tag: u8, ts: u64)
    ensures
        v.responded(b_tag, ts).0.pending.len() <= v.pending.len(),
        v.responded(b_tag, ts).0.pending == v.pending.skip(
            v.pending.len() - v.responded(b_tag, ts).0.pending.len(),
        ),
{
    lemma_round_end(v.pending);
    let after = v.responded(b_tag, ts).0.pending;
    assert(v.pending.skip(v.pending.len() as int) =~= Seq::<(u8, u64)>::empty());
    assert(after =~= v.pending.skip(v.pending.len() - after.len()));
}

/// A round ends within the requests, or takes all of them.
proof fn lemma_round_end(pending: Seq<(u8, u64)>)
    ensures
        0 <= round_end(pending) <= pending.len(),
        round_end(pending) < pending.len() ==> ends_round(pending[round_end(pending)].0),
        forall|i: int| 0 <= i < round_end(pending) ==> !ends_round(#[trigger] pending[i].0),
    decreases pending.len(),
{
    if pending.len() > 0 && !ends_round(pending[0].0) {
        let rest = pending.drop_first();
        lemma_round_end(rest);
        assert forall|i: int| 0 <= i < round_end(pending) implies !ends_round(
            #[trigger] pending[i].0,
        ) by {
            if i > 0 {
                assert(pending[i] == rest[i - 1]);
            }
        }
    }
}

/// After an error nothing is reported until the server is ready, and then the
/// requests of the round are gone: those up to the first that ends a round.
pub proof fn law_error_skips_round(v: LatencyView, b_tag: u8, ts: u64)
    requires
        v.in_error,
    ensures
        b_tag != tags::B_ERROR ==> v.responded(b_tag, ts).1 is None,
        b_tag != tags::B_ERROR && b_tag != tags::B_READY_FOR_QUERY ==> v.responded(b_tag, ts).0
            == v,
        b_tag == tags::B_READY_FOR_QUERY ==> v.responded(b_tag, ts).0 == (LatencyView {
            pending: after_round(v.pending),
            in_error: false,
            ..v
        }),
{
}

/// A request that was answered: whose, its type byte, how many microseconds it
/// took, and how many requests of the client are still open.
#[derive(Debug, Clone, Copy)]
pub struct LatencySample {
    pub id: ClientId,
    pub tag: u8,
    pub lat_us: u32,
    pub pending: usize,
}

/// The open requests of all clients.
pub struct LatencyMap {
    monitors: HashMap<ClientId, LatencyMonitor>,
}

impl View for LatencyMap {
    type V = Map<ClientId, LatencyView>;

    closed spec fn view(&self) -> Map<ClientId, LatencyView> {
        self.monitors@.map_values(|m: LatencyMonitor| m@)
    }
}

/// What is known of a client: nothing where it was never heard of.
pub open spec fn known(m: Map<ClientId, LatencyView>, id: ClientId) -> LatencyView {
    if m.contains_key(id) {
        m[id]
    } else {
        LatencyView { pending: Seq::empty(), in_error: false, second_description: false }
    }
}

impl LatencyMap {
    /// No client was heard of yet.
    pub fn new() -> (r: Self)
        ensures
            r@ == Map::<ClientId, LatencyView>::empty(),
    {
        let r = LatencyMap { monitors: HashMap::new() };
        assert(r@ =~= Map::<ClientId, LatencyView>::empty());
        r
    }

    /// Takes out what is known of a client.
    fn take(&mut self, id: ClientId) -> (r: LatencyMonitor)
        ensures
            r@ == known(old(self)@, id),
            final(self)@ == old(self)@.remove(id),
    {
        broadcast use vstd::std_specs::hash::group_hash_axioms;

        let ghost before = self@;
        let found = self.monitors.remove(&id);
        assert(self@ =~= before.remove(id));
        match found {
            Some(m) => m,
            None => LatencyMonitor::default(),
        }
    }

    /// Puts back what is known of a client.
    fn put(&mut self, id: ClientId, m: LatencyMonitor)
        ensures
            final(self)@ == old(self)@.insert(id, m@),
    {
        broadcast use vstd::std_specs::hash::group_hash_axioms;

        let ghost before = self@;
        self.monitors.insert(id, m);
        assert(self@ =~= before.insert(id, m@));
    }

    /// Notes a request of a client.
    pub fn on_send(&mut self, id: ClientId, tag: u8, ts: u64)
        ensures
            final(self)@ == old(self)@.insert(
                id,
                LatencyView {
                    pending: known(old(self)@, id).pending.push((tag, ts)),
                    ..known(old(self)@, id)
                },
            ),
    {
        let mut m = self.take(id);
        m.on_send(tag, ts);
        self.put(id, m);
        assert(self@ =~= old(self)@.insert(id, m@));
    }

    /// Whether a response to a client makes sense.
    pub fn takes(&self, id: ClientId, tag: u8) -> (r: bool)
        ensures
            r == known(self@, id).accepts(tag),
    {
        broadcast use vstd::std_specs::hash::group_hash_axioms;

        match self.monitors.get(&id) {
            Some(m) => {
                assert(self@[id] == m@);
                m.takes(tag)
            },
            None => true,
        }
    }

    /// Takes in a response to a client, and gives the request that it answers.
    pub fn on_response(&mut self, id: ClientId, tag: u8, ts: u64) -> (r: Option<LatencySample>)
        requires
            known(old(self)@, id).accepts(tag),
        ensures
            ({
                let (after, answer) = known(old(self)@, id).responded(tag, ts);
                &&& final(self)@ == old(self)@.insert(id, after)
                &&& match answer {
                    Some((f_tag, lat)) => r == Some(
                        LatencySample { id, tag: f_tag, lat_us: lat, pending: after.pending.len() as usize },
                    ),
                    None => r is None,
                }
            }),
    {
        let mut m = self.take(id);
        let answer = m.on_response(tag, ts);
        let pending: usize = m.pending();
        self.put(id, m);
        assert(self@ =~= old(self)@.insert(id, m@));
        match answer {
            Some((f_tag, lat)) => Some(LatencySample { id, tag: f_tag, lat_us: lat, pending }),
            None => None,
        }
    }
}

} // verus!
