//! What holds of the latencies that are measured: which response answers which request,
//! and how long that took. The type bytes are written out here.
use vstd::prelude::*;

use crate::capture::reader::ClientId;
use crate::replay::latency;
use crate::replay::latency::LatencyView;

verus! {

/// A latency is the time from the request to the response, as far as it fits in 32 bits,
/// and zero where the response seems to come first.
pub proof fn law_latency(sent: u64, ts: u64)
    ensures
        sent <= ts && ts - sent <= 0xFFFF_FFFF ==> latency::latency(sent, ts) == ts - sent,
        sent <= ts ==> (ts - sent - latency::latency(sent, ts)) % 0x1_0000_0000 == 0,
        ts <= sent ==> latency::latency(sent, ts) == 0,
{
}

/// Whether the response ends the request: `1` a Parse, `2` a Bind, `3` a Close, `T` and
/// `n` a Describe, and `C`, `s` and `I` an Execute or a Query.
pub open spec fn answers(response: u8, request: u8) -> bool {
    ||| response == 0x31 && request == 0x50
    ||| response == 0x32 && request == 0x42
    ||| response == 0x33 && request == 0x43
    ||| (response == 0x54 || response == 0x6E) && request == 0x44
    ||| (response == 0x43 || response == 0x73 || response == 0x49) && (request == 0x45 || request
        == 0x51)
}

/// With no error, a response that ends the first open request answers it: it is reported
/// with its type byte and the time since it was sent, it is no longer open, and the
/// others are left as they are. That holds of a description whether or not one of the
/// parameters came before it.
pub proof fn law_response_answers_first(v: LatencyView, response: u8, ts: u64)
    requires
        !v.in_error,
        v.pending.len() > 0,
        answers(response, v.pending[0].0),
    ensures
        v.accepts(response),
        v.responded(response, ts).1 == Some(
            (v.pending[0].0, latency::latency(v.pending[0].1, ts)),
        ),
        v.responded(response, ts).0.pending == v.pending.drop_first(),
        !v.responded(response, ts).0.in_error,
        v.responded(response, ts).0.second_description == (v.second_description && response != 0x54
            && response != 0x6E),
{
}

/// Between a description of the parameters (`t`) and the description that follows it,
/// the request to describe stays open; with the second one it is answered.
pub proof fn law_description_in_two_parts(v: LatencyView, second: u8, ts1: u64, ts2: u64)
    requires
        !v.in_error,
        v.pending.len() > 0,
        v.pending[0].0 == 0x44,
        second == 0x54 || second == 0x6E,
    ensures
        ({
            let (mid, first_answer) = v.responded(0x74, ts1);
            let (end, answer) = mid.responded(second, ts2);
            &&& first_answer is None
            &&& mid.pending == v.pending
            &&& !mid.in_error
            &&& mid.second_description
            &&& mid.accepts(second)
            &&& answer == Some((0x44u8, latency::latency(v.pending[0].1, ts2)))
            &&& end == (LatencyView {
                pending: v.pending.drop_first(),
                in_error: false,
                second_description: false,
            })
        }),
{
}

/// An error (`E`) answers the first open request, whatever it is, and from then on the
/// server skips requests.
pub proof fn law_error_answers_first(v: LatencyView, ts: u64)
    ensures
        v.responded(0x45, ts).0.in_error,
        v.responded(0x45, ts).0.second_description == v.second_description,
        v.pending.len() > 0 ==> v.responded(0x45, ts).1 == Some(
            (v.pending[0].0, latency::latency(v.pending[0].1, ts)),
        ) && v.responded(0x45, ts).0.pending == v.pending.drop_first(),
        v.pending.len() == 0 ==> v.responded(0x45, ts).1 is None && v.responded(
            0x45,
            ts,
        ).0.pending == v.pending,
{
}

/// The server is ready (`Z`) after the first open Sync (`S`) or Query (`Q`): that one and
/// those before it are no longer open, those behind it are. With no error the first of
/// them is reported, with the time since the Sync or Query was sent; after one nothing
/// is, and the server skips no more.
pub proof fn law_ready_ends_round(v: LatencyView, k: int, ts: u64)
    requires
        0 <= k < v.pending.len(),
        v.pending[k].0 == 0x53 || v.pending[k].0 == 0x51,
        forall|i: int|
            #![trigger v.pending[i]]
            0 <= i < k ==> v.pending[i].0 != 0x53 && v.pending[i].0 != 0x51,
    ensures
        v.responded(0x5A, ts).0 == (LatencyView {
            pending: v.pending.skip(k + 1),
            in_error: false,
            second_description: v.second_description,
        }),
        v.responded(0x5A, ts).1 == if v.in_error {
            None
        } else {
            Some((v.pending[0].0, latency::latency(v.pending[k].1, ts)))
        },
{
    lemma_round_end(v.pending, k);
}

/// The server is ready, though it was not asked to be: no request stays open, and none
/// is reported.
pub proof fn law_ready_without_round(v: LatencyView, ts: u64)
    requires
        forall|i: int|
            #![trigger v.pending[i]]
            0 <= i < v.pending.len() ==> v.pending[i].0 != 0x53 && v.pending[i].0 != 0x51,
    ensures
        v.responded(0x5A, ts).0 == (LatencyView {
            pending: Seq::empty(),
            in_error: false,
            second_description: v.second_description,
        }),
        v.responded(0x5A, ts).1 is None,
{
    lemma_round_end(v.pending, v.pending.len() as int);
}

/// Where a round ends.
proof fn lemma_round_end(pending: Seq<(u8, u64)>, k: int)
    requires
        0 <= k <= pending.len(),
        k < pending.len() ==> pending[k].0 == 0x53 || pending[k].0 == 0x51,
        forall|i: int|
            #![trigger pending[i]]
            0 <= i < k ==> pending[i].0 != 0x53 && pending[i].0 != 0x51,
    ensures
        latency::round_end(pending) == k,
    decreases k,
{
    if k > 0 {
        let rest = pending.drop_first();
        assert forall|i: int| #![trigger rest[i]] 0 <= i < k - 1 implies rest[i].0 != 0x53
            && rest[i].0 != 0x51 by {
            assert(rest[i] == pending[i + 1]);
        }
        lemma_round_end(rest, k - 1);
    }
}

/// Every other response changes nothing and is no answer: rows, notices and
/// notifications (`D`, `N`, `A`) always; after an error all but a further one and the
/// server being ready; and otherwise those that do not end the first open request, except
/// that a description which one of the parameters announced answers whatever is first.
pub proof fn law_other_responses(v: LatencyView, response: u8, ts: u64)
    requires
        response != 0x45,
        response != 0x5A,
        ({
            ||| response == 0x44 || response == 0x4E || response == 0x41
            ||| v.in_error
            ||| v.pending.len() == 0 && (response == 0x54 || response == 0x6E
                ==> !v.second_description)
            ||| {
                &&& v.pending.len() > 0
                &&& !answers(response, v.pending[0].0)
                &&& !(response == 0x74 && v.pending[0].0 == 0x44)
                &&& !((response == 0x54 || response == 0x6E) && v.second_description)
            }
        }),
    ensures
        v.responded(response, ts) == (v, None::<(u8, u32)>),
{
}

/// A description that one of the parameters announced answers the first open request,
/// whatever it is.
pub proof fn law_announced_description(v: LatencyView, response: u8, ts: u64)
    requires
        !v.in_error,
        v.second_description,
        v.pending.len() > 0,
        response == 0x54 || response == 0x6E,
    ensures
        v.responded(response, ts).1 == Some(
            (v.pending[0].0, latency::latency(v.pending[0].1, ts)),
        ),
        v.responded(response, ts).0 == (LatencyView {
            pending: v.pending.drop_first(),
            in_error: false,
            second_description: false,
        }),
{
}

/// A response makes sense unless it describes rows, with no error, after a description of
/// parameters, and no request is open.
pub proof fn law_accepts(v: LatencyView, response: u8)
    ensures
        !v.accepts(response) <==> {
            &&& response == 0x54 || response == 0x6E
            &&& v.second_description
            &&& !v.in_error
            &&& v.pending.len() == 0
        },
{
}

/// A client that was never heard of has no open request; what is known of others is kept
/// apart from it.
pub proof fn law_clients_apart(
    m: Map<ClientId, LatencyView>,
    id: ClientId,
    other: ClientId,
    v: LatencyView,
)
    ensures
        !m.contains_key(id) ==> latency::known(m, id) == (LatencyView {
            pending: Seq::empty(),
            in_error: false,
            second_description: false,
        }),
        m.contains_key(id) ==> latency::known(m, id) == m[id],
        latency::known(m.insert(id, v), id) == v,
        id != other ==> latency::known(m.insert(id, v), other) == latency::known(m, other),
{
}

} // verus!
