//! What holds of reassembly: the bytes come out as they were sent.
use vstd::prelude::*;

use crate::capture::held;
use crate::capture::reassembler::ReassemblerView;

verus! {

/// Whether the segments that are held back are parts of `stream`, whose first
/// byte has number `isn`.
pub open spec fn parts_of(held: Map<u32, Seq<u8>>, stream: Seq<u8>, isn: u32) -> bool {
    forall|k: u32| #[trigger]
        held.contains_key(k) ==> {
            let p = held::ahead(isn, k);
            &&& p + held[k].len() <= stream.len()
            &&& held[k] == stream.subrange(p, p + held[k].len())
        }
}

/// Whether a reassembler has let out the first `pos` bytes of `stream`, and
/// holds back parts of it only.
pub open spec fn tracks(v: ReassemblerView, stream: Seq<u8>, isn: u32, pos: int) -> bool {
    &&& 0 <= pos <= stream.len() < 0x8000_0000
    &&& v.next_seq == Some(held::advanced(isn, pos as nat))
    &&& v.held.dom().finite()
    &&& parts_of(v.held, stream, isn)
}

/// What is let go of continues the stream, and leaves nothing that continues it
/// further.
proof fn lemma_drained_continues(held: Map<u32, Seq<u8>>, stream: Seq<u8>, isn: u32, pos: int)
    requires
        0 <= pos <= stream.len() < 0x8000_0000,
        held.dom().finite(),
        parts_of(held, stream, isn),
    ensures
        ({
            let (rest, end, out) = held::drained(held, held::advanced(isn, pos as nat));
            &&& rest.dom().finite()
            &&& parts_of(rest, stream, isn)
            &&& pos + out.len() <= stream.len()
            &&& out == stream.subrange(pos, pos + out.len())
            &&& end == held::advanced(isn, (pos + out.len()) as nat)
            &&& !rest.contains_key(end)
        }),
    decreases held.len(),
{
    let cur = held::advanced(isn, pos as nat);
    if held.contains_key(cur) {
        held::lemma_ahead(isn, pos as nat, pos as nat);
        let bytes = held[cur];
        let rest = held.remove(cur);
        held::lemma_advanced_add(isn, pos as nat, bytes.len());
        lemma_drained_continues(rest, stream, isn, pos + bytes.len());
        let out = held::drained(rest, held::advanced(cur, bytes.len())).2;
        assert(bytes + out =~= stream.subrange(pos, pos + bytes.len() + out.len()));
    } else {
        assert(stream.subrange(pos, pos) =~= Seq::<u8>::empty());
    }
}

/// Whatever part of the stream comes in, in order or not, new or seen before,
/// what goes out is the continuation of the stream, and nothing that continues
/// it further is held back. The part is in order exactly if it starts where the
/// stream continues, or earlier and ends later. (The stream is shorter than half
/// of the numbers, so that early and late can be told apart.)
pub proof fn law_feed_continues(
    v: ReassemblerView,
    stream: Seq<u8>,
    isn: u32,
    pos: int,
    p: int,
    len: int,
)
    requires
        tracks(v, stream, isn, pos),
        0 <= p,
        0 <= len,
        p + len <= stream.len(),
    ensures
        ({
            let (w, out, in_order) = v.fed(
                held::advanced(isn, p as nat),
                false,
                stream.subrange(p, p + len),
            );
            &&& tracks(w, stream, isn, pos + out.len())
            &&& out == stream.subrange(pos, pos + out.len())
            &&& in_order <==> p == pos || p < pos < p + len
            &&& in_order ==> pos + out.len() >= p + len
            &&& in_order ==> !w.held.contains_key(w.next_seq->Some_0)
        }),
{
    let seq = held::advanced(isn, p as nat);
    let next = held::advanced(isn, pos as nat);
    let data = stream.subrange(p, p + len);
    let behind = held::ahead(seq, next);
    held::lemma_ahead(isn, p as nat, pos as nat);
    assert(stream.subrange(pos, pos) =~= Seq::<u8>::empty());
    if p == pos || p < pos < p + len {
        let fresh = data.skip(behind);
        assert(fresh =~= stream.subrange(pos, p + len));
        held::lemma_advanced_add(isn, pos as nat, fresh.len());
        lemma_drained_continues(v.held, stream, isn, p + len);
        let more = held::drained(v.held, held::advanced(next, fresh.len())).2;
        assert(fresh + more =~= stream.subrange(pos, p + len + more.len()));
    } else if p > pos {
        let held2 = v.held.insert(seq, data);
        assert forall|k: u32| #[trigger] held2.contains_key(k) implies {
            let q = held::ahead(isn, k);
            &&& q + held2[k].len() <= stream.len()
            &&& held2[k] == stream.subrange(q, q + held2[k].len())
        } by {
            if k != seq {
                assert(v.held.contains_key(k));
            }
        }
    }
}

/// Every way to take in segments orders them alike: what holds of a reassembler
/// holds of a handler of a connection too. (A segment without bytes, and one that
/// lies exactly half of the numbers back, are told apart.)
pub proof fn law_orders_alike(v: ReassemblerView, seq: u32, payload: Seq<u8>)
    requires
        payload.len() > 0,
        held::ahead(seq, held::expected(v.next_seq, seq)) != 0x8000_0000,
    ensures
        ({
            let (next_seq, held, bytes) = held::sorted_in(v.next_seq, v.held, seq, payload);
            v.fed(seq, false, payload) == (
                ReassemblerView { next_seq, held },
                bytes,
                held::in_order(v.next_seq, seq, payload),
            )
        }),
{
    reveal(held::ahead);
}

/// The byte that is missing next follows those that were let go.
proof fn lemma_drained_end(held: Map<u32, Seq<u8>>, cur: u32)
    requires
        held.dom().finite(),
    ensures
        held::drained(held, cur).1 == held::advanced(cur, held::drained(held, cur).2.len()),
    decreases held.len(),
{
    held::lemma_advanced_add(cur, 0, 0);
    if held.contains_key(cur) {
        let next = held::advanced(cur, held[cur].len());
        lemma_drained_end(held.remove(cur), next);
        held::lemma_advanced_add(
            cur,
            held[cur].len(),
            held::drained(held.remove(cur), next).2.len(),
        );
    }
}

/// How far a number lies ahead, and one that follows it.
proof fn lemma_ahead_on(seq: u32, next: u32, n: nat)
    requires
        held::ahead(seq, next) + n < 0x1_0000_0000,
    ensures
        held::ahead(seq, held::advanced(next, n)) == held::ahead(seq, next) + n,
        held::ahead(seq, next) >= 0,
        held::ahead(seq, seq) == 0,
{
    reveal(held::ahead);
    reveal(held::advanced);
    let sum = next + n;
    assert(sum % 0x1_0000_0000 == sum || sum % 0x1_0000_0000 == sum - 0x1_0000_0000) by {
        assert(sum < 0x2_0000_0000);
    }
}

/// A segment adds something exactly if it is in order, and the same segment again adds
/// nothing, in any state. (The numbers may not run once around between the start of the
/// segment and the byte that is missing after it.)
pub proof fn law_fed_twice(v: ReassemblerView, seq: u32, data: Seq<u8>)
    requires
        v.held.dom().finite(),
        data.len() > 0,
        held::ahead(seq, held::expected(v.next_seq, seq)) + v.fed(seq, false, data).1.len()
            < 0x1_0000_0000,
    ensures
        ({
            let (w, out, in_order) = v.fed(seq, false, data);
            let (_, again, in_order_again) = w.fed(seq, false, data);
            &&& in_order <==> out.len() > 0
            &&& !in_order_again
            &&& again.len() == 0
        }),
{
    let next = held::expected(v.next_seq, seq);
    let behind = held::ahead(seq, next);
    let (w, out, in_order) = v.fed(seq, false, data);
    lemma_ahead_on(seq, next, out.len());
    if in_order {
        let fresh = data.skip(behind);
        let cur = held::advanced(next, fresh.len());
        let more = held::drained(v.held, cur).2;
        lemma_drained_end(v.held, cur);
        held::lemma_advanced_add(next, fresh.len(), more.len());
        assert(out == fresh + more);
        assert(w.next_seq == Some(held::advanced(next, out.len())));
    }
}

/// A segment that opens a connection: the stream starts at the number after its
/// own.
pub proof fn law_syn_opens(seq: u32, stream: Seq<u8>)
    requires
        stream.len() < 0x8000_0000,
    ensures
        ({
            let v = ReassemblerView { next_seq: None, held: Map::empty() };
            let (w, out, _) = v.fed(seq, true, Seq::empty());
            &&& out.len() == 0
            &&& tracks(w, stream, held::advanced(seq, 1), 0)
        }),
{
    held::lemma_advanced_add(held::advanced(seq, 1), 0, 0);
}

/// Where piece `i` starts in the stream that the pieces make up.
pub open spec fn piece_start(pieces: Seq<Seq<u8>>, i: int) -> int {
    pieces.take(i).flatten().len() as int
}

/// A reassembler after pieces of a stream that come in the given order, and the
/// bytes that have gone out.
pub open spec fn fed_pieces(
    v: ReassemblerView,
    isn: u32,
    pieces: Seq<Seq<u8>>,
    order: Seq<int>,
) -> (ReassemblerView, Seq<u8>)
    decreases order.len(),
{
    if order.len() == 0 {
        (v, Seq::empty())
    } else {
        let (w, out) = fed_pieces(v, isn, pieces, order.drop_last());
        let i = order.last();
        let (x, more, _) = w.fed(
            held::advanced(isn, piece_start(pieces, i) as nat),
            false,
            pieces[i],
        );
        (x, out + more)
    }
}

/// Where the pieces of a stream lie.
proof fn lemma_piece(pieces: Seq<Seq<u8>>, i: int)
    requires
        0 <= i < pieces.len(),
    ensures
        0 <= piece_start(pieces, i),
        piece_start(pieces, i + 1) == piece_start(pieces, i) + pieces[i].len(),
        piece_start(pieces, i + 1) <= pieces.flatten().len(),
        pieces.flatten().subrange(piece_start(pieces, i), piece_start(pieces, i + 1)) == pieces[i],
{
    let (a, b) = (pieces.take(i), pieces.skip(i + 1));
    assert(pieces =~= a.push(pieces[i]) + b);
    vstd::seq_lib::lemma_flatten_concat(a.push(pieces[i]), b);
    assert(pieces.take(i + 1) =~= a.push(pieces[i]));
    a.lemma_flatten_push(pieces[i]);
    assert(pieces.flatten().subrange(piece_start(pieces, i), piece_start(pieces, i + 1))
        =~= pieces[i]);
}

/// Where pieces start grows with every piece that is not empty.
proof fn lemma_starts_grow(pieces: Seq<Seq<u8>>, i: int, j: int)
    requires
        0 <= i <= j <= pieces.len(),
        forall|k: int| #![trigger pieces[k]] 0 <= k < pieces.len() ==> pieces[k].len() > 0,
    ensures
        piece_start(pieces, i) + (j - i) <= piece_start(pieces, j) <= pieces.flatten().len(),
    decreases j - i,
{
    if i < j {
        lemma_starts_grow(pieces, i, j - 1);
        lemma_piece(pieces, j - 1);
    } else if j < pieces.len() {
        lemma_piece(pieces, j);
    } else {
        assert(pieces.take(j) =~= pieces);
    }
}

/// The number of the first byte of piece `i`.
spec fn number(isn: u32, pieces: Seq<Seq<u8>>, i: int) -> u32 {
    held::advanced(isn, piece_start(pieces, i) as nat)
}

/// The first piece from `i` on that has not come.
spec fn first_missing(order: Seq<int>, i: int, n: int) -> int
    decreases n - i,
{
    if i < n && order.contains(i) {
        first_missing(order, i + 1, n)
    } else {
        i
    }
}

/// All pieces in front of the first missing one have come, and it has not.
proof fn lemma_first_missing(order: Seq<int>, i: int, n: int)
    requires
        0 <= i <= n,
    ensures
        i <= first_missing(order, i, n) <= n,
        forall|k: int| i <= k < first_missing(order, i, n) ==> order.contains(k),
        first_missing(order, i, n) < n ==> !order.contains(first_missing(order, i, n)),
    decreases n - i,
{
    if i < n && order.contains(i) {
        lemma_first_missing(order, i + 1, n);
    }
}

/// Whether exactly the pieces from `j` on that have come are held back.
spec fn holds_back(
    held: Map<u32, Seq<u8>>,
    isn: u32,
    pieces: Seq<Seq<u8>>,
    order: Seq<int>,
    j: int,
) -> bool {
    &&& held.dom().finite()
    &&& forall|i: int|
        #![trigger number(isn, pieces, i)]
        j <= i < pieces.len() && order.contains(i) ==> held.contains_key(number(isn, pieces, i))
            && held[number(isn, pieces, i)] == pieces[i]
    &&& forall|k: u32| #[trigger]
        held.contains_key(k) ==> exists|i: int|
            #![trigger number(isn, pieces, i)]
            j <= i < pieces.len() && order.contains(i) && k == number(isn, pieces, i)
}

/// Different pieces have different numbers.
proof fn lemma_numbers_differ(isn: u32, pieces: Seq<Seq<u8>>, i: int, j: int)
    requires
        0 <= i < j <= pieces.len(),
        pieces.flatten().len() < 0x8000_0000,
        forall|k: int| #![trigger pieces[k]] 0 <= k < pieces.len() ==> pieces[k].len() > 0,
    ensures
        number(isn, pieces, i) != number(isn, pieces, j),
{
    lemma_starts_grow(pieces, i, j);
    lemma_starts_grow(pieces, 0, i);
    held::lemma_ahead(isn, piece_start(pieces, i) as nat, piece_start(pieces, j) as nat);
    held::lemma_ahead(isn, piece_start(pieces, j) as nat, piece_start(pieces, i) as nat);
}

/// Letting go from piece `j` on ends at the first missing piece.
proof fn lemma_drained_pieces(
    held: Map<u32, Seq<u8>>,
    isn: u32,
    pieces: Seq<Seq<u8>>,
    order: Seq<int>,
    j: int,
)
    requires
        0 <= j <= pieces.len(),
        pieces.flatten().len() < 0x8000_0000,
        forall|k: int| #![trigger pieces[k]] 0 <= k < pieces.len() ==> pieces[k].len() > 0,
        holds_back(held, isn, pieces, order, j),
    ensures
        ({
            let (rest, end, out) = held::drained(held, number(isn, pieces, j));
            let j2 = first_missing(order, j, pieces.len() as int);
            &&& end == number(isn, pieces, j2)
            &&& holds_back(rest, isn, pieces, order, j2)
            &&& out == pieces.flatten().subrange(piece_start(pieces, j), piece_start(pieces, j2))
        }),
    decreases pieces.len() - j,
{
    let n = pieces.len() as int;
    let cur = number(isn, pieces, j);
    lemma_starts_grow(pieces, 0, j);
    if j < n && order.contains(j) {
        let bytes = pieces[j];
        assert(held.contains_key(cur) && held[cur] == bytes);
        let rest = held.remove(cur);
        lemma_piece(pieces, j);
        held::lemma_advanced_add(isn, piece_start(pieces, j) as nat, bytes.len());
        assert(held::advanced(cur, bytes.len()) == number(isn, pieces, j + 1));
        assert forall|i: int|
            #![trigger number(isn, pieces, i)]
            j + 1 <= i < n && order.contains(i) implies rest.contains_key(number(isn, pieces, i))
            && rest[number(isn, pieces, i)] == pieces[i] by {
            lemma_numbers_differ(isn, pieces, j, i);
        }
        assert forall|k: u32| #[trigger] rest.contains_key(k) implies exists|i: int|
            #![trigger number(isn, pieces, i)]
            j + 1 <= i < n && order.contains(i) && k == number(isn, pieces, i) by {
            assert(held.contains_key(k));
            let i = choose|i: int|
                #![trigger number(isn, pieces, i)]
                j <= i < n && order.contains(i) && k == number(isn, pieces, i);
            assert(i != j);
        }
        lemma_drained_pieces(rest, isn, pieces, order, j + 1);
        lemma_first_missing(order, j + 1, n);
        let j2 = first_missing(order, j + 1, n);
        lemma_starts_grow(pieces, j + 1, j2);
        let (a, b, c) = (
            piece_start(pieces, j),
            piece_start(pieces, j + 1),
            piece_start(pieces, j2),
        );
        assert(pieces.flatten().subrange(a, c) =~= pieces.flatten().subrange(a, b)
            + pieces.flatten().subrange(b, c));
    } else {
        if held.contains_key(cur) {
            let i = choose|i: int|
                #![trigger number(isn, pieces, i)]
                j <= i < n && order.contains(i) && cur == number(isn, pieces, i);
            if j < i {
                lemma_numbers_differ(isn, pieces, j, i);
            }
        }
        let a = piece_start(pieces, j);
        assert(pieces.flatten().subrange(a, a) =~= Seq::<u8>::empty());
    }
}

/// What a reassembler knows after some of the pieces, and what has gone out.
proof fn lemma_fed_pieces(isn: u32, pieces: Seq<Seq<u8>>, order: Seq<int>)
    requires
        pieces.flatten().len() < 0x8000_0000,
        forall|k: int| #![trigger pieces[k]] 0 <= k < pieces.len() ==> pieces[k].len() > 0,
        forall|k: int| #![trigger order[k]] 0 <= k < order.len() ==> 0 <= order[k] < pieces.len(),
        order.no_duplicates(),
    ensures
        ({
            let v = ReassemblerView { next_seq: Some(isn), held: Map::empty() };
            let (w, out) = fed_pieces(v, isn, pieces, order);
            let j = first_missing(order, 0, pieces.len() as int);
            &&& w.next_seq == Some(number(isn, pieces, j))
            &&& holds_back(w.held, isn, pieces, order, j)
            &&& out == pieces.flatten().take(piece_start(pieces, j))
        }),
    decreases order.len(),
{
    let n = pieces.len() as int;
    let flat = pieces.flatten();
    if order.len() == 0 {
        held::lemma_advanced_add(isn, 0, 0);
        assert(pieces.take(0) =~= Seq::<Seq<u8>>::empty());
        assert(flat.take(0) =~= Seq::<u8>::empty());
    } else {
        let prev = order.drop_last();
        let i = order.last();
        lemma_fed_pieces(isn, pieces, prev);
        let v = ReassemblerView { next_seq: Some(isn), held: Map::empty() };
        let (w, out) = fed_pieces(v, isn, pieces, prev);
        let j = first_missing(prev, 0, n);
        lemma_first_missing(prev, 0, n);
        lemma_first_missing(order, 0, n);
        assert(order =~= prev.push(i));
        assert(!prev.contains(i));
        assert forall|k: int| order.contains(k) <==> prev.contains(k) || k == i by {
            if order.contains(k) && k != i {
                let x = choose|x: int| 0 <= x < order.len() && order[x] == k;
                assert(prev[x] == k);
            }
            if prev.contains(k) {
                let x = choose|x: int| 0 <= x < prev.len() && prev[x] == k;
                assert(order[x] == k);
            }
            assert(order[order.len() - 1] == i);
        }
        assert(i >= j);
        lemma_piece(pieces, i);
        lemma_starts_grow(pieces, 0, j);
        lemma_starts_grow(pieces, j, i);
        let seq = number(isn, pieces, i);
        let next = number(isn, pieces, j);
        let behind = held::ahead(seq, next);
        held::lemma_ahead(isn, piece_start(pieces, i) as nat, piece_start(pieces, j) as nat);
        held::lemma_advanced_add(isn, piece_start(pieces, j) as nat, pieces[i].len());
        if i == j {
            assert(pieces[i].skip(0) =~= pieces[i]);
            assert(held::advanced(next, pieces[i].len()) == number(isn, pieces, j + 1));
            assert forall|k: u32| #[trigger] w.held.contains_key(k) implies exists|x: int|
                #![trigger number(isn, pieces, x)]
                j + 1 <= x < n && order.contains(x) && k == number(isn, pieces, x) by {
                let x = choose|x: int|
                    #![trigger number(isn, pieces, x)]
                    j <= x < n && prev.contains(x) && k == number(isn, pieces, x);
                assert(x != j);
            }
            assert(holds_back(w.held, isn, pieces, order, j + 1));
            lemma_drained_pieces(w.held, isn, pieces, order, j + 1);
            lemma_missing_from(order, j + 1, n);
            let j2 = first_missing(order, j + 1, n);
            lemma_first_missing(order, j + 1, n);
            lemma_starts_grow(pieces, j + 1, j2);
            let (a, b, c) = (
                piece_start(pieces, j),
                piece_start(pieces, j + 1),
                piece_start(pieces, j2),
            );
            assert(flat.take(a) + (flat.subrange(a, b) + flat.subrange(b, c)) =~= flat.take(c));
        } else {
            let held2 = w.held.insert(seq, pieces[i]);
            assert forall|x: int|
                #![trigger number(isn, pieces, x)]
                j <= x < n && order.contains(x) implies held2.contains_key(
                number(isn, pieces, x),
            ) && held2[number(isn, pieces, x)] == pieces[x] by {
                if x < i {
                    lemma_numbers_differ(isn, pieces, x, i);
                } else if i < x {
                    lemma_numbers_differ(isn, pieces, i, x);
                }
            }
            assert forall|k: u32| #[trigger] held2.contains_key(k) implies exists|x: int|
                #![trigger number(isn, pieces, x)]
                j <= x < n && order.contains(x) && k == number(isn, pieces, x) by {
                if k == seq {
                    assert(number(isn, pieces, i) == k);
                } else {
                    assert(w.held.contains_key(k));
                    let x = choose|x: int|
                        #![trigger number(isn, pieces, x)]
                        j <= x < n && prev.contains(x) && k == number(isn, pieces, x);
                    assert(order.contains(x));
                }
            }
            assert(!order.contains(j));
            lemma_missing_from(order, j, n);
            assert(out + Seq::<u8>::empty() =~= out);
        }
    }
}

/// The first missing piece is the same from any place up to which all have come.
proof fn lemma_missing_from(order: Seq<int>, j: int, n: int)
    requires
        0 <= j <= n,
        forall|k: int| 0 <= k < j ==> order.contains(k),
    ensures
        first_missing(order, 0, n) == first_missing(order, j, n),
    decreases j,
{
    if j > 0 {
        lemma_missing_from(order, j - 1, n);
    }
}

/// Reassembly: whatever the order in which the pieces of a stream come, when all
/// have come the bytes that have gone out are the stream.
pub proof fn law_reassembled(isn: u32, pieces: Seq<Seq<u8>>, order: Seq<int>)
    requires
        pieces.flatten().len() < 0x8000_0000,
        forall|k: int| #![trigger pieces[k]] 0 <= k < pieces.len() ==> pieces[k].len() > 0,
        forall|k: int| #![trigger order[k]] 0 <= k < order.len() ==> 0 <= order[k] < pieces.len(),
        order.no_duplicates(),
        order.len() == pieces.len(),
    ensures
        fed_pieces(
            ReassemblerView { next_seq: Some(isn), held: Map::empty() },
            isn,
            pieces,
            order,
        ).1 == pieces.flatten(),
{
    let n = pieces.len() as int;
    lemma_fed_pieces(isn, pieces, order);
    order.unique_seq_to_set();
    let all = vstd::set_lib::set_int_range(0, n);
    vstd::set_lib::lemma_int_range(0, n);
    assert(order.to_set().subset_of(all));
    vstd::set_lib::lemma_subset_equality(order.to_set(), all);
    assert forall|k: int| 0 <= k < n implies order.contains(k) by {
        assert(all.contains(k));
        assert(order.to_set().contains(k));
    }
    lemma_first_missing(order, 0, n);
    assert(pieces.take(n) =~= pieces);
    assert(pieces.flatten().take(pieces.flatten().len() as int) =~= pieces.flatten());
}

} // verus!
