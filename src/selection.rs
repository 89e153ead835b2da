//! Piece selection: which peer to ask for each piece that the local side lacks.
use crate::bits::{bits_get, bits_len, bits_of};
use crate::peer::Peer;
use bit_vec::BitVec;
use rand::seq::SliceRandom;
use rand::Rng;
use std::collections::VecDeque;
use vstd::prelude::*;

verus! {

broadcast use vstd::seq_lib::to_multiset_contains;

/// A piece, and the peer to request it from.
#[derive(Debug, Clone, Copy, PartialEq, Eq, PartialOrd, Ord, Hash, Structural)]
pub struct PieceSelection {
    pub piece_id: u32,
    pub peer: Peer,
}

impl PieceSelection {
    pub fn new(piece_id: u32, peer: Peer) -> (r: Self)
        ensures
            r.piece_id == piece_id,
            r.peer == peer,
    {
        PieceSelection { piece_id, peer }
    }

    pub fn piece_id(&self) -> (r: u32)
        ensures
            r == self.piece_id,
    {
        self.piece_id
    }

    pub fn peer(&self) -> (r: Peer)
        ensures
            r == self.peer,
    {
        self.peer
    }
}

/// Whether bit `i` of `b` is set; bits past the end are clear.
pub open spec fn has_bit(b: BitVec, i: int) -> bool {
    0 <= i < bits_of(b).len() && bits_of(b)[i]
}

/// Piece `i` is one of the local bitfield's and is not held yet.
pub open spec fn needs_piece(local: BitVec, i: int) -> bool {
    0 <= i < bits_of(local).len() && !bits_of(local)[i]
}

/// Peer `p` announced piece `i`.
pub open spec fn is_holder(peers: Seq<(Peer, BitVec)>, p: Peer, i: int) -> bool {
    exists|j: int| 0 <= j < peers.len() && peers[j].0 == p && has_bit(peers[j].1, i)
}

/// Some peer announced piece `i`.
pub open spec fn has_holder(peers: Seq<(Peer, BitVec)>, i: int) -> bool {
    exists|j: int| 0 <= j < peers.len() && has_bit(#[trigger] peers[j].1, i)
}

/// No peer appears twice.
pub open spec fn distinct_peers(peers: Seq<(Peer, BitVec)>) -> bool {
    forall|a: int, b: int|
        0 <= a < peers.len() && 0 <= b < peers.len() && a != b ==> #[trigger] peers[a].0
            != #[trigger] peers[b].0
}

/// How many of the peers announced piece `i`.
pub open spec fn holder_count(peers: Seq<(Peer, BitVec)>, i: int) -> nat
    decreases peers.len(),
{
    if peers.len() == 0 {
        0
    } else {
        holder_count(peers.drop_last(), i) + if has_bit(peers.last().1, i) {
            1nat
        } else {
            0nat
        }
    }
}

/// The peers that announced piece `i`, in order.
pub open spec fn holders_seq(peers: Seq<(Peer, BitVec)>, i: int) -> Seq<Peer>
    decreases peers.len(),
{
    if peers.len() == 0 {
        Seq::empty()
    } else {
        holders_seq(peers.drop_last(), i) + if has_bit(peers.last().1, i) {
            seq![peers.last().0]
        } else {
            Seq::<Peer>::empty()
        }
    }
}

/// The round-robin plan over the first `upto` pieces, and the cursor after it: for
/// each needed piece that some peer holds, in increasing order, the cursor moves on
/// by one, modulo the number of holders, and picks the holder it lands on.
pub open spec fn round_robin(local: BitVec, peers: Seq<(Peer, BitVec)>, upto: nat) -> (Seq<
    PieceSelection,
>, int)
    decreases upto,
{
    if upto == 0 {
        (Seq::empty(), 0)
    } else {
        let prev = round_robin(local, peers, (upto - 1) as nat);
        let i = upto - 1;
        let h = holders_seq(peers, i);
        if needs_piece(local, i) && h.len() > 0 {
            let c = (prev.1 + 1) % (h.len() as int);
            (prev.0.push(PieceSelection { piece_id: i as u32, peer: h[c] }), c)
        } else {
            prev
        }
    }
}

/// Every selection names a piece the local side needs, and a peer that holds it.
pub open spec fn selection_sound(
    sel: Seq<PieceSelection>,
    local: BitVec,
    peers: Seq<(Peer, BitVec)>,
) -> bool {
    forall|k: int|
        0 <= k < sel.len() ==> needs_piece(local, #[trigger] sel[k].piece_id as int) && is_holder(
            peers,
            sel[k].peer,
            sel[k].piece_id as int,
        )
}

/// Every needed piece that some peer holds is selected.
pub open spec fn selection_total(
    sel: Seq<PieceSelection>,
    local: BitVec,
    peers: Seq<(Peer, BitVec)>,
) -> bool {
    forall|i: int|
        needs_piece(local, i) && has_holder(peers, i) ==> exists|k: int|
            0 <= k < sel.len() && #[trigger] sel[k].piece_id == i
}

/// No piece is selected twice.
pub open spec fn pieces_distinct(sel: Seq<PieceSelection>) -> bool {
    forall|k1: int, k2: int|
        0 <= k1 < sel.len() && 0 <= k2 < sel.len() && k1 != k2 ==> #[trigger] sel[k1].piece_id
            != #[trigger] sel[k2].piece_id
}

pub proof fn lemma_holder_count_bounds(peers: Seq<(Peer, BitVec)>, i: int)
    ensures
        holder_count(peers, i) <= peers.len(),
        holder_count(peers, i) > 0 <==> has_holder(peers, i),
    decreases peers.len(),
{
    if peers.len() > 0 {
        let init = peers.drop_last();
        lemma_holder_count_bounds(init, i);
        if has_holder(init, i) {
            let j = choose|j: int| 0 <= j < init.len() && has_bit(#[trigger] init[j].1, i);
            assert(peers[j] == init[j]);
        }
        if has_holder(peers, i) && !has_bit(peers.last().1, i) {
            let j = choose|j: int| 0 <= j < peers.len() && has_bit(#[trigger] peers[j].1, i);
            assert(j < init.len());
            assert(init[j] == peers[j]);
        }
    }
}

/// The peers that announced piece `i`, in the order of `peers`.
fn holders_of(peers: &Vec<(Peer, BitVec)>, i: usize) -> (r: Vec<Peer>)
    ensures
        r@ == holders_seq(peers@, i as int),
        r@.len() == holder_count(peers@, i as int),
        r@.len() <= peers@.len(),
        r@.len() > 0 <==> has_holder(peers@, i as int),
        forall|k: int| 0 <= k < r@.len() ==> is_holder(peers@, #[trigger] r@[k], i as int),
{
    let mut r: Vec<Peer> = Vec::new();
    let mut j: usize = 0;
    while j < peers.len()
        invariant
            j <= peers@.len(),
            r@.len() == holder_count(peers@.take(j as int), i as int),
            r@ == holders_seq(peers@.take(j as int), i as int),
            forall|k: int| 0 <= k < r@.len() ==> is_holder(peers@, #[trigger] r@[k], i as int),
        decreases peers@.len() - j,
    {
        assert(peers@.take(j + 1).drop_last() =~= peers@.take(j as int));
        if bits_get(&peers[j].1, i) == Some(true) {
            r.push(peers[j].0);
            assert(is_holder(peers@, peers@[j as int].0, i as int));
        }
        j = j + 1;
    }
    assert(peers@.take(j as int) =~= peers@);
    proof {
        lemma_holder_count_bounds(peers@, i as int);
    }
    r
}

/// Relies on rand's `SliceRandom::shuffle` with the thread-local generator: it
/// only swaps entries, so the same entries come out, in some order.
#[verifier::external_body]
fn shuffle_selections(v: &mut Vec<PieceSelection>)
    ensures
        final(v)@.to_multiset() == old(v)@.to_multiset(),
{
    v.shuffle(&mut rand::thread_rng())
}

/// Relies on rand's `Rng::gen_range` with the thread-local generator: an index
/// below `n`; it panics on an empty range.
#[verifier::external_body]
fn random_index(n: usize) -> (r: usize)
    requires
        n > 0,
    ensures
        r < n,
{
    rand::thread_rng().gen_range(0..n)
}

/// Selects, for each needed piece, a holder by round robin over its holders.
#[derive(Debug)]
pub struct DistributedSelector;

impl DistributedSelector {
    /// The needed pieces that some peer holds, each once, in increasing order, each
    /// with a holder picked by a cursor that moves on by one at every piece.
    fn round_robin_plan(mybitfield: &BitVec, peers_bitfields: &Vec<(Peer, BitVec)>) -> (r: Vec<
        PieceSelection,
    >)
        requires
            bits_of(*mybitfield).len() <= u32::MAX + 1,
        ensures
            selection_sound(r@, *mybitfield, peers_bitfields@),
            selection_total(r@, *mybitfield, peers_bitfields@),
            forall|k1: int, k2: int|
                0 <= k1 < k2 < r@.len() ==> r@[k1].piece_id < r@[k2].piece_id,
            r@ == round_robin(*mybitfield, peers_bitfields@, bits_of(*mybitfield).len()).0,
    {
        let n = bits_len(mybitfield);
        let mut plan: Vec<PieceSelection> = Vec::new();
        let mut index_to_use: usize = 0;
        let np = peers_bitfields.len();
        let mut i: usize = 0;
        while i < n
            invariant
                n == bits_of(*mybitfield).len(),
                n <= u32::MAX + 1,
                i <= n,
                np == peers_bitfields@.len(),
                index_to_use == 0 || index_to_use < np,
                plan@ == round_robin(*mybitfield, peers_bitfields@, i as nat).0,
                index_to_use == round_robin(*mybitfield, peers_bitfields@, i as nat).1,
                selection_sound(plan@, *mybitfield, peers_bitfields@),
                forall|k: int| 0 <= k < plan@.len() ==> #[trigger] plan@[k].piece_id < i,
                forall|k1: int, k2: int|
                    0 <= k1 < k2 < plan@.len() ==> plan@[k1].piece_id < plan@[k2].piece_id,
                forall|p: int|
                    0 <= p < i && needs_piece(*mybitfield, p) && has_holder(peers_bitfields@, p)
                        ==> exists|k: int| 0 <= k < plan@.len() && #[trigger] plan@[k].piece_id == p,
            decreases n - i,
        {
            let ghost old_plan = plan@;
            if bits_get(mybitfield, i) == Some(false) {
                let holders = holders_of(peers_bitfields, i);
                if holders.len() != 0 {
                    index_to_use = (index_to_use + 1) % holders.len();
                    let sel = PieceSelection { piece_id: i as u32, peer: holders[index_to_use] };
                    assert(sel == PieceSelection {
                        piece_id: i as u32,
                        peer: holders@[index_to_use as int],
                    });
                    plan.push(sel);
                    assert(plan@[plan@.len() - 1] == sel);
                }
            }
            assert forall|p: int|
                0 <= p < i + 1 && needs_piece(*mybitfield, p) && has_holder(peers_bitfields@, p)
                    implies exists|k: int| 0 <= k < plan@.len() && #[trigger] plan@[k].piece_id == p by {
                if p < i {
                    let k = choose|k: int| 0 <= k < old_plan.len() && #[trigger] old_plan[k].piece_id == p;
                    assert(plan@[k] == old_plan[k]);
                } else {
                    assert(plan@[plan@.len() - 1].piece_id == p);
                }
            }
            i = i + 1;
        }
        plan
    }

    /// The needed pieces that some peer holds, each once, with a holder picked by
    /// round robin, in a random order.
    pub fn pieces_selection(mybitfield: BitVec, peers_bitfields: Vec<(Peer, BitVec)>) -> (r: Vec<
        PieceSelection,
    >)
        requires
            bits_of(mybitfield).len() <= u32::MAX + 1,
            distinct_peers(peers_bitfields@),
        ensures
            selection_sound(r@, mybitfield, peers_bitfields@),
            selection_total(r@, mybitfield, peers_bitfields@),
            pieces_distinct(r@),
            r@.to_multiset() == round_robin(
                mybitfield,
                peers_bitfields@,
                bits_of(mybitfield).len(),
            ).0.to_multiset(),
    {
        let mut plan = Self::round_robin_plan(&mybitfield, &peers_bitfields);
        let ghost before = plan@;
        assert(before.no_duplicates());
        proof {
            before.lemma_multiset_has_no_duplicates();
        }
        shuffle_selections(&mut plan);
        let ghost after = plan@;
        proof {
            after.lemma_multiset_has_no_duplicates_conv();
            assert forall|k: int| 0 <= k < after.len() implies needs_piece(
                mybitfield,
                #[trigger] after[k].piece_id as int,
            ) && is_holder(peers_bitfields@, after[k].peer, after[k].piece_id as int) by {
                assert(after.to_multiset().count(after[k]) > 0);
                assert(before.contains(after[k]));
            }
            assert forall|p: int|
                needs_piece(mybitfield, p) && has_holder(peers_bitfields@, p) implies exists|k: int|
                0 <= k < after.len() && #[trigger] after[k].piece_id == p by {
                let k0 = choose|k: int| 0 <= k < before.len() && #[trigger] before[k].piece_id == p;
                assert(before.contains(before[k0]));
                assert(after.to_multiset().count(before[k0]) > 0);
                let k1 = choose|k: int| 0 <= k < after.len() && after[k] == before[k0];
                assert(after[k1].piece_id == p);
            }
            assert forall|k1: int, k2: int|
                0 <= k1 < after.len() && 0 <= k2 < after.len() && k1 != k2 implies #[trigger] after[k1].piece_id
                != #[trigger] after[k2].piece_id by {
                assert(after.to_multiset().count(after[k1]) > 0);
                assert(after.to_multiset().count(after[k2]) > 0);
                let j1 = choose|j: int| 0 <= j < before.len() && before[j] == after[k1];
                let j2 = choose|j: int| 0 <= j < before.len() && before[j] == after[k2];
                if after[k1].piece_id == after[k2].piece_id {
                    assert(j1 == j2);
                }
            }
        }
        plan
    }
}

/// Selection `a` comes before `b` in rarest-first order: fewer holders first, then
/// the lower piece index.
pub open spec fn rarer_first(peers: Seq<(Peer, BitVec)>, a: PieceSelection, b: PieceSelection) -> bool {
    holder_count(peers, a.piece_id as int) < holder_count(peers, b.piece_id as int) || (
    holder_count(peers, a.piece_id as int) == holder_count(peers, b.piece_id as int)
        && a.piece_id < b.piece_id)
}

/// The selections stand in strict rarest-first order.
pub open spec fn rarest_ordered(sel: Seq<PieceSelection>, peers: Seq<(Peer, BitVec)>) -> bool {
    forall|k1: int, k2: int|
        0 <= k1 < k2 < sel.len() ==> rarer_first(peers, #[trigger] sel[k1], #[trigger] sel[k2])
}

/// Selects the rarest pieces first, each from a holder picked at random.
#[derive(Debug)]
pub struct RarestPiecesSelector;

impl RarestPiecesSelector {
    /// For each needed piece, the peers that hold it; nothing for the pieces held.
    fn holders_by_piece(mybitfield: &BitVec, peers_bitfields: &Vec<(Peer, BitVec)>) -> (r: Vec<
        Vec<Peer>,
    >)
        ensures
            r@.len() == bits_of(*mybitfield).len(),
            forall|i: int|
                0 <= i < r@.len() ==> (#[trigger] r@[i])@.len() == (if needs_piece(*mybitfield, i) {
                    holder_count(peers_bitfields@, i)
                } else {
                    0
                }),
            forall|i: int, k: int|
                0 <= i < r@.len() && 0 <= k < r@[i]@.len() ==> is_holder(
                    peers_bitfields@,
                    #[trigger] r@[i]@[k],
                    i,
                ),
    {
        let n = bits_len(mybitfield);
        let mut r: Vec<Vec<Peer>> = Vec::new();
        let mut i: usize = 0;
        while i < n
            invariant
                n == bits_of(*mybitfield).len(),
                i <= n,
                r@.len() == i,
                forall|p: int|
                    0 <= p < i ==> (#[trigger] r@[p])@.len() == (if needs_piece(*mybitfield, p) {
                        holder_count(peers_bitfields@, p)
                    } else {
                        0
                    }),
                forall|p: int, k: int|
                    0 <= p < i && 0 <= k < r@[p]@.len() ==> is_holder(
                        peers_bitfields@,
                        #[trigger] r@[p]@[k],
                        p,
                    ),
            decreases n - i,
        {
            if bits_get(mybitfield, i) == Some(false) {
                r.push(holders_of(peers_bitfields, i));
            } else {
                r.push(Vec::new());
            }
            i = i + 1;
        }
        r
    }

    /// The needed pieces that some peer holds, each once, rarest first (ties go to
    /// the lower index), each with a holder picked at random.
    pub fn priority_pieces_selection(mybitfield: BitVec, peers_bitfields: Vec<(Peer, BitVec)>) -> (r:
        VecDeque<PieceSelection>)
        requires
            bits_of(mybitfield).len() <= u32::MAX + 1,
            distinct_peers(peers_bitfields@),
        ensures
            selection_sound(r@, mybitfield, peers_bitfields@),
            selection_total(r@, mybitfield, peers_bitfields@),
            rarest_ordered(r@, peers_bitfields@),
    {
        let ghost peers = peers_bitfields@;
        let n = bits_len(&mybitfield);
        let holders = Self::holders_by_piece(&mybitfield, &peers_bitfields);
        let np = peers_bitfields.len();
        let mut out: VecDeque<PieceSelection> = VecDeque::new();
        let mut d: usize = 0;
        while d < np
            invariant
                n == bits_of(mybitfield).len(),
                n <= u32::MAX + 1,
                np == peers.len(),
                peers == peers_bitfields@,
                d <= np,
                holders@.len() == n,
                forall|i: int|
                    0 <= i < n ==> (#[trigger] holders@[i])@.len() == (if needs_piece(mybitfield, i) {
                        holder_count(peers, i)
                    } else {
                        0
                    }),
                forall|i: int, k: int|
                    0 <= i < n && 0 <= k < holders@[i]@.len() ==> is_holder(
                        peers,
                        #[trigger] holders@[i]@[k],
                        i,
                    ),
                selection_sound(out@, mybitfield, peers),
                rarest_ordered(out@, peers),
                forall|k: int|
                    0 <= k < out@.len() ==> 1 <= holder_count(peers, #[trigger] out@[k].piece_id as int) < d + 1,
                forall|p: int|
                    needs_piece(mybitfield, p) && 1 <= holder_count(peers, p) < d + 1 ==> exists|k: int|
                        0 <= k < out@.len() && #[trigger] out@[k].piece_id == p,
            decreases np - d,
        {
            let c = d + 1;
            let mut i: usize = 0;
            while i < n
                invariant
                    n == bits_of(mybitfield).len(),
                    n <= u32::MAX + 1,
                    np == peers.len(),
                    peers == peers_bitfields@,
                    1 <= c <= np,
                    i <= n,
                    holders@.len() == n,
                    forall|i: int|
                        0 <= i < n ==> (#[trigger] holders@[i])@.len() == (if needs_piece(mybitfield, i) {
                            holder_count(peers, i)
                        } else {
                            0
                        }),
                    forall|i: int, k: int|
                        0 <= i < n && 0 <= k < holders@[i]@.len() ==> is_holder(
                            peers,
                            #[trigger] holders@[i]@[k],
                            i,
                        ),
                    selection_sound(out@, mybitfield, peers),
                    rarest_ordered(out@, peers),
                    forall|k: int|
                        0 <= k < out@.len() ==> 1 <= holder_count(peers, #[trigger] out@[k].piece_id as int) && (
                        holder_count(peers, out@[k].piece_id as int) < c || (holder_count(
                            peers,
                            out@[k].piece_id as int,
                        ) == c && out@[k].piece_id < i)),
                    forall|p: int|
                        needs_piece(mybitfield, p) && 1 <= holder_count(peers, p) && (holder_count(
                            peers,
                            p,
                        ) < c || (holder_count(peers, p) == c && p < i)) ==> exists|k: int|
                            0 <= k < out@.len() && #[trigger] out@[k].piece_id == p,
                decreases n - i,
            {
                let ghost old_out = out@;
                let count = holders[i].len();
                if count == c {
                    let pick = random_index(count);
                    let sel = PieceSelection { piece_id: i as u32, peer: holders[i][pick] };
                    assert(needs_piece(mybitfield, i as int));
                    assert(is_holder(peers, holders@[i as int]@[pick as int], i as int));
                    out.push_back(sel);
                    assert(out@ == old_out.push(sel));
                    assert forall|k1: int, k2: int|
                        0 <= k1 < k2 < out@.len() implies rarer_first(
                        peers,
                        #[trigger] out@[k1],
                        #[trigger] out@[k2],
                    ) by {
                        if k2 == out@.len() - 1 {
                            assert(out@[k1] == old_out[k1]);
                        } else {
                            assert(out@[k1] == old_out[k1] && out@[k2] == old_out[k2]);
                        }
                    }
                }
                assert forall|p: int|
                    needs_piece(mybitfield, p) && 1 <= holder_count(peers, p) && (holder_count(
                        peers,
                        p,
                    ) < c || (holder_count(peers, p) == c && p < i + 1)) implies exists|k: int|
                    0 <= k < out@.len() && #[trigger] out@[k].piece_id == p by {
                    if p == i && holder_count(peers, p) == c {
                        assert(holders@[p]@.len() == c);
                        assert(out@[out@.len() - 1].piece_id == p);
                    } else {
                        let k = choose|k: int| 0 <= k < old_out.len() && #[trigger] old_out[k].piece_id == p;
                        assert(out@[k] == old_out[k]);
                    }
                }
                i = i + 1;
            }
            assert forall|p: int|
                needs_piece(mybitfield, p) && 1 <= holder_count(peers, p) < c + 1 implies exists|k: int|
                0 <= k < out@.len() && #[trigger] out@[k].piece_id == p by {
                assert(p < n);
            }
            d = d + 1;
        }
        assert forall|p: int| needs_piece(mybitfield, p) && has_holder(peers, p) implies exists|k: int|
            0 <= k < out@.len() && #[trigger] out@[k].piece_id == p by {
            lemma_holder_count_bounds(peers, p);
        }
        out
    }
}

/// What peer `p`, with bitfield `b`, offers among its first `upto` bits: the pieces
/// it holds that the local side does not, in increasing order.
pub open spec fn peer_offers(local: BitVec, p: Peer, b: BitVec, upto: nat) -> Seq<PieceSelection>
    decreases upto,
{
    if upto == 0 {
        Seq::empty()
    } else {
        let prev = peer_offers(local, p, b, (upto - 1) as nat);
        let i = upto - 1;
        if has_bit(b, i) && !has_bit(local, i) {
            prev.push(PieceSelection { piece_id: i as u32, peer: p })
        } else {
            prev
        }
    }
}

/// Every offer of every peer, peer after peer.
pub open spec fn all_offers(local: BitVec, peers: Seq<(Peer, BitVec)>) -> Seq<PieceSelection>
    decreases peers.len(),
{
    if peers.len() == 0 {
        Seq::empty()
    } else {
        all_offers(local, peers.drop_last()) + peer_offers(
            local,
            peers.last().0,
            peers.last().1,
            bits_of(peers.last().1).len(),
        )
    }
}

/// Lists every (piece, peer) pair where the peer holds a piece that the local side does not.
#[derive(Debug)]
pub struct SimpleSelector;

impl SimpleSelector {
    /// Every piece that a peer holds and the local side does not, once per holder,
    /// peer after peer, each peer's pieces in increasing order.
    pub fn pieces_selection(mybitfield: BitVec, peers_bitfields: Vec<(Peer, BitVec)>) -> (r: Vec<
        PieceSelection,
    >)
        requires
            forall|j: int|
                0 <= j < peers_bitfields@.len() ==> bits_of(#[trigger] peers_bitfields@[j].1).len()
                    <= u32::MAX + 1,
        ensures
            r@ == all_offers(mybitfield, peers_bitfields@),
    {
        let mut out: Vec<PieceSelection> = Vec::new();
        let mut j: usize = 0;
        while j < peers_bitfields.len()
            invariant
                j <= peers_bitfields@.len(),
                forall|j: int|
                    0 <= j < peers_bitfields@.len() ==> bits_of(#[trigger] peers_bitfields@[j].1).len()
                        <= u32::MAX + 1,
                out@ == all_offers(mybitfield, peers_bitfields@.take(j as int)),
            decreases peers_bitfields@.len() - j,
        {
            let peer = peers_bitfields[j].0;
            let bits = &peers_bitfields[j].1;
            let n = bits_len(bits);
            let ghost before = out@;
            let mut i: usize = 0;
            while i < n
                invariant
                    i <= n,
                    n == bits_of(*bits).len(),
                    n <= u32::MAX + 1,
                    out@ == before + peer_offers(mybitfield, peer, *bits, i as nat),
                decreases n - i,
            {
                if bits_get(bits, i) == Some(true) && bits_get(&mybitfield, i) != Some(true) {
                    out.push(PieceSelection { piece_id: i as u32, peer });
                }
                i = i + 1;
            }
            assert(peers_bitfields@.take(j + 1).drop_last() =~= peers_bitfields@.take(j as int));
            assert(peers_bitfields@.take(j + 1).last() == peers_bitfields@[j as int]);
            j = j + 1;
        }
        assert(peers_bitfields@.take(j as int) =~= peers_bitfields@);
        out
    }
}

} // verus!
