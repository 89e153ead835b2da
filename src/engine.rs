//! The session engine: the state kept for each peer, and what to do on each event.
//!
//! The engine performs no I/O. Each handler takes an event (a connection made, a
//! message received, a piece read back from disk) and returns the actions that the
//! caller performs in order: send a message, close a connection, write or serve a
//! block, or verify a piece.
use crate::bits::{bits_clone, bits_filled, bits_get, bits_len, bits_of, bits_set};
use crate::messages::{
    Bitfield, Handshake, Have, Interested, Message, NotInterested, Request, Unchoke,
};
use crate::peer::Peer;
use crate::selection::{
    distinct_peers, has_bit, has_holder, is_holder, needs_piece, pieces_distinct, DistributedSelector,
    PieceSelection,
};
use crate::wire::same_20_bytes;
use crate::torrent::{expected_block_length, expected_blocks_in_piece, Torrent, BLOCK_SIZE};
use bit_vec::BitVec;
use sha1::Digest;
use vstd::prelude::*;

verus! {

/// How far the opening of a session with a peer has come.
#[derive(Debug, Clone, Copy, PartialEq, Eq, Structural)]
pub enum Phase {
    /// Known from the tracker, not connected yet.
    Unconnected,
    /// Connected; the peer's handshake has not arrived.
    AwaitingHandshake,
    /// Handshakes exchanged; a bitfield may come first.
    AwaitingBitfield,
    /// The session is open.
    Established,
}

/// What the engine knows of one peer.
#[derive(Debug)]
pub struct PeerState {
    pub peer: Peer,
    pub phase: Phase,
    /// We opened the connection (else the peer did).
    pub dialed: bool,
    pub am_interested: bool,
    pub am_choking: bool,
    pub peer_interested: bool,
    pub peer_choking: bool,
    /// The pieces the peer announced; all clear until its bitfield arrives.
    pub bitfield: BitVec,
    /// The blocks requested from the peer and not received yet: (piece, offset).
    pub outstanding: Vec<(u32, u32)>,
}

/// What the caller of the engine is to do.
#[derive(Debug)]
pub enum Action {
    /// Send a message to a peer.
    Send(Peer, Message),
    /// Close the connection to a peer; the engine has forgotten it.
    Close(Peer),
    /// Write a received block to the piece store.
    WriteBlock { piece_index: u32, begin_offset: u32, data: Vec<u8> },
    /// Read the requested block from the piece store and send it to the peer.
    ServeBlock(Peer, Request),
    /// Read a piece whose blocks have all arrived back from the store, and hand it to
    /// `Engine::verify_piece`.
    VerifyPiece(u32),
}

/// The peer that the action sends a request to, if it sends a request.
pub open spec fn request_target(a: Action) -> Option<Peer> {
    match a {
        Action::Send(p, Message::Request(_)) => Some(p),
        _ => None,
    }
}

/// The well-formedness of one peer's state in a torrent of `n` pieces: we are only
/// unchoked by, or interested in, a peer whose session is open.
pub open spec fn peer_state_wf(s: PeerState, n: int) -> bool {
    &&& bits_of(s.bitfield).len() >= n
    &&& (!s.peer_choking ==> s.phase == Phase::Established)
    &&& (s.am_interested ==> s.phase == Phase::Established)
    &&& forall|k: int| 0 <= k < s.outstanding@.len() ==> (#[trigger] s.outstanding@[k]).0 < n
}

/// A request may go to this peer: handshakes exchanged, `Interested` sent, unchoked.
pub open spec fn may_request(s: PeerState) -> bool {
    s.phase == Phase::Established && s.am_interested && !s.peer_choking
}

/// The action is a request to a peer that may be asked, in the states `ps`.
pub open spec fn request_allowed(ps: Seq<PeerState>, a: Action) -> bool {
    match request_target(a) {
        Some(p) => exists|q: int| 0 <= q < ps.len() && ps[q].peer == p && may_request(ps[q]),
        None => false,
    }
}

/// The pair is an open session's peer and the bits it announced.
pub open spec fn announced(ps: Seq<PeerState>, e: (Peer, BitVec)) -> bool {
    exists|q: int|
        0 <= q < ps.len() && ps[q].peer == e.0 && ps[q].phase == Phase::Established && bits_of(e.1)
            == bits_of(ps[q].bitfield)
}

/// Among the actions, an `Interested` sent to `p`.
pub open spec fn sends_interested(r: Seq<Action>, p: Peer) -> bool {
    exists|k: int| 0 <= k < r.len() && (#[trigger] r[k] matches Action::Send(q, Message::Interested(_)) && q == p)
}

/// Among the actions, a `NotInterested` sent to `p`.
pub open spec fn sends_not_interested(r: Seq<Action>, p: Peer) -> bool {
    exists|k: int| 0 <= k < r.len() && (#[trigger] r[k] matches Action::Send(q, Message::NotInterested(_)) && q == p)
}

/// How a message may move the two flags that requests depend on, from state `s` to
/// state `t` of one peer: only an `Unchoke` unchokes us, and we become interested
/// only by sending `Interested`.
pub open spec fn flag_links(s: PeerState, t: PeerState, msg: Message, r: Seq<Action>) -> bool {
    &&& (!(msg is Unchoke) && s.peer_choking ==> t.peer_choking)
    &&& (!s.am_interested && t.am_interested ==> sends_interested(r, s.peer))
}

/// The answer to a handshake for our torrent from the peer at `j`: our own handshake
/// if the peer dialed us, then our bitfield if we hold any piece.
pub open spec fn handshake_reply(e: Engine, j: int, r: Seq<Action>) -> bool {
    let s = e.peers@[j];
    let ours = if s.dialed { 0int } else { 1int };
    let bits = if holds_some(bits_of(e.local), e.n()) { 1int } else { 0int };
    &&& r.len() == ours + bits
    &&& (!s.dialed ==> (r[0] matches Action::Send(p, Message::Handshake(h)) && p == s.peer
        && h.info_hash@ == e.torrent.info_hash@ && h.peer_id@ == e.client_id@))
    &&& (holds_some(bits_of(e.local), e.n()) ==> (r[r.len() - 1] matches Action::Send(
        p,
        Message::Bitfield(b),
    ) && p == s.peer && bits_of(b.bitfield) == bits_of(e.local)))
}

/// We are interested in the open session `s`, which offers none of the pieces we lack.
pub open spec fn loses_interest(s: PeerState, local: Seq<bool>, n: int) -> bool {
    s.phase == Phase::Established && s.am_interested && !offers_wanted(s.bitfield, local, n)
}

/// The peers, in order, that `loses_interest` picks.
pub open spec fn losing_interest(ps: Seq<PeerState>, local: Seq<bool>, n: int) -> Seq<Peer>
    decreases ps.len(),
{
    if ps.len() == 0 {
        Seq::empty()
    } else {
        let prev = losing_interest(ps.drop_last(), local, n);
        if loses_interest(ps.last(), local, n) {
            prev.push(ps.last().peer)
        } else {
            prev
        }
    }
}

/// Two states of one peer that differ at most in our interest.
pub open spec fn same_but_interest(a: PeerState, b: PeerState) -> bool {
    &&& a.peer == b.peer
    &&& a.phase == b.phase
    &&& a.dialed == b.dialed
    &&& a.am_choking == b.am_choking
    &&& a.peer_interested == b.peer_interested
    &&& a.peer_choking == b.peer_choking
    &&& a.bitfield == b.bitfield
    &&& a.outstanding == b.outstanding
}

/// Some of the first `n` pieces is held.
pub open spec fn holds_some(local: Seq<bool>, n: int) -> bool {
    exists|i: int| 0 <= i < n && local[i]
}

/// The peer, with bitfield `b`, holds one of the first `n` pieces that we lack.
pub open spec fn offers_wanted(b: BitVec, local: Seq<bool>, n: int) -> bool {
    exists|i: int| 0 <= i < n && has_bit(b, i) && !local[i]
}

/// What a message does to an open session with the peer at `j`: `ps` and `qs` are
/// the peers' states before and after, `local` the pieces held, `r` the actions.
pub open spec fn established_effect(
    ps: Seq<PeerState>,
    qs: Seq<PeerState>,
    j: int,
    msg: Message,
    local: Seq<bool>,
    r: Seq<Action>,
) -> bool {
    let s = ps[j];
    let t = qs[j];
    if msg is Handshake || msg is Bitfield {
        qs == ps.remove(j) && r == seq![Action::Close(s.peer)]
    } else {
        &&& qs.len() == ps.len()
        &&& t.peer == s.peer
        &&& t.phase == Phase::Established
        &&& (msg is Choke ==> t.peer_choking && r.len() == 0)
        &&& (msg is Unchoke ==> !t.peer_choking && r.len() == 0)
        &&& (msg is Interested ==> t.peer_interested && !t.am_choking && (if s.am_choking {
            r.len() == 1 && (r[0] matches Action::Send(p, Message::Unchoke(_)) && p == s.peer)
        } else {
            r.len() == 0
        }))
        &&& (msg is NotInterested ==> !t.peer_interested && r.len() == 0)
        &&& flag_links(s, t, msg, r)
        &&& (!(msg is Choke) && !(msg is Unchoke) ==> t.peer_choking == s.peer_choking)
        &&& (s.am_interested && !t.am_interested ==> sends_not_interested(r, s.peer))
        &&& ((msg is KeepAlive || msg is Cancel || msg is Port) ==> r.len() == 0 && t.am_interested
            == s.am_interested)
        &&& (msg matches Message::Request(q) ==> if !s.am_choking && (q.piece_index as int)
            < local.len() && local[q.piece_index as int] {
            r == seq![Action::ServeBlock(s.peer, q)]
        } else {
            r.len() == 0
        })
    }
}

/// What a block from a peer does: `s` is the peer's state before, `blocks` the number of
/// blocks of the piece, `br` and `br2` the block counts before and after. A block that
/// was not requested from the peer is dropped; one that was is written and counted,
/// unless its piece already has all its blocks, and a piece that becomes whole is
/// sent for verification.
pub open spec fn piece_effect(
    s: PeerState,
    blocks: int,
    br: Seq<usize>,
    br2: Seq<usize>,
    piece_index: u32,
    begin_offset: u32,
    data: Seq<u8>,
    r: Seq<Action>,
) -> bool {
    let i = piece_index as int;
    if !s.outstanding@.contains((piece_index, begin_offset)) {
        br2 == br && r.len() == 0
    } else if br[i] < blocks {
        &&& br2 == br.update(i, (br[i] + 1) as usize)
        &&& r.len() >= 1
        &&& (r[0] matches Action::WriteBlock { piece_index: pi, begin_offset: bo, data: d }
            && pi == piece_index && bo == begin_offset && d@ == data)
        &&& (br[i] + 1 == blocks ==> r.len() >= 2 && r[1] == Action::VerifyPiece(piece_index))
    } else {
        br2 == br && forall|k: int| 0 <= k < r.len() ==> !(r[k] is WriteBlock)
    }
}

/// Block `b` of piece `i`, as a request.
pub open spec fn block_request(t: Torrent, i: u32, b: int) -> Request {
    Request {
        piece_index: i,
        begin_offset: (b * BLOCK_SIZE) as u32,
        piece_length: t.block_length(i as int, b) as u32,
    }
}

/// The (piece, offset) pairs of all the blocks of piece `i`, in order.
pub open spec fn piece_requests(t: Torrent, i: u32) -> Seq<(u32, u32)> {
    Seq::new(t.blocks_in_piece(i as int) as nat, |b: int| (i, (b * BLOCK_SIZE) as u32))
}

/// The requests for all the blocks of piece `i`, in order, sent to `p`.
pub open spec fn piece_request_actions(p: Peer, t: Torrent, i: u32) -> Seq<Action> {
    Seq::new(
        t.blocks_in_piece(i as int) as nat,
        |b: int| Action::Send(p, Message::Request(block_request(t, i, b))),
    )
}

/// Two states of one peer that differ at most in the blocks in flight.
pub open spec fn same_but_outstanding(a: PeerState, b: PeerState) -> bool {
    &&& a.peer == b.peer
    &&& a.phase == b.phase
    &&& a.dialed == b.dialed
    &&& a.am_interested == b.am_interested
    &&& a.am_choking == b.am_choking
    &&& a.peer_interested == b.peer_interested
    &&& a.peer_choking == b.peer_choking
    &&& a.bitfield == b.bitfield
}

/// The requests that a round of dispatch added for one peer, from state `s` to
/// state `t`: those for every block of the piece that joined its blocks in flight.
pub open spec fn added_requests(s: PeerState, t: PeerState, torrent: Torrent) -> Seq<Action> {
    if t.outstanding@.len() > s.outstanding@.len() {
        piece_request_actions(s.peer, torrent, t.outstanding@[s.outstanding@.len() as int].0)
    } else {
        Seq::empty()
    }
}

/// The requests of a round of dispatch over the first `upto` peers, peer after peer.
pub open spec fn dispatch_actions(
    ps: Seq<PeerState>,
    qs: Seq<PeerState>,
    torrent: Torrent,
    upto: nat,
) -> Seq<Action>
    decreases upto,
{
    if upto == 0 {
        Seq::empty()
    } else {
        dispatch_actions(ps, qs, torrent, (upto - 1) as nat) + added_requests(
            ps[upto - 1],
            qs[upto - 1],
            torrent,
        )
    }
}

proof fn lemma_dispatch_actions_prefix(
    ps: Seq<PeerState>,
    qs1: Seq<PeerState>,
    qs2: Seq<PeerState>,
    torrent: Torrent,
    upto: nat,
)
    requires
        forall|q: int| 0 <= q < upto ==> qs1[q] == qs2[q],
    ensures
        dispatch_actions(ps, qs1, torrent, upto) == dispatch_actions(ps, qs2, torrent, upto),
    decreases upto,
{
    if upto > 0 {
        lemma_dispatch_actions_prefix(ps, qs1, qs2, torrent, (upto - 1) as nat);
    }
}

/// Some assignment gives piece `i` to peer `p`.
pub open spec fn assigned(assignments: Seq<PieceSelection>, p: Peer, i: u32) -> bool {
    exists|k: int| 0 <= k < assignments.len() && assignments[k].peer == p && assignments[k].piece_id == i
}

/// The action is a request, to a peer, for a piece assigned to that peer and not
/// requested in `requested`.
pub open spec fn request_fits(
    assignments: Seq<PieceSelection>,
    requested: Seq<bool>,
    a: Action,
    local: Seq<bool>,
) -> bool {
    match a {
        Action::Send(p, Message::Request(q)) => assigned(assignments, p, q.piece_index) && (
        q.piece_index as int) < requested.len() && !requested[q.piece_index as int]
            && !local[q.piece_index as int],
        _ => false,
    }
}

/// What a round of dispatch does to one peer: nothing, or, to a peer that may be
/// asked, the requests for every block of one piece assigned to it that was not
/// requested before the round.
pub open spec fn dispatch_outcome(
    assignments: Seq<PieceSelection>,
    s: PeerState,
    t: PeerState,
    torrent: Torrent,
    requested: Seq<bool>,
    local: Seq<bool>,
) -> bool {
    &&& same_but_outstanding(s, t)
    &&& (t.outstanding@ == s.outstanding@ || exists|i: u32|
        may_request(s) && assigned(assignments, s.peer, i) && (i as int) < requested.len()
            && !requested[i as int] && !local[i as int] && #[trigger] t.outstanding@ == s.outstanding@ + piece_requests(
            torrent,
            i,
        ))
}

/// Some assignment gives peer `p` a piece that is neither requested in `requested`
/// nor held in `local`.
pub open spec fn has_unrequested_assignment(
    assignments: Seq<PieceSelection>,
    p: Peer,
    requested: Seq<bool>,
    local: Seq<bool>,
) -> bool {
    exists|k: int|
        0 <= k < assignments.len() && assignments[k].peer == p && (assignments[k].piece_id as int)
            < requested.len() && !requested[#[trigger] assignments[k].piece_id as int]
            && !local[assignments[k].piece_id as int]
}

/// A block of a piece already held is neither counted nor written.
pub open spec fn held_block_dropped(
    local: Seq<bool>,
    piece_index: u32,
    br: Seq<usize>,
    br2: Seq<usize>,
    r: Seq<Action>,
) -> bool {
    (piece_index as int) < local.len() && local[piece_index as int] ==> br2 == br && forall|k: int|
        0 <= k < r.len() ==> !(r[k] is WriteBlock)
}

/// A bitfield fits a torrent of `n` pieces: one bit per piece, padded with clear bits
/// to a whole number of bytes.
pub open spec fn fits_torrent(bits: Seq<bool>, n: int) -> bool {
    bits.len() == 8 * ((n + 7) / 8) && forall|i: int| n <= i < bits.len() ==> !bits[i]
}

/// Peer `p` is known and not connected yet.
pub open spec fn is_unconnected(ps: Seq<PeerState>, p: Peer) -> bool {
    exists|j: int| 0 <= j < ps.len() && ps[j].peer == p && ps[j].phase == Phase::Unconnected
}

/// The peers whose session is open, in order.
pub open spec fn established_peers(ps: Seq<PeerState>) -> Seq<Peer>
    decreases ps.len(),
{
    if ps.len() == 0 {
        Seq::empty()
    } else {
        let prev = established_peers(ps.drop_last());
        if ps.last().phase == Phase::Established {
            prev.push(ps.last().peer)
        } else {
            prev
        }
    }
}

/// The name of what SHA-1 gives for a sequence of bytes.
pub uninterp spec fn sha1_of(data: Seq<u8>) -> Seq<u8>;

/// Relies on sha1's `Sha1::digest`: the 20-byte SHA-1 digest, a function of the bytes alone.
#[verifier::external_body]
pub(crate) fn sha1_digest(data: &[u8]) -> (r: [u8; 20])
    ensures
        r@ == sha1_of(data@),
{
    sha1::Sha1::digest(data).into()
}

/// The state of the whole swarm as this client sees it.
#[derive(Debug)]
pub struct Engine {
    pub torrent: Torrent,
    pub client_id: [u8; 20],
    /// The pieces held and verified.
    pub local: BitVec,
    /// The pieces whose blocks have been requested from some peer.
    pub requested: BitVec,
    /// For each piece, how many of its blocks have been received.
    pub blocks_received: Vec<usize>,
    pub peers: Vec<PeerState>,
}

impl Engine {
    pub open spec fn n(&self) -> int {
        self.torrent.number_of_pieces as int
    }

    pub open spec fn wf(&self) -> bool {
        &&& self.torrent.wf()
        &&& bits_of(self.local).len() == self.n()
        &&& bits_of(self.requested).len() == self.n()
        &&& self.blocks_received@.len() == self.n()
        &&& self.torrent.piece_hashes@.len() == self.n()
        &&& forall|i: int|
            0 <= i < self.n() ==> #[trigger] self.blocks_received@[i]
                <= self.torrent.blocks_in_piece(i)
        &&& forall|i: int|
            0 <= i < self.n() && #[trigger] bits_of(self.local)[i] ==> self.blocks_received@[i]
                == self.torrent.blocks_in_piece(i)
        &&& forall|j: int| 0 <= j < self.peers@.len() ==> peer_state_wf(#[trigger] self.peers@[j], self.n())
        &&& forall|j1: int, j2: int|
            0 <= j1 < self.peers@.len() && 0 <= j2 < self.peers@.len() && j1 != j2
                ==> #[trigger] self.peers@[j1].peer != #[trigger] self.peers@[j2].peer
    }

    /// An engine for a torrent, with the pieces found verified on disk.
    pub fn new(torrent: Torrent, client_id: [u8; 20], local: BitVec) -> (r: Engine)
        requires
            torrent.wf(),
            bits_of(local).len() == torrent.number_of_pieces,
            torrent.piece_hashes@.len() == torrent.number_of_pieces,
        ensures
            r.wf(),
            bits_of(r.local) == bits_of(local),
            bits_of(r.requested) == Seq::new(torrent.number_of_pieces as nat, |_i: int| false),
            r.blocks_received@ == Seq::new(
                torrent.number_of_pieces as nat,
                |i: int|
                    if bits_of(local)[i] {
                        torrent.blocks_in_piece(i) as usize
                    } else {
                        0usize
                    },
            ),
            r.peers@.len() == 0,
            r.torrent == torrent,
            r.client_id == client_id,
    {
        let n = torrent.number_of_pieces as usize;
        let requested = bits_filled(n, false);
        let mut blocks_received: Vec<usize> = Vec::new();
        let mut i: usize = 0;
        while i < n
            invariant
                i <= n,
                n == torrent.number_of_pieces,
                torrent.wf(),
                bits_of(local).len() == n,
                blocks_received@.len() == i,
                forall|k: int|
                    0 <= k < i ==> blocks_received@[k] == if bits_of(local)[k] {
                        torrent.blocks_in_piece(k) as usize
                    } else {
                        0usize
                    },
                forall|k: int| 0 <= k < i ==> blocks_received@[k] <= torrent.blocks_in_piece(k),
            decreases n - i,
        {
            if bits_get(&local, i) == Some(true) {
                let blocks = expected_blocks_in_piece(i as u32, &torrent);
                blocks_received.push(blocks);
            } else {
                blocks_received.push(0);
            }
            i = i + 1;
        }
        assert(blocks_received@ =~= Seq::new(
            torrent.number_of_pieces as nat,
            |i: int|
                if bits_of(local)[i] {
                    torrent.blocks_in_piece(i) as usize
                } else {
                    0usize
                },
        ));
        Engine { torrent, client_id, local, requested, blocks_received, peers: Vec::new() }
    }

    /// The position of `peer` among the known peers.
    pub fn find_peer(&self, peer: Peer) -> (r: Option<usize>)
        ensures
            r matches Some(j) ==> j < self.peers@.len() && self.peers@[j as int].peer == peer,
            r is None ==> forall|j: int| 0 <= j < self.peers@.len() ==> self.peers@[j].peer != peer,
    {
        let mut j: usize = 0;
        while j < self.peers.len()
            invariant
                j <= self.peers@.len(),
                forall|k: int| 0 <= k < j ==> self.peers@[k].peer != peer,
            decreases self.peers@.len() - j,
        {
            if self.peers[j].peer == peer {
                return Some(j);
            }
            j = j + 1;
        }
        None
    }

    /// A fresh state for a peer: not interested, choking, nothing announced.
    fn fresh_state(&self, peer: Peer, phase: Phase, dialed: bool) -> (r: PeerState)
        requires
            self.wf(),
            phase != Phase::Established,
        ensures
            peer_state_wf(r, self.n()),
            r.peer == peer,
            r.phase == phase,
            r.dialed == dialed,
            r.outstanding@.len() == 0,
    {
        let n = bits_len(&self.local);
        PeerState {
            peer,
            phase,
            dialed,
            am_interested: false,
            am_choking: true,
            peer_interested: false,
            peer_choking: true,
            bitfield: bits_filled(n, false),
            outstanding: Vec::new(),
        }
    }

    /// Records a peer that the tracker returned; a peer already known is left as it is.
    pub fn add_peer(&mut self, peer: Peer)
        requires
            old(self).wf(),
        ensures
            final(self).wf(),
            exists|j: int| 0 <= j < final(self).peers@.len() && final(self).peers@[j].peer == peer,
    {
        match self.find_peer(peer) {
            Some(_) => {},
            None => {
                let st = self.fresh_state(peer, Phase::Unconnected, true);
                self.peers.push(st);
                assert(self.peers@[self.peers@.len() - 1].peer == peer);
            },
        }
    }

    /// The peers still to dial.
    pub fn peers_to_connect(&self) -> (r: Vec<Peer>)
        ensures
            forall|k: int| 0 <= k < r@.len() ==> is_unconnected(self.peers@, #[trigger] r@[k]),
            forall|j: int|
                0 <= j < self.peers@.len() && (#[trigger] self.peers@[j]).phase == Phase::Unconnected
                    ==> r@.contains(self.peers@[j].peer),
    {
        let mut r: Vec<Peer> = Vec::new();
        let mut j: usize = 0;
        while j < self.peers.len()
            invariant
                j <= self.peers@.len(),
                forall|k: int| 0 <= k < r@.len() ==> is_unconnected(self.peers@, #[trigger] r@[k]),
                forall|q: int|
                    0 <= q < j && (#[trigger] self.peers@[q]).phase == Phase::Unconnected
                        ==> r@.contains(self.peers@[q].peer),
            decreases self.peers@.len() - j,
        {
            if self.peers[j].phase == Phase::Unconnected {
                let ghost before = r@;
                assert(is_unconnected(self.peers@, self.peers@[j as int].peer));
                r.push(self.peers[j].peer);
                assert forall|k: int| 0 <= k < r@.len() implies is_unconnected(self.peers@, #[trigger] r@[k]) by {
                    if k < before.len() {
                        assert(r@[k] == before[k]);
                    }
                }
                assert forall|q: int|
                    0 <= q < j + 1 && (#[trigger] self.peers@[q]).phase == Phase::Unconnected
                        implies r@.contains(self.peers@[q].peer) by {
                    if q < j {
                        let x = choose|x: int| 0 <= x < before.len() && before[x] == self.peers@[q].peer;
                        assert(r@[x] == before[x]);
                    } else {
                        assert(r@[r@.len() - 1] == self.peers@[q].peer);
                    }
                }
            }
            j = j + 1;
        }
        r
    }

    /// The handshake this client sends.
    fn own_handshake(&self) -> (r: Message)
        ensures
            r matches Message::Handshake(h) && h.info_hash@ == self.torrent.info_hash@ && h.peer_id@
                == self.client_id@,
    {
        Message::Handshake(Handshake::new(self.torrent.info_hash, self.client_id))
    }

    /// A connection to `peer` is up: we dialed it, and send our handshake first, or it
    /// dialed us, and we wait for its handshake.
    pub fn on_connected(&mut self, peer: Peer, dialed: bool) -> (r: Vec<Action>)
        requires
            old(self).wf(),
        ensures
            final(self).wf(),
            exists|j: int|
                0 <= j < final(self).peers@.len() && final(self).peers@[j].peer == peer
                    && final(self).peers@[j].phase == Phase::AwaitingHandshake,
            dialed ==> r@.len() == 1 && (r@[0] matches Action::Send(p, Message::Handshake(_)) && p == peer),
            !dialed ==> r@.len() == 0,
    {
        let st = self.fresh_state(peer, Phase::AwaitingHandshake, dialed);
        match self.find_peer(peer) {
            Some(j) => {
                self.forget_outstanding(j);
                self.peers.set(j, st);
                assert(self.peers@[j as int].peer == peer);
            },
            None => {
                self.peers.push(st);
                assert(self.peers@[self.peers@.len() - 1].peer == peer);
            },
        }
        let mut r: Vec<Action> = Vec::new();
        if dialed {
            r.push(Action::Send(peer, self.own_handshake()));
        }
        r
    }

    /// Makes the pieces not held whose blocks were in flight to peer `j` assignable again.
    fn forget_outstanding(&mut self, j: usize)
        requires
            old(self).wf(),
            j < old(self).peers@.len(),
        ensures
            final(self).wf(),
            final(self).peers@ == old(self).peers@,
            final(self).torrent == old(self).torrent,
            bits_of(final(self).local) == bits_of(old(self).local),
            forall|k: int|
                0 <= k < old(self).peers@[j as int].outstanding@.len() && !bits_of(old(self).local)[(
                #[trigger] old(self).peers@[j as int].outstanding@[k]).0 as int] ==> !bits_of(
                    final(self).requested,
                )[old(self).peers@[j as int].outstanding@[k].0 as int],
    {
        let mut k: usize = 0;
        let count = self.peers[j].outstanding.len();
        while k < count
            invariant
                self.wf(),
                j < self.peers@.len(),
                count == self.peers@[j as int].outstanding@.len(),
                self.peers@ == old(self).peers@,
                self.torrent == old(self).torrent,
                bits_of(self.local) == bits_of(old(self).local),
                k <= count,
                forall|x: int|
                    0 <= x < k && !bits_of(self.local)[(
                    #[trigger] old(self).peers@[j as int].outstanding@[x]).0 as int] ==> !bits_of(
                        self.requested,
                    )[old(self).peers@[j as int].outstanding@[x].0 as int],
            decreases count - k,
        {
            let piece = self.peers[j].outstanding[k].0;
            assert(peer_state_wf(self.peers@[j as int], self.n()));
            if bits_get(&self.local, piece as usize) == Some(false) {
                bits_set(&mut self.requested, piece as usize, false);
                self.blocks_received.set(piece as usize, 0);
            }
            k = k + 1;
        }
    }

    /// Forgets peer `j`, whose connection is to be closed.
    fn drop_peer(&mut self, j: usize) -> (r: Action)
        requires
            old(self).wf(),
            j < old(self).peers@.len(),
        ensures
            final(self).wf(),
            final(self).peers@ == old(self).peers@.remove(j as int),
            r == Action::Close(old(self).peers@[j as int].peer),
            bits_of(final(self).local) == bits_of(old(self).local),
            forall|k: int|
                0 <= k < old(self).peers@[j as int].outstanding@.len() && !bits_of(old(self).local)[(
                #[trigger] old(self).peers@[j as int].outstanding@[k]).0 as int] ==> !bits_of(
                    final(self).requested,
                )[old(self).peers@[j as int].outstanding@[k].0 as int],
    {
        self.forget_outstanding(j);
        let st = self.peers.remove(j);
        let ghost ps = self.peers@;
        assert forall|a: int, b: int|
            0 <= a < ps.len() && 0 <= b < ps.len() && a != b implies #[trigger] ps[a].peer
            != #[trigger] ps[b].peer by {
            let oa = if a < j { a } else { a + 1 };
            let ob = if b < j { b } else { b + 1 };
            assert(ps[a] == old(self).peers@[oa] && ps[b] == old(self).peers@[ob]);
        }
        assert forall|a: int| 0 <= a < ps.len() implies peer_state_wf(#[trigger] ps[a], self.n()) by {
            let oa = if a < j { a } else { a + 1 };
            assert(ps[a] == old(self).peers@[oa]);
        }
        Action::Close(st.peer)
    }

    /// The connection to `peer` failed or ended: the engine forgets the peer, and what
    /// was in flight to it becomes assignable again.
    pub fn on_disconnected(&mut self, peer: Peer)
        requires
            old(self).wf(),
        ensures
            final(self).wf(),
            forall|j: int| 0 <= j < final(self).peers@.len() ==> final(self).peers@[j].peer != peer,
            forall|j: int, k: int|
                0 <= j < old(self).peers@.len() && old(self).peers@[j].peer == peer && 0 <= k
                    < old(self).peers@[j].outstanding@.len() && !bits_of(old(self).local)[(
                #[trigger] old(self).peers@[j].outstanding@[k]).0 as int] ==> !bits_of(
                    final(self).requested,
                )[old(self).peers@[j].outstanding@[k].0 as int],
    {
        match self.find_peer(peer) {
            Some(j) => {
                self.drop_peer(j);
                assert forall|a: int| 0 <= a < self.peers@.len() implies self.peers@[a].peer != peer by {
                    let oa = if a < j { a } else { a + 1 };
                    assert(self.peers@[a] == old(self).peers@[oa]);
                }
            },
            None => {},
        }
    }

    /// Whether peer `j` holds a piece that we lack.
    pub fn wants_from(&self, j: usize) -> (r: bool)
        requires
            self.wf(),
            j < self.peers@.len(),
        ensures
            r == exists|i: int|
                0 <= i < self.n() && has_bit(self.peers@[j as int].bitfield, i) && !bits_of(
                    self.local,
                )[i],
    {
        let n = bits_len(&self.local);
        let mut i: usize = 0;
        assert(peer_state_wf(self.peers@[j as int], self.n()));
        while i < n
            invariant
                self.wf(),
                j < self.peers@.len(),
                n == self.n(),
                i <= n,
                forall|p: int|
                    0 <= p < i ==> !(has_bit(self.peers@[j as int].bitfield, p) && !bits_of(
                        self.local,
                    )[p]),
            decreases n - i,
        {
            if bits_get(&self.peers[j].bitfield, i) == Some(true) && bits_get(&self.local, i) == Some(
                false,
            ) {
                return true;
            }
            i = i + 1;
        }
        false
    }

    /// Handles a message from peer `j` while its handshake is awaited: a handshake
    /// for our torrent opens the session (a peer that dialed us gets our handshake,
    /// and every peer gets our bitfield if we hold any piece); anything else closes it.
    fn handle_handshake(&mut self, j: usize, msg: Message) -> (r: Vec<Action>)
        requires
            old(self).wf(),
            j < old(self).peers@.len(),
            old(self).peers@[j as int].phase == Phase::AwaitingHandshake,
        ensures
            final(self).wf(),
            forall|k: int| 0 <= k < r@.len() ==> request_target(#[trigger] r@[k]) is None,
            (msg matches Message::Handshake(h) && h.info_hash@ == old(self).torrent.info_hash@) ==> (
            final(self).peers@.len() == old(self).peers@.len() && final(self).peers@[j as int].phase
                == Phase::AwaitingBitfield && handshake_reply(*old(self), j as int, r@)
                && flag_links(old(self).peers@[j as int], final(self).peers@[j as int], msg, r@)
                && final(self).peers@[j as int].peer == old(self).peers@[j as int].peer),
            !(msg matches Message::Handshake(h) && h.info_hash@ == old(self).torrent.info_hash@) ==> (
            final(self).peers@ == old(self).peers@.remove(j as int) && r@.len() == 1 && r@[0]
                == Action::Close(old(self).peers@[j as int].peer)),
    {
        let mut r: Vec<Action> = Vec::new();
        let matches = match &msg {
            Message::Handshake(h) => same_20_bytes(&h.info_hash, &self.torrent.info_hash),
            _ => false,
        };
        if !matches {
            let a = self.drop_peer(j);
            r.push(a);
            return r;
        }
        let peer = self.peers[j].peer;
        if !self.peers[j].dialed {
            r.push(Action::Send(peer, self.own_handshake()));
        }
        if self.holds_any() {
            let bits = bits_clone(&self.local);
            r.push(Action::Send(peer, Message::Bitfield(Bitfield::new(bits))));
        }
        self.peers[j].phase = Phase::AwaitingBitfield;
        r
    }

    /// Whether we hold at least one piece.
    pub fn holds_any(&self) -> (r: bool)
        requires
            self.wf(),
        ensures
            r == exists|i: int| 0 <= i < self.n() && bits_of(self.local)[i],
    {
        let n = bits_len(&self.local);
        let mut i: usize = 0;
        while i < n
            invariant
                n == self.n(),
                n == bits_of(self.local).len(),
                i <= n,
                forall|p: int| 0 <= p < i ==> !bits_of(self.local)[p],
            decreases n - i,
        {
            if bits_get(&self.local, i) == Some(true) {
                return true;
            }
            i = i + 1;
        }
        false
    }

    /// Whether every piece is held.
    pub fn is_complete(&self) -> (r: bool)
        requires
            self.wf(),
        ensures
            r == forall|i: int| 0 <= i < self.n() ==> bits_of(self.local)[i],
    {
        let n = bits_len(&self.local);
        let mut i: usize = 0;
        while i < n
            invariant
                n == self.n(),
                n == bits_of(self.local).len(),
                i <= n,
                forall|p: int| 0 <= p < i ==> bits_of(self.local)[p],
            decreases n - i,
        {
            if bits_get(&self.local, i) == Some(false) {
                return false;
            }
            i = i + 1;
        }
        true
    }

    /// Whether a bitfield fits the torrent: one bit per piece, padded with clear bits
    /// to a whole number of bytes.
    pub fn bitfield_fits(&self, b: &BitVec) -> (r: bool)
        requires
            self.wf(),
        ensures
            r == fits_torrent(bits_of(*b), self.n()),
    {
        let n = bits_len(&self.local);
        let len = bits_len(b);
        let whole: u64 = (n as u64 + 7) / 8 * 8;
        if len as u64 != whole {
            return false;
        }
        let mut i: usize = n;
        while i < len
            invariant
                n == self.n(),
                len == bits_of(*b).len(),
                n <= i <= len,
                forall|p: int| n <= p < i ==> !bits_of(*b)[p],
            decreases len - i,
        {
            if bits_get(b, i) == Some(true) {
                return false;
            }
            i = i + 1;
        }
        true
    }

    /// Handles the bitfield that opens an established session with peer `j`: one that
    /// fits is recorded, and we say we are interested if the peer holds a piece we
    /// lack; one that does not fit closes the session.
    fn handle_bitfield(&mut self, j: usize, b: Bitfield) -> (r: Vec<Action>)
        requires
            old(self).wf(),
            j < old(self).peers@.len(),
            old(self).peers@[j as int].phase == Phase::AwaitingBitfield,
        ensures
            final(self).wf(),
            forall|k: int| 0 <= k < r@.len() ==> request_target(#[trigger] r@[k]) is None,
            fits_torrent(bits_of(b.bitfield), old(self).n()) ==> final(self).peers@.len()
                == old(self).peers@.len() && final(self).peers@[j as int].phase == Phase::Established
                && bits_of(final(self).peers@[j as int].bitfield) == bits_of(b.bitfield)
                && final(self).peers@[j as int].peer == old(self).peers@[j as int].peer
                && final(self).peers@[j as int].peer_choking == old(self).peers@[j as int].peer_choking
                && final(self).peers@[j as int].am_interested == offers_wanted(
                b.bitfield,
                bits_of(old(self).local),
                old(self).n(),
            ) && (if offers_wanted(b.bitfield, bits_of(old(self).local), old(self).n()) {
                r@.len() == 1 && (r@[0] matches Action::Send(p, Message::Interested(_)) && p == old(
                    self,
                ).peers@[j as int].peer)
            } else {
                r@.len() == 0
            }),
            !fits_torrent(bits_of(b.bitfield), old(self).n()) ==> final(self).peers@
                == old(self).peers@.remove(j as int) && r@ == seq![
                Action::Close(old(self).peers@[j as int].peer),
            ],
    {
        let mut r: Vec<Action> = Vec::new();
        if !self.bitfield_fits(&b.bitfield) {
            let a = self.drop_peer(j);
            r.push(a);
            return r;
        }
        self.peers[j].bitfield = b.bitfield;
        self.peers[j].phase = Phase::Established;
        if self.wants_from(j) {
            self.peers[j].am_interested = true;
            let peer = self.peers[j].peer;
            r.push(Action::Send(peer, Message::Interested(Interested::new())));
        }
        r
    }

    /// Handles a block from peer `j`. A block that was requested from it is written,
    /// counted, and sent for verification once its piece is whole; a block that was
    /// not requested, or that would count past the piece's blocks, is dropped.
    fn handle_piece(&mut self, j: usize, piece_index: u32, begin_offset: u32, data: Vec<u8>) -> (r:
        Vec<Action>)
        requires
            old(self).wf(),
            j < old(self).peers@.len(),
            old(self).peers@[j as int].phase == Phase::Established,
        ensures
            final(self).wf(),
            final(self).peers@.len() == old(self).peers@.len(),
            final(self).peers@[j as int].peer == old(self).peers@[j as int].peer,
            final(self).peers@[j as int].phase == Phase::Established,
            final(self).peers@[j as int].peer_choking == old(self).peers@[j as int].peer_choking,
            final(self).peers@[j as int].am_interested ==> old(self).peers@[j as int].am_interested,
            old(self).peers@[j as int].am_interested && !final(self).peers@[j as int].am_interested
                ==> sends_not_interested(r@, old(self).peers@[j as int].peer),
            forall|k: int| 0 <= k < r@.len() ==> request_target(#[trigger] r@[k]) is None,
            piece_effect(
                old(self).peers@[j as int],
                old(self).torrent.blocks_in_piece(piece_index as int),
                old(self).blocks_received@,
                final(self).blocks_received@,
                piece_index,
                begin_offset,
                data@,
                r@,
            ),
            held_block_dropped(
                bits_of(old(self).local),
                piece_index,
                old(self).blocks_received@,
                final(self).blocks_received@,
                r@,
            ),
    {
        let mut r: Vec<Action> = Vec::new();
        let mut k: usize = 0;
        let mut found = false;
        let count = self.peers[j].outstanding.len();
        while k < count && !found
            invariant
                j < self.peers@.len(),
                count == self.peers@[j as int].outstanding@.len(),
                k <= count,
                self.peers@ == old(self).peers@,
                found ==> k < count && self.peers@[j as int].outstanding@[k as int] == (
                    piece_index,
                    begin_offset,
                ),
                !found ==> forall|q: int|
                    0 <= q < k ==> self.peers@[j as int].outstanding@[q] != (piece_index, begin_offset),
            decreases count - k + if found { 0int } else { 1int },
        {
            let (p, o) = self.peers[j].outstanding[k];
            if p == piece_index && o == begin_offset {
                found = true;
            } else {
                k = k + 1;
            }
        }
        if !found {
            assert(!old(self).peers@[j as int].outstanding@.contains((piece_index, begin_offset)));
            return r;
        }
        assert(old(self).peers@[j as int].outstanding@.contains((piece_index, begin_offset)));
        assert(peer_state_wf(self.peers@[j as int], self.n()));
        assert(self.peers@[j as int].outstanding@[k as int].0 < self.n());
        let ghost before = self.peers@[j as int];
        self.peers[j].outstanding.remove(k);
        assert forall|q: int| 0 <= q < self.peers@[j as int].outstanding@.len() implies (
        #[trigger] self.peers@[j as int].outstanding@[q]).0 < self.n() by {
            let oq = if q < k { q } else { q + 1 };
            assert(self.peers@[j as int].outstanding@[q] == before.outstanding@[oq]);
        }
        assert(peer_state_wf(self.peers@[j as int], self.n()));
        let i = piece_index as usize;
        let blocks = expected_blocks_in_piece(piece_index, &self.torrent);
        if self.blocks_received[i] < blocks {
            let received = self.blocks_received[i] + 1;
            self.blocks_received.set(i, received);
            r.push(Action::WriteBlock { piece_index, begin_offset, data });
            if received == blocks {
                r.push(Action::VerifyPiece(piece_index));
            }
        }
        if self.peers[j].am_interested && !self.wants_from(j) {
            self.peers[j].am_interested = false;
            let peer = self.peers[j].peer;
            r.push(Action::Send(peer, Message::NotInterested(NotInterested::new())));
            assert(r@[r@.len() - 1] matches Action::Send(q, Message::NotInterested(_)) && q == peer);
        }
        r
    }

    /// Handles a message from peer `j`, whose session is open.
    fn handle_established(&mut self, j: usize, msg: Message) -> (r: Vec<Action>)
        requires
            old(self).wf(),
            j < old(self).peers@.len(),
            old(self).peers@[j as int].phase == Phase::Established,
        ensures
            final(self).wf(),
            forall|k: int| 0 <= k < r@.len() ==> request_target(#[trigger] r@[k]) is None,
            established_effect(
                old(self).peers@,
                final(self).peers@,
                j as int,
                msg,
                bits_of(old(self).local),
                r@,
            ),
            msg matches Message::Piece(p) ==> piece_effect(
                old(self).peers@[j as int],
                old(self).torrent.blocks_in_piece(p.piece_index as int),
                old(self).blocks_received@,
                final(self).blocks_received@,
                p.piece_index,
                p.begin_offset_of_piece,
                p.data@,
                r@,
            ) && held_block_dropped(
                bits_of(old(self).local),
                p.piece_index,
                old(self).blocks_received@,
                final(self).blocks_received@,
                r@,
            ),
    {
        let mut r: Vec<Action> = Vec::new();
        let peer = self.peers[j].peer;
        match msg {
            Message::Choke(_) => {
                self.peers[j].peer_choking = true;
            },
            Message::Unchoke(_) => {
                self.peers[j].peer_choking = false;
            },
            Message::Interested(_) => {
                self.peers[j].peer_interested = true;
                if self.peers[j].am_choking {
                    self.peers[j].am_choking = false;
                    r.push(Action::Send(peer, Message::Unchoke(Unchoke::new())));
                }
            },
            Message::NotInterested(_) => {
                self.peers[j].peer_interested = false;
            },
            Message::Have(h) => {
                let i = h.piece_index;
                if (i as usize) < bits_len(&self.local) {
                    assert(peer_state_wf(self.peers@[j as int], self.n()));
                    bits_set(&mut self.peers[j].bitfield, i as usize, true);
                    if !self.peers[j].am_interested && bits_get(&self.local, i as usize) == Some(
                        false,
                    ) {
                        self.peers[j].am_interested = true;
                        r.push(Action::Send(peer, Message::Interested(Interested::new())));
                        assert(r@[0] matches Action::Send(q, Message::Interested(_)) && q == peer);
                    }
                }
            },
            Message::Request(req) => {
                if !self.peers[j].am_choking && bits_get(&self.local, req.piece_index as usize)
                    == Some(true) {
                    r.push(Action::ServeBlock(peer, req));
                }
            },
            Message::Piece(p) => {
                r = self.handle_piece(j, p.piece_index, p.begin_offset_of_piece, p.data);
            },
            Message::Cancel(_) | Message::Port(_) | Message::KeepAlive(_) => {},
            Message::Handshake(_) | Message::Bitfield(_) => {
                let a = self.drop_peer(j);
                r.push(a);
            },
        }
        r
    }

    /// Handles a message from `peer`, by the phase of its session. A message from an
    /// unknown or unconnected peer, or one that the phase does not allow, closes the
    /// session. No request is ever sent from here: see `dispatch_requests`.
    pub fn handle_message(&mut self, peer: Peer, msg: Message) -> (r: Vec<Action>)
        requires
            old(self).wf(),
        ensures
            final(self).wf(),
            forall|k: int| 0 <= k < r@.len() ==> request_target(#[trigger] r@[k]) is None,
            (forall|j: int| 0 <= j < old(self).peers@.len() ==> old(self).peers@[j].peer != peer)
                ==> final(self).peers@ == old(self).peers@ && r@ == seq![Action::Close(peer)],
            forall|j: int|
                0 <= j < old(self).peers@.len() && old(self).peers@[j].peer == peer
                    && old(self).peers@[j].phase == Phase::Established ==> established_effect(
                    old(self).peers@,
                    final(self).peers@,
                    j,
                    msg,
                    bits_of(old(self).local),
                    r@,
                ),
            forall|j: int|
                0 <= j < old(self).peers@.len() && old(self).peers@[j].peer == peer
                    && old(self).peers@[j].phase == Phase::AwaitingHandshake ==> if msg matches Message::Handshake(
                    h,
                ) && h.info_hash@ == old(self).torrent.info_hash@ {
                    final(self).peers@.len() == old(self).peers@.len() && final(self).peers@[j].phase
                        == Phase::AwaitingBitfield
                } else {
                    final(self).peers@ == old(self).peers@.remove(j) && r@ == seq![Action::Close(peer)]
                },
            forall|j: int|
                0 <= j < old(self).peers@.len() && old(self).peers@[j].peer == peer
                    && old(self).peers@[j].phase == Phase::AwaitingHandshake && (msg matches Message::Handshake(
                    h,
                ) && h.info_hash@ == old(self).torrent.info_hash@) ==> handshake_reply(*old(self), j, r@),
            forall|j: int|
                0 <= j < old(self).peers@.len() && old(self).peers@[j].peer == peer && j
                    < final(self).peers@.len() && final(self).peers@[j].peer == peer ==> flag_links(
                    old(self).peers@[j],
                    final(self).peers@[j],
                    msg,
                    r@,
                ),
            forall|j: int|
                0 <= j < old(self).peers@.len() && old(self).peers@[j].peer == peer && (old(
                    self,
                ).peers@[j].phase == Phase::Established || old(self).peers@[j].phase
                    == Phase::AwaitingBitfield) ==> (msg matches Message::Piece(p) ==> piece_effect(
                    old(self).peers@[j],
                    old(self).torrent.blocks_in_piece(p.piece_index as int),
                    old(self).blocks_received@,
                    final(self).blocks_received@,
                    p.piece_index,
                    p.begin_offset_of_piece,
                    p.data@,
                    r@,
                ) && held_block_dropped(
                    bits_of(old(self).local),
                    p.piece_index,
                    old(self).blocks_received@,
                    final(self).blocks_received@,
                    r@,
                )),
            forall|j: int|
                0 <= j < old(self).peers@.len() && old(self).peers@[j].peer == peer
                    && old(self).peers@[j].phase == Phase::AwaitingBitfield ==> match msg {
                    Message::Bitfield(b) => if fits_torrent(bits_of(b.bitfield), old(self).n()) {
                        final(self).peers@.len() == old(self).peers@.len() && final(self).peers@[j].phase
                            == Phase::Established && bits_of(final(self).peers@[j].bitfield)
                            == bits_of(b.bitfield) && final(self).peers@[j].am_interested
                            == offers_wanted(b.bitfield, bits_of(old(self).local), old(self).n()) && (
                        if offers_wanted(b.bitfield, bits_of(old(self).local), old(self).n()) {
                            r@.len() == 1 && (r@[0] matches Action::Send(q, Message::Interested(_))
                                && q == peer)
                        } else {
                            r@.len() == 0
                        })
                    } else {
                        final(self).peers@ == old(self).peers@.remove(j) && r@ == seq![Action::Close(peer)]
                    },
                    Message::Handshake(_) => final(self).peers@ == old(self).peers@.remove(j) && r@
                        == seq![Action::Close(peer)],
                    _ => final(self).peers@.len() == old(self).peers@.len() && final(self).peers@[j].phase
                        == Phase::Established,
                },
    {
        match self.find_peer(peer) {
            None => {
                let mut r: Vec<Action> = Vec::new();
                r.push(Action::Close(peer));
                r
            },
            Some(j) => {
                let phase = self.peers[j].phase;
                match phase {
                    Phase::Unconnected => {
                        let mut r: Vec<Action> = Vec::new();
                        let a = self.drop_peer(j);
                        r.push(a);
                        r
                    },
                    Phase::AwaitingHandshake => self.handle_handshake(j, msg),
                    Phase::AwaitingBitfield => match msg {
                        Message::Bitfield(b) => self.handle_bitfield(j, b),
                        other => {
                            self.peers[j].phase = Phase::Established;
                            self.handle_established(j, other)
                        },
                    },
                    Phase::Established => self.handle_established(j, msg),
                }
            },
        }
    }

    /// Requests every block of piece `i` from peer `j`, appending the requests to
    /// `actions`, and marks the piece requested; a piece already requested is skipped.
    fn request_piece(&mut self, j: usize, i: u32, actions: &mut Vec<Action>)
        requires
            old(self).wf(),
            j < old(self).peers@.len(),
            (i as int) < old(self).n(),
            !bits_of(old(self).local)[i as int],
            may_request(old(self).peers@[j as int]),
        ensures
            final(self).wf(),
            final(self).peers@.len() == old(self).peers@.len(),
            bits_of(final(self).local) == bits_of(old(self).local),
            final(self).torrent == old(self).torrent,
            bits_of(old(self).requested)[i as int] ==> {
                &&& final(actions)@ == old(actions)@
                &&& final(self).peers@ == old(self).peers@
                &&& bits_of(final(self).requested) == bits_of(old(self).requested)
            },
            !bits_of(old(self).requested)[i as int] ==> {
                &&& bits_of(final(self).requested) == bits_of(old(self).requested).update(
                    i as int,
                    true,
                )
                &&& forall|q: int|
                    0 <= q < final(self).peers@.len() && q != j ==> #[trigger] final(self).peers@[q]
                        == old(self).peers@[q]
                &&& same_but_outstanding(old(self).peers@[j as int], final(self).peers@[j as int])
                &&& final(self).peers@[j as int].outstanding@ == old(self).peers@[j as int].outstanding@
                    + piece_requests(old(self).torrent, i)
                &&& final(self).peers@[j as int].outstanding@.len() > old(
                    self,
                ).peers@[j as int].outstanding@.len()
                &&& final(actions)@ == old(actions)@ + piece_request_actions(
                    old(self).peers@[j as int].peer,
                    old(self).torrent,
                    i,
                )
            },
    {
        if bits_get(&self.requested, i as usize) == Some(true) {
            return;
        }
        let peer = self.peers[j].peer;
        let blocks = expected_blocks_in_piece(i, &self.torrent);
        assert(blocks >= 1) by (nonlinear_arith)
            requires
                blocks == (self.torrent.piece_size(i as int) + BLOCK_SIZE - 1) / (BLOCK_SIZE as int),
                self.torrent.piece_size(i as int) >= 1,
                BLOCK_SIZE == 16384,
        ;
        let ghost reqs = piece_requests(self.torrent, i);
        let ghost acts = piece_request_actions(peer, self.torrent, i);
        let mut b: usize = 0;
        while b < blocks
            invariant
                self.wf(),
                j < self.peers@.len(),
                (i as int) < self.n(),
                blocks == self.torrent.blocks_in_piece(i as int),
                b <= blocks,
                self.torrent == old(self).torrent,
                self.peers@.len() == old(self).peers@.len(),
                bits_of(self.requested) == bits_of(old(self).requested),
                bits_of(self.local) == bits_of(old(self).local),
                peer == old(self).peers@[j as int].peer,
                reqs == piece_requests(old(self).torrent, i),
                acts == piece_request_actions(peer, old(self).torrent, i),
                forall|q: int|
                    0 <= q < self.peers@.len() && q != j ==> #[trigger] self.peers@[q]
                        == old(self).peers@[q],
                same_but_outstanding(old(self).peers@[j as int], self.peers@[j as int]),
                self.peers@[j as int].outstanding@ == old(self).peers@[j as int].outstanding@
                    + reqs.take(b as int),
                actions@ == old(actions)@ + acts.take(b as int),
            decreases blocks - b,
        {
            let len = expected_block_length(i, b as u32, &self.torrent);
            assert(b * BLOCK_SIZE < self.torrent.piece_size(i as int)) by (nonlinear_arith)
                requires
                    b < (self.torrent.piece_size(i as int) + BLOCK_SIZE - 1) / (BLOCK_SIZE as int),
                    BLOCK_SIZE == 16384,
            ;
            let offset = b as u32 * BLOCK_SIZE;
            let req = Request::new(i, offset, len);
            assert(req == block_request(self.torrent, i, b as int));
            actions.push(Action::Send(peer, Message::Request(req)));
            assert(actions@ =~= old(actions)@ + acts.take(b + 1));
            let ghost st = self.peers@[j as int];
            self.peers[j].outstanding.push((i, offset));
            assert(self.peers@[j as int].outstanding@ =~= old(self).peers@[j as int].outstanding@
                + reqs.take(b + 1));
            assert(peer_state_wf(self.peers@[j as int], self.n())) by {
                assert forall|k: int| 0 <= k < self.peers@[j as int].outstanding@.len() implies (
                #[trigger] self.peers@[j as int].outstanding@[k]).0 < self.n() by {
                    if k < st.outstanding@.len() {
                        assert(self.peers@[j as int].outstanding@[k] == st.outstanding@[k]);
                    }
                }
            }
            b = b + 1;
        }
        assert(reqs.take(b as int) =~= reqs);
        assert(acts.take(b as int) =~= acts);
        bits_set(&mut self.requested, i as usize, true);
    }

    /// Sends requests to every peer that may be asked: for each such peer, every block
    /// of the first piece assigned to it that no peer has been asked for yet (one
    /// piece per peer per round).
    pub fn dispatch_requests(&mut self, assignments: &Vec<PieceSelection>) -> (r: Vec<Action>)
        requires
            old(self).wf(),
        ensures
            final(self).wf(),
            final(self).peers@.len() == old(self).peers@.len(),
            final(self).torrent == old(self).torrent,
            bits_of(final(self).local) == bits_of(old(self).local),
            forall|q: int|
                0 <= q < old(self).peers@.len() ==> dispatch_outcome(
                    assignments@,
                    old(self).peers@[q],
                    #[trigger] final(self).peers@[q],
                    old(self).torrent,
                    bits_of(old(self).requested), bits_of(old(self).local),
                ),
            forall|i: int|
                0 <= i < old(self).n() && bits_of(old(self).requested)[i] ==> bits_of(
                    final(self).requested,
                )[i],
            forall|i: int|
                0 <= i < old(self).n() && bits_of(final(self).requested)[i] && !bits_of(
                    old(self).requested,
                )[i] ==> exists|q: int|
                    0 <= q < old(self).peers@.len() && #[trigger] final(self).peers@[q].outstanding@
                        == old(self).peers@[q].outstanding@ + piece_requests(
                        old(self).torrent,
                        i as u32,
                    ),
            r@ == dispatch_actions(
                old(self).peers@,
                final(self).peers@,
                old(self).torrent,
                old(self).peers@.len() as nat,
            ),
            forall|k: int|
                0 <= k < r@.len() ==> request_allowed(final(self).peers@, #[trigger] r@[k])
                    && request_fits(assignments@, bits_of(old(self).requested), r@[k], bits_of(old(self).local)),
            forall|j: int|
                0 <= j < old(self).peers@.len() && may_request(old(self).peers@[j])
                    && has_unrequested_assignment(
                    assignments@,
                    old(self).peers@[j].peer,
                    bits_of(final(self).requested), bits_of(old(self).local),
                ) ==> (#[trigger] final(self).peers@[j]).outstanding@.len() > old(
                    self,
                ).peers@[j].outstanding@.len(),
            pieces_distinct(assignments@) ==> forall|j: int|
                0 <= j < old(self).peers@.len() && may_request(old(self).peers@[j])
                    && has_unrequested_assignment(
                    assignments@,
                    old(self).peers@[j].peer,
                    bits_of(old(self).requested), bits_of(old(self).local),
                ) ==> (#[trigger] final(self).peers@[j]).outstanding@.len() > old(
                    self,
                ).peers@[j].outstanding@.len(),
    {
        let mut r: Vec<Action> = Vec::new();
        let n = bits_len(&self.local);
        let ghost old_req = bits_of(self.requested);
        let ghost asg = assignments@;
        let mut j: usize = 0;
        while j < self.peers.len()
            invariant
                self.wf(),
                n == self.n(),
                j <= self.peers@.len(),
                asg == assignments@,
                old_req == bits_of(old(self).requested),
                old_req.len() == n,
                self.peers@.len() == old(self).peers@.len(),
                bits_of(self.local) == bits_of(old(self).local),
                self.torrent == old(self).torrent,
                forall|q: int|
                    0 <= q < j ==> dispatch_outcome(
                        asg,
                        old(self).peers@[q],
                        #[trigger] self.peers@[q],
                        old(self).torrent,
                        old_req, bits_of(old(self).local),
                    ),
                forall|q: int| j <= q < self.peers@.len() ==> #[trigger] self.peers@[q] == old(self).peers@[q],
                forall|i: int| 0 <= i < n && old_req[i] ==> bits_of(self.requested)[i],
                forall|i: int|
                    0 <= i < n && bits_of(self.requested)[i] && !old_req[i] ==> exists|q: int|
                        0 <= q < j && #[trigger] self.peers@[q].outstanding@ == old(
                            self,
                        ).peers@[q].outstanding@ + piece_requests(old(self).torrent, i as u32)
                            && assigned(asg, old(self).peers@[q].peer, i as u32),
                r@ == dispatch_actions(old(self).peers@, self.peers@, old(self).torrent, j as nat),
                forall|k: int|
                    0 <= k < r@.len() ==> request_allowed(self.peers@, #[trigger] r@[k])
                        && request_fits(asg, old_req, r@[k], bits_of(old(self).local)),
                forall|q: int|
                    0 <= q < j && may_request(old(self).peers@[q]) && has_unrequested_assignment(
                        asg,
                        old(self).peers@[q].peer,
                        bits_of(self.requested), bits_of(old(self).local),
                    ) ==> (#[trigger] self.peers@[q]).outstanding@.len() > old(
                        self,
                    ).peers@[q].outstanding@.len(),
                pieces_distinct(asg) ==> forall|q: int|
                    0 <= q < j && may_request(old(self).peers@[q]) && has_unrequested_assignment(
                        asg,
                        old(self).peers@[q].peer,
                        old_req, bits_of(old(self).local),
                    ) ==> (#[trigger] self.peers@[q]).outstanding@.len() > old(
                        self,
                    ).peers@[q].outstanding@.len(),
            decreases self.peers@.len() - j,
        {
            let ghost peers_before = self.peers@;
            let ghost req_before = bits_of(self.requested);
            let ghost r_before = r@;
            let st = &self.peers[j];
            let mut chosen: Option<u32> = None;
            if st.phase == Phase::Established && st.am_interested && !st.peer_choking {
                let peer = st.peer;
                let mut k: usize = 0;
                while k < assignments.len() && chosen.is_none()
                    invariant
                        k <= assignments@.len(),
                        asg == assignments@,
                        n == bits_of(self.requested).len(),
                        n == bits_of(self.local).len(),
                        chosen matches Some(i) ==> (i as int) < n && !bits_of(self.requested)[i as int]
                            && !bits_of(self.local)[i as int] && assigned(asg, peer, i),
                        chosen is None ==> forall|x: int|
                            0 <= x < k ==> !(asg[x].peer == peer && (asg[x].piece_id as int) < n
                                && !bits_of(self.requested)[asg[x].piece_id as int] && !bits_of(
                                self.local,
                            )[asg[x].piece_id as int]),
                    decreases assignments@.len() - k + if chosen is None { 1int } else { 0int },
                {
                    let a = assignments[k];
                    if a.peer == peer && (a.piece_id as usize) < n && bits_get(
                        &self.requested,
                        a.piece_id as usize,
                    ) == Some(false) && bits_get(&self.local, a.piece_id as usize) == Some(false) {
                        assert(asg[k as int] == a);
                        chosen = Some(a.piece_id);
                    } else {
                        k = k + 1;
                    }
                }
            }
            match chosen {
                Some(i) => {
                    let ghost peer = self.peers@[j as int].peer;
                    assert(!old_req[i as int]);
                    assert(assigned(asg, peer, i));
                    assert(peers_before[j as int] == old(self).peers@[j as int]);
                    assert(may_request(old(self).peers@[j as int]));
                    assert((i as int) < old_req.len());
                    self.request_piece(j, i, &mut r);
                    assert(self.peers@[j as int].outstanding@ == old(self).peers@[j as int].outstanding@
                        + piece_requests(old(self).torrent, i));
                    let ghost acts = piece_request_actions(peer, old(self).torrent, i);
                    assert(r@ == r_before + acts);
                    proof {
                        lemma_dispatch_actions_prefix(
                            old(self).peers@,
                            peers_before,
                            self.peers@,
                            old(self).torrent,
                            j as nat,
                        );
                        let pr = piece_requests(old(self).torrent, i);
                        assert(pr.len() >= 1);
                        let base = old(self).peers@[j as int].outstanding@;
                        assert(self.peers@[j as int].outstanding@[base.len() as int] == pr[0]);
                        assert(added_requests(old(self).peers@[j as int], self.peers@[j as int], old(self).torrent) == acts);
                        assert(r@ == dispatch_actions(old(self).peers@, self.peers@, old(self).torrent, (j + 1) as nat));
                    }
                    assert(may_request(self.peers@[j as int]));
                    assert forall|k: int|
                        0 <= k < r@.len() implies request_allowed(self.peers@, #[trigger] r@[k])
                            && request_fits(asg, old_req, r@[k], bits_of(old(self).local)) by {
                        if k < r_before.len() {
                            assert(r@[k] == r_before[k]);
                            let p = request_target(r@[k])->Some_0;
                            let q = choose|q: int|
                                0 <= q < peers_before.len() && peers_before[q].peer == p
                                    && may_request(peers_before[q]);
                            if q != j {
                                assert(self.peers@[q] == peers_before[q]);
                            }
                            assert(self.peers@[q].peer == p && may_request(self.peers@[q]));
                        } else {
                            let m = k - r_before.len();
                            assert(r@[k] == acts[m]);
                            assert(acts[m] == Action::Send(
                                peer,
                                Message::Request(block_request(old(self).torrent, i, m)),
                            ));
                            assert(self.peers@[j as int].peer == peer);
                            let q = block_request(old(self).torrent, i, m);
                            assert(q.piece_index == i);
                            assert(assigned(asg, peer, q.piece_index));
                            assert(request_fits(asg, old_req, r@[k], bits_of(old(self).local)));
                        }
                    }
                    assert forall|q: int|
                        0 <= q < j + 1 implies dispatch_outcome(
                            asg,
                            old(self).peers@[q],
                            #[trigger] self.peers@[q],
                            old(self).torrent,
                            old_req, bits_of(old(self).local),
                        ) by {
                        if q < j {
                            assert(self.peers@[q] == peers_before[q]);
                        } else {
                            assert(peers_before[q] == old(self).peers@[q]);
                            assert(same_but_outstanding(old(self).peers@[q], self.peers@[q]));
                            assert(self.peers@[q].outstanding@ == old(self).peers@[q].outstanding@
                                + piece_requests(old(self).torrent, i));
                        }
                    }
                    assert forall|x: int|
                        0 <= x < n && bits_of(self.requested)[x] && !old_req[x] implies exists|q: int|
                            0 <= q < j + 1 && #[trigger] self.peers@[q].outstanding@ == old(
                                self,
                            ).peers@[q].outstanding@ + piece_requests(old(self).torrent, x as u32)
                                && assigned(asg, old(self).peers@[q].peer, x as u32) by {
                        if x == i {
                            assert(peers_before[j as int] == old(self).peers@[j as int]);
                            assert(self.peers@[j as int].outstanding@ == old(
                                self,
                            ).peers@[j as int].outstanding@ + piece_requests(old(self).torrent, x as u32));
                        } else {
                            assert(req_before[x]);
                            let q = choose|q: int|
                                0 <= q < j && #[trigger] peers_before[q].outstanding@ == old(
                                    self,
                                ).peers@[q].outstanding@ + piece_requests(old(self).torrent, x as u32)
                                    && assigned(asg, old(self).peers@[q].peer, x as u32);
                            assert(self.peers@[q] == peers_before[q]);
                        }
                    }
                    assert forall|x: int| 0 <= x < n && old_req[x] implies bits_of(self.requested)[x] by {
                        assert(req_before[x]);
                    }
                    assert forall|q: int|
                        0 <= q < j + 1 && may_request(old(self).peers@[q])
                            && has_unrequested_assignment(
                            asg,
                            old(self).peers@[q].peer,
                            bits_of(self.requested), bits_of(old(self).local),
                        ) implies (#[trigger] self.peers@[q]).outstanding@.len() > old(
                            self,
                        ).peers@[q].outstanding@.len() by {
                        if q < j {
                            let x = choose|x: int|
                                0 <= x < asg.len() && asg[x].peer == old(self).peers@[q].peer
                                    && (asg[x].piece_id as int) < bits_of(self.requested).len()
                                    && !bits_of(self.requested)[#[trigger] asg[x].piece_id as int]
                                    && !bits_of(old(self).local)[asg[x].piece_id as int];
                            assert(!req_before[asg[x].piece_id as int]);
                            assert(has_unrequested_assignment(asg, old(self).peers@[q].peer, req_before, bits_of(old(self).local)));
                            assert(self.peers@[q] == peers_before[q]);
                        } else {
                            assert(peers_before[q] == old(self).peers@[q]);
                        }
                    }
                    assert(pieces_distinct(asg) ==> forall|q: int|
                        0 <= q < j + 1 && may_request(old(self).peers@[q])
                            && has_unrequested_assignment(asg, old(self).peers@[q].peer, old_req, bits_of(old(self).local))
                            ==> (#[trigger] self.peers@[q]).outstanding@.len() > old(
                            self,
                        ).peers@[q].outstanding@.len()) by {
                        if pieces_distinct(asg) {
                            assert forall|q: int|
                                0 <= q < j + 1 && may_request(old(self).peers@[q])
                                    && has_unrequested_assignment(asg, old(self).peers@[q].peer, old_req, bits_of(old(self).local))
                                    implies (#[trigger] self.peers@[q]).outstanding@.len() > old(
                                    self,
                                ).peers@[q].outstanding@.len() by {
                                if q < j {
                                    assert(self.peers@[q] == peers_before[q]);
                                } else {
                                    assert(peers_before[q] == old(self).peers@[q]);
                                }
                            }
                        }
                    }
                },
                None => {
                    assert(self.peers@[j as int] == old(self).peers@[j as int]);
                    assert(added_requests(old(self).peers@[j as int], self.peers@[j as int], old(self).torrent)
                        =~= Seq::<Action>::empty());
                    assert(r@ =~= dispatch_actions(old(self).peers@, self.peers@, old(self).torrent, (j + 1) as nat));
                    assert forall|q: int|
                        0 <= q < j + 1 && may_request(old(self).peers@[q])
                            && has_unrequested_assignment(
                            asg,
                            old(self).peers@[q].peer,
                            bits_of(self.requested), bits_of(old(self).local),
                        ) implies (#[trigger] self.peers@[q]).outstanding@.len() > old(
                            self,
                        ).peers@[q].outstanding@.len() by {
                        if q == j {
                            let x = choose|x: int|
                                0 <= x < asg.len() && asg[x].peer == old(self).peers@[q].peer
                                    && (asg[x].piece_id as int) < bits_of(self.requested).len()
                                    && !bits_of(self.requested)[#[trigger] asg[x].piece_id as int]
                                    && !bits_of(old(self).local)[asg[x].piece_id as int];
                            assert(false);
                        }
                    }
                    assert(pieces_distinct(asg) ==> forall|q: int|
                        0 <= q < j + 1 && may_request(old(self).peers@[q])
                            && has_unrequested_assignment(asg, old(self).peers@[q].peer, old_req, bits_of(old(self).local))
                            ==> (#[trigger] self.peers@[q]).outstanding@.len() > old(
                            self,
                        ).peers@[q].outstanding@.len()) by {
                        if pieces_distinct(asg) {
                            assert forall|q: int|
                                0 <= q < j + 1 && may_request(old(self).peers@[q])
                                    && has_unrequested_assignment(asg, old(self).peers@[q].peer, old_req, bits_of(old(self).local))
                                    implies (#[trigger] self.peers@[q]).outstanding@.len() > old(
                                    self,
                                ).peers@[q].outstanding@.len() by {
                                if q == j {
                                    let x = choose|x: int|
                                        0 <= x < asg.len() && asg[x].peer == old(self).peers@[q].peer
                                            && (asg[x].piece_id as int) < old_req.len()
                                            && !old_req[#[trigger] asg[x].piece_id as int]
                                            && !bits_of(old(self).local)[asg[x].piece_id as int];
                                    let i = asg[x].piece_id as int;
                                    assert(bits_of(self.requested)[i]);
                                    let q2 = choose|q2: int|
                                        0 <= q2 < j && #[trigger] self.peers@[q2].outstanding@ == old(
                                            self,
                                        ).peers@[q2].outstanding@ + piece_requests(old(self).torrent, i as u32)
                                            && assigned(asg, old(self).peers@[q2].peer, i as u32);
                                    let x2 = choose|x2: int|
                                        0 <= x2 < asg.len() && asg[x2].peer == old(self).peers@[q2].peer
                                            && asg[x2].piece_id == i as u32;
                                    assert(x2 == x);
                                    assert(old(self).peers@[q2].peer == old(self).peers@[q].peer);
                                    assert(false);
                                }
                            }
                        }
                    }
                },
            }
            j = j + 1;
        }
        r
    }

    /// Acts on the SHA-1 digest of piece `i`, whose blocks have all arrived. For a
    /// piece not held yet, a digest equal to the piece's hash marks the piece held,
    /// announces it with a `Have` to every peer whose session is open, once each, in
    /// order, then sends `NotInterested` to every open session we were interested in
    /// that no longer offers a piece we lack; any other digest drops the piece's
    /// blocks and makes the piece assignable again. A piece already held is left as it is.
    pub fn piece_verified(&mut self, i: u32, digest: [u8; 20]) -> (r: Vec<Action>)
        requires
            old(self).wf(),
            (i as int) < old(self).n(),
        ensures
            final(self).wf(),
            final(self).peers@.len() == old(self).peers@.len(),
            final(self).torrent == old(self).torrent,
            bits_of(old(self).local)[i as int] ==> {
                &&& final(self).peers@ == old(self).peers@
                &&& bits_of(final(self).local) == bits_of(old(self).local)
                &&& bits_of(final(self).requested) == bits_of(old(self).requested)
                &&& final(self).blocks_received@ == old(self).blocks_received@
                &&& r@.len() == 0
            },
            !bits_of(old(self).local)[i as int] && digest@ == old(self).torrent.piece_hashes@[i as int]@
                ==> {
                &&& bits_of(final(self).local) == bits_of(old(self).local).update(i as int, true)
                &&& bits_of(final(self).requested) == bits_of(old(self).requested)
                &&& final(self).blocks_received@ == old(self).blocks_received@.update(
                    i as int,
                    old(self).torrent.blocks_in_piece(i as int) as usize,
                )
                &&& r@.len() == established_peers(old(self).peers@).len() + losing_interest(
                    old(self).peers@,
                    bits_of(final(self).local),
                    old(self).n(),
                ).len()
                &&& forall|k: int|
                    0 <= k < established_peers(old(self).peers@).len() ==> (#[trigger] r@[k] matches Action::Send(
                        p,
                        Message::Have(h),
                    ) && p == established_peers(old(self).peers@)[k] && h.piece_index == i)
                &&& forall|k: int|
                    0 <= k < losing_interest(old(self).peers@, bits_of(final(self).local), old(self).n()).len()
                        ==> (#[trigger] r@[established_peers(old(self).peers@).len() + k] matches Action::Send(
                        p,
                        Message::NotInterested(_),
                    ) && p == losing_interest(
                        old(self).peers@,
                        bits_of(final(self).local),
                        old(self).n(),
                    )[k])
                &&& forall|q: int|
                    0 <= q < old(self).peers@.len() ==> same_but_interest(
                        old(self).peers@[q],
                        #[trigger] final(self).peers@[q],
                    ) && final(self).peers@[q].am_interested == (old(self).peers@[q].am_interested
                        && !loses_interest(old(self).peers@[q], bits_of(final(self).local), old(self).n()))
            },
            !bits_of(old(self).local)[i as int] && digest@ != old(self).torrent.piece_hashes@[i as int]@
                ==> {
                &&& final(self).peers@ == old(self).peers@
                &&& bits_of(final(self).local) == bits_of(old(self).local)
                &&& bits_of(final(self).requested) == bits_of(old(self).requested).update(
                    i as int,
                    false,
                )
                &&& final(self).blocks_received@[i as int] == 0
                &&& r@.len() == 0
            },
    {
        let mut r: Vec<Action> = Vec::new();
        if bits_get(&self.local, i as usize) == Some(true) {
            return r;
        }
        let expected = self.torrent.piece_hashes[i as usize];
        if !same_20_bytes(&digest, &expected) {
            bits_set(&mut self.requested, i as usize, false);
            self.blocks_received.set(i as usize, 0);
            return r;
        }
        let blocks = expected_blocks_in_piece(i, &self.torrent);
        self.blocks_received.set(i as usize, blocks);
        bits_set(&mut self.local, i as usize, true);
        let ghost est = established_peers(old(self).peers@);
        let ghost new_local = bits_of(self.local);
        let mut j: usize = 0;
        while j < self.peers.len()
            invariant
                j <= self.peers@.len(),
                self.peers@ == old(self).peers@,
                r@.len() == established_peers(self.peers@.take(j as int)).len(),
                forall|k: int|
                    0 <= k < r@.len() ==> (#[trigger] r@[k] matches Action::Send(
                        p,
                        Message::Have(h),
                    ) && p == established_peers(self.peers@.take(j as int))[k] && h.piece_index
                        == i),
            decreases self.peers@.len() - j,
        {
            let ghost before = r@;
            assert(self.peers@.take(j + 1).drop_last() =~= self.peers@.take(j as int));
            assert(self.peers@.take(j + 1).last() == self.peers@[j as int]);
            if self.peers[j].phase == Phase::Established {
                r.push(Action::Send(self.peers[j].peer, Message::Have(Have::new(i))));
                assert forall|k: int| 0 <= k < r@.len() implies (#[trigger] r@[k] matches Action::Send(
                    p,
                    Message::Have(h),
                ) && p == established_peers(self.peers@.take(j + 1))[k] && h.piece_index == i) by {
                    if k < before.len() {
                        assert(r@[k] == before[k]);
                    }
                }
            }
            j = j + 1;
        }
        assert(self.peers@.take(j as int) =~= self.peers@);
        let ghost haves = r@;
        assert(haves.len() == est.len());
        assert(forall|k: int|
            0 <= k < est.len() ==> (#[trigger] haves[k] matches Action::Send(p, Message::Have(h))
                && p == est[k] && h.piece_index == i));
        let mut j: usize = 0;
        while j < self.peers.len()
            invariant
                self.wf(),
                j <= self.peers@.len(),
                self.n() == old(self).n(),
                bits_of(self.local) == new_local,
                self.peers@.len() == old(self).peers@.len(),
                bits_of(self.requested) == bits_of(old(self).requested),
                self.torrent == old(self).torrent,
                self.blocks_received@ == old(self).blocks_received@.update(
                    i as int,
                    old(self).torrent.blocks_in_piece(i as int) as usize,
                ),
                forall|q: int| j <= q < self.peers@.len() ==> #[trigger] self.peers@[q] == old(self).peers@[q],
                forall|q: int|
                    0 <= q < j ==> same_but_interest(old(self).peers@[q], #[trigger] self.peers@[q])
                        && self.peers@[q].am_interested == (old(self).peers@[q].am_interested
                        && !loses_interest(old(self).peers@[q], new_local, old(self).n())),
                r@.len() == haves.len() + losing_interest(old(self).peers@.take(j as int), new_local, old(self).n()).len(),
                forall|k: int| 0 <= k < haves.len() ==> r@[k] == haves[k],
                forall|k: int|
                    0 <= k < losing_interest(old(self).peers@.take(j as int), new_local, old(self).n()).len()
                        ==> (#[trigger] r@[haves.len() + k] matches Action::Send(
                        p,
                        Message::NotInterested(_),
                    ) && p == losing_interest(old(self).peers@.take(j as int), new_local, old(self).n())[k]),
            decreases self.peers@.len() - j,
        {
            let ghost before = r@;
            let ghost ps = old(self).peers@;
            assert(ps.take(j + 1).drop_last() =~= ps.take(j as int));
            assert(ps.take(j + 1).last() == ps[j as int]);
            assert(self.peers@[j as int] == ps[j as int]);
            if self.peers[j].phase == Phase::Established && self.peers[j].am_interested && !self.wants_from(j) {
                self.peers[j].am_interested = false;
                let peer = self.peers[j].peer;
                r.push(Action::Send(peer, Message::NotInterested(NotInterested::new())));
                assert forall|k: int|
                    0 <= k < losing_interest(ps.take(j + 1), new_local, old(self).n()).len()
                        implies (#[trigger] r@[haves.len() + k] matches Action::Send(
                        p,
                        Message::NotInterested(_),
                    ) && p == losing_interest(ps.take(j + 1), new_local, old(self).n())[k]) by {
                    if k < losing_interest(ps.take(j as int), new_local, old(self).n()).len() {
                        assert(r@[haves.len() + k] == before[haves.len() + k]);
                    }
                }
            }
            assert forall|k: int| 0 <= k < haves.len() implies r@[k] == haves[k] by {
                assert(r@[k] == before[k]);
            }
            j = j + 1;
        }
        assert(old(self).peers@.take(j as int) =~= old(self).peers@);
        assert forall|k: int| 0 <= k < est.len() implies (#[trigger] r@[k] matches Action::Send(
            p,
            Message::Have(h),
        ) && p == est[k] && h.piece_index == i) by {
            assert(r@[k] == haves[k]);
        }
        r
    }

    /// Verifies piece `i`, read back whole from the store, against its hash: see
    /// `piece_verified`, which gets the piece's SHA-1 digest.
    pub fn verify_piece(&mut self, i: u32, data: &[u8]) -> (r: Vec<Action>)
        requires
            old(self).wf(),
            (i as int) < old(self).n(),
        ensures
            final(self).wf(),
            final(self).peers@.len() == old(self).peers@.len(),
            final(self).torrent == old(self).torrent,
            bits_of(old(self).local)[i as int] ==> {
                &&& final(self).peers@ == old(self).peers@
                &&& bits_of(final(self).local) == bits_of(old(self).local)
                &&& bits_of(final(self).requested) == bits_of(old(self).requested)
                &&& final(self).blocks_received@ == old(self).blocks_received@
                &&& r@.len() == 0
            },
            !bits_of(old(self).local)[i as int] && sha1_of(data@) == old(self).torrent.piece_hashes@[i as int]@
                ==> {
                &&& bits_of(final(self).local) == bits_of(old(self).local).update(i as int, true)
                &&& bits_of(final(self).requested) == bits_of(old(self).requested)
                &&& final(self).blocks_received@ == old(self).blocks_received@.update(
                    i as int,
                    old(self).torrent.blocks_in_piece(i as int) as usize,
                )
                &&& r@.len() == established_peers(old(self).peers@).len() + losing_interest(
                    old(self).peers@,
                    bits_of(final(self).local),
                    old(self).n(),
                ).len()
                &&& forall|k: int|
                    0 <= k < established_peers(old(self).peers@).len() ==> (#[trigger] r@[k] matches Action::Send(
                        p,
                        Message::Have(h),
                    ) && p == established_peers(old(self).peers@)[k] && h.piece_index == i)
                &&& forall|k: int|
                    0 <= k < losing_interest(old(self).peers@, bits_of(final(self).local), old(self).n()).len()
                        ==> (#[trigger] r@[established_peers(old(self).peers@).len() + k] matches Action::Send(
                        p,
                        Message::NotInterested(_),
                    ) && p == losing_interest(
                        old(self).peers@,
                        bits_of(final(self).local),
                        old(self).n(),
                    )[k])
                &&& forall|q: int|
                    0 <= q < old(self).peers@.len() ==> same_but_interest(
                        old(self).peers@[q],
                        #[trigger] final(self).peers@[q],
                    ) && final(self).peers@[q].am_interested == (old(self).peers@[q].am_interested
                        && !loses_interest(old(self).peers@[q], bits_of(final(self).local), old(self).n()))
            },
            !bits_of(old(self).local)[i as int] && sha1_of(data@) != old(self).torrent.piece_hashes@[i as int]@
                ==> {
                &&& final(self).peers@ == old(self).peers@
                &&& bits_of(final(self).local) == bits_of(old(self).local)
                &&& bits_of(final(self).requested) == bits_of(old(self).requested).update(
                    i as int,
                    false,
                )
                &&& final(self).blocks_received@[i as int] == 0
                &&& r@.len() == 0
            },
    {
        let digest = sha1_digest(data);
        self.piece_verified(i, digest)
    }

    /// The bitfields of the peers whose session is open.
    pub fn peer_bitfields(&self) -> (r: Vec<(Peer, BitVec)>)
        requires
            self.wf(),
        ensures
            forall|k: int| 0 <= k < r@.len() ==> announced(self.peers@, #[trigger] r@[k]),
            forall|q: int|
                0 <= q < self.peers@.len() && (#[trigger] self.peers@[q]).phase == Phase::Established
                    ==> exists|k: int|
                    0 <= k < r@.len() && r@[k].0 == self.peers@[q].peer && bits_of(r@[k].1)
                        == bits_of(self.peers@[q].bitfield),
            distinct_peers(r@),
    {
        let mut r: Vec<(Peer, BitVec)> = Vec::new();
        let mut j: usize = 0;
        while j < self.peers.len()
            invariant
                j <= self.peers@.len(),
                forall|k: int| 0 <= k < r@.len() ==> announced(self.peers@, #[trigger] r@[k]),
                forall|q: int|
                    0 <= q < j && (#[trigger] self.peers@[q]).phase == Phase::Established
                        ==> exists|k: int|
                        0 <= k < r@.len() && r@[k].0 == self.peers@[q].peer && bits_of(r@[k].1)
                            == bits_of(self.peers@[q].bitfield),
                self.wf(),
                forall|k: int|
                    0 <= k < r@.len() ==> exists|q: int| 0 <= q < j && #[trigger] r@[k].0 == self.peers@[q].peer,
                distinct_peers(r@),
            decreases self.peers@.len() - j,
        {
            if self.peers[j].phase == Phase::Established {
                let ghost before = r@;
                let b = bits_clone(&self.peers[j].bitfield);
                r.push((self.peers[j].peer, b));
                assert(announced(self.peers@, r@[r@.len() - 1]));
                assert forall|k: int| 0 <= k < r@.len() implies announced(self.peers@, #[trigger] r@[k]) by {
                    if k < before.len() {
                        assert(r@[k] == before[k]);
                    }
                }
                assert forall|q: int|
                    0 <= q < j + 1 && (#[trigger] self.peers@[q]).phase == Phase::Established
                        implies exists|k: int|
                        0 <= k < r@.len() && r@[k].0 == self.peers@[q].peer && bits_of(r@[k].1)
                            == bits_of(self.peers@[q].bitfield) by {
                    if q < j {
                        let x = choose|x: int|
                            0 <= x < before.len() && before[x].0 == self.peers@[q].peer && bits_of(
                                before[x].1,
                            ) == bits_of(self.peers@[q].bitfield);
                        assert(r@[x] == before[x]);
                    } else {
                        assert(r@[r@.len() - 1].0 == self.peers@[q].peer);
                    }
                }
                assert forall|k: int| 0 <= k < r@.len() implies exists|q: int|
                    0 <= q < j + 1 && #[trigger] r@[k].0 == self.peers@[q].peer by {
                    if k < before.len() {
                        assert(r@[k] == before[k]);
                    }
                }
                assert forall|k1: int, k2: int|
                    0 <= k1 < r@.len() && 0 <= k2 < r@.len() && k1 != k2 implies #[trigger] r@[k1].0
                    != #[trigger] r@[k2].0 by {
                    if k1 < before.len() && k2 < before.len() {
                        assert(r@[k1] == before[k1] && r@[k2] == before[k2]);
                    } else if k1 < before.len() {
                        assert(r@[k1] == before[k1]);
                        let q = choose|q: int| 0 <= q < j && #[trigger] before[k1].0 == self.peers@[q].peer;
                        assert(self.peers@[q].peer != self.peers@[j as int].peer);
                    } else if k2 < before.len() {
                        assert(r@[k2] == before[k2]);
                        let q = choose|q: int| 0 <= q < j && #[trigger] before[k2].0 == self.peers@[q].peer;
                        assert(self.peers@[q].peer != self.peers@[j as int].peer);
                    }
                }
            }
            j = j + 1;
        }
        r
    }

    /// Assigns the pieces we lack to the peers that hold them (round robin over the
    /// holders, in random order): every piece we lack that an open session announced
    /// is assigned once, to such a session.
    pub fn assign_pieces(&self) -> (r: Vec<PieceSelection>)
        requires
            self.wf(),
        ensures
            forall|k: int|
                0 <= k < r@.len() ==> (#[trigger] r@[k].piece_id as int) < self.n() && !bits_of(
                    self.local,
                )[r@[k].piece_id as int] && exists|q: int|
                    0 <= q < self.peers@.len() && self.peers@[q].peer == r@[k].peer
                        && self.peers@[q].phase == Phase::Established && has_bit(
                        self.peers@[q].bitfield,
                        r@[k].piece_id as int,
                    ),
            forall|i: int, q: int|
                0 <= i < self.n() && !bits_of(self.local)[i] && 0 <= q < self.peers@.len()
                    && self.peers@[q].phase == Phase::Established && #[trigger] has_bit(
                    self.peers@[q].bitfield,
                    i,
                ) ==> exists|k: int| 0 <= k < r@.len() && #[trigger] r@[k].piece_id == i,
            pieces_distinct(r@),
    {
        let local = bits_clone(&self.local);
        let peers = self.peer_bitfields();
        let r = DistributedSelector::pieces_selection(local, peers);
        assert forall|k: int| 0 <= k < r@.len() implies (#[trigger] r@[k].piece_id as int) < self.n()
            && !bits_of(self.local)[r@[k].piece_id as int] && exists|q: int|
            0 <= q < self.peers@.len() && self.peers@[q].peer == r@[k].peer && self.peers@[q].phase
                == Phase::Established && has_bit(self.peers@[q].bitfield, r@[k].piece_id as int) by {
            assert(needs_piece(local, r@[k].piece_id as int));
            assert(is_holder(peers@, r@[k].peer, r@[k].piece_id as int));
            let x = choose|x: int|
                0 <= x < peers@.len() && peers@[x].0 == r@[k].peer && has_bit(
                    peers@[x].1,
                    r@[k].piece_id as int,
                );
            assert(announced(self.peers@, peers@[x]));
        }
        assert forall|i: int, q: int|
            0 <= i < self.n() && !bits_of(self.local)[i] && 0 <= q < self.peers@.len()
                && self.peers@[q].phase == Phase::Established && #[trigger] has_bit(
                self.peers@[q].bitfield,
                i,
            ) implies exists|k: int| 0 <= k < r@.len() && #[trigger] r@[k].piece_id == i by {
            let x = choose|x: int|
                0 <= x < peers@.len() && peers@[x].0 == self.peers@[q].peer && bits_of(peers@[x].1)
                    == bits_of(self.peers@[q].bitfield);
            assert(has_bit(peers@[x].1, i));
            assert(has_holder(peers@, i));
            assert(needs_piece(local, i));
        }
        r
    }
}

} // verus!
