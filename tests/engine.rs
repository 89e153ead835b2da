use bit_vec::BitVec;
use sha1::{Digest, Sha1};
use std::time::Duration;
use torrent_peer::engine::{Action, Engine, Phase};
use torrent_peer::identity::identity_from;
use torrent_peer::store::{calculate_piece_hashes, BlockLayout};
use torrent_peer::tracker::CLIENT_PORT;
use torrent_peer::{
    calculate_offset, create_bitfield_from_hashes, div_ceil, expected_block_length,
    expected_blocks_in_piece, generate_random_identity, local_bitfield, AdaptativeWait, Bitfield,
    Error, Event, Handshake, Have, Interested, Message, Peer, Piece, Request, Torrent,
    TrackerAddress, TrackerRequest, Unchoke, WaitStep,
};

const INFO: [u8; 20] = [7u8; 20];

fn sha1(data: &[u8]) -> [u8; 20] {
    Sha1::digest(data).into()
}

fn piece_data(i: u8) -> Vec<u8> {
    vec![i + 1; 32768]
}

fn two_piece_torrent() -> Torrent {
    Torrent::new(
        "http://127.0.0.1:6969/announce".to_string(),
        32768,
        65536,
        "file.bin".to_string(),
        INFO,
        vec![sha1(&piece_data(0)), sha1(&piece_data(1))],
    )
}

fn open_session(engine: &mut Engine, peer: Peer) {
    engine.add_peer(peer);
    let actions = engine.on_connected(peer, true);
    assert!(matches!(actions[0], Action::Send(p, Message::Handshake(_)) if p == peer));
    let actions = engine.handle_message(peer, Message::Handshake(Handshake::new(INFO, [1u8; 20])));
    assert!(actions.is_empty());
    let mut bits = BitVec::from_elem(8, false);
    bits.set(0, true);
    bits.set(1, true);
    let actions = engine.handle_message(peer, Message::Bitfield(Bitfield::new(bits)));
    assert_eq!(actions.len(), 1);
    assert!(matches!(actions[0], Action::Send(p, Message::Interested(_)) if p == peer));
    let actions = engine.handle_message(peer, Message::Unchoke(Unchoke::new()));
    assert!(actions.is_empty());
}

/// Requests a piece from `peer`, delivers all its blocks, and returns the piece index.
fn download_one_piece(engine: &mut Engine, peer: Peer) -> u32 {
    let assignments = engine.assign_pieces();
    let requests = engine.dispatch_requests(&assignments);
    let mut piece = None;
    let mut to_peer = 0;
    for a in &requests {
        match a {
            Action::Send(p, Message::Request(r)) => {
                assert_eq!(r.piece_length(), 16384);
                if *p == peer {
                    to_peer += 1;
                    piece = Some(r.piece_index());
                }
            }
            other => panic!("{:?}", other),
        }
    }
    assert_eq!(to_peer, 2);
    let piece = piece.unwrap();
    assert_eq!(engine.requested.get(piece as usize), Some(true));
    let data = piece_data(piece as u8);
    let first = engine.handle_message(peer, Message::Piece(Piece::new(piece, 0, data[..16384].to_vec())));
    assert!(matches!(first[0], Action::WriteBlock { begin_offset: 0, .. }));
    let second =
        engine.handle_message(peer, Message::Piece(Piece::new(piece, 16384, data[16384..].to_vec())));
    assert!(matches!(second[0], Action::WriteBlock { begin_offset: 16384, .. }));
    assert!(matches!(second[1], Action::VerifyPiece(i) if i == piece));
    piece
}

#[test]
fn verified_piece_is_announced_to_every_open_session() {
    let mut engine = Engine::new(two_piece_torrent(), [9u8; 20], BitVec::from_elem(2, false));
    let a = Peer::new([127, 0, 0, 1], 2001);
    let b = Peer::new([127, 0, 0, 1], 2002);
    open_session(&mut engine, a);
    open_session(&mut engine, b);
    engine.add_peer(Peer::new([127, 0, 0, 1], 2003));
    let piece = download_one_piece(&mut engine, a);
    let actions = engine.verify_piece(piece, &piece_data(piece as u8));
    assert_eq!(actions.len(), 2);
    assert!(matches!(&actions[0], Action::Send(p, Message::Have(h)) if *p == a && h.have() == piece));
    assert!(matches!(&actions[1], Action::Send(p, Message::Have(h)) if *p == b && h.have() == piece));
    assert_eq!(engine.local.get(piece as usize), Some(true));
    assert_eq!(engine.requested.get(piece as usize), Some(true));
}

#[test]
fn piece_with_wrong_digest_is_assignable_again() {
    let mut engine = Engine::new(two_piece_torrent(), [9u8; 20], BitVec::from_elem(2, false));
    let a = Peer::new([127, 0, 0, 1], 2001);
    open_session(&mut engine, a);
    let piece = download_one_piece(&mut engine, a);
    let actions = engine.verify_piece(piece, &vec![0u8; 32768]);
    assert!(actions.is_empty());
    assert_eq!(engine.local.get(piece as usize), Some(false));
    assert_eq!(engine.requested.get(piece as usize), Some(false));
    assert_eq!(engine.blocks_received[piece as usize], 0);
}

#[test]
fn duplicate_block_is_not_counted() {
    let mut engine = Engine::new(two_piece_torrent(), [9u8; 20], BitVec::from_elem(2, false));
    let a = Peer::new([127, 0, 0, 1], 2001);
    open_session(&mut engine, a);
    let piece = download_one_piece(&mut engine, a);
    let again = engine.handle_message(a, Message::Piece(Piece::new(piece, 0, vec![0u8; 16384])));
    assert!(again.iter().all(|x| !matches!(x, Action::WriteBlock { .. })));
    assert_eq!(engine.blocks_received[piece as usize], 2);
}

#[test]
fn no_request_before_unchoke() {
    let mut engine = Engine::new(two_piece_torrent(), [9u8; 20], BitVec::from_elem(2, false));
    let a = Peer::new([127, 0, 0, 1], 2001);
    engine.add_peer(a);
    engine.on_connected(a, true);
    engine.handle_message(a, Message::Handshake(Handshake::new(INFO, [1u8; 20])));
    engine.handle_message(a, Message::Bitfield(Bitfield::new(BitVec::from_elem(8, true))));
    let _ = engine.handle_message(a, Message::Bitfield(Bitfield::new(BitVec::from_elem(8, true))));
    assert!(engine.peers.is_empty());
    let mut engine = Engine::new(two_piece_torrent(), [9u8; 20], BitVec::from_elem(2, false));
    engine.add_peer(a);
    engine.on_connected(a, true);
    engine.handle_message(a, Message::Handshake(Handshake::new(INFO, [1u8; 20])));
    let mut bits = BitVec::from_elem(8, false);
    bits.set(0, true);
    engine.handle_message(a, Message::Bitfield(Bitfield::new(bits)));
    let assignments = engine.assign_pieces();
    assert_eq!(assignments.len(), 1);
    assert!(engine.dispatch_requests(&assignments).is_empty());
}

#[test]
fn handshake_for_another_torrent_closes_the_session() {
    let mut engine = Engine::new(two_piece_torrent(), [9u8; 20], BitVec::from_elem(2, false));
    let a = Peer::new([127, 0, 0, 1], 2001);
    engine.on_connected(a, false);
    assert_eq!(engine.peers[0].phase, Phase::AwaitingHandshake);
    let actions = engine.handle_message(a, Message::Handshake(Handshake::new([8u8; 20], [1u8; 20])));
    assert!(matches!(actions[0], Action::Close(p) if p == a));
    assert!(engine.peers.is_empty());
}

#[test]
fn inbound_peer_is_answered_and_served() {
    let mut local = BitVec::from_elem(2, false);
    local.set(1, true);
    let mut engine = Engine::new(two_piece_torrent(), [9u8; 20], local);
    let a = Peer::new([10, 0, 0, 5], 51413);
    engine.on_connected(a, false);
    let actions = engine.handle_message(a, Message::Handshake(Handshake::new(INFO, [1u8; 20])));
    assert_eq!(actions.len(), 2);
    assert!(matches!(&actions[0], Action::Send(_, Message::Handshake(h)) if h.peer_id() == [9u8; 20]));
    assert!(matches!(&actions[1], Action::Send(_, Message::Bitfield(_))));
    let actions = engine.handle_message(a, Message::Interested(Interested::new()));
    assert!(matches!(actions[0], Action::Send(p, Message::Unchoke(_)) if p == a));
    assert_eq!(engine.peers[0].phase, Phase::Established);
    let actions = engine.handle_message(a, Message::Request(Request::new(1, 0, 16384)));
    assert!(matches!(actions[0], Action::ServeBlock(p, r) if p == a && r.piece_index() == 1));
    let actions = engine.handle_message(a, Message::Request(Request::new(0, 0, 16384)));
    assert!(actions.is_empty());
    let actions = engine.handle_message(a, Message::Have(Have::new(0)));
    assert!(matches!(actions[0], Action::Send(_, Message::Interested(_))));
}

#[test]
fn dropped_peer_releases_its_piece() {
    let mut engine = Engine::new(two_piece_torrent(), [9u8; 20], BitVec::from_elem(2, false));
    let a = Peer::new([127, 0, 0, 1], 2001);
    open_session(&mut engine, a);
    let assignments = engine.assign_pieces();
    let requests = engine.dispatch_requests(&assignments);
    let piece = match &requests[0] {
        Action::Send(_, Message::Request(r)) => r.piece_index(),
        other => panic!("{:?}", other),
    };
    engine.on_disconnected(a);
    assert_eq!(engine.requested.get(piece as usize), Some(false));
    assert!(engine.find_peer(a).is_none());
    assert!(engine.peers_to_connect().is_empty());
    engine.add_peer(a);
    assert_eq!(engine.peers_to_connect(), vec![a]);
}

#[test]
fn block_arithmetic() {
    let t = Torrent::new(String::new(), 40000, 100000, String::new(), INFO, vec![[0u8; 20]; 3]);
    assert_eq!(t.number_of_pieces(), 3);
    assert_eq!(expected_blocks_in_piece(0, &t), 3);
    assert_eq!(expected_blocks_in_piece(2, &t), 2);
    assert_eq!(expected_block_length(0, 2, &t), 40000 - 32768);
    assert_eq!(expected_block_length(2, 0, &t), 16384);
    assert_eq!(expected_block_length(2, 1, &t), 20000 - 16384);
    assert_eq!(div_ceil(10, 3), 4);
    assert_eq!(div_ceil(9, 3), 3);
    assert_eq!(div_ceil(0, 3), 0);
    let whole = Torrent::new(String::new(), 32768, 65536, String::new(), INFO, vec![]);
    assert_eq!(expected_blocks_in_piece(1, &whole), 2);
    assert_eq!(expected_block_length(1, 1, &whole), 16384);
    assert_eq!(whole.piece_length_in_bytes(), 32768);
    assert_eq!(whole.total_length_in_bytes(), 65536);
}

#[test]
fn file_management_calculate_offset() {
    assert_eq!(calculate_offset(0, 32 * 1024, 0), 0);
    assert_eq!(calculate_offset(0, 32 * 1024, 16384), 16384);
    assert_eq!(calculate_offset(1, 32 * 1024, 0), 32768);
    assert_eq!(calculate_offset(1, 32 * 1024, 16384), 49152);
}

#[test]
fn piece_reader_writer_calculate_offset() {
    assert_eq!(calculate_offset(0, 32 * 1024, 0), 0);
    assert_eq!(calculate_offset(0, 32 * 1024, 16384), 16384);
    assert_eq!(calculate_offset(1, 32 * 1024, 0), 32768);
    assert_eq!(calculate_offset(1, 32 * 1024, 16384), 49152);
}

#[test]
fn block_layout_bounds() {
    let layout = BlockLayout::new(32768, 16384 * 6 + 15 * 1024);
    assert_eq!(layout.write_position(3, 0, 15 * 1024), Ok(98304));
    assert_eq!(layout.write_position(3, 0, 16384), Err(Error::InvalidWriteOffset));
    assert_eq!(layout.write_position(0, 0, 16385), Err(Error::UnexpectedBlockSize));
    assert_eq!(layout.read_position(3, 0), Ok((98304, 15 * 1024)));
    assert_eq!(layout.read_position(1, 16384), Ok((49152, 16384)));
    assert_eq!(layout.read_position(4, 0), Err(Error::InvalidReadOffset));
    assert_eq!(layout.piece_length(), 32768);
}

#[test]
fn local_bitfield_from_pieces() {
    let pieces = vec![piece_data(0), vec![1, 2, 3]];
    let hashes = calculate_piece_hashes(&pieces);
    assert_eq!(hashes[0], sha1(&piece_data(0)));
    let expected = vec![sha1(&piece_data(0)), sha1(&piece_data(1))];
    let bits = local_bitfield(&expected, &pieces);
    assert_eq!(bits.len(), 2);
    assert_eq!(bits.get(0), Some(true));
    assert_eq!(bits.get(1), Some(false));
    let bits = create_bitfield_from_hashes(&expected, &vec![expected[0]]);
    assert_eq!((bits.get(0), bits.get(1)), (Some(true), Some(false)));
}

#[test]
fn generate_peer_id() {
    let actual_peer_id = generate_random_identity();
    let expected = "-Tr0001-".as_bytes();
    for index in 0..8 {
        assert_eq!(actual_peer_id[index], expected[index]);
    }
    assert_eq!(identity_from([1u8; 12])[8..], [1u8; 12]);
}

#[test]
fn wait_works() {
    let rounds = 5;
    let mut adaptative_wait = AdaptativeWait::new(rounds, Duration::from_millis(500));
    for _ in 0..rounds {
        assert_eq!(adaptative_wait.wait(), WaitStep::Yield);
    }
    assert_eq!(adaptative_wait.wait(), WaitStep::Sleep);
    let sleep = adaptative_wait.sleep_duration();
    assert!(sleep >= Duration::from_millis(450));
    assert!(sleep <= Duration::from_millis(550));
    assert_eq!(adaptative_wait.wait(), WaitStep::Sleep);
}

#[test]
fn reset_works() {
    let rounds = 5;
    let mut adaptative_wait = AdaptativeWait::new(rounds, Duration::from_millis(500));
    adaptative_wait.wait();
    assert_eq!(adaptative_wait.remaining_rounds(), rounds - 1);
    adaptative_wait.reset();
    assert_eq!(adaptative_wait.remaining_rounds(), rounds);
}

#[test]
fn tracker_request_from_torrent() {
    let t = two_piece_torrent();
    let r = TrackerRequest::from_torrent(&t, [3u8; 20], 65536);
    assert_eq!(r.info_hash, INFO);
    assert_eq!(r.port, CLIENT_PORT);
    assert_eq!(r.left, 65536);
    assert_eq!(r.event, Some(Event::Started));
    assert_eq!(Event::Completed.as_str(), "completed");
    let addr = TrackerAddress::new("127.0.0.1".to_string(), 6969);
    assert_eq!((addr.host(), addr.port()), ("127.0.0.1", 6969));
    assert_eq!(t.announce(), "http://127.0.0.1:6969/announce");
    assert_eq!(t.name(), "file.bin");
    assert_eq!(t.info_hash(), INFO);
    assert_eq!(t.piece_hashes().len(), 2);
}

#[test]
fn session_messages_update_the_peer_state() {
    let mut engine = Engine::new(two_piece_torrent(), [9u8; 20], BitVec::from_elem(2, false));
    let a = Peer::new([127, 0, 0, 1], 2001);
    open_session(&mut engine, a);
    assert!(!engine.peers[0].peer_choking);
    assert!(engine.handle_message(a, Message::Choke(torrent_peer::Choke::new())).is_empty());
    assert!(engine.peers[0].peer_choking);
    let assignments = engine.assign_pieces();
    assert_eq!(assignments.len(), 2);
    assert!(engine.dispatch_requests(&assignments).is_empty());
    engine.handle_message(a, Message::Unchoke(Unchoke::new()));
    engine.handle_message(a, Message::Interested(Interested::new()));
    assert!(engine.peers[0].peer_interested);
    assert!(engine
        .handle_message(a, Message::NotInterested(torrent_peer::NotInterested::new()))
        .is_empty());
    assert!(!engine.peers[0].peer_interested);
    assert!(engine.handle_message(a, Message::KeepAlive(torrent_peer::KeepAlive::new())).is_empty());
    let stranger = Peer::new([192, 168, 1, 1], 6881);
    let actions = engine.handle_message(stranger, Message::Have(Have::new(0)));
    assert!(matches!(actions[0], Action::Close(p) if p == stranger));
    assert_eq!(engine.peers.len(), 1);
    assert!(engine.wants_from(0));
    assert!(!engine.holds_any());
    assert!(!engine.is_complete());
}

#[test]
fn bitfield_that_does_not_fit_closes_the_session() {
    let mut engine = Engine::new(two_piece_torrent(), [9u8; 20], BitVec::from_elem(2, false));
    let a = Peer::new([127, 0, 0, 1], 2001);
    engine.add_peer(a);
    engine.on_connected(a, true);
    engine.handle_message(a, Message::Handshake(Handshake::new(INFO, [1u8; 20])));
    let mut bits = BitVec::from_elem(8, false);
    bits.set(5, true);
    assert!(!engine.bitfield_fits(&bits));
    let actions = engine.handle_message(a, Message::Bitfield(Bitfield::new(bits)));
    assert!(matches!(actions[0], Action::Close(p) if p == a));
    assert!(engine.peers.is_empty());
    assert!(engine.bitfield_fits(&BitVec::from_elem(2, true).iter().chain(std::iter::repeat(false).take(6)).collect()));
}

#[test]
fn requested_piece_is_not_requested_again() {
    let mut engine = Engine::new(two_piece_torrent(), [9u8; 20], BitVec::from_elem(2, false));
    let a = Peer::new([127, 0, 0, 1], 2001);
    open_session(&mut engine, a);
    let assignments = engine.assign_pieces();
    let first = engine.dispatch_requests(&assignments);
    let second = engine.dispatch_requests(&assignments);
    let third = engine.dispatch_requests(&assignments);
    let piece_of = |actions: &Vec<Action>| match &actions[0] {
        Action::Send(_, Message::Request(r)) => r.piece_index(),
        other => panic!("{:?}", other),
    };
    assert_eq!(first.len(), 2);
    assert_eq!(second.len(), 2);
    assert_ne!(piece_of(&first), piece_of(&second));
    assert!(third.is_empty());
    assert_eq!(engine.peers[0].outstanding.len(), 4);
}

#[test]
fn peer_with_nothing_left_gets_not_interested_after_verification() {
    let mut engine = Engine::new(two_piece_torrent(), [9u8; 20], BitVec::from_elem(2, false));
    let a = Peer::new([127, 0, 0, 1], 2001);
    engine.add_peer(a);
    engine.on_connected(a, true);
    engine.handle_message(a, Message::Handshake(Handshake::new(INFO, [1u8; 20])));
    let mut bits = BitVec::from_elem(8, false);
    bits.set(0, true);
    engine.handle_message(a, Message::Bitfield(Bitfield::new(bits)));
    engine.handle_message(a, Message::Unchoke(Unchoke::new()));
    let assignments = engine.assign_pieces();
    let requests = engine.dispatch_requests(&assignments);
    assert_eq!(requests.len(), 2);
    let data = piece_data(0);
    engine.handle_message(a, Message::Piece(Piece::new(0, 0, data[..16384].to_vec())));
    engine.handle_message(a, Message::Piece(Piece::new(0, 16384, data[16384..].to_vec())));
    let actions = engine.verify_piece(0, &data);
    assert_eq!(actions.len(), 2);
    assert!(matches!(&actions[0], Action::Send(p, Message::Have(h)) if *p == a && h.have() == 0));
    assert!(matches!(&actions[1], Action::Send(p, Message::NotInterested(_)) if *p == a));
    assert!(!engine.peers[0].am_interested);
    assert!(engine.verify_piece(0, &data).is_empty());
    let stale = engine.handle_message(a, Message::Piece(Piece::new(0, 0, data[..16384].to_vec())));
    assert!(stale.iter().all(|x| !matches!(x, Action::WriteBlock { .. })));
    assert_eq!(engine.blocks_received[0], 2);
}

#[test]
fn held_piece_is_never_requested() {
    let mut local = BitVec::from_elem(2, false);
    local.set(0, true);
    let mut engine = Engine::new(two_piece_torrent(), [9u8; 20], local);
    assert_eq!(engine.blocks_received, vec![2, 0]);
    let a = Peer::new([127, 0, 0, 1], 2001);
    engine.add_peer(a);
    engine.on_connected(a, true);
    let reply = engine.handle_message(a, Message::Handshake(Handshake::new(INFO, [1u8; 20])));
    assert!(matches!(&reply[0], Action::Send(p, Message::Bitfield(_)) if *p == a));
    engine.handle_message(a, Message::Bitfield(Bitfield::new(BitVec::from_elem(8, false))));
    engine.handle_message(a, Message::Have(Have::new(0)));
    engine.handle_message(a, Message::Have(Have::new(1)));
    engine.handle_message(a, Message::Unchoke(Unchoke::new()));
    assert!(engine.peers[0].am_interested);
    let stale = vec![torrent_peer::PieceSelection::new(0, a)];
    assert!(engine.dispatch_requests(&stale).is_empty());
}
