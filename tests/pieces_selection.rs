use bit_vec::BitVec;
use std::collections::VecDeque;
use torrent_peer::{DistributedSelector, Peer, PieceSelection, RarestPiecesSelector, SimpleSelector};

fn local_peer(port: u16) -> Peer {
    Peer::new([127, 0, 0, 1], port)
}

#[test]
fn select_pieces_with_one_peer_having_all_pieces() {
    let mut peers_bitfields: Vec<(Peer, BitVec)> = Vec::new();
    let seeder = local_peer(6999);
    let bitfield_length = 9;
    peers_bitfields.push((seeder, BitVec::from_elem(bitfield_length, true)));

    let mybitfield: BitVec = BitVec::new();
    let selection = SimpleSelector::pieces_selection(mybitfield, peers_bitfields);

    let mut expected_selection = Vec::new();
    for piece_id in 0..bitfield_length {
        expected_selection.push(PieceSelection::new(piece_id as u32, seeder));
    }
    assert_eq!(selection, expected_selection);
}

#[test]
fn select_pieces_with_two_peers_having_half_pieces_each() {
    let bitfield_length = 9;
    let first_part_seeder = local_peer(6999);
    let mut first_part_seeder_bitfield = BitVec::from_elem(bitfield_length, true);
    for i in 5..9 {
        first_part_seeder_bitfield.set(i, false);
    }
    let second_part_seeder = local_peer(6998);
    let mut second_part_seeder_bitfield = BitVec::from_elem(bitfield_length, true);
    for i in 0..5 {
        second_part_seeder_bitfield.set(i, false);
    }
    let peers_bitfields = vec![
        (first_part_seeder, first_part_seeder_bitfield),
        (second_part_seeder, second_part_seeder_bitfield),
    ];

    let mybitfield: BitVec = BitVec::from_elem(bitfield_length, false);
    let mut selection = SimpleSelector::pieces_selection(mybitfield, peers_bitfields);

    let mut expected_selection = Vec::new();
    for piece_id in 0..5 {
        expected_selection.push(PieceSelection::new(piece_id, first_part_seeder));
    }
    for piece_id in 5..bitfield_length {
        expected_selection.push(PieceSelection::new(piece_id as u32, second_part_seeder));
    }

    selection.sort();
    assert_eq!(selection, expected_selection);
}

#[test]
fn select_pieces_with_two_peers_having_overlapping_pieces() {
    let bitfield_length = 4;
    let first_part_seeder = local_peer(0001);
    let mut first_part_seeder_bitfield = BitVec::from_elem(bitfield_length, true);
    first_part_seeder_bitfield.set(3, false);
    let second_part_seeder = local_peer(0002);
    let mut second_part_seeder_bitfield = BitVec::from_elem(bitfield_length, true);
    second_part_seeder_bitfield.set(0, false);
    second_part_seeder_bitfield.set(1, false);
    let peers_bitfields = vec![
        (first_part_seeder, first_part_seeder_bitfield),
        (second_part_seeder, second_part_seeder_bitfield),
    ];

    let mybitfield: BitVec = BitVec::from_elem(bitfield_length, false);
    let selection = SimpleSelector::pieces_selection(mybitfield, peers_bitfields);

    for piece_selection in selection.iter() {
        match piece_selection.piece_id() {
            0..=1 => assert_eq!(piece_selection.peer(), first_part_seeder),
            2 => assert!(true),
            3 => assert_eq!(piece_selection.peer(), second_part_seeder),
            _ => (),
        }
    }
}

#[test]
fn select_pieces_with_one_peer_having_one_missing_that_we_have() {
    let bitfield_length = 4;
    let seeder = local_peer(0002);
    let mut seeder_bitfield = BitVec::from_elem(bitfield_length, true);
    seeder_bitfield.set(0, false);
    let peers_bitfields = vec![(seeder, seeder_bitfield)];

    let mut mybitfield: BitVec = BitVec::from_elem(bitfield_length, false);
    mybitfield.set(0, true);
    let selection = SimpleSelector::pieces_selection(mybitfield, peers_bitfields);

    for piece_selection in selection.iter() {
        match piece_selection.piece_id() {
            0 => assert!(true),
            1..=3 => assert_eq!(piece_selection.peer(), seeder),
            _ => (),
        }
    }
}

#[test]
fn select_pieces_with_one_missing_piece_globally() {
    let bitfield_length = 4;
    let seeder = local_peer(0002);
    let mut seeder_bitfield = BitVec::from_elem(bitfield_length, true);
    seeder_bitfield.set(0, false);
    let peers_bitfields = vec![(seeder, seeder_bitfield)];

    let mybitfield: BitVec = BitVec::from_elem(bitfield_length, false);
    let selection = SimpleSelector::pieces_selection(mybitfield, peers_bitfields);

    for piece_selection in selection.iter() {
        match piece_selection.piece_id() {
            0 => assert!(false),
            1..=3 => assert_eq!(piece_selection.peer(), seeder),
            _ => (),
        }
    }
}

#[test]
fn distributed_selector_two_peers_disjoint_halves() {
    let peer_a = local_peer(7001);
    let peer_b = local_peer(7002);
    let mut a = BitVec::from_elem(9, false);
    let mut b = BitVec::from_elem(9, false);
    for i in 0..5 {
        a.set(i, true);
    }
    for i in 5..9 {
        b.set(i, true);
    }
    let mut selection =
        DistributedSelector::pieces_selection(BitVec::from_elem(9, false), vec![(peer_a, a), (peer_b, b)]);
    selection.sort();
    assert_eq!(selection.len(), 9);
    for (i, s) in selection.iter().enumerate() {
        assert_eq!(s.piece_id(), i as u32);
        assert_eq!(s.peer(), if i < 5 { peer_a } else { peer_b });
    }
}

#[test]
fn distributed_selector_skips_held_and_unheld_pieces() {
    let seeder = local_peer(7003);
    let mut seeder_bits = BitVec::from_elem(4, true);
    seeder_bits.set(3, false);
    let mut mine = BitVec::from_elem(4, false);
    mine.set(1, true);
    let mut selection = DistributedSelector::pieces_selection(mine, vec![(seeder, seeder_bits)]);
    selection.sort();
    assert_eq!(
        selection,
        vec![PieceSelection::new(0, seeder), PieceSelection::new(2, seeder)]
    );
}

#[test]
fn distributed_selector_round_robin_over_holders() {
    let a = local_peer(7004);
    let b = local_peer(7005);
    let mut selection = DistributedSelector::pieces_selection(
        BitVec::from_elem(4, false),
        vec![(a, BitVec::from_elem(4, true)), (b, BitVec::from_elem(4, true))],
    );
    selection.sort();
    let peers: Vec<Peer> = selection.iter().map(|s| s.peer()).collect();
    assert_eq!(peers, vec![b, a, b, a]);
}

#[test]
fn select_rarest_pieces_with_one_peer_having_all_pieces() {
    let seeder = local_peer(6999);
    let bitfield_length = 9;
    let peers_bitfields = vec![(seeder, BitVec::from_elem(bitfield_length, true))];
    let mybitfield: BitVec = BitVec::from_elem(bitfield_length, false);
    let selections: VecDeque<PieceSelection> =
        RarestPiecesSelector::priority_pieces_selection(mybitfield, peers_bitfields);
    for piece_id in 0..bitfield_length {
        assert_eq!(selections[piece_id], PieceSelection::new(piece_id as u32, seeder));
    }
}

#[test]
fn select_rarest_pieces_with_one_peer_having_one_missing_that_we_have() {
    let bitfield_length = 4;
    let seeder = local_peer(0002);
    let mut seeder_bitfield = BitVec::from_elem(bitfield_length, true);
    seeder_bitfield.set(0, false);
    let mut mybitfield: BitVec = BitVec::from_elem(bitfield_length, false);
    mybitfield.set(0, true);
    let selections =
        RarestPiecesSelector::priority_pieces_selection(mybitfield, vec![(seeder, seeder_bitfield)]);
    for selection in &selections {
        match selection.piece_id() {
            0 => assert!(true),
            1..=3 => assert_eq!(selection.peer(), seeder),
            _ => assert!(false),
        }
    }
}

#[test]
fn select_rarest_pieces_with_one_missing_piece_globally() {
    let bitfield_length = 4;
    let seeder = local_peer(0002);
    let mut seeder_bitfield = BitVec::from_elem(bitfield_length, true);
    seeder_bitfield.set(0, false);
    let mybitfield: BitVec = BitVec::from_elem(bitfield_length, false);
    let selections =
        RarestPiecesSelector::priority_pieces_selection(mybitfield, vec![(seeder, seeder_bitfield)]);
    for selection in &selections {
        match selection.piece_id() {
            0 => assert!(false),
            1..=3 => assert_eq!(selection.peer(), seeder),
            _ => (),
        }
    }
}

#[test]
fn select_rarest_pieces_with_growing_ordrered_rarety_among_three_seeders() {
    let bitfield_length = 3;
    let seeder_one = local_peer(0001);
    let seeder_one_bitfield = BitVec::from_elem(bitfield_length, true);
    let seeder_two = local_peer(0002);
    let mut seeder_two_bitfield = BitVec::from_elem(bitfield_length, true);
    seeder_two_bitfield.set(2, false);
    let seeder_three = local_peer(0003);
    let mut seeder_three_bitfield = BitVec::from_elem(bitfield_length, false);
    seeder_three_bitfield.set(0, true);
    let peers_bitfields = vec![
        (seeder_one, seeder_one_bitfield),
        (seeder_two, seeder_two_bitfield),
        (seeder_three, seeder_three_bitfield),
    ];

    let mybitfield: BitVec = BitVec::from_elem(bitfield_length, false);
    let mut selections = RarestPiecesSelector::priority_pieces_selection(mybitfield, peers_bitfields);

    assert_eq!(selections.pop_front().unwrap(), PieceSelection::new(2, seeder_one));
    let second_selection = selections.pop_front().unwrap();
    assert!(
        second_selection == PieceSelection::new(1, seeder_one)
            || second_selection == PieceSelection::new(1, seeder_two)
    );
    let third_selection = selections.pop_front().unwrap();
    assert!(
        third_selection == PieceSelection::new(0, seeder_one)
            || third_selection == PieceSelection::new(0, seeder_two)
            || third_selection == PieceSelection::new(0, seeder_three)
    );
    assert!(selections.is_empty());
}

#[test]
fn peers_from_compact_list() {
    let peers = torrent_peer::peer::parse_compact_peers(&[127, 0, 0, 1, 0x1A, 0xE1, 10, 0, 0, 2, 0, 80]).unwrap();
    assert_eq!(peers, vec![Peer::new([127, 0, 0, 1], 6881), Peer::new([10, 0, 0, 2], 80)]);
    assert_eq!(peers[1].octets(), [10, 0, 0, 2]);
    assert_eq!(peers[1].port(), 80);
    assert_eq!(peers[0].socket_address(), "127.0.0.1:6881");
    assert_eq!(Peer::new([255, 0, 10, 100], 0).socket_address(), "255.0.10.100:0");
    assert_eq!(Peer::from_bytes(&[1, 2, 3, 4, 0, 1]), Peer::new([1, 2, 3, 4], 1));
    assert_eq!(
        torrent_peer::peer::parse_compact_peers(&[1, 2, 3]),
        Err(torrent_peer::Error::InvalidCompactPeerList)
    );
}
