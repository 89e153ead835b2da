use bit_vec::BitVec;
use torrent_peer::codec::{try_parse_frame, try_parse_handshake, try_parse_message, FromBytes, Parsed};
use torrent_peer::{
    identity_first_message_type_of, Bitfield, Cancel, Choke, Error, Handshake, Have, Interested,
    IntoBytes, KeepAlive, Message, MessageType, NotInterested, Piece, Port, Request, Unchoke,
};

const INFO_ID: [u8; 20] = [
    0x06, 0x71, 0x33, 0xac, 0xe5, 0xdd, 0x0c, 0x50, 0x27, 0xb9, 0x9d, 0xe5, 0xd4, 0xba, 0x51, 0x28,
    0x28, 0x20, 0x8d, 0x5b,
];

const PEER_ID: [u8; 20] = [
    0x2d, 0x42, 0x45, 0x30, 0x30, 0x30, 0x31, 0x2d, 0x6e, 0x9a, 0xb4, 0x40, 0x2c, 0x62, 0x2e, 0x2e,
    0x7a, 0x71, 0x5d, 0x9d,
];

fn expected_handshake() -> Vec<u8> {
    let mut v = vec![0x13];
    v.extend_from_slice(b"BitTorrent protocol");
    v.extend_from_slice(&[0u8; 8]);
    v.extend_from_slice(&INFO_ID);
    v.extend_from_slice(&PEER_ID);
    v
}

#[test]
fn handshake_message_into_bytes() {
    let handshake_bytes = Handshake::new(INFO_ID, PEER_ID);
    let bytes = handshake_bytes.into_bytes();
    assert_eq!(bytes.len(), 68);
    assert_eq!(
        bytes[..20],
        [
            0x13, 0x42, 0x69, 0x74, 0x54, 0x6F, 0x72, 0x72, 0x65, 0x6E, 0x74, 0x20, 0x70, 0x72,
            0x6F, 0x74, 0x6F, 0x63, 0x6F, 0x6C
        ]
    );
    assert_eq!(bytes, expected_handshake());
}

#[test]
fn unchoke_message_into_bytes() {
    assert_eq!(Unchoke::new().into_bytes(), vec![0, 0, 0, 1, 1]);
}

#[test]
fn interested_message_into_bytes() {
    assert_eq!(Interested::new().into_bytes(), vec![0, 0, 0, 1, 2]);
}

#[test]
fn bitfield_message_into_bytes() {
    let bitfield_message = Bitfield::new(BitVec::from_bytes(&[0xff, 0xe0]));
    assert_eq!(bitfield_message.into_bytes(), vec![0, 0, 0, 3, 5, 0xff, 0xe0]);
}

#[test]
fn piece_message_into_bytes() {
    let data: Vec<u8> = (0..16384u32).map(|i| (i % 251) as u8).collect();
    let piece_message = Piece::new(6, 0, data.clone());
    let mut expected_bytes = vec![0x00, 0x00, 0x40, 0x09, 0x07, 0, 0, 0, 6, 0, 0, 0, 0];
    expected_bytes.extend_from_slice(&data);
    assert_eq!(piece_message.into_bytes(), expected_bytes);
}

#[test]
fn request_message_into_bytes() {
    let request_message = Request::new(6, 0, 0x4000);
    assert_eq!(
        request_message.into_bytes(),
        vec![0x00, 0x00, 0x00, 0x0D, 0x06, 0x00, 0x00, 0x00, 0x06, 0x00, 0x00, 0x00, 0x00, 0x00, 0x00, 0x40, 0x00]
    );
}

#[test]
fn not_interested_message_into_bytes() {
    assert_eq!(NotInterested::new().into_bytes(), vec![0, 0, 0, 1, 3]);
}

#[test]
fn have_message_into_bytes() {
    assert_eq!(Have::new(0x1).into_bytes(), vec![0, 0, 0, 5, 4, 0, 0, 0, 1]);
}

#[test]
fn nine_piece_bitfield_is_padded() {
    let bits = BitVec::from_elem(9, true);
    assert_eq!(Bitfield::new(bits).into_bytes(), vec![0, 0, 0, 3, 5, 0xFF, 0x80]);
}

#[test]
fn other_messages_into_bytes() {
    assert_eq!(KeepAlive::new().into_bytes(), vec![0, 0, 0, 0]);
    assert_eq!(Choke::new().into_bytes(), vec![0, 0, 0, 1, 0]);
    assert_eq!(
        Cancel::new(1, 2, 3).into_bytes(),
        vec![0, 0, 0, 13, 8, 0, 0, 0, 1, 0, 0, 0, 2, 0, 0, 0, 3]
    );
    assert_eq!(Port::new(0x1AE2).into_bytes(), vec![0, 0, 0, 3, 9, 0x1A, 0xE2]);
}

#[test]
fn request_round_trip() {
    let bytes = Request::new(7, 0x4000, 0x4000).into_bytes();
    match try_parse_frame(&bytes) {
        Parsed::Complete(Message::Request(r), n) => {
            assert_eq!(n, 17);
            assert_eq!((r.piece_index(), r.begin_offset(), r.piece_length()), (7, 0x4000, 0x4000));
        }
        other => panic!("{:?}", other),
    }
}

#[test]
fn piece_round_trip() {
    let bytes = Piece::new(3, 16, vec![9, 8, 7]).into_bytes();
    match try_parse_frame(&bytes) {
        Parsed::Complete(Message::Piece(p), n) => {
            assert_eq!(n, 16);
            assert_eq!(p.piece_index(), 3);
            assert_eq!(p.begin_offset_of_piece(), 16);
            assert_eq!(p.data(), &vec![9, 8, 7]);
        }
        other => panic!("{:?}", other),
    }
}

#[test]
fn bitfield_round_trip_pads_to_bytes() {
    let mut bits = BitVec::from_elem(9, false);
    bits.set(0, true);
    bits.set(8, true);
    let bytes = Bitfield::new(bits).into_bytes();
    assert_eq!(bytes, vec![0, 0, 0, 3, 5, 0x80, 0x80]);
    match try_parse_frame(&bytes) {
        Parsed::Complete(Message::Bitfield(b), n) => {
            assert_eq!(n, 7);
            let got = b.bitfield();
            assert_eq!(got.len(), 16);
            assert_eq!(got.get(0), Some(true));
            assert_eq!(got.get(1), Some(false));
            assert_eq!(got.get(8), Some(true));
            assert_eq!(got.get(9), Some(false));
        }
        other => panic!("{:?}", other),
    }
}

#[test]
fn handshake_round_trip() {
    let bytes = Handshake::new(INFO_ID, PEER_ID).into_bytes();
    match try_parse_handshake(&bytes) {
        Parsed::Complete(Message::Handshake(h), n) => {
            assert_eq!(n, 68);
            assert_eq!(h.info_hash(), INFO_ID);
            assert_eq!(h.peer_id(), PEER_ID);
            assert_eq!(h.reserved(), [0u8; 8]);
            assert_eq!(h.pstrlen(), 19);
            assert_eq!(h.pstr(), "BitTorrent protocol");
        }
        other => panic!("{:?}", other),
    }
    let (h, n) = Handshake::from_bytes(&bytes).unwrap();
    assert_eq!((h.info_hash(), n), (INFO_ID, 68));
}

#[test]
fn handshake_errors() {
    let bytes = expected_handshake();
    assert!(matches!(try_parse_handshake(&bytes[..40]), Parsed::Incomplete));
    let mut wrong_len = bytes.clone();
    wrong_len[0] = 18;
    assert!(matches!(try_parse_handshake(&wrong_len), Parsed::Malformed));
    let mut wrong_name = bytes.clone();
    wrong_name[5] = b'X';
    assert!(matches!(try_parse_handshake(&wrong_name), Parsed::Malformed));
    assert_eq!(Handshake::from_bytes(&bytes[..10]).unwrap_err(), Error::BytesArrayTooShort);
    assert_eq!(
        Handshake::from_bytes(&wrong_name).unwrap_err(),
        Error::FailedToParseBitTorrentHandshakeProtocolNameField
    );
}

#[test]
fn streaming_over_every_cut() {
    let mut stream = Handshake::new(INFO_ID, PEER_ID).into_bytes();
    let frames = vec![
        Have::new(4).into_bytes(),
        Unchoke::new().into_bytes(),
        Piece::new(1, 0, vec![1, 2, 3, 4]).into_bytes(),
        KeepAlive::new().into_bytes(),
    ];
    for f in &frames {
        stream.extend_from_slice(f);
    }
    for cut in 0..=stream.len() {
        let buf = &stream[..cut];
        let mut pos = 0;
        let mut kinds = Vec::new();
        loop {
            match try_parse_message(&buf[pos..]) {
                Parsed::Complete(m, n) => {
                    kinds.push(format!("{:?}", m).split('(').next().unwrap().to_string());
                    pos += n;
                }
                Parsed::Incomplete => break,
                Parsed::Malformed => panic!("malformed at cut {}", cut),
            }
        }
        let mut ends = vec![68];
        for f in &frames {
            ends.push(ends.last().unwrap() + f.len());
        }
        let whole = ends.iter().filter(|e| **e <= cut).count();
        assert_eq!(kinds.len(), whole);
        let names = ["Handshake", "Have", "Unchoke", "Piece", "KeepAlive"];
        for (k, name) in kinds.iter().enumerate() {
            assert_eq!(k < names.len() && kinds[k] == names[k], true, "{}", name);
        }
    }
}

#[test]
fn frame_errors() {
    assert!(matches!(try_parse_frame(&[0, 0, 0]), Parsed::Incomplete));
    assert!(matches!(try_parse_frame(&[0, 0, 0, 5, 4, 0]), Parsed::Incomplete));
    assert!(matches!(try_parse_frame(&[0x01, 0x00, 0x00, 0x01, 7]), Parsed::Malformed));
    assert!(matches!(try_parse_frame(&[0, 0, 0, 1, 10]), Parsed::Malformed));
    assert!(matches!(try_parse_frame(&[0, 0, 0, 2, 1, 0]), Parsed::Malformed));
    assert_eq!(Have::from_bytes(&[0, 0, 0, 5, 4, 0]).unwrap_err(), Error::BytesArrayTooShort);
    assert_eq!(
        Have::from_bytes(&[0, 0, 0, 1, 1]).unwrap_err(),
        Error::MessageTypeDoesNotMatchWithExpectedOne
    );
    assert_eq!(
        Have::from_bytes(&[0, 0, 0, 1, 12]).unwrap_err(),
        Error::FailedToFindTheMessageTypeOfRawBytes
    );
    assert_eq!(
        Choke::from_bytes(&[0, 0, 0, 2, 0, 0]).unwrap_err(),
        Error::MessageLengthDoesNotMatchWithExpectedOne
    );
    let (h, n) = Have::from_bytes(&[0, 0, 0, 5, 4, 0, 0, 1, 2]).unwrap();
    assert_eq!((h.have(), n), (258, 9));
    assert_eq!(
        Have::from_bytes(&[0, 0, 0, 5, 4, 0, 0, 1, 2, 99]).unwrap_err(),
        Error::MessageLengthDoesNotMatchWithExpectedOne
    );
    let mut long_request = Request::new(1, 2, 3).into_bytes();
    long_request.push(0);
    assert_eq!(Request::from_bytes(&long_request).unwrap_err(), Error::BytesArrayTooShort);
    let (p, n) = Port::from_bytes(&[0, 0, 0, 3, 9, 0x1A, 0xE2]).unwrap();
    assert_eq!((p.listen_port(), p.message_length(), p.message_type(), n), (0x1AE2, 3, 9, 7));
    let (c, _) = Cancel::from_bytes(&[0, 0, 0, 13, 8, 0, 0, 0, 1, 0, 0, 0, 2, 0, 0, 0, 3]).unwrap();
    assert_eq!((c.piece_index(), c.begin_offset(), c.piece_length()), (1, 2, 3));
    let (r, _) = Request::from_bytes(&Request::new(1, 2, 3).into_bytes()).unwrap();
    assert_eq!((r.message_length(), r.message_type()), (13, 6));
    let (_k, n) = KeepAlive::from_bytes(&[0, 0, 0, 0]).unwrap();
    assert_eq!(n, 4);
    let (b, _) = Bitfield::from_bytes(&[0, 0, 0, 2, 5, 0xC0]).unwrap();
    assert_eq!(b.bitfield().get(1), Some(true));
    assert!(Unchoke::from_bytes(&[0, 0, 0, 1, 1]).is_ok());
    assert!(Interested::from_bytes(&[0, 0, 0, 1, 2]).is_ok());
    assert!(NotInterested::from_bytes(&[0, 0, 0, 1, 3]).is_ok());
    assert!(Piece::from_bytes(&[0, 0, 0, 9, 7, 0, 0, 0, 0, 0, 0, 0, 0]).is_ok());
}

#[test]
fn message_type_ids() {
    assert_eq!(MessageType::Request.id(), 6);
    assert_eq!(MessageType::Piece.base_length(), 9);
    assert_eq!(identity_first_message_type_of(&[0, 0, 0, 1, 3]), Ok(MessageType::NotInterested));
    assert_eq!(
        identity_first_message_type_of(&[0, 0, 0, 1, 42]),
        Err(Error::FailedToFindTheMessageTypeOfRawBytes)
    );
}
