//! The peer wire protocol messages, their abstract values and their encodings.
use crate::bits::{bits_of, bits_to_byte_vec, bits_to_bytes, bytes_for_bits};
use crate::wire::{be16, be32, push_all, push_u16, push_u32};
use bit_vec::BitVec;
use vstd::prelude::*;

verus! {

/// Size of the length prefix of every message but the handshake.
pub const LENGTH_FIELD_SIZE: usize = 4;

/// The largest length prefix that a peer may send.
pub const MAX_FRAME_LENGTH: u32 = 16777216;

/// Length of a version 1 handshake.
pub const HANDSHAKE_LENGTH: usize = 68;

/// Length of the protocol name in a version 1 handshake.
pub const PROTOCOL_NAME_LENGTH: u8 = 19;

/// The bytes of "BitTorrent protocol".
pub open spec fn protocol_name() -> Seq<u8> {
    seq![66u8, 105u8, 116u8, 84u8, 111u8, 114u8, 114u8, 101u8, 110u8, 116u8, 32u8, 112u8, 114u8, 111u8, 116u8, 111u8, 99u8, 111u8, 108u8]
}

/// The kinds of message of the peer wire protocol.
#[derive(Debug, PartialEq, Eq, Copy, Clone, Structural)]
pub enum MessageType {
    Choke,
    Unchoke,
    Interested,
    NotInterested,
    Have,
    Bitfield,
    Request,
    Piece,
    Cancel,
    Port,
    KeepAlive,
}

pub open spec fn message_type_id(t: MessageType) -> u8 {
    match t {
        MessageType::Choke => 0,
        MessageType::Unchoke => 1,
        MessageType::Interested => 2,
        MessageType::NotInterested => 3,
        MessageType::Have => 4,
        MessageType::Bitfield => 5,
        MessageType::Request => 6,
        MessageType::Piece => 7,
        MessageType::Cancel => 8,
        MessageType::Port => 9,
        MessageType::KeepAlive => 255,
    }
}

pub open spec fn message_type_base_length(t: MessageType) -> u32 {
    match t {
        MessageType::KeepAlive => 0,
        MessageType::Choke | MessageType::Unchoke | MessageType::Interested
        | MessageType::NotInterested | MessageType::Bitfield => 1,
        MessageType::Have => 5,
        MessageType::Request | MessageType::Cancel => 13,
        MessageType::Piece => 9,
        MessageType::Port => 3,
    }
}

/// The kind whose id is `id`; a keep-alive carries no id.
pub open spec fn message_type_of_id(id: u8) -> Option<MessageType> {
    if id == 0 {
        Some(MessageType::Choke)
    } else if id == 1 {
        Some(MessageType::Unchoke)
    } else if id == 2 {
        Some(MessageType::Interested)
    } else if id == 3 {
        Some(MessageType::NotInterested)
    } else if id == 4 {
        Some(MessageType::Have)
    } else if id == 5 {
        Some(MessageType::Bitfield)
    } else if id == 6 {
        Some(MessageType::Request)
    } else if id == 7 {
        Some(MessageType::Piece)
    } else if id == 8 {
        Some(MessageType::Cancel)
    } else if id == 9 {
        Some(MessageType::Port)
    } else {
        None
    }
}

impl MessageType {
    /// The id byte of the kind; the keep-alive, which has none, gets 255.
    pub fn id(self) -> (r: u8)
        ensures
            r == message_type_id(self),
    {
        match self {
            MessageType::Choke => 0,
            MessageType::Unchoke => 1,
            MessageType::Interested => 2,
            MessageType::NotInterested => 3,
            MessageType::Have => 4,
            MessageType::Bitfield => 5,
            MessageType::Request => 6,
            MessageType::Piece => 7,
            MessageType::Cancel => 8,
            MessageType::Port => 9,
            MessageType::KeepAlive => 255,
        }
    }

    /// Length of the message without its variable part and without the length prefix.
    pub fn base_length(self) -> (r: u32)
        ensures
            r == message_type_base_length(self),
    {
        match self {
            MessageType::KeepAlive => 0,
            MessageType::Choke => 1,
            MessageType::Unchoke => 1,
            MessageType::Interested => 1,
            MessageType::NotInterested => 1,
            MessageType::Have => 5,
            MessageType::Bitfield => 1,
            MessageType::Request => 13,
            MessageType::Piece => 9,
            MessageType::Cancel => 13,
            MessageType::Port => 3,
        }
    }

    /// The kind whose id byte is `id`, if any.
    pub fn from_id(id: u8) -> (r: Option<MessageType>)
        ensures
            r == message_type_of_id(id),
    {
        if id == 0 {
            Some(MessageType::Choke)
        } else if id == 1 {
            Some(MessageType::Unchoke)
        } else if id == 2 {
            Some(MessageType::Interested)
        } else if id == 3 {
            Some(MessageType::NotInterested)
        } else if id == 4 {
            Some(MessageType::Have)
        } else if id == 5 {
            Some(MessageType::Bitfield)
        } else if id == 6 {
            Some(MessageType::Request)
        } else if id == 7 {
            Some(MessageType::Piece)
        } else if id == 8 {
            Some(MessageType::Cancel)
        } else if id == 9 {
            Some(MessageType::Port)
        } else {
            None
        }
    }
}

/// The abstract value of a message.
pub enum MessageView {
    Handshake { reserved: Seq<u8>, info_hash: Seq<u8>, peer_id: Seq<u8> },
    KeepAlive,
    Choke,
    Unchoke,
    Interested,
    NotInterested,
    Have { piece_index: u32 },
    Bitfield { bits: Seq<bool> },
    Request { piece_index: u32, begin_offset: u32, length: u32 },
    Piece { piece_index: u32, begin_offset: u32, data: Seq<u8> },
    Cancel { piece_index: u32, begin_offset: u32, length: u32 },
    Port { listen_port: u16 },
}

/// The bytes of a message on the wire.
pub open spec fn encode_message(m: MessageView) -> Seq<u8> {
    match m {
        MessageView::Handshake { reserved, info_hash, peer_id } => seq![PROTOCOL_NAME_LENGTH]
            + protocol_name() + reserved + info_hash + peer_id,
        MessageView::KeepAlive => be32(0),
        MessageView::Choke => be32(1).push(0),
        MessageView::Unchoke => be32(1).push(1),
        MessageView::Interested => be32(1).push(2),
        MessageView::NotInterested => be32(1).push(3),
        MessageView::Have { piece_index } => be32(5).push(4) + be32(piece_index),
        MessageView::Bitfield { bits } => be32((1 + bytes_for_bits(bits.len())) as u32).push(5)
            + bits_to_bytes(bits),
        MessageView::Request { piece_index, begin_offset, length } => be32(13).push(6) + be32(
            piece_index,
        ) + be32(begin_offset) + be32(length),
        MessageView::Piece { piece_index, begin_offset, data } => be32((9 + data.len()) as u32).push(
            7,
        ) + be32(piece_index) + be32(begin_offset) + data,
        MessageView::Cancel { piece_index, begin_offset, length } => be32(13).push(8) + be32(
            piece_index,
        ) + be32(begin_offset) + be32(length),
        MessageView::Port { listen_port } => be32(3).push(9) + be16(listen_port),
    }
}

/// A message whose length prefix fits in four bytes.
pub open spec fn encodable(m: MessageView) -> bool {
    match m {
        MessageView::Handshake { reserved, info_hash, peer_id } => reserved.len() == 8
            && info_hash.len() == 20 && peer_id.len() == 20,
        MessageView::Bitfield { bits } => 1 + bytes_for_bits(bits.len()) <= u32::MAX,
        MessageView::Piece { data, .. } => 9 + data.len() <= u32::MAX,
        _ => true,
    }
}

/// A message that a peer accepts: its length prefix stays within the cap.
pub open spec fn valid_message(m: MessageView) -> bool {
    &&& encodable(m)
    &&& match m {
        MessageView::Bitfield { bits } => 1 + bytes_for_bits(bits.len()) <= MAX_FRAME_LENGTH,
        MessageView::Piece { data, .. } => 9 + data.len() <= MAX_FRAME_LENGTH,
        _ => true,
    }
}

/// Bits padded with zeros up to a whole number of bytes.
pub open spec fn pad_bits(bits: Seq<bool>) -> Seq<bool> {
    Seq::new(8 * bytes_for_bits(bits.len()), |i: int| i < bits.len() && bits[i])
}

/// The value a message has once it has crossed the wire: a bitfield gains its padding.
pub open spec fn as_received(m: MessageView) -> MessageView {
    match m {
        MessageView::Bitfield { bits } => MessageView::Bitfield { bits: pad_bits(bits) },
        _ => m,
    }
}

/// A message that can be turned into its wire bytes.
pub trait IntoBytes: Sized {
    spec fn wire_view(&self) -> MessageView;

    fn into_bytes(self) -> (r: Vec<u8>)
        requires
            encodable(self.wire_view()),
        ensures
            r@ == encode_message(self.wire_view()),
    ;
}

/// handshake: <pstrlen=19><pstr><reserved><info_hash><peer_id>
#[derive(Debug, Clone, Copy)]
pub struct Handshake {
    pub reserved: [u8; 8],
    pub info_hash: [u8; 20],
    pub peer_id: [u8; 20],
}

impl Handshake {
    /// A version 1 handshake with all reserved bytes zero.
    pub fn new(info_hash: [u8; 20], peer_id: [u8; 20]) -> (r: Self)
        ensures
            r.wire_view() == (MessageView::Handshake {
                reserved: Seq::new(8, |_i: int| 0u8),
                info_hash: info_hash@,
                peer_id: peer_id@,
            }),
    {
        let r = Handshake { reserved: [0u8; 8], info_hash, peer_id };
        assert(r.reserved@ =~= Seq::new(8, |_i: int| 0u8));
        r
    }

    pub(crate) fn from_parts(reserved: [u8; 8], info_hash: [u8; 20], peer_id: [u8; 20]) -> (r: Self)
        ensures
            r.reserved == reserved,
            r.info_hash == info_hash,
            r.peer_id == peer_id,
    {
        Handshake { reserved, info_hash, peer_id }
    }

    pub fn pstrlen(&self) -> (r: u8)
        ensures
            r == PROTOCOL_NAME_LENGTH,
    {
        PROTOCOL_NAME_LENGTH
    }

    pub fn pstr(&self) -> (r: String)
        ensures
            r@ == "BitTorrent protocol"@,
    {
        "BitTorrent protocol".to_owned()
    }

    pub fn reserved(&self) -> (r: [u8; 8])
        ensures
            r == self.reserved,
    {
        self.reserved
    }

    pub fn info_hash(&self) -> (r: [u8; 20])
        ensures
            r == self.info_hash,
    {
        self.info_hash
    }

    pub fn peer_id(&self) -> (r: [u8; 20])
        ensures
            r == self.peer_id,
    {
        self.peer_id
    }
}

impl IntoBytes for Handshake {
    open spec fn wire_view(&self) -> MessageView {
        MessageView::Handshake {
            reserved: self.reserved@,
            info_hash: self.info_hash@,
            peer_id: self.peer_id@,
        }
    }

    fn into_bytes(self) -> (r: Vec<u8>) {
        let mut r: Vec<u8> = Vec::new();
        r.push(PROTOCOL_NAME_LENGTH);
        let name: [u8; 19] = [
            66, 105, 116, 84, 111, 114, 114, 101, 110, 116, 32, 112, 114, 111, 116, 111, 99, 111, 108,
        ];
        assert(name@ =~= protocol_name());
        push_all(&mut r, name.as_slice());
        push_all(&mut r, self.reserved.as_slice());
        push_all(&mut r, self.info_hash.as_slice());
        push_all(&mut r, self.peer_id.as_slice());
        r
    }
}

/// keep-alive: <len=0000>
#[derive(Debug, Clone, Copy)]
pub struct KeepAlive {}

impl KeepAlive {
    pub fn new() -> (r: Self) {
        KeepAlive {  }
    }
}

impl IntoBytes for KeepAlive {
    open spec fn wire_view(&self) -> MessageView {
        MessageView::KeepAlive
    }

    fn into_bytes(self) -> (r: Vec<u8>) {
        let mut r: Vec<u8> = Vec::new();
        push_u32(&mut r, 0);
        assert(r@ =~= be32(0));
        r
    }
}

/// Encodes a message made of its length prefix of one and its id.
fn id_only_frame(id: u8) -> (r: Vec<u8>)
    ensures
        r@ == be32(1).push(id),
{
    let mut r: Vec<u8> = Vec::new();
    push_u32(&mut r, 1);
    r.push(id);
    assert(r@ =~= be32(1).push(id));
    r
}

/// choke: <len=0001><id=0>
#[derive(Debug, Clone, Copy)]
pub struct Choke {}

impl Choke {
    pub fn new() -> (r: Self) {
        Choke {  }
    }
}

impl IntoBytes for Choke {
    open spec fn wire_view(&self) -> MessageView {
        MessageView::Choke
    }

    fn into_bytes(self) -> (r: Vec<u8>) {
        id_only_frame(0)
    }
}

/// unchoke: <len=0001><id=1>
#[derive(Debug, Clone, Copy)]
pub struct Unchoke {}

impl Unchoke {
    pub fn new() -> (r: Self) {
        Unchoke {  }
    }
}

impl IntoBytes for Unchoke {
    open spec fn wire_view(&self) -> MessageView {
        MessageView::Unchoke
    }

    fn into_bytes(self) -> (r: Vec<u8>) {
        id_only_frame(1)
    }
}

/// interested: <len=0001><id=2>
#[derive(Debug, Clone, Copy)]
pub struct Interested {}

impl Interested {
    pub fn new() -> (r: Self) {
        Interested {  }
    }
}

impl IntoBytes for Interested {
    open spec fn wire_view(&self) -> MessageView {
        MessageView::Interested
    }

    fn into_bytes(self) -> (r: Vec<u8>) {
        id_only_frame(2)
    }
}

/// not interested: <len=0001><id=3>
#[derive(Debug, Clone, Copy)]
pub struct NotInterested {}

impl NotInterested {
    pub fn new() -> (r: Self) {
        NotInterested {  }
    }
}

impl IntoBytes for NotInterested {
    open spec fn wire_view(&self) -> MessageView {
        MessageView::NotInterested
    }

    fn into_bytes(self) -> (r: Vec<u8>) {
        id_only_frame(3)
    }
}

/// have: <len=0005><id=4><piece index>
#[derive(Debug, Clone, Copy)]
pub struct Have {
    pub piece_index: u32,
}

impl Have {
    pub fn new(piece_index: u32) -> (r: Self)
        ensures
            r.piece_index == piece_index,
    {
        Have { piece_index }
    }

    pub fn have(&self) -> (r: u32)
        ensures
            r == self.piece_index,
    {
        self.piece_index
    }
}

impl IntoBytes for Have {
    open spec fn wire_view(&self) -> MessageView {
        MessageView::Have { piece_index: self.piece_index }
    }

    fn into_bytes(self) -> (r: Vec<u8>) {
        let mut r: Vec<u8> = Vec::new();
        push_u32(&mut r, 5);
        r.push(4);
        push_u32(&mut r, self.piece_index);
        r
    }
}

/// bitfield: <len=0001+X><id=5><bitfield>
#[derive(Debug)]
pub struct Bitfield {
    pub bitfield: BitVec,
}

impl Bitfield {
    pub fn new(bitfield: BitVec) -> (r: Self)
        ensures
            bits_of(r.bitfield) == bits_of(bitfield),
    {
        Bitfield { bitfield }
    }

    pub fn bitfield(&self) -> (r: &BitVec)
        ensures
            bits_of(*r) == bits_of(self.bitfield),
    {
        &self.bitfield
    }
}

impl IntoBytes for Bitfield {
    open spec fn wire_view(&self) -> MessageView {
        MessageView::Bitfield { bits: bits_of(self.bitfield) }
    }

    fn into_bytes(self) -> (r: Vec<u8>) {
        let payload = bits_to_byte_vec(&self.bitfield);
        let mut r: Vec<u8> = Vec::new();
        push_u32(&mut r, 1 + payload.len() as u32);
        r.push(5);
        push_all(&mut r, payload.as_slice());
        r
    }
}

/// request: <len=0013><id=6><index><begin><length>
#[derive(Debug, Clone, Copy)]
pub struct Request {
    pub piece_index: u32,
    pub begin_offset: u32,
    pub piece_length: u32,
}

impl Request {
    pub fn new(piece_index: u32, begin_offset: u32, piece_length: u32) -> (r: Self)
        ensures
            r.piece_index == piece_index,
            r.begin_offset == begin_offset,
            r.piece_length == piece_length,
    {
        Request { piece_index, begin_offset, piece_length }
    }

    pub fn message_length(&self) -> (r: u32)
        ensures
            r == 13,
    {
        MessageType::Request.base_length()
    }

    pub fn message_type(&self) -> (r: u8)
        ensures
            r == 6,
    {
        MessageType::Request.id()
    }

    pub fn piece_index(&self) -> (r: u32)
        ensures
            r == self.piece_index,
    {
        self.piece_index
    }

    pub fn begin_offset(&self) -> (r: u32)
        ensures
            r == self.begin_offset,
    {
        self.begin_offset
    }

    pub fn piece_length(&self) -> (r: u32)
        ensures
            r == self.piece_length,
    {
        self.piece_length
    }
}

/// Encodes a message made of an id and three integers.
fn three_field_frame(id: u8, a: u32, b: u32, c: u32) -> (r: Vec<u8>)
    ensures
        r@ == be32(13).push(id) + be32(a) + be32(b) + be32(c),
{
    let mut r: Vec<u8> = Vec::new();
    push_u32(&mut r, 13);
    r.push(id);
    push_u32(&mut r, a);
    push_u32(&mut r, b);
    push_u32(&mut r, c);
    r
}

impl IntoBytes for Request {
    open spec fn wire_view(&self) -> MessageView {
        MessageView::Request {
            piece_index: self.piece_index,
            begin_offset: self.begin_offset,
            length: self.piece_length,
        }
    }

    fn into_bytes(self) -> (r: Vec<u8>) {
        three_field_frame(6, self.piece_index, self.begin_offset, self.piece_length)
    }
}

/// cancel: <len=0013><id=8><index><begin><length>
#[derive(Debug, Clone, Copy)]
pub struct Cancel {
    pub piece_index: u32,
    pub begin_offset: u32,
    pub piece_length: u32,
}

impl Cancel {
    pub fn new(piece_index: u32, begin_offset: u32, piece_length: u32) -> (r: Self)
        ensures
            r.piece_index == piece_index,
            r.begin_offset == begin_offset,
            r.piece_length == piece_length,
    {
        Cancel { piece_index, begin_offset, piece_length }
    }

    pub fn piece_index(&self) -> (r: u32)
        ensures
            r == self.piece_index,
    {
        self.piece_index
    }

    pub fn begin_offset(&self) -> (r: u32)
        ensures
            r == self.begin_offset,
    {
        self.begin_offset
    }

    pub fn piece_length(&self) -> (r: u32)
        ensures
            r == self.piece_length,
    {
        self.piece_length
    }
}

impl IntoBytes for Cancel {
    open spec fn wire_view(&self) -> MessageView {
        MessageView::Cancel {
            piece_index: self.piece_index,
            begin_offset: self.begin_offset,
            length: self.piece_length,
        }
    }

    fn into_bytes(self) -> (r: Vec<u8>) {
        three_field_frame(8, self.piece_index, self.begin_offset, self.piece_length)
    }
}

/// piece: <len=0009+X><id=7><index><begin><block>
#[derive(Debug, Clone)]
pub struct Piece {
    pub piece_index: u32,
    pub begin_offset_of_piece: u32,
    pub data: Vec<u8>,
}

impl Piece {
    pub fn new(piece_index: u32, begin_offset_of_piece: u32, data: Vec<u8>) -> (r: Self)
        ensures
            r.piece_index == piece_index,
            r.begin_offset_of_piece == begin_offset_of_piece,
            r.data@ == data@,
    {
        Piece { piece_index, begin_offset_of_piece, data }
    }

    pub fn piece_index(&self) -> (r: u32)
        ensures
            r == self.piece_index,
    {
        self.piece_index
    }

    pub fn begin_offset_of_piece(&self) -> (r: u32)
        ensures
            r == self.begin_offset_of_piece,
    {
        self.begin_offset_of_piece
    }

    pub fn data(&self) -> (r: &Vec<u8>)
        ensures
            r@ == self.data@,
    {
        &self.data
    }
}

impl IntoBytes for Piece {
    open spec fn wire_view(&self) -> MessageView {
        MessageView::Piece {
            piece_index: self.piece_index,
            begin_offset: self.begin_offset_of_piece,
            data: self.data@,
        }
    }

    fn into_bytes(self) -> (r: Vec<u8>) {
        let mut r: Vec<u8> = Vec::new();
        push_u32(&mut r, 9 + self.data.len() as u32);
        r.push(7);
        push_u32(&mut r, self.piece_index);
        push_u32(&mut r, self.begin_offset_of_piece);
        push_all(&mut r, self.data.as_slice());
        r
    }
}

/// port: <len=0003><id=9><listen-port>
#[derive(Debug, Clone, Copy)]
pub struct Port {
    pub listen_port: u16,
}

impl Port {
    pub fn new(listen_port: u16) -> (r: Self)
        ensures
            r.listen_port == listen_port,
    {
        Port { listen_port }
    }

    pub fn message_length(&self) -> (r: u32)
        ensures
            r == 3,
    {
        MessageType::Port.base_length()
    }

    pub fn message_type(&self) -> (r: u8)
        ensures
            r == 9,
    {
        MessageType::Port.id()
    }

    pub fn listen_port(&self) -> (r: u16)
        ensures
            r == self.listen_port,
    {
        self.listen_port
    }
}

impl IntoBytes for Port {
    open spec fn wire_view(&self) -> MessageView {
        MessageView::Port { listen_port: self.listen_port }
    }

    fn into_bytes(self) -> (r: Vec<u8>) {
        let mut r: Vec<u8> = Vec::new();
        push_u32(&mut r, 3);
        r.push(9);
        push_u16(&mut r, self.listen_port);
        r
    }
}

/// Any message of the protocol, the handshake included.
#[derive(Debug)]
pub enum Message {
    Handshake(Handshake),
    KeepAlive(KeepAlive),
    Choke(Choke),
    Unchoke(Unchoke),
    Interested(Interested),
    NotInterested(NotInterested),
    Have(Have),
    Bitfield(Bitfield),
    Request(Request),
    Piece(Piece),
    Cancel(Cancel),
    Port(Port),
}

impl View for Message {
    type V = MessageView;

    open spec fn view(&self) -> MessageView {
        self.wire_view()
    }
}

impl IntoBytes for Message {
    open spec fn wire_view(&self) -> MessageView {
        match self {
            Message::Handshake(m) => m.wire_view(),
            Message::KeepAlive(m) => m.wire_view(),
            Message::Choke(m) => m.wire_view(),
            Message::Unchoke(m) => m.wire_view(),
            Message::Interested(m) => m.wire_view(),
            Message::NotInterested(m) => m.wire_view(),
            Message::Have(m) => m.wire_view(),
            Message::Bitfield(m) => m.wire_view(),
            Message::Request(m) => m.wire_view(),
            Message::Piece(m) => m.wire_view(),
            Message::Cancel(m) => m.wire_view(),
            Message::Port(m) => m.wire_view(),
        }
    }

    fn into_bytes(self) -> (r: Vec<u8>) {
        match self {
            Message::Handshake(m) => m.into_bytes(),
            Message::KeepAlive(m) => m.into_bytes(),
            Message::Choke(m) => m.into_bytes(),
            Message::Unchoke(m) => m.into_bytes(),
            Message::Interested(m) => m.into_bytes(),
            Message::NotInterested(m) => m.into_bytes(),
            Message::Have(m) => m.into_bytes(),
            Message::Bitfield(m) => m.into_bytes(),
            Message::Request(m) => m.into_bytes(),
            Message::Piece(m) => m.into_bytes(),
            Message::Cancel(m) => m.into_bytes(),
            Message::Port(m) => m.into_bytes(),
        }
    }
}

} // verus!
