//! Framing and decoding of the bytes a peer sends.
use crate::bits::{
    bits_from_byte_slice, bits_to_bytes, bytes_for_bits, bytes_to_bits, lemma_bits_bytes_round_trip,
};
use crate::messages::{
    IntoBytes, encodable, encode_message, pad_bits, protocol_name, valid_message, as_received, Bitfield,
    Cancel, Choke, Handshake, Have, Interested, KeepAlive, Message, MessageType, MessageView,
    NotInterested, Piece, Port, Request, Unchoke, message_type_of_id, HANDSHAKE_LENGTH,
    MAX_FRAME_LENGTH, PROTOCOL_NAME_LENGTH,
};
use crate::wire::{
    be16, be16_at, be32, be32_at, copy_range, lemma_be16_round_trip, lemma_be32_round_trip,
    read_u16, read_u32,
};
use crate::Error;
use vstd::prelude::*;

verus! {

/// What the start of a byte stream holds.
pub enum FrameOutcome {
    /// A whole message of this many bytes.
    Complete(nat),
    /// The start of a message; more bytes are needed.
    Incomplete,
    /// Bytes that no message starts with: the session is torn down.
    Malformed,
}

/// Whether a length prefix agrees with the message id that follows it.
pub open spec fn frame_shape_ok(len: u32, id: u8) -> bool {
    if id <= 3 {
        len == 1
    } else if id == 4 {
        len == 5
    } else if id == 5 {
        len >= 1
    } else if id == 6 || id == 8 {
        len == 13
    } else if id == 7 {
        len >= 9
    } else if id == 9 {
        len == 3
    } else {
        false
    }
}

/// What the start of `s` holds, read as a length-prefixed message.
pub open spec fn frame_outcome(s: Seq<u8>) -> FrameOutcome {
    if s.len() < 4 {
        FrameOutcome::Incomplete
    } else {
        let len = be32_at(s, 0);
        if len > MAX_FRAME_LENGTH {
            FrameOutcome::Malformed
        } else if s.len() < 4 + len {
            FrameOutcome::Incomplete
        } else if len == 0 || frame_shape_ok(len, s[4]) {
            FrameOutcome::Complete((4 + len) as nat)
        } else {
            FrameOutcome::Malformed
        }
    }
}

/// The message held by a whole, well-shaped frame `f`.
pub open spec fn decode_frame(f: Seq<u8>) -> MessageView {
    let len = be32_at(f, 0);
    if len == 0 {
        MessageView::KeepAlive
    } else {
        let id = f[4];
        if id == 0 {
            MessageView::Choke
        } else if id == 1 {
            MessageView::Unchoke
        } else if id == 2 {
            MessageView::Interested
        } else if id == 3 {
            MessageView::NotInterested
        } else if id == 4 {
            MessageView::Have { piece_index: be32_at(f, 5) }
        } else if id == 5 {
            MessageView::Bitfield { bits: bytes_to_bits(f.subrange(5, 4 + len)) }
        } else if id == 6 {
            MessageView::Request {
                piece_index: be32_at(f, 5),
                begin_offset: be32_at(f, 9),
                length: be32_at(f, 13),
            }
        } else if id == 7 {
            MessageView::Piece {
                piece_index: be32_at(f, 5),
                begin_offset: be32_at(f, 9),
                data: f.subrange(13, 4 + len),
            }
        } else if id == 8 {
            MessageView::Cancel {
                piece_index: be32_at(f, 5),
                begin_offset: be32_at(f, 9),
                length: be32_at(f, 13),
            }
        } else {
            MessageView::Port { listen_port: be16_at(f, 5) }
        }
    }
}

/// What the start of `s` holds, read as a handshake.
pub open spec fn handshake_outcome(s: Seq<u8>) -> FrameOutcome {
    if s.len() >= 1 && s[0] != PROTOCOL_NAME_LENGTH {
        FrameOutcome::Malformed
    } else if s.len() < HANDSHAKE_LENGTH {
        FrameOutcome::Incomplete
    } else if s.subrange(1, 20) != protocol_name() {
        FrameOutcome::Malformed
    } else {
        FrameOutcome::Complete(HANDSHAKE_LENGTH as nat)
    }
}

/// The handshake held by the first 68 bytes of `s`.
pub open spec fn decode_handshake(s: Seq<u8>) -> MessageView {
    MessageView::Handshake {
        reserved: s.subrange(20, 28),
        info_hash: s.subrange(28, 48),
        peer_id: s.subrange(48, 68),
    }
}

/// Whether `s` starts with the four bytes that open a handshake.
pub open spec fn starts_handshake(s: Seq<u8>) -> bool {
    s.len() >= 4 && s[0] == 19 && s[1] == 66 && s[2] == 105 && s[3] == 116
}

/// What the start of `s` holds: a handshake where it opens like one, else a framed message.
pub open spec fn message_outcome(s: Seq<u8>) -> FrameOutcome {
    if starts_handshake(s) {
        handshake_outcome(s)
    } else {
        frame_outcome(s)
    }
}

/// The message held by the first `n` bytes of `s`.
pub open spec fn decode_message(s: Seq<u8>, n: nat) -> MessageView {
    if starts_handshake(s) {
        decode_handshake(s)
    } else {
        decode_frame(s.take(n as int))
    }
}

/// The result of reading one message from the start of a buffer.
#[derive(Debug)]
pub enum Parsed {
    /// A message, and the number of bytes it took.
    Complete(Message, usize),
    /// More bytes are needed.
    Incomplete,
    /// The bytes cannot start a message.
    Malformed,
}

/// Reads one length-prefixed message from the start of `buf`.
pub fn try_parse_frame(buf: &[u8]) -> (r: Parsed)
    ensures
        match r {
            Parsed::Complete(m, n) => frame_outcome(buf@) == FrameOutcome::Complete(n as nat)
                && m@ == decode_frame(buf@.take(n as int)),
            Parsed::Incomplete => frame_outcome(buf@) == FrameOutcome::Incomplete,
            Parsed::Malformed => frame_outcome(buf@) == FrameOutcome::Malformed,
        },
{
    if buf.len() < 4 {
        return Parsed::Incomplete;
    }
    let len = read_u32(buf, 0);
    if len > MAX_FRAME_LENGTH {
        return Parsed::Malformed;
    }
    let total = 4 + len as usize;
    if buf.len() < total {
        return Parsed::Incomplete;
    }
    let ghost f = buf@.take(total as int);
    assert(be32_at(f, 0) == len);
    if len == 0 {
        return Parsed::Complete(Message::KeepAlive(KeepAlive::new()), total);
    }
    let id = buf[4];
    assert(f[4] == id);
    if id <= 3 {
        if len != 1 {
            return Parsed::Malformed;
        }
        let m = if id == 0 {
            Message::Choke(Choke::new())
        } else if id == 1 {
            Message::Unchoke(Unchoke::new())
        } else if id == 2 {
            Message::Interested(Interested::new())
        } else {
            Message::NotInterested(NotInterested::new())
        };
        Parsed::Complete(m, total)
    } else if id == 4 {
        if len != 5 {
            return Parsed::Malformed;
        }
        let piece_index = read_u32(buf, 5);
        assert(be32_at(f, 5) == piece_index);
        Parsed::Complete(Message::Have(Have::new(piece_index)), total)
    } else if id == 5 {
        let payload = copy_range(buf, 5, total);
        let bits = bits_from_byte_slice(payload.as_slice());
        assert(payload@ =~= f.subrange(5, 4 + len));
        Parsed::Complete(Message::Bitfield(Bitfield::new(bits)), total)
    } else if id == 6 || id == 8 {
        if len != 13 {
            return Parsed::Malformed;
        }
        let a = read_u32(buf, 5);
        let b = read_u32(buf, 9);
        let c = read_u32(buf, 13);
        assert(be32_at(f, 5) == a && be32_at(f, 9) == b && be32_at(f, 13) == c);
        if id == 6 {
            Parsed::Complete(Message::Request(Request::new(a, b, c)), total)
        } else {
            Parsed::Complete(Message::Cancel(Cancel::new(a, b, c)), total)
        }
    } else if id == 7 {
        if len < 9 {
            return Parsed::Malformed;
        }
        let a = read_u32(buf, 5);
        let b = read_u32(buf, 9);
        assert(be32_at(f, 5) == a && be32_at(f, 9) == b);
        let data = copy_range(buf, 13, total);
        assert(data@ =~= f.subrange(13, 4 + len));
        Parsed::Complete(Message::Piece(Piece::new(a, b, data)), total)
    } else if id == 9 {
        if len != 3 {
            return Parsed::Malformed;
        }
        let p = read_u16(buf, 5);
        assert(be16_at(f, 5) == p);
        Parsed::Complete(Message::Port(Port::new(p)), total)
    } else {
        Parsed::Malformed
    }
}

/// Copies the `N` bytes of `buf` from `start` into an array.
fn read_array8(buf: &[u8], start: usize) -> (r: [u8; 8])
    requires
        start + 8 <= buf.len(),
    ensures
        r@ == buf@.subrange(start as int, start + 8),
{
    let mut r = [0u8; 8];
    let mut i: usize = 0;
    while i < 8
        invariant
            i <= 8,
            start + 8 <= buf.len(),
            forall|k: int| 0 <= k < i ==> r@[k] == buf@[start + k],
        decreases 8 - i,
    {
        r[i] = buf[start + i];
        i = i + 1;
    }
    assert(r@ =~= buf@.subrange(start as int, start + 8));
    r
}

fn read_array20(buf: &[u8], start: usize) -> (r: [u8; 20])
    requires
        start + 20 <= buf.len(),
    ensures
        r@ == buf@.subrange(start as int, start + 20),
{
    let mut r = [0u8; 20];
    let mut i: usize = 0;
    while i < 20
        invariant
            i <= 20,
            start + 20 <= buf.len(),
            forall|k: int| 0 <= k < i ==> r@[k] == buf@[start + k],
        decreases 20 - i,
    {
        r[i] = buf[start + i];
        i = i + 1;
    }
    assert(r@ =~= buf@.subrange(start as int, start + 20));
    r
}

/// Reads a version 1 handshake from the start of `buf`.
pub fn try_parse_handshake(buf: &[u8]) -> (r: Parsed)
    ensures
        match r {
            Parsed::Complete(m, n) => handshake_outcome(buf@) == FrameOutcome::Complete(n as nat)
                && m@ == decode_handshake(buf@),
            Parsed::Incomplete => handshake_outcome(buf@) == FrameOutcome::Incomplete,
            Parsed::Malformed => handshake_outcome(buf@) == FrameOutcome::Malformed,
        },
{
    if buf.len() >= 1 && buf[0] != PROTOCOL_NAME_LENGTH {
        return Parsed::Malformed;
    }
    if buf.len() < HANDSHAKE_LENGTH {
        return Parsed::Incomplete;
    }
    let name: [u8; 19] = [
        66, 105, 116, 84, 111, 114, 114, 101, 110, 116, 32, 112, 114, 111, 116, 111, 99, 111, 108,
    ];
    assert(name@ =~= protocol_name());
    let mut i: usize = 0;
    while i < 19
        invariant
            i <= 19,
            buf@.len() >= HANDSHAKE_LENGTH,
            name@ == protocol_name(),
            forall|k: int| 0 <= k < i ==> buf@[1 + k] == name@[k],
        decreases 19 - i,
    {
        if buf[1 + i] != name[i] {
            assert(buf@.subrange(1, 20)[i as int] != protocol_name()[i as int]);
            return Parsed::Malformed;
        }
        i = i + 1;
    }
    assert(buf@.subrange(1, 20) =~= protocol_name());
    let reserved = read_array8(buf, 20);
    let info_hash = read_array20(buf, 28);
    let peer_id = read_array20(buf, 48);
    Parsed::Complete(
        Message::Handshake(Handshake::from_parts(reserved, info_hash, peer_id)),
        HANDSHAKE_LENGTH,
    )
}

/// Reads one message from the start of a session's buffer: a handshake where the
/// buffer opens with the handshake's first four bytes, else a length-prefixed message.
pub fn try_parse_message(buf: &[u8]) -> (r: Parsed)
    ensures
        match r {
            Parsed::Complete(m, n) => message_outcome(buf@) == FrameOutcome::Complete(n as nat)
                && m@ == decode_message(buf@, n as nat),
            Parsed::Incomplete => message_outcome(buf@) == FrameOutcome::Incomplete,
            Parsed::Malformed => message_outcome(buf@) == FrameOutcome::Malformed,
        },
{
    if buf.len() >= 4 && buf[0] == 19 && buf[1] == 66 && buf[2] == 105 && buf[3] == 116 {
        try_parse_handshake(buf)
    } else {
        try_parse_frame(buf)
    }
}

/// The kind of message named by the id byte of a frame whose first five bytes are in `bytes`.
pub fn identity_first_message_type_of(bytes: &[u8]) -> (r: Result<MessageType, Error>)
    requires
        bytes@.len() >= 5,
    ensures
        match message_type_of_id(bytes@[4]) {
            Some(t) => r == Ok::<MessageType, Error>(t),
            None => r == Err::<MessageType, Error>(Error::FailedToFindTheMessageTypeOfRawBytes),
        },
{
    match MessageType::from_id(bytes[4]) {
        Some(t) => Ok(t),
        None => Err(Error::FailedToFindTheMessageTypeOfRawBytes),
    }
}

proof fn lemma_be32_in(e: Seq<u8>, i: int, x: u32)
    requires
        0 <= i,
        i + 4 <= e.len(),
        e.subrange(i, i + 4) == be32(x),
    ensures
        be32_at(e, i) == x,
{
    lemma_be32_round_trip(x);
    let w = e.subrange(i, i + 4);
    assert(e[i] == w[0] && e[i + 1] == w[1] && e[i + 2] == w[2] && e[i + 3] == w[3]);
}

proof fn lemma_be16_in(e: Seq<u8>, i: int, x: u16)
    requires
        0 <= i,
        i + 2 <= e.len(),
        e.subrange(i, i + 2) == be16(x),
    ensures
        be16_at(e, i) == x,
{
    lemma_be16_round_trip(x);
    let w = e.subrange(i, i + 2);
    assert(e[i] == w[0] && e[i + 1] == w[1]);
}

/// Decoding the encoding of a message gives the message back, as it stands once
/// received, and takes exactly the bytes of the encoding.
pub proof fn lemma_frame_round_trip(m: MessageView)
    requires
        valid_message(m),
        !(m is Handshake),
    ensures
        frame_outcome(encode_message(m)) == FrameOutcome::Complete(encode_message(m).len()),
        decode_frame(encode_message(m)) == as_received(m),
{
    let e = encode_message(m);
    match m {
        MessageView::KeepAlive => {
            assert(e.subrange(0, 4) =~= be32(0));
            lemma_be32_in(e, 0, 0);
        },
        MessageView::Choke | MessageView::Unchoke | MessageView::Interested
        | MessageView::NotInterested => {
            assert(e.subrange(0, 4) =~= be32(1));
            lemma_be32_in(e, 0, 1);
        },
        MessageView::Have { piece_index } => {
            assert(e.subrange(0, 4) =~= be32(5));
            lemma_be32_in(e, 0, 5);
            assert(e.subrange(5, 9) =~= be32(piece_index));
            lemma_be32_in(e, 5, piece_index);
        },
        MessageView::Bitfield { bits } => {
            let len = (1 + bytes_for_bits(bits.len())) as u32;
            assert(e.subrange(0, 4) =~= be32(len));
            lemma_be32_in(e, 0, len);
            assert(e.subrange(5, 4 + len) =~= bits_to_bytes(bits));
            lemma_bits_bytes_round_trip(bits);
            assert(bytes_to_bits(bits_to_bytes(bits)) =~= pad_bits(bits));
        },
        MessageView::Request { piece_index, begin_offset, length }
        | MessageView::Cancel { piece_index, begin_offset, length } => {
            assert(e.subrange(0, 4) =~= be32(13));
            lemma_be32_in(e, 0, 13);
            assert(e.subrange(5, 9) =~= be32(piece_index));
            lemma_be32_in(e, 5, piece_index);
            assert(e.subrange(9, 13) =~= be32(begin_offset));
            lemma_be32_in(e, 9, begin_offset);
            assert(e.subrange(13, 17) =~= be32(length));
            lemma_be32_in(e, 13, length);
        },
        MessageView::Piece { piece_index, begin_offset, data } => {
            let len = (9 + data.len()) as u32;
            assert(e.subrange(0, 4) =~= be32(len));
            lemma_be32_in(e, 0, len);
            assert(e.subrange(5, 9) =~= be32(piece_index));
            lemma_be32_in(e, 5, piece_index);
            assert(e.subrange(9, 13) =~= be32(begin_offset));
            lemma_be32_in(e, 9, begin_offset);
            assert(e.subrange(13, 4 + len) =~= data);
        },
        MessageView::Port { listen_port } => {
            assert(e.subrange(0, 4) =~= be32(3));
            lemma_be32_in(e, 0, 3);
            assert(e.subrange(5, 7) =~= be16(listen_port));
            lemma_be16_in(e, 5, listen_port);
        },
        MessageView::Handshake { .. } => {},
    }
}

/// Decoding a handshake's encoding gives the handshake back and takes its 68 bytes.
pub proof fn lemma_handshake_round_trip(m: MessageView)
    requires
        encodable(m),
        m is Handshake,
    ensures
        encode_message(m).len() == HANDSHAKE_LENGTH,
        starts_handshake(encode_message(m)),
        handshake_outcome(encode_message(m)) == FrameOutcome::Complete(HANDSHAKE_LENGTH as nat),
        decode_handshake(encode_message(m)) == m,
{
    let e = encode_message(m);
    match m {
        MessageView::Handshake { reserved, info_hash, peer_id } => {
            assert(e.subrange(1, 20) =~= protocol_name());
            assert(e.subrange(20, 28) =~= reserved);
            assert(e.subrange(28, 48) =~= info_hash);
            assert(e.subrange(48, 68) =~= peer_id);
        },
        _ => {},
    }
}

/// Only the bytes of its first message decide what the start of a stream holds.
proof fn lemma_frame_outcome_prefix(s: Seq<u8>, t: Seq<u8>, n: nat)
    requires
        frame_outcome(s) == FrameOutcome::Complete(n),
        n <= t.len(),
        t.take(n as int) == s.take(n as int),
    ensures
        frame_outcome(t) == FrameOutcome::Complete(n),
        decode_frame(t.take(n as int)) == decode_frame(s.take(n as int)),
{
    assert(s[0] == s.take(n as int)[0] && s[1] == s.take(n as int)[1] && s[2] == s.take(
        n as int,
    )[2] && s[3] == s.take(n as int)[3]);
    assert(t[0] == t.take(n as int)[0] && t[1] == t.take(n as int)[1] && t[2] == t.take(
        n as int,
    )[2] && t[3] == t.take(n as int)[3]);
    if be32_at(s, 0) != 0 {
        assert(s[4] == s.take(n as int)[4] && t[4] == t.take(n as int)[4]);
    }
}

/// Every strict prefix of a message's encoding is the start of a message.
proof fn lemma_frame_prefix_incomplete(m: MessageView, k: int)
    requires
        valid_message(m),
        !(m is Handshake),
        0 <= k < encode_message(m).len(),
    ensures
        frame_outcome(encode_message(m).take(k)) == FrameOutcome::Incomplete,
{
    let e = encode_message(m);
    lemma_frame_round_trip(m);
    if k >= 4 {
        let p = e.take(k);
        assert(p[0] == e[0] && p[1] == e[1] && p[2] == e[2] && p[3] == e[3]);
    }
}

/// The bytes of messages sent one after the other.
pub open spec fn encode_all(ms: Seq<MessageView>) -> Seq<u8>
    decreases ms.len(),
{
    if ms.len() == 0 {
        Seq::empty()
    } else {
        encode_message(ms[0]) + encode_all(ms.skip(1))
    }
}

/// Reads length-prefixed messages from the start of `s` for as long as whole ones are
/// there: the messages read, and the bytes left.
pub open spec fn drain_frames(s: Seq<u8>) -> (Seq<MessageView>, Seq<u8>)
    decreases s.len(),
{
    match frame_outcome(s) {
        FrameOutcome::Complete(n) => if 0 < n <= s.len() {
            let rest = drain_frames(s.skip(n as int));
            (seq![decode_frame(s.take(n as int))] + rest.0, rest.1)
        } else {
            (Seq::empty(), s)
        },
        _ => (Seq::empty(), s),
    }
}

/// One step of draining: a whole message at the start is read, and draining goes
/// on with what follows it.
proof fn lemma_drain_step(e: Seq<u8>, rest: Seq<u8>, m: MessageView)
    requires
        valid_message(m),
        !(m is Handshake),
        e == encode_message(m),
    ensures
        drain_frames(e + rest) == (
            seq![as_received(m)] + drain_frames(rest).0,
            drain_frames(rest).1,
        ),
{
    let s = e + rest;
    lemma_frame_round_trip(m);
    assert(s.take(e.len() as int) =~= e.take(e.len() as int));
    lemma_frame_outcome_prefix(e, s, e.len());
    assert(e.take(e.len() as int) =~= e);
    assert(s.skip(e.len() as int) =~= rest);
}

/// Streaming: a buffer that holds the encodings of messages followed by the start
/// of one more message, cut anywhere, yields exactly those messages, as received,
/// and keeps the cut message's bytes for later.
pub proof fn lemma_stream_decoding(ms: Seq<MessageView>, next: MessageView, k: int)
    requires
        forall|i: int| 0 <= i < ms.len() ==> valid_message(#[trigger] ms[i]) && !(ms[i] is Handshake),
        valid_message(next),
        !(next is Handshake),
        0 <= k < encode_message(next).len(),
    ensures
        drain_frames(encode_all(ms) + encode_message(next).take(k)) == (
            ms.map_values(|m: MessageView| as_received(m)),
            encode_message(next).take(k),
        ),
    decreases ms.len(),
{
    let tail = encode_message(next).take(k);
    if ms.len() == 0 {
        lemma_frame_prefix_incomplete(next, k);
        assert(encode_all(ms) + tail =~= tail);
        assert(ms.map_values(|m: MessageView| as_received(m)) =~= Seq::<MessageView>::empty());
    } else {
        let rest = ms.skip(1);
        assert forall|i: int| 0 <= i < rest.len() implies valid_message(#[trigger] rest[i])
            && !(rest[i] is Handshake) by {
            assert(rest[i] == ms[i + 1]);
        }
        lemma_stream_decoding(rest, next, k);
        let e = encode_message(ms[0]);
        let after = encode_all(rest) + tail;
        assert(encode_all(ms) + tail =~= e + after);
        lemma_drain_step(e, after, ms[0]);
        assert(ms.map_values(|m: MessageView| as_received(m)) =~= seq![as_received(ms[0])]
            + rest.map_values(|m: MessageView| as_received(m)));
    }
}

/// A message other than the handshake never opens like a handshake, so a session
/// reads it as a length-prefixed message.
pub proof fn lemma_frame_not_handshake(m: MessageView, rest: Seq<u8>)
    requires
        valid_message(m),
        !(m is Handshake),
    ensures
        !starts_handshake(encode_message(m) + rest),
        message_outcome(encode_message(m) + rest) == frame_outcome(encode_message(m) + rest),
{
    let e = encode_message(m);
    let s = e + rest;
    lemma_frame_round_trip(m);
    assert(s[0] == e[0] && s[1] == e[1] && s[2] == e[2] && s[3] == e[3]);
    if starts_handshake(s) {
        let (b0, b1, b2, b3) = (s[0], s[1], s[2], s[3]);
        assert(b0 == 19 && b1 == 66 && b2 == 105 && b3 == 116);
        assert((((19u8 as u32) << 24u32) | ((66u8 as u32) << 16u32) | ((105u8 as u32) << 8u32) | (
        116u8 as u32)) > 16777216u32) by (bit_vector);
        assert(be32_at(e, 0) > MAX_FRAME_LENGTH);
    }
}

/// A session's stream opens with the handshake: it is read whole, as sent, and what
/// follows it is read from the next byte on.
pub proof fn lemma_handshake_opens_stream(h: MessageView, rest: Seq<u8>)
    requires
        encodable(h),
        h is Handshake,
    ensures
        message_outcome(encode_message(h) + rest) == FrameOutcome::Complete(HANDSHAKE_LENGTH as nat),
        decode_message(encode_message(h) + rest, HANDSHAKE_LENGTH as nat) == h,
        (encode_message(h) + rest).skip(HANDSHAKE_LENGTH as int) == rest,
{
    let e = encode_message(h);
    let s = e + rest;
    lemma_handshake_round_trip(h);
    assert(s.subrange(1, 20) =~= e.subrange(1, 20));
    assert(s.subrange(20, 28) =~= e.subrange(20, 28));
    assert(s.subrange(28, 48) =~= e.subrange(28, 48));
    assert(s.subrange(48, 68) =~= e.subrange(48, 68));
    assert(s[0] == e[0] && s[1] == e[1] && s[2] == e[2] && s[3] == e[3]);
    assert(s.skip(HANDSHAKE_LENGTH as int) =~= rest);
}

/// The kind of message a frame holds, read from its length prefix and id.
pub open spec fn frame_kind(s: Seq<u8>) -> MessageType {
    if be32_at(s, 0) == 0 {
        MessageType::KeepAlive
    } else {
        match message_type_of_id(s[4]) {
            Some(t) => t,
            None => MessageType::KeepAlive,
        }
    }
}

/// The kind of a message value.
pub open spec fn view_kind(v: MessageView) -> MessageType {
    match v {
        MessageView::Handshake { .. } => MessageType::KeepAlive,
        MessageView::KeepAlive => MessageType::KeepAlive,
        MessageView::Choke => MessageType::Choke,
        MessageView::Unchoke => MessageType::Unchoke,
        MessageView::Interested => MessageType::Interested,
        MessageView::NotInterested => MessageType::NotInterested,
        MessageView::Have { .. } => MessageType::Have,
        MessageView::Bitfield { .. } => MessageType::Bitfield,
        MessageView::Request { .. } => MessageType::Request,
        MessageView::Piece { .. } => MessageType::Piece,
        MessageView::Cancel { .. } => MessageType::Cancel,
        MessageView::Port { .. } => MessageType::Port,
    }
}

/// The error that reading a message of kind `t` from the start of `s` gives, when
/// `s` does not start with one.
pub open spec fn from_bytes_error(s: Seq<u8>, t: MessageType) -> Error {
    match frame_outcome(s) {
        FrameOutcome::Incomplete => Error::BytesArrayTooShort,
        FrameOutcome::Malformed => if be32_at(s, 0) <= MAX_FRAME_LENGTH && message_type_of_id(
            s[4],
        ) is None {
            Error::FailedToFindTheMessageTypeOfRawBytes
        } else {
            Error::MessageLengthDoesNotMatchWithExpectedOne
        },
        FrameOutcome::Complete(_) => if frame_kind(s) != t {
            Error::MessageTypeDoesNotMatchWithExpectedOne
        } else {
            trailing_bytes_error(t)
        },
    }
}

/// The error for a buffer that holds one whole message of kind `t` and more bytes
/// after it: a request has exactly seventeen bytes; for the other kinds the length
/// prefix disagrees with the buffer.
pub open spec fn trailing_bytes_error(t: MessageType) -> Error {
    if t == MessageType::Request {
        Error::BytesArrayTooShort
    } else {
        Error::MessageLengthDoesNotMatchWithExpectedOne
    }
}

fn trailing_error(t: MessageType) -> (e: Error)
    ensures
        e == trailing_bytes_error(t),
{
    match t {
        MessageType::Request => Error::BytesArrayTooShort,
        _ => Error::MessageLengthDoesNotMatchWithExpectedOne,
    }
}

/// The kind of the message decoded from a whole frame is the one its header names.
proof fn lemma_decoded_kind(s: Seq<u8>, n: nat)
    requires
        frame_outcome(s) == FrameOutcome::Complete(n),
    ensures
        view_kind(decode_frame(s.take(n as int))) == frame_kind(s),
{
    let f = s.take(n as int);
    assert(f[0] == s[0] && f[1] == s[1] && f[2] == s[2] && f[3] == s[3]);
    if be32_at(s, 0) != 0 {
        assert(f[4] == s[4]);
    }
}

/// The error for bytes that do not start with a well-formed frame.
fn malformed_error(bytes: &[u8]) -> (e: Error)
    requires
        frame_outcome(bytes@) == FrameOutcome::Malformed,
    ensures
        forall|t: MessageType| e == from_bytes_error(bytes@, t),
{
    let len = read_u32(bytes, 0);
    if len <= MAX_FRAME_LENGTH && MessageType::from_id(bytes[4]).is_none() {
        Error::FailedToFindTheMessageTypeOfRawBytes
    } else {
        Error::MessageLengthDoesNotMatchWithExpectedOne
    }
}

/// A message that can be read from the start of a byte buffer.
pub trait FromBytes: Sized {
    /// The kind of message read.
    spec fn kind() -> MessageType;

    /// The value of the message read.
    spec fn read_view(&self) -> MessageView;

    /// Reads a message of this kind that fills `bytes` exactly; returns it and the
    /// number of bytes it took, which is all of them.
    fn from_bytes(bytes: &[u8]) -> (r: Result<(Self, usize), Error>)
        ensures
            match r {
                Ok((m, n)) => frame_outcome(bytes@) == FrameOutcome::Complete(n as nat) && n
                    == bytes@.len() && frame_kind(bytes@) == Self::kind() && m.read_view()
                    == decode_frame(bytes@.take(n as int)),
                Err(e) => !(frame_outcome(bytes@) == FrameOutcome::Complete(bytes@.len())
                    && frame_kind(bytes@) == Self::kind()) && e == from_bytes_error(
                    bytes@,
                    Self::kind(),
                ),
            },
    ;
}

impl FromBytes for KeepAlive {
    open spec fn kind() -> MessageType {
        MessageType::KeepAlive
    }

    open spec fn read_view(&self) -> MessageView {
        self.wire_view()
    }

    fn from_bytes(bytes: &[u8]) -> (r: Result<(Self, usize), Error>) {
        match try_parse_frame(bytes) {
            Parsed::Complete(m, n) => {
                proof {
                    lemma_decoded_kind(bytes@, n as nat);
                }
                match m {
                    Message::KeepAlive(x) => if n == bytes.len() {
                        Ok((x, n))
                    } else {
                        Err(trailing_error(MessageType::KeepAlive))
                    },
                    _ => Err(Error::MessageTypeDoesNotMatchWithExpectedOne),
                }
            },
            Parsed::Incomplete => Err(Error::BytesArrayTooShort),
            Parsed::Malformed => Err(malformed_error(bytes)),
        }
    }
}

impl FromBytes for Choke {
    open spec fn kind() -> MessageType {
        MessageType::Choke
    }

    open spec fn read_view(&self) -> MessageView {
        self.wire_view()
    }

    fn from_bytes(bytes: &[u8]) -> (r: Result<(Self, usize), Error>) {
        match try_parse_frame(bytes) {
            Parsed::Complete(m, n) => {
                proof {
                    lemma_decoded_kind(bytes@, n as nat);
                }
                match m {
                    Message::Choke(x) => if n == bytes.len() {
                        Ok((x, n))
                    } else {
                        Err(trailing_error(MessageType::Choke))
                    },
                    _ => Err(Error::MessageTypeDoesNotMatchWithExpectedOne),
                }
            },
            Parsed::Incomplete => Err(Error::BytesArrayTooShort),
            Parsed::Malformed => Err(malformed_error(bytes)),
        }
    }
}

impl FromBytes for Unchoke {
    open spec fn kind() -> MessageType {
        MessageType::Unchoke
    }

    open spec fn read_view(&self) -> MessageView {
        self.wire_view()
    }

    fn from_bytes(bytes: &[u8]) -> (r: Result<(Self, usize), Error>) {
        match try_parse_frame(bytes) {
            Parsed::Complete(m, n) => {
                proof {
                    lemma_decoded_kind(bytes@, n as nat);
                }
                match m {
                    Message::Unchoke(x) => if n == bytes.len() {
                        Ok((x, n))
                    } else {
                        Err(trailing_error(MessageType::Unchoke))
                    },
                    _ => Err(Error::MessageTypeDoesNotMatchWithExpectedOne),
                }
            },
            Parsed::Incomplete => Err(Error::BytesArrayTooShort),
            Parsed::Malformed => Err(malformed_error(bytes)),
        }
    }
}

impl FromBytes for Interested {
    open spec fn kind() -> MessageType {
        MessageType::Interested
    }

    open spec fn read_view(&self) -> MessageView {
        self.wire_view()
    }

    fn from_bytes(bytes: &[u8]) -> (r: Result<(Self, usize), Error>) {
        match try_parse_frame(bytes) {
            Parsed::Complete(m, n) => {
                proof {
                    lemma_decoded_kind(bytes@, n as nat);
                }
                match m {
                    Message::Interested(x) => if n == bytes.len() {
                        Ok((x, n))
                    } else {
                        Err(trailing_error(MessageType::Interested))
                    },
                    _ => Err(Error::MessageTypeDoesNotMatchWithExpectedOne),
                }
            },
            Parsed::Incomplete => Err(Error::BytesArrayTooShort),
            Parsed::Malformed => Err(malformed_error(bytes)),
        }
    }
}

impl FromBytes for NotInterested {
    open spec fn kind() -> MessageType {
        MessageType::NotInterested
    }

    open spec fn read_view(&self) -> MessageView {
        self.wire_view()
    }

    fn from_bytes(bytes: &[u8]) -> (r: Result<(Self, usize), Error>) {
        match try_parse_frame(bytes) {
            Parsed::Complete(m, n) => {
                proof {
                    lemma_decoded_kind(bytes@, n as nat);
                }
                match m {
                    Message::NotInterested(x) => if n == bytes.len() {
                        Ok((x, n))
                    } else {
                        Err(trailing_error(MessageType::NotInterested))
                    },
                    _ => Err(Error::MessageTypeDoesNotMatchWithExpectedOne),
                }
            },
            Parsed::Incomplete => Err(Error::BytesArrayTooShort),
            Parsed::Malformed => Err(malformed_error(bytes)),
        }
    }
}

impl FromBytes for Have {
    open spec fn kind() -> MessageType {
        MessageType::Have
    }

    open spec fn read_view(&self) -> MessageView {
        self.wire_view()
    }

    fn from_bytes(bytes: &[u8]) -> (r: Result<(Self, usize), Error>) {
        match try_parse_frame(bytes) {
            Parsed::Complete(m, n) => {
                proof {
                    lemma_decoded_kind(bytes@, n as nat);
                }
                match m {
                    Message::Have(x) => if n == bytes.len() {
                        Ok((x, n))
                    } else {
                        Err(trailing_error(MessageType::Have))
                    },
                    _ => Err(Error::MessageTypeDoesNotMatchWithExpectedOne),
                }
            },
            Parsed::Incomplete => Err(Error::BytesArrayTooShort),
            Parsed::Malformed => Err(malformed_error(bytes)),
        }
    }
}

impl FromBytes for Bitfield {
    open spec fn kind() -> MessageType {
        MessageType::Bitfield
    }

    open spec fn read_view(&self) -> MessageView {
        self.wire_view()
    }

    fn from_bytes(bytes: &[u8]) -> (r: Result<(Self, usize), Error>) {
        match try_parse_frame(bytes) {
            Parsed::Complete(m, n) => {
                proof {
                    lemma_decoded_kind(bytes@, n as nat);
                }
                match m {
                    Message::Bitfield(x) => if n == bytes.len() {
                        Ok((x, n))
                    } else {
                        Err(trailing_error(MessageType::Bitfield))
                    },
                    _ => Err(Error::MessageTypeDoesNotMatchWithExpectedOne),
                }
            },
            Parsed::Incomplete => Err(Error::BytesArrayTooShort),
            Parsed::Malformed => Err(malformed_error(bytes)),
        }
    }
}

impl FromBytes for Request {
    open spec fn kind() -> MessageType {
        MessageType::Request
    }

    open spec fn read_view(&self) -> MessageView {
        self.wire_view()
    }

    fn from_bytes(bytes: &[u8]) -> (r: Result<(Self, usize), Error>) {
        match try_parse_frame(bytes) {
            Parsed::Complete(m, n) => {
                proof {
                    lemma_decoded_kind(bytes@, n as nat);
                }
                match m {
                    Message::Request(x) => if n == bytes.len() {
                        Ok((x, n))
                    } else {
                        Err(trailing_error(MessageType::Request))
                    },
                    _ => Err(Error::MessageTypeDoesNotMatchWithExpectedOne),
                }
            },
            Parsed::Incomplete => Err(Error::BytesArrayTooShort),
            Parsed::Malformed => Err(malformed_error(bytes)),
        }
    }
}

impl FromBytes for Piece {
    open spec fn kind() -> MessageType {
        MessageType::Piece
    }

    open spec fn read_view(&self) -> MessageView {
        self.wire_view()
    }

    fn from_bytes(bytes: &[u8]) -> (r: Result<(Self, usize), Error>) {
        match try_parse_frame(bytes) {
            Parsed::Complete(m, n) => {
                proof {
                    lemma_decoded_kind(bytes@, n as nat);
                }
                match m {
                    Message::Piece(x) => if n == bytes.len() {
                        Ok((x, n))
                    } else {
                        Err(trailing_error(MessageType::Piece))
                    },
                    _ => Err(Error::MessageTypeDoesNotMatchWithExpectedOne),
                }
            },
            Parsed::Incomplete => Err(Error::BytesArrayTooShort),
            Parsed::Malformed => Err(malformed_error(bytes)),
        }
    }
}

impl FromBytes for Cancel {
    open spec fn kind() -> MessageType {
        MessageType::Cancel
    }

    open spec fn read_view(&self) -> MessageView {
        self.wire_view()
    }

    fn from_bytes(bytes: &[u8]) -> (r: Result<(Self, usize), Error>) {
        match try_parse_frame(bytes) {
            Parsed::Complete(m, n) => {
                proof {
                    lemma_decoded_kind(bytes@, n as nat);
                }
                match m {
                    Message::Cancel(x) => if n == bytes.len() {
                        Ok((x, n))
                    } else {
                        Err(trailing_error(MessageType::Cancel))
                    },
                    _ => Err(Error::MessageTypeDoesNotMatchWithExpectedOne),
                }
            },
            Parsed::Incomplete => Err(Error::BytesArrayTooShort),
            Parsed::Malformed => Err(malformed_error(bytes)),
        }
    }
}

impl FromBytes for Port {
    open spec fn kind() -> MessageType {
        MessageType::Port
    }

    open spec fn read_view(&self) -> MessageView {
        self.wire_view()
    }

    fn from_bytes(bytes: &[u8]) -> (r: Result<(Self, usize), Error>) {
        match try_parse_frame(bytes) {
            Parsed::Complete(m, n) => {
                proof {
                    lemma_decoded_kind(bytes@, n as nat);
                }
                match m {
                    Message::Port(x) => if n == bytes.len() {
                        Ok((x, n))
                    } else {
                        Err(trailing_error(MessageType::Port))
                    },
                    _ => Err(Error::MessageTypeDoesNotMatchWithExpectedOne),
                }
            },
            Parsed::Incomplete => Err(Error::BytesArrayTooShort),
            Parsed::Malformed => Err(malformed_error(bytes)),
        }
    }
}

impl Handshake {
    /// Reads a version 1 handshake from the start of `bytes`; returns it and the 68
    /// bytes it took.
    pub fn from_bytes(bytes: &[u8]) -> (r: Result<(Handshake, usize), Error>)
        ensures
            match r {
                Ok((m, n)) => handshake_outcome(bytes@) == FrameOutcome::Complete(n as nat)
                    && m.wire_view() == decode_handshake(bytes@),
                Err(e) => !(handshake_outcome(bytes@) is Complete) && (handshake_outcome(bytes@)
                    is Incomplete ==> e == Error::BytesArrayTooShort) && (handshake_outcome(bytes@)
                    is Malformed ==> e == Error::FailedToParseBitTorrentHandshakeProtocolNameField),
            },
    {
        match try_parse_handshake(bytes) {
            Parsed::Complete(Message::Handshake(h), n) => Ok((h, n)),
            Parsed::Incomplete => Err(Error::BytesArrayTooShort),
            _ => Err(Error::FailedToParseBitTorrentHandshakeProtocolNameField),
        }
    }
}

} // verus!
