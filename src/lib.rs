//! A BitTorrent peer: the wire codec of the peer wire protocol, piece selection, and
//! the per-peer session engine that decides what to send, request and verify.
//!
//! Nothing here performs I/O: the engine hands back actions, and the program around
//! the library performs them on sockets and on the file.
pub mod bits;
pub mod codec;
pub mod engine;
pub mod error;
pub mod identity;
pub mod messages;
pub mod peer;
pub mod query;
pub mod selection;
pub mod store;
pub mod torrent;
pub mod tracker;
pub mod wait;
pub mod wire;

pub use codec::{
    identity_first_message_type_of, try_parse_frame, try_parse_handshake, try_parse_message,
    FromBytes, Parsed,
};
pub use engine::{Action, Engine, PeerState, Phase};
pub use error::Error;
pub use identity::generate_random_identity;
pub use messages::{
    Bitfield, Cancel, Choke, Handshake, Have, Interested, IntoBytes, KeepAlive, Message,
    MessageType, NotInterested, Piece, Port, Request, Unchoke,
};
pub use peer::Peer;
pub use selection::{DistributedSelector, PieceSelection, RarestPiecesSelector, SimpleSelector};
pub use store::{create_bitfield_from_hashes, local_bitfield, BlockLayout};
pub use torrent::{
    calculate_offset, div_ceil, expected_block_length, expected_blocks_in_piece, Torrent,
};
pub use tracker::{Event, TrackerAddress, TrackerRequest};
pub use wait::{AdaptativeWait, WaitStep};
