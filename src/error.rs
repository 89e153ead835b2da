//! The errors of the library.
use vstd::prelude::*;

verus! {

/// What can go wrong in the wire codec, the piece store arithmetic and the session engine.
#[derive(Debug, Clone, Copy, PartialEq, Eq, Structural)]
pub enum Error {
    /// The bytes hold less than one whole message.
    BytesArrayTooShort,
    /// The length prefix disagrees with the shape that the message id asks for.
    MessageLengthDoesNotMatchWithExpectedOne,
    /// The message id is not the one of the type asked for.
    MessageTypeDoesNotMatchWithExpectedOne,
    /// The message id is none that the protocol defines.
    FailedToFindTheMessageTypeOfRawBytes,
    /// The handshake does not announce the version 1 protocol.
    FailedToParseBitTorrentHandshakeProtocolNameField,
    /// The tracker returned no peer list.
    NoPeersAvailable,
    /// A compact peer list whose length is not a multiple of six bytes.
    InvalidCompactPeerList,
    /// A block larger than the block size.
    UnexpectedBlockSize,
    /// A write past the end of the file.
    InvalidWriteOffset,
    /// A read past the end of the file.
    InvalidReadOffset,
}

} // verus!
