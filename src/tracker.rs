//! What this client tells the tracker when it announces itself.
use crate::torrent::Torrent;
use vstd::prelude::*;

verus! {

/// The port this client listens on and announces.
pub const CLIENT_PORT: u16 = 6882;

/// The event an announce reports.
#[derive(Debug, Clone, Copy, PartialEq, Eq, Structural)]
pub enum Event {
    Started,
    Stopped,
    Completed,
}

impl Event {
    /// The event's name in an announce URL.
    pub fn as_str(&self) -> (r: &'static str)
        ensures
            *self == Event::Started ==> r@ == "started"@,
            *self == Event::Stopped ==> r@ == "stopped"@,
            *self == Event::Completed ==> r@ == "completed"@,
    {
        match self {
            Event::Started => "started",
            Event::Stopped => "stopped",
            Event::Completed => "completed",
        }
    }
}

/// The host and port of a tracker.
#[derive(Debug)]
pub struct TrackerAddress {
    pub host: String,
    pub port: u16,
}

impl TrackerAddress {
    pub fn new(host: String, port: u16) -> (r: Self)
        ensures
            r.host@ == host@,
            r.port == port,
    {
        TrackerAddress { host, port }
    }

    pub fn host(&self) -> (r: &str)
        ensures
            r@ == self.host@,
    {
        self.host.as_str()
    }

    pub fn port(&self) -> (r: u16)
        ensures
            r == self.port,
    {
        self.port
    }
}

/// The parameters of an announce.
#[derive(Debug)]
pub struct TrackerRequest {
    pub info_hash: [u8; 20],
    pub peer_id: [u8; 20],
    pub port: u16,
    pub uploaded: usize,
    pub downloaded: usize,
    pub left: usize,
    pub compact: bool,
    pub event: Option<Event>,
}

impl TrackerRequest {
    pub fn new(
        info_hash: [u8; 20],
        peer_id: [u8; 20],
        port: u16,
        uploaded: usize,
        downloaded: usize,
        left: usize,
        compact: bool,
        event: Option<Event>,
    ) -> (r: Self)
        ensures
            r.info_hash == info_hash,
            r.peer_id == peer_id,
            r.port == port,
            r.uploaded == uploaded,
            r.downloaded == downloaded,
            r.left == left,
            r.compact == compact,
            r.event == event,
    {
        TrackerRequest { info_hash, peer_id, port, uploaded, downloaded, left, compact, event }
    }

    /// The first announce for a torrent: nothing up or down yet, `left_to_download`
    /// bytes to go, compact peer list asked for, event `started`.
    pub fn from_torrent(torrent: &Torrent, peer_id: [u8; 20], left_to_download: u32) -> (r: TrackerRequest)
        ensures
            r.info_hash == torrent.info_hash,
            r.peer_id == peer_id,
            r.port == CLIENT_PORT,
            r.uploaded == 0,
            r.downloaded == 0,
            r.left == left_to_download,
            r.compact,
            r.event == Some(Event::Started),
    {
        TrackerRequest::new(
            torrent.info_hash(),
            peer_id,
            CLIENT_PORT,
            0,
            0,
            left_to_download as usize,
            true,
            Some(Event::Started),
        )
    }
}

} // verus!
