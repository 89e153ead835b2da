//! Peer endpoints: an IPv4 address and a port.
use crate::query::{decimal, push_decimal};
use crate::wire::{be16_at, be32_at, read_u16, read_u32};
use vstd::string::StringExecFns;
use crate::Error;
use vstd::prelude::*;

verus! {

/// Where a peer listens: an IPv4 address, as a big-endian integer, and a port.
#[derive(Debug, Clone, Copy, PartialEq, Eq, PartialOrd, Ord, Hash, Structural)]
pub struct Peer {
    pub ip: u32,
    pub port: u16,
}

impl Peer {
    /// The endpoint `a.b.c.d:port`.
    pub fn new(octets: [u8; 4], port: u16) -> (r: Peer)
        ensures
            r.ip == be32_at(octets@, 0),
            r.port == port,
    {
        let ip = read_u32(octets.as_slice(), 0);
        Peer { ip, port }
    }

    /// The endpoint in the six-byte compact form that trackers send: four address
    /// bytes, then two port bytes, all big-endian.
    pub fn from_bytes(chunk: &[u8]) -> (r: Peer)
        requires
            chunk@.len() >= 6,
        ensures
            r.ip == be32_at(chunk@, 0),
            r.port == be16_at(chunk@, 4),
    {
        Peer { ip: read_u32(chunk, 0), port: read_u16(chunk, 4) }
    }

    /// The four bytes of the address, most significant first.
    pub fn octets(&self) -> (r: [u8; 4])
        ensures
            be32_at(r@, 0) == self.ip,
    {
        let r = [(self.ip >> 24u32) as u8, (self.ip >> 16u32) as u8, (self.ip >> 8u32) as u8, self.ip as u8];
        proof {
            crate::wire::lemma_be32_round_trip(self.ip);
        }
        assert(r@ =~= crate::wire::be32(self.ip));
        r
    }

    pub fn port(&self) -> (r: u16)
        ensures
            r == self.port,
    {
        self.port
    }

    /// The endpoint as `a.b.c.d:port`, in decimal.
    pub fn socket_address(&self) -> (r: String)
        ensures
            r@ == endpoint_text(*self),
    {
        let o = self.octets();
        let mut s = String::new();
        push_decimal(&mut s, o[0] as u64);
        s.append(".");
        push_decimal(&mut s, o[1] as u64);
        s.append(".");
        push_decimal(&mut s, o[2] as u64);
        s.append(".");
        push_decimal(&mut s, o[3] as u64);
        s.append(":");
        push_decimal(&mut s, self.port as u64);
        proof {
            crate::wire::lemma_be32_round_trip(self.ip);
        }
        assert(o@ =~= crate::wire::be32(self.ip)) by {
            assert(be32_at(o@, 0) == self.ip);
            assert(be32_at(crate::wire::be32(self.ip), 0) == self.ip);
            lemma_octets_unique(o@, crate::wire::be32(self.ip));
        }
        assert(s@ =~= endpoint_text(*self));
        s
    }
}

/// Four bytes are determined by the integer they hold.
proof fn lemma_octets_unique(a: Seq<u8>, b: Seq<u8>)
    requires
        a.len() == 4,
        b.len() == 4,
        be32_at(a, 0) == be32_at(b, 0),
    ensures
        a == b,
{
    let (a0, a1, a2, a3) = (a[0], a[1], a[2], a[3]);
    let (b0, b1, b2, b3) = (b[0], b[1], b[2], b[3]);
    assert(a0 == b0 && a1 == b1 && a2 == b2 && a3 == b3) by (bit_vector)
        requires
            (((a0 as u32) << 24u32) | ((a1 as u32) << 16u32) | ((a2 as u32) << 8u32) | (a3 as u32))
                == (((b0 as u32) << 24u32) | ((b1 as u32) << 16u32) | ((b2 as u32) << 8u32) | (
                b3 as u32)),
    ;
    assert(a =~= b);
}

/// The endpoint as `a.b.c.d:port`, the four bytes of the address and the port in decimal.
pub open spec fn endpoint_text(p: Peer) -> Seq<char> {
    let o = crate::wire::be32(p.ip);
    decimal(o[0] as nat) + "."@ + decimal(o[1] as nat) + "."@ + decimal(o[2] as nat) + "."@
        + decimal(o[3] as nat) + ":"@ + decimal(p.port as nat)
}

/// The peers of a compact peer list: one per six bytes.
pub open spec fn compact_peers(bytes: Seq<u8>) -> Seq<Peer> {
    Seq::new(
        bytes.len() / 6,
        |k: int| Peer { ip: be32_at(bytes, 6 * k), port: be16_at(bytes, 6 * k + 4) },
    )
}

/// Reads a compact peer list; its length must be a multiple of six bytes.
pub fn parse_compact_peers(bytes: &[u8]) -> (r: Result<Vec<Peer>, Error>)
    ensures
        bytes@.len() % 6 == 0 ==> (r matches Ok(v) && v@ == compact_peers(bytes@)),
        bytes@.len() % 6 != 0 ==> r == Err::<Vec<Peer>, Error>(Error::InvalidCompactPeerList),
{
    if bytes.len() % 6 != 0 {
        return Err(Error::InvalidCompactPeerList);
    }
    let mut peers: Vec<Peer> = Vec::new();
    let mut k: usize = 0;
    let n = bytes.len() / 6;
    while k < n
        invariant
            n == bytes@.len() / 6,
            bytes@.len() % 6 == 0,
            6 * n == bytes.len(),
            k <= n,
            peers@ == compact_peers(bytes@).take(k as int),
        decreases n - k,
    {
        assert(6 * k + 6 <= 6 * n) by (nonlinear_arith)
            requires
                k < n,
        ;
        let ip = read_u32(bytes, 6 * k);
        let port = read_u16(bytes, 6 * k + 4);
        peers.push(Peer { ip, port });
        k = k + 1;
        assert(peers@ =~= compact_peers(bytes@).take(k as int));
    }
    assert(compact_peers(bytes@).take(n as int) =~= compact_peers(bytes@));
    Ok(peers)
}

} // verus!
