//! The metainfo of a single-file torrent and the piece and block arithmetic on it.
use vstd::prelude::*;

verus! {

/// Blocks, the unit of a request, are at most this many bytes.
pub const BLOCK_SIZE: u32 = 16384;

/// `a / b`, rounded up.
pub open spec fn ceil_div(a: int, b: int) -> int {
    (a + b - 1) / b
}

/// The metainfo of a single-file torrent.
#[derive(Debug)]
pub struct Torrent {
    /// URL of the tracker
    pub announce: String,
    /// number of bytes in each piece
    pub piece_length_in_bytes: u32,
    /// number of pieces, from the file length and the piece length
    pub number_of_pieces: u32,
    /// length of the file
    pub total_length_in_bytes: u32,
    /// the file name
    pub name: String,
    /// SHA-1 of the bencoded info dictionary
    pub info_hash: [u8; 20],
    /// SHA-1 of each piece
    pub piece_hashes: Vec<[u8; 20]>,
}

impl Torrent {
    /// Pieces have a length, and their number covers the whole file.
    pub open spec fn wf(&self) -> bool {
        &&& self.piece_length_in_bytes > 0
        &&& self.number_of_pieces == ceil_div(
            self.total_length_in_bytes as int,
            self.piece_length_in_bytes as int,
        )
    }

    /// Length of piece `i`: the piece length, but for a shorter last piece.
    pub open spec fn piece_size(&self, i: int) -> int {
        if i == self.number_of_pieces - 1 && self.total_length_in_bytes % self.piece_length_in_bytes
            != 0 {
            (self.total_length_in_bytes % self.piece_length_in_bytes) as int
        } else {
            self.piece_length_in_bytes as int
        }
    }

    /// Number of blocks of piece `i`.
    pub open spec fn blocks_in_piece(&self, i: int) -> int {
        ceil_div(self.piece_size(i), BLOCK_SIZE as int)
    }

    /// Length of block `b` of piece `i`: a whole block, but for a shorter last block.
    pub open spec fn block_length(&self, i: int, b: int) -> int {
        if self.piece_size(i) - b * BLOCK_SIZE < BLOCK_SIZE {
            self.piece_size(i) - b * BLOCK_SIZE
        } else {
            BLOCK_SIZE as int
        }
    }

    /// A torrent from the fields of its metainfo; the number of pieces follows from
    /// the lengths.
    pub fn new(
        announce: String,
        piece_length_in_bytes: u32,
        total_length_in_bytes: u32,
        name: String,
        info_hash: [u8; 20],
        piece_hashes: Vec<[u8; 20]>,
    ) -> (r: Torrent)
        requires
            piece_length_in_bytes > 0,
        ensures
            r.wf(),
            r.announce@ == announce@,
            r.piece_length_in_bytes == piece_length_in_bytes,
            r.total_length_in_bytes == total_length_in_bytes,
            r.name@ == name@,
            r.info_hash == info_hash,
            r.piece_hashes@ == piece_hashes@,
    {
        let number_of_pieces = div_ceil(total_length_in_bytes, piece_length_in_bytes);
        Torrent {
            announce,
            piece_length_in_bytes,
            number_of_pieces,
            total_length_in_bytes,
            name,
            info_hash,
            piece_hashes,
        }
    }

    pub fn announce(&self) -> (r: &String)
        ensures
            r@ == self.announce@,
    {
        &self.announce
    }

    pub fn piece_length_in_bytes(&self) -> (r: u32)
        ensures
            r == self.piece_length_in_bytes,
    {
        self.piece_length_in_bytes
    }

    pub fn number_of_pieces(&self) -> (r: u32)
        ensures
            r == self.number_of_pieces,
    {
        self.number_of_pieces
    }

    pub fn total_length_in_bytes(&self) -> (r: u32)
        ensures
            r == self.total_length_in_bytes,
    {
        self.total_length_in_bytes
    }

    pub fn name(&self) -> (r: &String)
        ensures
            r@ == self.name@,
    {
        &self.name
    }

    pub fn info_hash(&self) -> (r: [u8; 20])
        ensures
            r == self.info_hash,
    {
        self.info_hash
    }

    pub fn piece_hashes(&self) -> (r: &Vec<[u8; 20]>)
        ensures
            r@ == self.piece_hashes@,
    {
        &self.piece_hashes
    }
}

/// `a / b`, rounded up.
pub fn div_ceil(a: u32, b: u32) -> (r: u32)
    requires
        b > 0,
    ensures
        r == ceil_div(a as int, b as int),
{
    assert(a % b != 0 ==> a / b < u32::MAX) by (nonlinear_arith)
        requires
            b > 0,
            a <= u32::MAX,
    ;
    let r = a / b + if a % b == 0 {
        0
    } else {
        1
    };
    assert(r == ceil_div(a as int, b as int)) by (nonlinear_arith)
        requires
            b > 0,
            r == a / b + if a % b == 0 {
                0int
            } else {
                1int
            },
    ;
    r
}

/// Length of piece `piece_index` of the torrent.
fn piece_size(piece_index: u32, torrent: &Torrent) -> (r: u32)
    requires
        torrent.wf(),
    ensures
        r == torrent.piece_size(piece_index as int),
        r <= torrent.piece_length_in_bytes,
{
    let total = torrent.total_length_in_bytes;
    let piece_length = torrent.piece_length_in_bytes;
    if torrent.number_of_pieces > 0 && piece_index == torrent.number_of_pieces - 1 && total
        % piece_length != 0 {
        total % piece_length
    } else {
        piece_length
    }
}

/// Number of blocks of piece `piece_index`: the piece length over the block size,
/// rounded up.
pub fn expected_blocks_in_piece(piece_index: u32, torrent: &Torrent) -> (r: usize)
    requires
        torrent.wf(),
        piece_index < torrent.number_of_pieces,
    ensures
        r == torrent.blocks_in_piece(piece_index as int),
{
    div_ceil(piece_size(piece_index, torrent), BLOCK_SIZE) as usize
}

/// Length of block `block_index` of piece `piece_index`: the block size, or what is
/// left of the piece for its last block.
pub fn expected_block_length(piece_index: u32, block_index: u32, torrent: &Torrent) -> (r: u32)
    requires
        torrent.wf(),
        piece_index < torrent.number_of_pieces,
        block_index < torrent.blocks_in_piece(piece_index as int),
    ensures
        r == torrent.block_length(piece_index as int, block_index as int),
        0 < r <= BLOCK_SIZE,
{
    let size = piece_size(piece_index, torrent);
    assert(block_index * BLOCK_SIZE < size) by (nonlinear_arith)
        requires
            block_index < (size + BLOCK_SIZE - 1) / (BLOCK_SIZE as int),
            BLOCK_SIZE == 16384,
    ;
    let start = block_index * BLOCK_SIZE;
    if size - start < BLOCK_SIZE {
        size - start
    } else {
        BLOCK_SIZE
    }
}

/// Where in the file a byte of a piece lies.
pub fn calculate_offset(piece_index: u32, piece_length: u32, piece_offset: u32) -> (r: u64)
    ensures
        r == piece_index * piece_length + piece_offset,
{
    assert(piece_index * piece_length <= u32::MAX * u32::MAX) by (nonlinear_arith);
    piece_index as u64 * piece_length as u64 + piece_offset as u64
}

} // verus!
