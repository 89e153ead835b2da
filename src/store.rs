//! Where blocks lie in the file that backs a torrent, and which pieces on disk are
//! already whole.
use crate::bits::{bits_filled, bits_of, bits_set};
use crate::engine::{sha1_digest, sha1_of};
use crate::torrent::{calculate_offset, BLOCK_SIZE};
use crate::wire::same_20_bytes;
use crate::Error;
use bit_vec::BitVec;
use vstd::prelude::*;

verus! {

/// The layout of the file behind a torrent: pieces of one length, one after the other.
#[derive(Debug, Clone, Copy)]
pub struct BlockLayout {
    pub piece_length: u32,
    pub file_size: u64,
}

impl BlockLayout {
    pub fn new(piece_length: u32, file_size: u64) -> (r: Self)
        ensures
            r.piece_length == piece_length,
            r.file_size == file_size,
    {
        BlockLayout { piece_length, file_size }
    }

    pub fn piece_length(&self) -> (r: u32)
        ensures
            r == self.piece_length,
    {
        self.piece_length
    }

    /// Where to write a block of `data_len` bytes at `piece_offset` in piece
    /// `piece_index`: refused for a block larger than the block size, or one that
    /// would end past the end of the file.
    pub fn write_position(&self, piece_index: u32, piece_offset: u32, data_len: usize) -> (r: Result<
        u64,
        Error,
    >)
        ensures
            data_len > BLOCK_SIZE ==> r == Err::<u64, Error>(Error::UnexpectedBlockSize),
            data_len <= BLOCK_SIZE && piece_index * self.piece_length + piece_offset + data_len
                > self.file_size ==> r == Err::<u64, Error>(Error::InvalidWriteOffset),
            data_len <= BLOCK_SIZE && piece_index * self.piece_length + piece_offset + data_len
                <= self.file_size ==> r == Ok::<u64, Error>(
                (piece_index * self.piece_length + piece_offset) as u64,
            ),
    {
        if data_len > BLOCK_SIZE as usize {
            return Err(Error::UnexpectedBlockSize);
        }
        let offset = calculate_offset(piece_index, self.piece_length, piece_offset);
        if offset > self.file_size || data_len as u64 > self.file_size - offset {
            return Err(Error::InvalidWriteOffset);
        }
        Ok(offset)
    }

    /// How many bytes a read at byte `offset` of the file gets: a block, or what is
    /// left of the file.
    pub fn bytes_to_read(&self, offset: u64) -> (r: u64)
        requires
            offset <= self.file_size,
        ensures
            offset + BLOCK_SIZE > self.file_size ==> r == self.file_size - offset,
            offset + BLOCK_SIZE <= self.file_size ==> r == BLOCK_SIZE,
    {
        if self.file_size - offset < BLOCK_SIZE as u64 {
            self.file_size - offset
        } else {
            BLOCK_SIZE as u64
        }
    }

    /// Where to read the block at `piece_offset` in piece `piece_index`, and how
    /// many bytes: refused for a block that starts past the end of the file.
    pub fn read_position(&self, piece_index: u32, piece_offset: u32) -> (r: Result<(u64, u64), Error>)
        ensures
            piece_index * self.piece_length + piece_offset > self.file_size ==> r == Err::<
                (u64, u64),
                Error,
            >(Error::InvalidReadOffset),
            piece_index * self.piece_length + piece_offset <= self.file_size ==> (r matches Ok(
                (offset, len),
            ) && offset == piece_index * self.piece_length + piece_offset && len == (if offset
                + BLOCK_SIZE > self.file_size {
                self.file_size - offset
            } else {
                BLOCK_SIZE as int
            })),
    {
        let offset = calculate_offset(piece_index, self.piece_length, piece_offset);
        if offset > self.file_size {
            return Err(Error::InvalidReadOffset);
        }
        Ok((offset, self.bytes_to_read(offset)))
    }
}

/// The SHA-1 digest of each piece.
pub fn calculate_piece_hashes(pieces: &Vec<Vec<u8>>) -> (r: Vec<[u8; 20]>)
    ensures
        r@.len() == pieces@.len(),
        forall|i: int| 0 <= i < r@.len() ==> (#[trigger] r@[i])@ == sha1_of(pieces@[i]@),
{
    let mut r: Vec<[u8; 20]> = Vec::new();
    let mut i: usize = 0;
    while i < pieces.len()
        invariant
            i <= pieces@.len(),
            r@.len() == i,
            forall|k: int| 0 <= k < i ==> (#[trigger] r@[k])@ == sha1_of(pieces@[k]@),
        decreases pieces@.len() - i,
    {
        r.push(sha1_digest(pieces[i].as_slice()));
        i = i + 1;
    }
    r
}

/// One bit per expected hash: set where the hash found at the same place equals it.
pub fn create_bitfield_from_hashes(expected_hashes: &Vec<[u8; 20]>, real_hashes: &Vec<[u8; 20]>) -> (r:
    BitVec)
    ensures
        bits_of(r) == Seq::new(
            expected_hashes@.len(),
            |i: int| i < real_hashes@.len() && expected_hashes@[i]@ == real_hashes@[i]@,
        ),
{
    let n = expected_hashes.len();
    let mut bits = bits_filled(n, false);
    let mut i: usize = 0;
    while i < n && i < real_hashes.len()
        invariant
            n == expected_hashes@.len(),
            i <= n,
            bits_of(bits).len() == n,
            forall|k: int|
                0 <= k < n ==> bits_of(bits)[k] == (k < i && k < real_hashes@.len()
                    && expected_hashes@[k]@ == real_hashes@[k]@),
        decreases n - i,
    {
        if same_20_bytes(&expected_hashes[i], &real_hashes[i]) {
            bits_set(&mut bits, i, true);
        }
        i = i + 1;
    }
    assert(bits_of(bits) =~= Seq::new(
        expected_hashes@.len(),
        |i: int| i < real_hashes@.len() && expected_hashes@[i]@ == real_hashes@[i]@,
    ));
    bits
}

/// The pieces found whole on disk: those whose SHA-1 equals their expected hash.
pub fn local_bitfield(expected_hashes: &Vec<[u8; 20]>, pieces: &Vec<Vec<u8>>) -> (r: BitVec)
    ensures
        bits_of(r) == Seq::new(
            expected_hashes@.len(),
            |i: int| i < pieces@.len() && expected_hashes@[i]@ == sha1_of(pieces@[i]@),
        ),
{
    let found = calculate_piece_hashes(pieces);
    let r = create_bitfield_from_hashes(expected_hashes, &found);
    assert(bits_of(r) =~= Seq::new(
        expected_hashes@.len(),
        |i: int| i < pieces@.len() && expected_hashes@[i]@ == sha1_of(pieces@[i]@),
    ));
    r
}

} // verus!
