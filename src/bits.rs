//! Bitfields: `bit_vec::BitVec` seen through the sequence of booleans it holds,
//! and the byte layout of a bitfield on the wire (most significant bit first).
use bit_vec::BitVec;
use vstd::prelude::*;

verus! {

#[verifier::external_type_specification]
#[verifier::external_body]
#[verifier::reject_recursive_types(B)]
pub struct ExBitVec<B>(bit_vec::BitVec<B>);

/// The bits a `BitVec` holds, in index order.
pub uninterp spec fn bits_of(b: BitVec) -> Seq<bool>;

/// Bit `i` of a sequence of bits; positions past the end read as zero.
pub open spec fn bit_or_zero(bits: Seq<bool>, i: int) -> u8 {
    if 0 <= i < bits.len() && bits[i] {
        1u8
    } else {
        0u8
    }
}

/// Byte `j` of the packed form of `bits`: bit `8 * j` is the most significant.
pub open spec fn packed_byte(bits: Seq<bool>, j: int) -> u8 {
    ((bit_or_zero(bits, 8 * j) << 7u8) | (bit_or_zero(bits, 8 * j + 1) << 6u8) | (bit_or_zero(
        bits,
        8 * j + 2,
    ) << 5u8) | (bit_or_zero(bits, 8 * j + 3) << 4u8) | (bit_or_zero(bits, 8 * j + 4) << 3u8)
        | (bit_or_zero(bits, 8 * j + 5) << 2u8) | (bit_or_zero(bits, 8 * j + 6) << 1u8)
        | bit_or_zero(bits, 8 * j + 7)) as u8
}

/// Number of bytes needed to hold `n` bits.
pub open spec fn bytes_for_bits(n: nat) -> nat {
    (n + 7) / 8
}

/// The bits packed into bytes, eight per byte, the last byte padded with zeros.
pub open spec fn bits_to_bytes(bits: Seq<bool>) -> Seq<u8> {
    Seq::new(bytes_for_bits(bits.len()), |j: int| packed_byte(bits, j))
}

/// Bit `k` (0 is the most significant) of byte `b`.
pub open spec fn byte_bit(b: u8, k: int) -> bool {
    (b >> ((7 - k) as u8)) & 1u8 == 1u8
}

/// Each byte read as eight bits, most significant first.
pub open spec fn bytes_to_bits(bytes: Seq<u8>) -> Seq<bool> {
    Seq::new(8 * bytes.len(), |i: int| byte_bit(bytes[i / 8], i % 8))
}

/// Relies on `BitVec::from_elem`: `n` bits, all equal to `bit`.
#[verifier::external_body]
pub(crate) fn bits_filled(n: usize, bit: bool) -> (r: BitVec)
    ensures
        bits_of(r) == Seq::new(n as nat, |_i: int| bit),
{
    BitVec::from_elem(n, bit)
}

/// Relies on `BitVec::len`: the number of bits held.
#[verifier::external_body]
pub(crate) fn bits_len(b: &BitVec) -> (r: usize)
    ensures
        r == bits_of(*b).len(),
{
    b.len()
}

/// Relies on `BitVec::get`: the bit at `i`, or `None` past the end.
#[verifier::external_body]
pub(crate) fn bits_get(b: &BitVec, i: usize) -> (r: Option<bool>)
    ensures
        i < bits_of(*b).len() ==> r == Some(bits_of(*b)[i as int]),
        i >= bits_of(*b).len() ==> r.is_none(),
{
    b.get(i)
}

/// Relies on `BitVec::set`: changes the bit at `i` and no other; it panics past the end.
#[verifier::external_body]
pub(crate) fn bits_set(b: &mut BitVec, i: usize, x: bool)
    requires
        i < bits_of(*old(b)).len(),
    ensures
        bits_of(*final(b)) == bits_of(*old(b)).update(i as int, x),
{
    b.set(i, x)
}

/// Relies on `BitVec::clone`: a copy holding the same bits.
#[verifier::external_body]
pub(crate) fn bits_clone(b: &BitVec) -> (r: BitVec)
    ensures
        bits_of(r) == bits_of(*b),
{
    b.clone()
}

/// Relies on `BitVec::to_bytes`: eight bits per byte, most significant first,
/// the last byte padded with zero bits.
#[verifier::external_body]
pub(crate) fn bits_to_byte_vec(b: &BitVec) -> (r: Vec<u8>)
    ensures
        r@ == bits_to_bytes(bits_of(*b)),
{
    b.to_bytes()
}

/// Relies on `BitVec::from_bytes`: each byte becomes eight bits, most significant
/// first; it panics when the bit count overflows `usize`.
#[verifier::external_body]
pub(crate) fn bits_from_byte_slice(bytes: &[u8]) -> (r: BitVec)
    requires
        8 * bytes@.len() <= usize::MAX,
    ensures
        bits_of(r) == bytes_to_bits(bytes@),
{
    BitVec::from_bytes(bytes)
}

proof fn lemma_byte_bits(c0: u8, c1: u8, c2: u8, c3: u8, c4: u8, c5: u8, c6: u8, c7: u8)
    requires
        c0 <= 1 && c1 <= 1 && c2 <= 1 && c3 <= 1 && c4 <= 1 && c5 <= 1 && c6 <= 1 && c7 <= 1,
    ensures
        ({
            let b = ((c0 << 7u8) | (c1 << 6u8) | (c2 << 5u8) | (c3 << 4u8) | (c4 << 3u8) | (c5
                << 2u8) | (c6 << 1u8) | c7) as u8;
            &&& (b >> 7u8) & 1u8 == c0
            &&& (b >> 6u8) & 1u8 == c1
            &&& (b >> 5u8) & 1u8 == c2
            &&& (b >> 4u8) & 1u8 == c3
            &&& (b >> 3u8) & 1u8 == c4
            &&& (b >> 2u8) & 1u8 == c5
            &&& (b >> 1u8) & 1u8 == c6
            &&& (b >> 0u8) & 1u8 == c7
        }),
{
    assert(((((c0 << 7u8) | (c1 << 6u8) | (c2 << 5u8) | (c3 << 4u8) | (c4 << 3u8) | (c5 << 2u8)
        | (c6 << 1u8) | c7) as u8) >> 7u8) & 1u8 == c0) by (bit_vector)
        requires
            c0 <= 1 && c1 <= 1 && c2 <= 1 && c3 <= 1 && c4 <= 1 && c5 <= 1 && c6 <= 1 && c7 <= 1,
    ;
    assert(((((c0 << 7u8) | (c1 << 6u8) | (c2 << 5u8) | (c3 << 4u8) | (c4 << 3u8) | (c5 << 2u8)
        | (c6 << 1u8) | c7) as u8) >> 6u8) & 1u8 == c1) by (bit_vector)
        requires
            c0 <= 1 && c1 <= 1 && c2 <= 1 && c3 <= 1 && c4 <= 1 && c5 <= 1 && c6 <= 1 && c7 <= 1,
    ;
    assert(((((c0 << 7u8) | (c1 << 6u8) | (c2 << 5u8) | (c3 << 4u8) | (c4 << 3u8) | (c5 << 2u8)
        | (c6 << 1u8) | c7) as u8) >> 5u8) & 1u8 == c2) by (bit_vector)
        requires
            c0 <= 1 && c1 <= 1 && c2 <= 1 && c3 <= 1 && c4 <= 1 && c5 <= 1 && c6 <= 1 && c7 <= 1,
    ;
    assert(((((c0 << 7u8) | (c1 << 6u8) | (c2 << 5u8) | (c3 << 4u8) | (c4 << 3u8) | (c5 << 2u8)
        | (c6 << 1u8) | c7) as u8) >> 4u8) & 1u8 == c3) by (bit_vector)
        requires
            c0 <= 1 && c1 <= 1 && c2 <= 1 && c3 <= 1 && c4 <= 1 && c5 <= 1 && c6 <= 1 && c7 <= 1,
    ;
    assert(((((c0 << 7u8) | (c1 << 6u8) | (c2 << 5u8) | (c3 << 4u8) | (c4 << 3u8) | (c5 << 2u8)
        | (c6 << 1u8) | c7) as u8) >> 3u8) & 1u8 == c4) by (bit_vector)
        requires
            c0 <= 1 && c1 <= 1 && c2 <= 1 && c3 <= 1 && c4 <= 1 && c5 <= 1 && c6 <= 1 && c7 <= 1,
    ;
    assert(((((c0 << 7u8) | (c1 << 6u8) | (c2 << 5u8) | (c3 << 4u8) | (c4 << 3u8) | (c5 << 2u8)
        | (c6 << 1u8) | c7) as u8) >> 2u8) & 1u8 == c5) by (bit_vector)
        requires
            c0 <= 1 && c1 <= 1 && c2 <= 1 && c3 <= 1 && c4 <= 1 && c5 <= 1 && c6 <= 1 && c7 <= 1,
    ;
    assert(((((c0 << 7u8) | (c1 << 6u8) | (c2 << 5u8) | (c3 << 4u8) | (c4 << 3u8) | (c5 << 2u8)
        | (c6 << 1u8) | c7) as u8) >> 1u8) & 1u8 == c6) by (bit_vector)
        requires
            c0 <= 1 && c1 <= 1 && c2 <= 1 && c3 <= 1 && c4 <= 1 && c5 <= 1 && c6 <= 1 && c7 <= 1,
    ;
    assert(((((c0 << 7u8) | (c1 << 6u8) | (c2 << 5u8) | (c3 << 4u8) | (c4 << 3u8) | (c5 << 2u8)
        | (c6 << 1u8) | c7) as u8) >> 0u8) & 1u8 == c7) by (bit_vector)
        requires
            c0 <= 1 && c1 <= 1 && c2 <= 1 && c3 <= 1 && c4 <= 1 && c5 <= 1 && c6 <= 1 && c7 <= 1,
    ;
}

/// Packing bits into bytes and reading them back gives the bits again, followed
/// by the zero padding of the last byte.
pub proof fn lemma_bits_bytes_round_trip(bits: Seq<bool>)
    ensures
        bytes_to_bits(bits_to_bytes(bits)).len() == 8 * bytes_for_bits(bits.len()),
        forall|i: int|
            0 <= i < 8 * bytes_for_bits(bits.len()) ==> #[trigger] bytes_to_bits(
                bits_to_bytes(bits),
            )[i] == (i < bits.len() && bits[i]),
{
    let packed = bits_to_bytes(bits);
    assert forall|i: int| 0 <= i < 8 * bytes_for_bits(bits.len()) implies #[trigger] bytes_to_bits(
        packed,
    )[i] == (i < bits.len() && bits[i]) by {
        let j = i / 8;
        let k = i % 8;
        assert(0 <= j < bytes_for_bits(bits.len()));
        assert(8 * j + k == i);
        lemma_byte_bits(
            bit_or_zero(bits, 8 * j),
            bit_or_zero(bits, 8 * j + 1),
            bit_or_zero(bits, 8 * j + 2),
            bit_or_zero(bits, 8 * j + 3),
            bit_or_zero(bits, 8 * j + 4),
            bit_or_zero(bits, 8 * j + 5),
            bit_or_zero(bits, 8 * j + 6),
            bit_or_zero(bits, 8 * j + 7),
        );
        assert(packed[j] == packed_byte(bits, j));
    }
}

} // verus!
