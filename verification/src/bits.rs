//! Bits of bytes, least significant bit first.

use itybity::{FromBitIterator, ToBits};
use vstd::prelude::*;

verus! {

/// Bit `k` of `b`, counted from the least significant one.
pub open spec fn byte_bit(b: u8, k: u8) -> bool {
    (b >> k) & 1u8 == 1u8
}

/// Bit `i` of a byte string: bit `i % 8` of byte `i / 8`.
pub open spec fn bit_at(s: Seq<u8>, i: int) -> bool {
    byte_bit(s[i / 8], (i % 8) as u8)
}

/// The bits of a byte string, each byte least significant bit first.
pub open spec fn bits_of(bytes: Seq<u8>) -> Seq<bool> {
    Seq::new(8 * bytes.len(), |i: int| bit_at(bytes, i))
}

/// `bytes` packs `bits`, eight to a byte, least significant bit first; the
/// last byte is filled up with zero bits.
pub open spec fn packs(bytes: Seq<u8>, bits: Seq<bool>) -> bool {
    &&& bytes.len() == (bits.len() + 7) / 8
    &&& forall|i: int|
        0 <= i < 8 * bytes.len() ==> #[trigger] bit_at(bytes, i) == (i < bits.len() && bits[i])
}

/// The bits of a byte string (`itybity::ToBits::to_lsb0_vec`): eight for
/// each byte in turn, the least significant bit of a byte first. The bits
/// must fit a vector.
#[verifier::external_body]
pub(crate) fn to_lsb0_vec(bytes: &[u8]) -> (bits: Vec<bool>)
    requires
        8 * bytes@.len() <= usize::MAX,
    ensures
        bits@ == bits_of(bytes@),
{
    bytes.to_lsb0_vec()
}

/// Packs bits into bytes (`itybity::FromBitIterator::from_lsb0_iter`):
/// eight bits to a byte, the first bit the least significant; a last group
/// of fewer than eight bits is filled up with zeros.
#[verifier::external_body]
pub(crate) fn from_lsb0_iter(bits: &[bool]) -> (bytes: Vec<u8>)
    ensures
        packs(bytes@, bits@),
{
    Vec::<u8>::from_lsb0_iter(bits.iter().copied())
}

/// Two bytes with the same eight bits are the same byte.
pub proof fn lemma_byte_ext(a: u8, b: u8)
    requires
        forall|k: u8| k < 8 ==> byte_bit(a, k) == byte_bit(b, k),
    ensures
        a == b,
{
    assert(byte_bit(a, 0) == byte_bit(b, 0));
    assert(byte_bit(a, 1) == byte_bit(b, 1));
    assert(byte_bit(a, 2) == byte_bit(b, 2));
    assert(byte_bit(a, 3) == byte_bit(b, 3));
    assert(byte_bit(a, 4) == byte_bit(b, 4));
    assert(byte_bit(a, 5) == byte_bit(b, 5));
    assert(byte_bit(a, 6) == byte_bit(b, 6));
    assert(byte_bit(a, 7) == byte_bit(b, 7));
    assert(a == b) by (bit_vector)
        requires
            ((a >> 0u8) & 1u8 == 1u8) == ((b >> 0u8) & 1u8 == 1u8),
            ((a >> 1u8) & 1u8 == 1u8) == ((b >> 1u8) & 1u8 == 1u8),
            ((a >> 2u8) & 1u8 == 1u8) == ((b >> 2u8) & 1u8 == 1u8),
            ((a >> 3u8) & 1u8 == 1u8) == ((b >> 3u8) & 1u8 == 1u8),
            ((a >> 4u8) & 1u8 == 1u8) == ((b >> 4u8) & 1u8 == 1u8),
            ((a >> 5u8) & 1u8 == 1u8) == ((b >> 5u8) & 1u8 == 1u8),
            ((a >> 6u8) & 1u8 == 1u8) == ((b >> 6u8) & 1u8 == 1u8),
            ((a >> 7u8) & 1u8 == 1u8) == ((b >> 7u8) & 1u8 == 1u8),
    ;
}

/// A bit of an exclusive or is the exclusive or of the bits.
pub proof fn lemma_byte_xor_bit(a: u8, b: u8, k: u8)
    requires
        k < 8,
    ensures
        byte_bit(a ^ b, k) == (byte_bit(a, k) != byte_bit(b, k)),
{
    assert(((a ^ b) >> k) & 1u8 == ((a >> k) & 1u8) ^ ((b >> k) & 1u8)) by (bit_vector)
        requires
            k < 8,
    ;
    let x = (a >> k) & 1u8;
    let y = (b >> k) & 1u8;
    assert((x == 0 || x == 1) && (y == 0 || y == 1) && (x ^ y == 1u8) == (x != y)) by (bit_vector)
        requires
            x == (a >> k) & 1u8,
            y == (b >> k) & 1u8,
    ;
}

/// Sets bit `k` of `acc` to `bit`, given that it was clear.
pub fn with_bit(acc: u8, k: u8, bit: bool) -> (r: u8)
    requires
        k < 8,
        !byte_bit(acc, k),
    ensures
        byte_bit(r, k) == bit,
        forall|j: u8| j < 8 && j != k ==> byte_bit(r, j) == byte_bit(acc, j),
{
    let m: u8 = if bit { 1u8 << k } else { 0u8 };
    let r = acc | m;
    proof {
        assert((r >> k) & 1u8 == (if bit { 1u8 } else { 0u8 })) by (bit_vector)
            requires
                k < 8,
                (acc >> k) & 1u8 != 1u8,
                m == (if bit { 1u8 << k } else { 0u8 }),
                r == acc | m,
        ;
        assert forall|j: u8| j < 8 && j != k implies byte_bit(r, j) == byte_bit(acc, j) by {
            assert((r >> j) & 1u8 == (acc >> j) & 1u8) by (bit_vector)
                requires
                    k < 8,
                    j < 8,
                    j != k,
                    m == (if bit { 1u8 << k } else { 0u8 }),
                    r == acc | m,
            ;
        }
    }
    r
}

/// Reads bit `k` of `b`.
pub fn get_bit(b: u8, k: u8) -> (r: bool)
    requires
        k < 8,
    ensures
        r == byte_bit(b, k),
{
    (b >> k) & 1u8 == 1u8
}

} // verus!
