//! 128-bit blocks: vectors over GF(2) and elements of GF(2^128).

use crate::bits::{bit_at, byte_bit, get_bit, lemma_byte_ext, lemma_byte_xor_bit};
use vstd::prelude::*;

verus! {

/// Bit `i` of `x`, counted from the least significant one; it is the
/// coefficient of `X^i` when `x` is read as a polynomial over GF(2).
pub open spec fn blk_bit(x: u128, i: nat) -> bool {
    (x >> (i as u128)) & 1u128 == 1u128
}

/// `x` if `bit` holds, zero otherwise.
pub open spec fn sel(bit: bool, x: u128) -> u128 {
    if bit {
        x
    } else {
        0
    }
}

/// The low half of `a * X^i`, for `i < 128`.
pub open spec fn shl_lo(a: u128, i: nat) -> u128 {
    a << (i as u128)
}

/// The high half of `a * X^i`, for `i < 128`.
pub open spec fn shl_hi(a: u128, i: nat) -> u128 {
    if i == 0 {
        0
    } else {
        a >> ((128 - i) as u128)
    }
}

/// The carry-less product of `a` with the low `n` bits of `b`, as the low
/// and the high half of a polynomial of degree below 256.
pub open spec fn clmul_acc(a: u128, b: u128, n: nat) -> (u128, u128)
    decreases n,
{
    if n == 0 {
        (0u128, 0u128)
    } else {
        let i = (n - 1) as nat;
        let (lo, hi) = clmul_acc(a, b, i);
        (lo ^ sel(blk_bit(b, i), shl_lo(a, i)), hi ^ sel(blk_bit(b, i), shl_hi(a, i)))
    }
}

/// The carry-less product of `a` and `b`: the product of the two
/// polynomials over GF(2), low half first.
pub open spec fn clmul_spec(a: u128, b: u128) -> (u128, u128) {
    clmul_acc(a, b, 128)
}

/// Reduces the polynomial `hi * X^128 + lo` modulo
/// `X^128 + X^7 + X^2 + X + 1`.
pub open spec fn gf_reduce(lo: u128, hi: u128) -> u128 {
    let t = hi ^ (hi >> 127u128) ^ (hi >> 126u128) ^ (hi >> 121u128);
    lo ^ t ^ (t << 1u128) ^ (t << 2u128) ^ (t << 7u128)
}

/// The product of `a` and `b` in GF(2^128): the carry-less product, reduced.
pub open spec fn gf_mul(a: u128, b: u128) -> u128 {
    gf_reduce(clmul_spec(a, b).0, clmul_spec(a, b).1)
}

/// The sum of the carry-less products of the first `n` pairs.
pub open spec fn inner_acc(a: Seq<Block>, b: Seq<Block>, n: nat) -> (u128, u128)
    decreases n,
{
    if n == 0 {
        (0u128, 0u128)
    } else {
        let i = (n - 1) as int;
        let (lo, hi) = inner_acc(a, b, (n - 1) as nat);
        (lo ^ clmul_spec(a[i]@, b[i]@).0, hi ^ clmul_spec(a[i]@, b[i]@).1)
    }
}

/// The number of pairs that `a` and `b` both have.
pub open spec fn min_len(a: Seq<Block>, b: Seq<Block>) -> nat {
    if a.len() <= b.len() {
        a.len()
    } else {
        b.len()
    }
}

/// The inner product of `a` and `b` in GF(2^128), over the pairs that both
/// have.
pub open spec fn inner_product(a: Seq<Block>, b: Seq<Block>) -> u128 {
    let n = min_len(a, b);
    gf_reduce(inner_acc(a, b, n).0, inner_acc(a, b, n).1)
}

/// The value of sixteen bytes, most significant byte first.
pub open spec fn be_value(s: Seq<u8>) -> u128 {
    (s[0] as u128) << 120u128 | (s[1] as u128) << 112u128 | (s[2] as u128) << 104u128 | (
    s[3] as u128) << 96u128 | (s[4] as u128) << 88u128 | (s[5] as u128) << 80u128 | (
    s[6] as u128) << 72u128 | (s[7] as u128) << 64u128 | (s[8] as u128) << 56u128 | (
    s[9] as u128) << 48u128 | (s[10] as u128) << 40u128 | (s[11] as u128) << 32u128 | (
    s[12] as u128) << 24u128 | (s[13] as u128) << 16u128 | (s[14] as u128) << 8u128 | (
    s[15] as u128)
}

/// Byte `i` of `x`, the most significant byte being byte 0.
pub open spec fn be_byte(x: u128, i: nat) -> u8 {
    ((x >> ((8 * (15 - i)) as u128)) & 0xffu128) as u8
}

/// The sixteen bytes of `x`, most significant byte first.
pub open spec fn be_bytes(x: u128) -> Seq<u8> {
    Seq::new(16, |i: int| be_byte(x, i as nat))
}

/// Bit `i` of a block in the order of its bytes: bit `i % 8`, least
/// significant first, of byte `i / 8`, most significant byte first.
pub open spec fn lsb0_bit(x: u128, i: int) -> bool {
    bit_at(be_bytes(x), i)
}

proof fn lemma_bytes_of_value_bv(b0: u8, b1: u8, b2: u8, b3: u8, b4: u8, b5: u8, b6: u8, b7: u8, b8: u8, b9: u8, b10: u8, b11: u8, b12: u8, b13: u8, b14: u8, b15: u8, v: u128)
    by (bit_vector)
    requires
        v == ((b0 as u128) << 120u128 | (b1 as u128) << 112u128 | (b2 as u128) << 104u128 | (b3 as u128) << 96u128 | (b4 as u128) << 88u128 | (b5 as u128) << 80u128 | (b6 as u128) << 72u128 | (b7 as u128) << 64u128 | (b8 as u128) << 56u128 | (b9 as u128) << 48u128 | (b10 as u128) << 40u128 | (b11 as u128) << 32u128 | (b12 as u128) << 24u128 | (b13 as u128) << 16u128 | (b14 as u128) << 8u128 | (b15 as u128)),
    ensures
        (((v >> 120u128) & 0xffu128) as u8) == b0,
        (((v >> 112u128) & 0xffu128) as u8) == b1,
        (((v >> 104u128) & 0xffu128) as u8) == b2,
        (((v >> 96u128) & 0xffu128) as u8) == b3,
        (((v >> 88u128) & 0xffu128) as u8) == b4,
        (((v >> 80u128) & 0xffu128) as u8) == b5,
        (((v >> 72u128) & 0xffu128) as u8) == b6,
        (((v >> 64u128) & 0xffu128) as u8) == b7,
        (((v >> 56u128) & 0xffu128) as u8) == b8,
        (((v >> 48u128) & 0xffu128) as u8) == b9,
        (((v >> 40u128) & 0xffu128) as u8) == b10,
        (((v >> 32u128) & 0xffu128) as u8) == b11,
        (((v >> 24u128) & 0xffu128) as u8) == b12,
        (((v >> 16u128) & 0xffu128) as u8) == b13,
        (((v >> 8u128) & 0xffu128) as u8) == b14,
        (((v >> 0u128) & 0xffu128) as u8) == b15,
{
}

proof fn lemma_value_of_bytes_bv(x: u128)
    by (bit_vector)
    ensures
        x == (((((x >> 120u128) & 0xffu128) as u8) as u128) << 120u128 | ((((x >> 112u128) & 0xffu128) as u8) as u128) << 112u128 | ((((x >> 104u128) & 0xffu128) as u8) as u128) << 104u128 | ((((x >> 96u128) & 0xffu128) as u8) as u128) << 96u128 | ((((x >> 88u128) & 0xffu128) as u8) as u128) << 88u128 | ((((x >> 80u128) & 0xffu128) as u8) as u128) << 80u128 | ((((x >> 72u128) & 0xffu128) as u8) as u128) << 72u128 | ((((x >> 64u128) & 0xffu128) as u8) as u128) << 64u128 | ((((x >> 56u128) & 0xffu128) as u8) as u128) << 56u128 | ((((x >> 48u128) & 0xffu128) as u8) as u128) << 48u128 | ((((x >> 40u128) & 0xffu128) as u8) as u128) << 40u128 | ((((x >> 32u128) & 0xffu128) as u8) as u128) << 32u128 | ((((x >> 24u128) & 0xffu128) as u8) as u128) << 24u128 | ((((x >> 16u128) & 0xffu128) as u8) as u128) << 16u128 | ((((x >> 8u128) & 0xffu128) as u8) as u128) << 8u128 | ((((x >> 0u128) & 0xffu128) as u8) as u128)),
{
}

/// Sixteen bytes are the bytes of their value.
pub proof fn lemma_be_bytes_of_value(s: Seq<u8>)
    requires
        s.len() == 16,
    ensures
        be_bytes(be_value(s)) == s,
{
    lemma_bytes_of_value_bv(
        s[0], s[1], s[2], s[3], s[4], s[5], s[6], s[7],
        s[8], s[9], s[10], s[11], s[12], s[13], s[14], s[15],
        be_value(s),
    );
    assert(be_bytes(be_value(s)) =~= s);
}

/// A block is the value of its bytes.
pub proof fn lemma_be_value_of_bytes(x: u128)
    ensures
        be_value(be_bytes(x)) == x,
        be_bytes(x).len() == 16,
{
    lemma_value_of_bytes_bv(x);
    let s = be_bytes(x);
    assert(s[0] == be_byte(x, 0) && s[1] == be_byte(x, 1) && s[2] == be_byte(x, 2) && s[3]
        == be_byte(x, 3) && s[4] == be_byte(x, 4) && s[5] == be_byte(x, 5) && s[6] == be_byte(x, 6)
        && s[7] == be_byte(x, 7) && s[8] == be_byte(x, 8) && s[9] == be_byte(x, 9) && s[10]
        == be_byte(x, 10) && s[11] == be_byte(x, 11) && s[12] == be_byte(x, 12) && s[13]
        == be_byte(x, 13) && s[14] == be_byte(x, 14) && s[15] == be_byte(x, 15));
}

/// Two blocks with the same 128 bits are the same block.
pub proof fn lemma_block_ext(a: u128, b: u128)
    requires
        forall|i: int| 0 <= i < 128 ==> lsb0_bit(a, i) == lsb0_bit(b, i),
    ensures
        a == b,
{
    let sa = be_bytes(a);
    let sb = be_bytes(b);
    assert forall|n: int| 0 <= n < 16 implies sa[n] == sb[n] by {
        assert forall|k: u8| k < 8 implies byte_bit(sa[n], k) == byte_bit(sb[n], k) by {
            let i = 8 * n + k;
            assert(i / 8 == n && i % 8 == k);
            assert(lsb0_bit(a, i) == lsb0_bit(b, i));
        }
        lemma_byte_ext(sa[n], sb[n]);
    }
    assert(sa =~= sb);
    lemma_be_value_of_bytes(a);
    lemma_be_value_of_bytes(b);
}

proof fn lemma_be_byte_xor(a: u128, b: u128, s: u128)
    by (bit_vector)
    requires
        s <= 120,
    ensures
        (((a ^ b) >> s) & 0xffu128) as u8 == ((((a >> s) & 0xffu128) as u8) ^ (((b >> s)
            & 0xffu128) as u8)),
{
}

/// A bit of an exclusive or of blocks is the exclusive or of their bits.
pub proof fn lemma_lsb0_bit_xor(a: u128, b: u128, i: int)
    requires
        0 <= i < 128,
    ensures
        lsb0_bit(a ^ b, i) == (lsb0_bit(a, i) != lsb0_bit(b, i)),
{
    let n = i / 8;
    let k = (i % 8) as u8;
    lemma_be_byte_xor(a, b, (8 * (15 - n)) as u128);
    lemma_byte_xor_bit(be_byte(a, n as nat), be_byte(b, n as nat), k);
}

/// No bit of the zero block is set.
pub proof fn lemma_lsb0_bit_zero(i: int)
    requires
        0 <= i < 128,
    ensures
        !lsb0_bit(0, i),
{
    let s = (8 * (15 - i / 8)) as u128;
    let k = (i % 8) as u8;
    assert(((((0u128 >> s) & 0xffu128) as u8) >> k) & 1u8 != 1u8) by (bit_vector)
        requires
            s <= 120,
            k < 8,
    ;
}

/// A 128-bit block.
#[derive(Debug, Clone, Copy, PartialEq, Eq, Structural, Hash)]
pub struct Block(pub u128);

impl View for Block {
    type V = u128;

    open spec fn view(&self) -> u128 {
        self.0
    }
}

/// `x` where bit `i` of `b` is set, zero where it is clear, without a branch
/// on the bit.
fn masked(x: u128, b: u128, i: u32) -> (r: u128)
    requires
        i < 128,
    ensures
        r == sel(blk_bit(b, i as nat), x),
{
    let bit = (b >> i) & 1u128;
    let m = 0u128.wrapping_sub(bit);
    let r = x & m;
    proof {
        let j = i as u128;
        assert(r == (if (b >> j) & 1u128 == 1u128 {
            x
        } else {
            0u128
        })) by (bit_vector)
            requires
                j < 128,
                bit == (b >> j) & 1u128,
                m == (if bit == 0u128 {
                    0u128
                } else {
                    (0x1_0000_0000_0000_0000_0000_0000_0000_0000 - bit) as u128
                }),
                r == x & m,
        ;
    }
    r
}

impl Block {
    /// The block of 128 zero bits, the neutral element of `xor`.
    pub fn zero() -> (b: Block)
        ensures
            b@ == 0,
    {
        Block(0)
    }

    /// The block of 128 one bits.
    pub fn ones() -> (b: Block)
        ensures
            b@ == u128::MAX,
    {
        Block(0xffff_ffff_ffff_ffff_ffff_ffff_ffff_ffff)
    }

    /// The block of the given bytes, most significant byte first.
    pub fn new(bytes: [u8; 16]) -> (b: Block)
        ensures
            b@ == be_value(bytes@),
    {
        Block(
            (bytes[0] as u128) << 120 | (bytes[1] as u128) << 112 | (bytes[2] as u128) << 104 | (
            bytes[3] as u128) << 96 | (bytes[4] as u128) << 88 | (bytes[5] as u128) << 80 | (
            bytes[6] as u128) << 72 | (bytes[7] as u128) << 64 | (bytes[8] as u128) << 56 | (
            bytes[9] as u128) << 48 | (bytes[10] as u128) << 40 | (bytes[11] as u128) << 32 | (
            bytes[12] as u128) << 24 | (bytes[13] as u128) << 16 | (bytes[14] as u128) << 8 | (
            bytes[15] as u128),
        )
    }

    /// The block of the first sixteen bytes of a slice, most significant
    /// byte first.
    pub fn from_slice(bytes: &[u8]) -> (b: Block)
        requires
            bytes@.len() >= 16,
        ensures
            b@ == be_value(bytes@),
    {
        Block(
            (bytes[0] as u128) << 120 | (bytes[1] as u128) << 112 | (bytes[2] as u128) << 104 | (
            bytes[3] as u128) << 96 | (bytes[4] as u128) << 88 | (bytes[5] as u128) << 80 | (
            bytes[6] as u128) << 72 | (bytes[7] as u128) << 64 | (bytes[8] as u128) << 56 | (
            bytes[9] as u128) << 48 | (bytes[10] as u128) << 40 | (bytes[11] as u128) << 32 | (
            bytes[12] as u128) << 24 | (bytes[13] as u128) << 16 | (bytes[14] as u128) << 8 | (
            bytes[15] as u128),
        )
    }

    /// Byte `i` of the block, the most significant byte being byte 0.
    pub fn byte(self, i: usize) -> (r: u8)
        requires
            i < 16,
        ensures
            r == be_byte(self@, i as nat),
    {
        let s: u32 = (8 * (15 - i)) as u32;
        ((self.0 >> s) & 0xff) as u8
    }

    /// Bit `i` of the block in the order of its bytes.
    pub fn bit(self, i: usize) -> (r: bool)
        requires
            i < 128,
        ensures
            r == lsb0_bit(self@, i as int),
    {
        get_bit(self.byte(i / 8), (i % 8) as u8)
    }

    /// The bytes of the block, most significant byte first.
    pub fn to_bytes(self) -> (bytes: [u8; 16])
        ensures
            bytes@ == be_bytes(self@),
    {
        let bytes = [
            self.byte(0),
            self.byte(1),
            self.byte(2),
            self.byte(3),
            self.byte(4),
            self.byte(5),
            self.byte(6),
            self.byte(7),
            self.byte(8),
            self.byte(9),
            self.byte(10),
            self.byte(11),
            self.byte(12),
            self.byte(13),
            self.byte(14),
            self.byte(15),
        ];
        assert(bytes@ =~= be_bytes(self@));
        bytes
    }

    /// The bitwise exclusive or of two blocks: their sum, as vectors over
    /// GF(2) and as elements of GF(2^128).
    pub fn xor(self, other: Block) -> (r: Block)
        ensures
            r@ == self@ ^ other@,
    {
        Block(self.0 ^ other.0)
    }

    /// `self` if `bit` holds, the zero block otherwise.
    pub fn select(self, bit: bool) -> (r: Block)
        ensures
            r@ == sel(bit, self@),
    {
        if bit {
            self
        } else {
            Block(0)
        }
    }

    /// The carry-less product of two blocks, low half first.
    pub fn clmul(self, other: Block) -> (r: (Block, Block))
        ensures
            (r.0@, r.1@) == clmul_spec(self@, other@),
    {
        let a = self.0;
        let b = other.0;
        let mut lo: u128 = 0;
        let mut hi: u128 = 0;
        let mut i: u32 = 0;
        while i < 128
            invariant
                i <= 128,
                (lo, hi) == clmul_acc(a, b, i as nat),
            decreases 128 - i,
        {
            let l = masked(a << i, b, i);
            let h = if i == 0 {
                masked(0, b, i)
            } else {
                masked(a >> (128 - i), b, i)
            };
            lo = lo ^ l;
            hi = hi ^ h;
            i = i + 1;
        }
        (Block(lo), Block(hi))
    }

    /// Reduces the polynomial `hi * X^128 + lo` modulo
    /// `X^128 + X^7 + X^2 + X + 1`.
    pub fn reduce(lo: Block, hi: Block) -> (r: Block)
        ensures
            r@ == gf_reduce(lo@, hi@),
    {
        let h = hi.0;
        let t = h ^ (h >> 127) ^ (h >> 126) ^ (h >> 121);
        Block(lo.0 ^ t ^ (t << 1) ^ (t << 2) ^ (t << 7))
    }

    /// The product of two blocks in GF(2^128).
    pub fn gfmul(self, other: Block) -> (r: Block)
        ensures
            r@ == gf_mul(self@, other@),
    {
        let (lo, hi) = self.clmul(other);
        Block::reduce(lo, hi)
    }

    /// The sum of the carry-less products of the pairs of two vectors of
    /// blocks, over the pairs that both have; low half first.
    pub fn inner_clmul(a: &[Block], b: &[Block]) -> (r: (Block, Block))
        ensures
            (r.0@, r.1@) == inner_acc(a@, b@, min_len(a@, b@)),
    {
        let n = if a.len() <= b.len() {
            a.len()
        } else {
            b.len()
        };
        let mut lo = Block(0);
        let mut hi = Block(0);
        let mut i: usize = 0;
        while i < n
            invariant
                i <= n,
                n <= a@.len(),
                n <= b@.len(),
                (lo@, hi@) == inner_acc(a@, b@, i as nat),
            decreases n - i,
        {
            let (l, h) = a[i].clmul(b[i]);
            lo = lo.xor(l);
            hi = hi.xor(h);
            i = i + 1;
        }
        (lo, hi)
    }

    /// The inner product of two vectors of blocks in GF(2^128), over the
    /// pairs that both have.
    pub fn inn_prdt_red(a: &[Block], b: &[Block]) -> (r: Block)
        ensures
            r@ == inner_product(a@, b@),
    {
        let (lo, hi) = Block::inner_clmul(a, b);
        Block::reduce(lo, hi)
    }
}

} // verus!
