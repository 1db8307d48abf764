//! Laws of the arithmetic of blocks: exclusive or, the carry-less product
//! and the product in GF(2^128).

use crate::block::{
    blk_bit, clmul_acc, clmul_spec, gf_mul, gf_reduce, inner_acc, inner_product, sel, shl_hi,
    shl_lo, Block,
};
use vstd::prelude::*;

verus! {

/// Exclusive or is commutative and associative, zero is neutral, and every
/// block is its own inverse.
pub proof fn lemma_xor_laws(a: u128, b: u128, c: u128)
    by (bit_vector)
    ensures
        a ^ b == b ^ a,
        (a ^ b) ^ c == a ^ (b ^ c),
        a ^ 0 == a,
        0 ^ a == a,
        a ^ a == 0,
        (a ^ b) ^ b == a,
        (a ^ b) ^ a == b,
        a ^ (a ^ b) == b,
{
}

/// Two sums of two can be added pair by pair.
pub proof fn lemma_xor_swap(p: u128, q: u128, x: u128, y: u128)
    by (bit_vector)
    ensures
        (p ^ q) ^ (x ^ y) == (p ^ x) ^ (q ^ y),
{
}

/// The sum of two pairs of blocks, half by half.
pub open spec fn xor2(p: (u128, u128), q: (u128, u128)) -> (u128, u128) {
    (p.0 ^ q.0, p.1 ^ q.1)
}

/// The pair `p` if `bit` holds, the zero pair otherwise.
pub open spec fn sel2(bit: bool, p: (u128, u128)) -> (u128, u128) {
    (sel(bit, p.0), sel(bit, p.1))
}

/// `a * X^i` as a polynomial of degree below 256, low half first.
pub open spec fn shl2(a: u128, i: nat) -> (u128, u128) {
    (shl_lo(a, i), shl_hi(a, i))
}

#[verifier::rlimit(60)]
proof fn lemma_shl_linear_bv(a: u128, c: u128, i: u128)
    by (bit_vector)
    requires
        i < 128,
    ensures
        (a ^ c) << i == (a << i) ^ (c << i),
{
}

#[verifier::rlimit(60)]
proof fn lemma_shr_linear_bv(a: u128, c: u128, i: u128)
    by (bit_vector)
    requires
        i < 128,
    ensures
        (a ^ c) >> i == (a >> i) ^ (c >> i),
{
}

proof fn lemma_shift_zero_bv(i: u128)
    by (bit_vector)
    requires
        i < 128,
    ensures
        0u128 << i == 0,
        0u128 >> i == 0,
{
}

/// Shifting is linear.
pub proof fn lemma_shl2_linear(a: u128, c: u128, i: nat)
    requires
        i < 128,
    ensures
        shl2(a ^ c, i) == xor2(shl2(a, i), shl2(c, i)),
        shl2(0, i) == (0u128, 0u128),
{
    lemma_shl_linear_bv(a, c, i as u128);
    lemma_shift_zero_bv(i as u128);
    if i > 0 {
        lemma_shr_linear_bv(a, c, (128 - i) as u128);
        lemma_shift_zero_bv((128 - i) as u128);
    }
    lemma_xor_laws(0, 0, 0);
}

/// The carry-less product with zero on the left is zero.
pub proof fn lemma_clmul_acc_zero_left(b: u128, n: nat)
    requires
        n <= 128,
    ensures
        clmul_acc(0, b, n) == (0u128, 0u128),
    decreases n,
{
    if n > 0 {
        let i = (n - 1) as nat;
        lemma_clmul_acc_zero_left(b, i);
        lemma_shl2_linear(0, 0, i);
        lemma_xor_laws(0, 0, 0);
    }
}

/// The carry-less product is linear in its left factor.
pub proof fn lemma_clmul_acc_linear_left(a: u128, c: u128, b: u128, n: nat)
    requires
        n <= 128,
    ensures
        clmul_acc(a ^ c, b, n) == xor2(clmul_acc(a, b, n), clmul_acc(c, b, n)),
    decreases n,
{
    if n == 0 {
        lemma_xor_laws(0, 0, 0);
    } else {
        let i = (n - 1) as nat;
        lemma_clmul_acc_linear_left(a, c, b, i);
        lemma_shl2_linear(a, c, i);
        let pa = clmul_acc(a, b, i);
        let pc = clmul_acc(c, b, i);
        let bit = blk_bit(b, i);
        lemma_xor_swap(pa.0, pc.0, sel(bit, shl_lo(a, i)), sel(bit, shl_lo(c, i)));
        lemma_xor_swap(pa.1, pc.1, sel(bit, shl_hi(a, i)), sel(bit, shl_hi(c, i)));
        lemma_xor_laws(0, 0, 0);
    }
}

/// The low `n` bits of a block are set in `low_mask(n)`.
pub open spec fn low_mask(n: nat) -> u128 {
    if n >= 128 {
        0xffff_ffff_ffff_ffff_ffff_ffff_ffff_ffffu128
    } else {
        ((1u128 << (n as u128)) - 1) as u128
    }
}

proof fn lemma_low_mask_step_bv(a: u128, n: u128, m0: u128, m1: u128)
    by (bit_vector)
    requires
        n < 128,
        m0 == ((1u128 << n) - 1) as u128,
        m1 == (if n == 127 {
            0xffff_ffff_ffff_ffff_ffff_ffff_ffff_ffffu128
        } else {
            ((1u128 << ((n + 1) as u128)) - 1) as u128
        }),
    ensures
        a & m1 == (a & m0) ^ (if (a >> n) & 1u128 == 1u128 {
            1u128 << n
        } else {
            0u128
        }),
        a & 0u128 == 0,
        a & 0xffff_ffff_ffff_ffff_ffff_ffff_ffff_ffffu128 == a,
        ((1u128 << 0u128) - 1) as u128 == 0,
{
}

/// The low `n + 1` bits of a block are its low `n` bits and bit `n`.
pub proof fn lemma_low_mask_step(a: u128, n: nat)
    requires
        n < 128,
    ensures
        a & low_mask(n + 1) == (a & low_mask(n)) ^ sel(blk_bit(a, n), 1u128 << (n as u128)),
        a & low_mask(0) == 0,
        a & low_mask(128) == a,
{
    lemma_low_mask_step_bv(a, n as u128, low_mask(n), low_mask(n + 1));
}

proof fn lemma_monomial_shift_bv(m: u128, n: u128)
    by (bit_vector)
    requires
        n < 128,
        m < 128,
    ensures
        (1u128 << m) << n == (1u128 << n) << m,
        (if n == 0 {
            0u128
        } else {
            (1u128 << m) >> ((128 - n) as u128)
        }) == (if m == 0 {
            0u128
        } else {
            (1u128 << n) >> ((128 - m) as u128)
        }),
{
}

/// The carry-less product of `X^n` with the low `m` bits of `b` is those
/// bits shifted by `n`.
pub proof fn lemma_clmul_acc_monomial_left(n: nat, b: u128, m: nat)
    requires
        n < 128,
        m <= 128,
    ensures
        clmul_acc(1u128 << (n as u128), b, m) == shl2(b & low_mask(m), n),
    decreases m,
{
    let x = 1u128 << (n as u128);
    if m == 0 {
        lemma_low_mask_step(b, 0);
        lemma_shl2_linear(0, 0, n);
    } else {
        let i = (m - 1) as nat;
        lemma_clmul_acc_monomial_left(n, b, i);
        lemma_low_mask_step(b, i);
        let bit = blk_bit(b, i);
        let lowi = b & low_mask(i);
        let mono = 1u128 << (i as u128);
        lemma_monomial_shift_bv(i as u128, n as u128);
        assert(shl2(x, i) == shl2(mono, n));
        lemma_shl2_linear(lowi, sel(bit, mono), n);
        lemma_shl2_linear(0, 0, n);
        assert(shl2(sel(bit, mono), n) == sel2(bit, shl2(mono, n)));
    }
}

/// The carry-less product is commutative.
pub proof fn lemma_clmul_comm(a: u128, b: u128)
    ensures
        clmul_spec(a, b) == clmul_spec(b, a),
{
    lemma_clmul_low_bits(a, b, 128);
    lemma_low_mask_step(a, 0);
}

proof fn lemma_clmul_low_bits(a: u128, b: u128, n: nat)
    requires
        n <= 128,
    ensures
        clmul_spec(a & low_mask(n), b) == clmul_acc(b, a, n),
    decreases n,
{
    if n == 0 {
        lemma_low_mask_step(a, 0);
        lemma_clmul_acc_zero_left(b, 128);
    } else {
        let i = (n - 1) as nat;
        lemma_clmul_low_bits(a, b, i);
        lemma_low_mask_step(a, i);
        let bit = blk_bit(a, i);
        let mono = 1u128 << (i as u128);
        lemma_clmul_acc_linear_left(a & low_mask(i), sel(bit, mono), b, 128);
        lemma_clmul_acc_monomial_left(i, b, 128);
        lemma_low_mask_step(b, 0);
        lemma_clmul_acc_zero_left(b, 128);
        assert(clmul_spec(sel(bit, mono), b) == sel2(bit, shl2(b, i)));
    }
}

/// The carry-less product is linear in each factor.
pub proof fn lemma_clmul_linear(a: u128, c: u128, b: u128)
    ensures
        clmul_spec(a ^ c, b) == xor2(clmul_spec(a, b), clmul_spec(c, b)),
        clmul_spec(b, a ^ c) == xor2(clmul_spec(b, a), clmul_spec(b, c)),
        clmul_spec(0, b) == (0u128, 0u128),
        clmul_spec(b, 0) == (0u128, 0u128),
{
    lemma_clmul_acc_linear_left(a, c, b, 128);
    lemma_clmul_comm(a ^ c, b);
    lemma_clmul_comm(a, b);
    lemma_clmul_comm(c, b);
    lemma_clmul_acc_zero_left(b, 128);
    lemma_clmul_comm(0, b);
}

proof fn lemma_reduce_linear_bv(l1: u128, h1: u128, l2: u128, h2: u128)
    by (bit_vector)
    ensures
        ({
            let h = h1 ^ h2;
            let t = h ^ (h >> 127u128) ^ (h >> 126u128) ^ (h >> 121u128);
            (l1 ^ l2) ^ t ^ (t << 1u128) ^ (t << 2u128) ^ (t << 7u128)
        }) == ({
            let t = h1 ^ (h1 >> 127u128) ^ (h1 >> 126u128) ^ (h1 >> 121u128);
            l1 ^ t ^ (t << 1u128) ^ (t << 2u128) ^ (t << 7u128)
        }) ^ ({
            let t = h2 ^ (h2 >> 127u128) ^ (h2 >> 126u128) ^ (h2 >> 121u128);
            l2 ^ t ^ (t << 1u128) ^ (t << 2u128) ^ (t << 7u128)
        }),
{
}

/// Reduction is linear.
pub proof fn lemma_reduce_linear(p: (u128, u128), q: (u128, u128))
    ensures
        gf_reduce(xor2(p, q).0, xor2(p, q).1) == gf_reduce(p.0, p.1) ^ gf_reduce(q.0, q.1),
        gf_reduce(0, 0) == 0,
{
    lemma_reduce_linear_bv(p.0, p.1, q.0, q.1);
    assert(gf_reduce(0, 0) == 0) by (bit_vector);
}

/// The product in GF(2^128) is commutative.
pub proof fn lemma_gf_mul_comm(a: u128, b: u128)
    ensures
        gf_mul(a, b) == gf_mul(b, a),
{
    lemma_clmul_comm(a, b);
}

/// The product in GF(2^128) distributes over exclusive or, on either side.
pub proof fn lemma_gf_mul_distributes(a: u128, c: u128, b: u128)
    ensures
        gf_mul(a ^ c, b) == gf_mul(a, b) ^ gf_mul(c, b),
        gf_mul(b, a ^ c) == gf_mul(b, a) ^ gf_mul(b, c),
        gf_mul(0, b) == 0,
        gf_mul(b, 0) == 0,
{
    lemma_clmul_linear(a, c, b);
    lemma_reduce_linear(clmul_spec(a, b), clmul_spec(c, b));
    lemma_reduce_linear(clmul_spec(b, a), clmul_spec(b, c));
}

/// `y * X` in GF(2^128).
pub open spec fn xtime(y: u128) -> u128 {
    gf_reduce(y << 1u128, y >> 127u128)
}

/// `a * X^i` in GF(2^128).
pub open spec fn gf_shift(a: u128, i: nat) -> u128
    decreases i,
{
    if i == 0 {
        a
    } else {
        xtime(gf_shift(a, (i - 1) as nat))
    }
}

/// The product of `a` with the low `n` bits of `c` in GF(2^128), as a sum
/// of shifts of `a`.
pub open spec fn gf_mul_acc(a: u128, c: u128, n: nat) -> u128
    decreases n,
{
    if n == 0 {
        0
    } else {
        gf_mul_acc(a, c, (n - 1) as nat) ^ sel(blk_bit(c, (n - 1) as nat), gf_shift(a, (n - 1) as nat))
    }
}

#[verifier::rlimit(80)]
proof fn lemma_reduce_times_x_bv(lo: u128, hi: u128)
    by (bit_vector)
    requires
        hi >> 127u128 == 0,
    ensures
        ({
            let l = lo << 1u128;
            let h = (hi << 1u128) | (lo >> 127u128);
            let t = h ^ (h >> 127u128) ^ (h >> 126u128) ^ (h >> 121u128);
            l ^ t ^ (t << 1u128) ^ (t << 2u128) ^ (t << 7u128)
        }) == ({
            let t0 = hi ^ (hi >> 127u128) ^ (hi >> 126u128) ^ (hi >> 121u128);
            let r = lo ^ t0 ^ (t0 << 1u128) ^ (t0 << 2u128) ^ (t0 << 7u128);
            let l = r << 1u128;
            let h = r >> 127u128;
            let t = h ^ (h >> 127u128) ^ (h >> 126u128) ^ (h >> 121u128);
            l ^ t ^ (t << 1u128) ^ (t << 2u128) ^ (t << 7u128)
        }),
{
}

#[verifier::rlimit(80)]
proof fn lemma_shift_step_bv(a: u128, i: u128)
    by (bit_vector)
    requires
        i < 127,
    ensures
        a << ((i + 1) as u128) == (a << i) << 1u128,
        a >> ((127 - i) as u128) == ((if i == 0 {
            0u128
        } else {
            a >> ((128 - i) as u128)
        }) << 1u128) | ((a << i) >> 127u128),
        (if i == 0 {
            0u128
        } else {
            a >> ((128 - i) as u128)
        }) >> 127u128 == 0,
{
}

proof fn lemma_reduce_low_bv(a: u128)
    by (bit_vector)
    ensures
        ({
            let t = 0u128 ^ (0u128 >> 127u128) ^ (0u128 >> 126u128) ^ (0u128 >> 121u128);
            a ^ t ^ (t << 1u128) ^ (t << 2u128) ^ (t << 7u128)
        }) == a,
        a << 0u128 == a,
{
}

/// Reducing `a * X^i` gives `a * X^i` in GF(2^128).
pub proof fn lemma_reduce_shift(a: u128, i: nat)
    requires
        i < 128,
    ensures
        gf_reduce(shl_lo(a, i), shl_hi(a, i)) == gf_shift(a, i),
    decreases i,
{
    if i == 0 {
        lemma_reduce_low_bv(a);
    } else {
        let k = (i - 1) as nat;
        lemma_reduce_shift(a, k);
        lemma_shift_step_bv(a, k as u128);
        lemma_reduce_times_x_bv(shl_lo(a, k), shl_hi(a, k));
    }
}

/// The product in GF(2^128) is the sum of the shifts of the left factor
/// that the bits of the right factor select.
pub proof fn lemma_gf_mul_is_acc(a: u128, c: u128, n: nat)
    requires
        n <= 128,
    ensures
        gf_reduce(clmul_acc(a, c, n).0, clmul_acc(a, c, n).1) == gf_mul_acc(a, c, n),
    decreases n,
{
    if n == 0 {
        lemma_reduce_linear((0, 0), (0, 0));
    } else {
        let i = (n - 1) as nat;
        lemma_gf_mul_is_acc(a, c, i);
        let bit = blk_bit(c, i);
        lemma_reduce_linear(clmul_acc(a, c, i), sel2(bit, shl2(a, i)));
        lemma_reduce_shift(a, i);
    }
}

proof fn lemma_xtime_linear_bv(a: u128, b: u128)
    by (bit_vector)
    ensures
        ({
            let y = a ^ b;
            let l = y << 1u128;
            let h = y >> 127u128;
            let t = h ^ (h >> 127u128) ^ (h >> 126u128) ^ (h >> 121u128);
            l ^ t ^ (t << 1u128) ^ (t << 2u128) ^ (t << 7u128)
        }) == ({
            let l = a << 1u128;
            let h = a >> 127u128;
            let t = h ^ (h >> 127u128) ^ (h >> 126u128) ^ (h >> 121u128);
            l ^ t ^ (t << 1u128) ^ (t << 2u128) ^ (t << 7u128)
        }) ^ ({
            let l = b << 1u128;
            let h = b >> 127u128;
            let t = h ^ (h >> 127u128) ^ (h >> 126u128) ^ (h >> 121u128);
            l ^ t ^ (t << 1u128) ^ (t << 2u128) ^ (t << 7u128)
        }),
        ({
            let l = 0u128 << 1u128;
            let h = 0u128 >> 127u128;
            let t = h ^ (h >> 127u128) ^ (h >> 126u128) ^ (h >> 121u128);
            l ^ t ^ (t << 1u128) ^ (t << 2u128) ^ (t << 7u128)
        }) == 0,
{
}

/// Multiplying by `X` is linear.
pub proof fn lemma_xtime_linear(a: u128, b: u128)
    ensures
        xtime(a ^ b) == xtime(a) ^ xtime(b),
        xtime(0) == 0,
{
    lemma_xtime_linear_bv(a, b);
}

/// Multiplying by `X` commutes with multiplying by `X^i`.
pub proof fn lemma_gf_shift_xtime(a: u128, i: nat)
    ensures
        gf_shift(xtime(a), i) == xtime(gf_shift(a, i)),
    decreases i,
{
    if i > 0 {
        lemma_gf_shift_xtime(a, (i - 1) as nat);
    }
}

proof fn lemma_gf_mul_acc_xtime(a: u128, c: u128, n: nat)
    ensures
        gf_mul_acc(xtime(a), c, n) == xtime(gf_mul_acc(a, c, n)),
    decreases n,
{
    if n == 0 {
        lemma_xtime_linear(0, 0);
    } else {
        let i = (n - 1) as nat;
        lemma_gf_mul_acc_xtime(a, c, i);
        lemma_gf_shift_xtime(a, i);
        lemma_xtime_linear(gf_mul_acc(a, c, i), sel(blk_bit(c, i), gf_shift(a, i)));
        lemma_xtime_linear(0, 0);
    }
}

/// A factor `X^n` can be taken out of a product in GF(2^128).
pub proof fn lemma_gf_mul_shift(a: u128, c: u128, n: nat)
    ensures
        gf_mul(gf_shift(a, n), c) == gf_shift(gf_mul(a, c), n),
    decreases n,
{
    if n > 0 {
        let k = (n - 1) as nat;
        lemma_gf_mul_shift(a, c, k);
        let y = gf_shift(a, k);
        lemma_gf_mul_is_acc(xtime(y), c, 128);
        lemma_gf_mul_is_acc(y, c, 128);
        lemma_gf_mul_acc_xtime(y, c, 128);
    }
}

proof fn lemma_monomial_bit_bv(n: u128, k: u128)
    by (bit_vector)
    requires
        n < 128,
        k < 128,
    ensures
        (((1u128 << n) >> k) & 1u128 == 1u128) == (k == n),
{
}

proof fn lemma_gf_mul_acc_monomial(a: u128, n: nat, m: nat)
    requires
        n < 128,
        m <= 128,
    ensures
        gf_mul_acc(a, 1u128 << (n as u128), m) == sel(n < m, gf_shift(a, n)),
    decreases m,
{
    if m > 0 {
        let i = (m - 1) as nat;
        lemma_gf_mul_acc_monomial(a, n, i);
        lemma_monomial_bit_bv(n as u128, i as u128);
        lemma_xor_laws(gf_shift(a, n), 0, 0);
        lemma_xor_laws(0, 0, 0);
    }
}

/// Multiplying by the monomial `X^n` in GF(2^128) shifts by `n`.
pub proof fn lemma_gf_mul_monomial(a: u128, n: nat)
    requires
        n < 128,
    ensures
        gf_mul(a, 1u128 << (n as u128)) == gf_shift(a, n),
        gf_mul(1u128 << (n as u128), a) == gf_shift(a, n),
{
    let mono = 1u128 << (n as u128);
    lemma_gf_mul_is_acc(a, mono, 128);
    lemma_gf_mul_acc_monomial(a, n, 128);
    lemma_gf_mul_comm(a, mono);
}

proof fn lemma_gf_mul_assoc_low_bits(a: u128, b: u128, c: u128, n: nat)
    requires
        n <= 128,
    ensures
        gf_mul(gf_mul(a, b & low_mask(n)), c) == gf_mul(a, gf_mul(b & low_mask(n), c)),
    decreases n,
{
    if n == 0 {
        lemma_low_mask_step(b, 0);
        lemma_gf_mul_distributes(0, 0, a);
        lemma_gf_mul_distributes(0, 0, c);
    } else {
        let i = (n - 1) as nat;
        lemma_gf_mul_assoc_low_bits(a, b, c, i);
        lemma_low_mask_step(b, i);
        let bit = blk_bit(b, i);
        let mono = 1u128 << (i as u128);
        let bn = b & low_mask(i);
        // a * (bn + bit * X^i) = a * bn + bit * (a * X^i)
        lemma_gf_mul_distributes(bn, sel(bit, mono), a);
        lemma_gf_mul_distributes(0, 0, a);
        lemma_gf_mul_monomial(a, i);
        assert(gf_mul(a, sel(bit, mono)) == sel(bit, gf_shift(a, i)));
        // (a * bn + bit * (a * X^i)) * c
        lemma_gf_mul_distributes(gf_mul(a, bn), sel(bit, gf_shift(a, i)), c);
        lemma_gf_mul_distributes(0, 0, c);
        lemma_gf_mul_shift(a, c, i);
        assert(gf_mul(sel(bit, gf_shift(a, i)), c) == sel(bit, gf_shift(gf_mul(a, c), i)));
        // (bn + bit * X^i) * c = bn * c + bit * (c * X^i)
        lemma_gf_mul_distributes(bn, sel(bit, mono), c);
        lemma_gf_mul_monomial(c, i);
        assert(gf_mul(sel(bit, mono), c) == sel(bit, gf_shift(c, i)));
        // a * (bn * c + bit * (c * X^i))
        lemma_gf_mul_distributes(gf_mul(bn, c), sel(bit, gf_shift(c, i)), a);
        lemma_gf_mul_comm(a, gf_shift(c, i));
        lemma_gf_mul_shift(c, a, i);
        lemma_gf_mul_comm(c, a);
        assert(gf_mul(a, sel(bit, gf_shift(c, i))) == sel(bit, gf_shift(gf_mul(a, c), i)));
    }
}

/// The product in GF(2^128) is associative.
pub proof fn lemma_gf_mul_assoc(a: u128, b: u128, c: u128)
    ensures
        gf_mul(gf_mul(a, b), c) == gf_mul(a, gf_mul(b, c)),
{
    lemma_gf_mul_assoc_low_bits(a, b, c, 128);
    lemma_low_mask_step(b, 0);
}

/// One is the neutral element of the product in GF(2^128).
pub proof fn lemma_gf_mul_one(a: u128)
    ensures
        gf_mul(a, 1) == a,
        gf_mul(1, a) == a,
{
    lemma_gf_mul_monomial(a, 0);
    assert(1u128 << 0u128 == 1u128) by (bit_vector);
}

/// The sum of the first `n` weights whose choice is set.
pub open spec fn selected_sum(choices: Seq<bool>, weights: Seq<Block>, n: nat) -> u128
    decreases n,
{
    if n == 0 {
        0
    } else {
        selected_sum(choices, weights, (n - 1) as nat) ^ sel(choices[n - 1], weights[n - 1]@)
    }
}

proof fn lemma_offset_step_bv(a: u128, t: u128, s: u128, x: u128)
    by (bit_vector)
    ensures
        ((a ^ (t ^ s)) ^ (x ^ s)) == (a ^ x) ^ t,
{
}

/// Where each block of `a2` is the block of `a1` with delta added where
/// the choice is set, the weighted sums of carry-less products of the two
/// differ by the product of delta with the sum of the selected weights.
pub proof fn lemma_inner_acc_offset(
    a1: Seq<Block>,
    a2: Seq<Block>,
    choices: Seq<bool>,
    delta: u128,
    w: Seq<Block>,
    n: nat,
)
    requires
        n <= a1.len(),
        n <= a2.len(),
        n <= choices.len(),
        n <= w.len(),
        forall|j: int| 0 <= j < n ==> (#[trigger] a2[j])@ == a1[j]@ ^ sel(choices[j], delta),
    ensures
        inner_acc(a2, w, n).0 ^ clmul_spec(selected_sum(choices, w, n), delta).0 == inner_acc(
            a1,
            w,
            n,
        ).0,
        inner_acc(a2, w, n).1 ^ clmul_spec(selected_sum(choices, w, n), delta).1 == inner_acc(
            a1,
            w,
            n,
        ).1,
    decreases n,
{
    if n == 0 {
        lemma_clmul_linear(0, 0, delta);
        lemma_xor_laws(0, 0, 0);
    } else {
        let i = (n - 1) as nat;
        lemma_inner_acc_offset(a1, a2, choices, delta, w, i);
        let c = choices[i as int];
        let chi = w[i as int]@;
        let t = a1[i as int]@;
        let x = selected_sum(choices, w, i);
        assert(a2[i as int]@ == t ^ sel(c, delta));
        lemma_clmul_linear(t, sel(c, delta), chi);
        lemma_clmul_linear(x, sel(c, chi), delta);
        lemma_clmul_comm(delta, chi);
        lemma_clmul_linear(0, 0, chi);
        lemma_clmul_linear(0, 0, delta);
        let s = if c {
            clmul_spec(delta, chi)
        } else {
            (0u128, 0u128)
        };
        assert(clmul_spec(sel(c, delta), chi) == s);
        assert(clmul_spec(sel(c, chi), delta) == s);
        let a = inner_acc(a2, w, i);
        let p = clmul_spec(t, chi);
        let xd = clmul_spec(x, delta);
        lemma_offset_step_bv(a.0, p.0, s.0, xd.0);
        lemma_offset_step_bv(a.1, p.1, s.1, xd.1);
    }
}

/// Where each block of `a2` is the block of `a1` with delta added where
/// the choice is set, the inner products of the two with the weights differ
/// by the product in GF(2^128) of delta with the sum of the selected
/// weights.
pub proof fn lemma_inner_product_offset(
    a1: Seq<Block>,
    a2: Seq<Block>,
    choices: Seq<bool>,
    delta: u128,
    w: Seq<Block>,
)
    requires
        a1.len() == a2.len(),
        a1.len() == choices.len(),
        a1.len() <= w.len(),
        forall|j: int| 0 <= j < a1.len() ==> (#[trigger] a2[j])@ == a1[j]@ ^ sel(choices[j], delta),
    ensures
        inner_product(a2, w) == inner_product(a1, w) ^ gf_mul(
            selected_sum(choices, w, a1.len()),
            delta,
        ),
{
    let n = a1.len();
    lemma_inner_acc_offset(a1, a2, choices, delta, w, n);
    let x = selected_sum(choices, w, n);
    lemma_reduce_linear(inner_acc(a2, w, n), clmul_spec(x, delta));
    lemma_xor_laws(inner_product(a2, w), gf_mul(x, delta), 0);
}

/// A block is the sum of the monomials of its bits.
pub proof fn lemma_bits_sum(x: u128, bits: Seq<bool>, monomials: Seq<Block>, n: nat)
    requires
        n <= 128,
        bits.len() >= n,
        monomials.len() >= n,
        forall|i: int| 0 <= i < n ==> #[trigger] bits[i] == blk_bit(x, i as nat),
        forall|i: int| 0 <= i < n ==> (#[trigger] monomials[i])@ == 1u128 << (i as u128),
    ensures
        selected_sum(bits, monomials, n) == x & low_mask(n),
    decreases n,
{
    if n == 0 {
        lemma_low_mask_step(x, 0);
    } else {
        let i = (n - 1) as nat;
        lemma_bits_sum(x, bits, monomials, i);
        lemma_low_mask_step(x, i);
    }
}

} // verus!
