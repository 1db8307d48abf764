//! The LPN encoder: a sparse binary matrix, ten ones to a row, that a seed
//! determines.

use crate::block::{sel, Block};
use crate::cipher::{aes128_encrypt, encrypt};
use crate::gf128::lemma_xor_laws;
use vstd::prelude::*;

verus! {

/// Number of ones in a row of the matrix.
pub const ROW_WEIGHT: usize = 10;

/// The parameters of the LPN problem: the code length `n`, the dimension
/// `k` and the number `t` of noisy positions.
#[derive(Debug, Clone, Copy, PartialEq, Eq, Structural)]
pub struct LpnParameters {
    pub n: usize,
    pub k: usize,
    pub t: usize,
}

/// How the noisy positions are spread.
#[derive(Debug, Clone, Copy, PartialEq, Eq, Structural)]
pub enum LpnType {
    /// Anywhere among the indices.
    Uniform,
    /// One in each of `t` buckets of equal size.
    Regular,
}

impl LpnParameters {
    /// The parameters are usable: `t <= k <= n`, there is a noisy
    /// position, an iteration gives at least one OT, and the lengths fit the
    /// protocol's 32-bit indices.
    pub open spec fn valid(self) -> bool {
        0 < self.t <= self.k < self.n <= u32::MAX
    }

    /// Number of OTs that an iteration hands out.
    pub open spec fn spec_output_len(self) -> nat {
        (self.n - self.k) as nat
    }

    /// Whether the parameters are usable.
    pub fn is_valid(&self) -> (b: bool)
        ensures
            b == self.valid(),
    {
        0 < self.t && self.t <= self.k && self.k < self.n && self.n <= u32::MAX as usize
    }
}

/// The column of the `d`-th one in row `i` of the matrix of `k` columns
/// that `seed` determines.
pub open spec fn lpn_index(seed: u128, k: nat, i: nat, d: nat) -> nat {
    (aes128_encrypt(seed, (i * 10 + d) as u128) as nat) % k
}

/// The sum of the blocks of `x` in the columns of the first `d` ones of
/// row `i`.
pub open spec fn row_acc(seed: u128, x: Seq<Block>, i: nat, d: nat) -> u128
    decreases d,
{
    if d == 0 {
        0
    } else {
        row_acc(seed, x, i, (d - 1) as nat) ^ x[lpn_index(seed, x.len(), i, (d - 1) as nat) as int]@
    }
}

/// The sum of the bits of `x` in the columns of the first `d` ones of row
/// `i`.
pub open spec fn row_acc_bits(seed: u128, x: Seq<bool>, i: nat, d: nat) -> bool
    decreases d,
{
    if d == 0 {
        false
    } else {
        row_acc_bits(seed, x, i, (d - 1) as nat) != x[lpn_index(
            seed,
            x.len(),
            i,
            (d - 1) as nat,
        ) as int]
    }
}

/// `A * x + y` for blocks: the matrix applied to `x`, added to `y`.
pub open spec fn encode(seed: u128, y: Seq<Block>, x: Seq<Block>) -> Seq<Block> {
    Seq::new(y.len(), |i: int| Block(y[i]@ ^ row_acc(seed, x, i as nat, 10)))
}

/// `A * x + y` for bits.
pub open spec fn encode_bits(seed: u128, y: Seq<bool>, x: Seq<bool>) -> Seq<bool> {
    Seq::new(y.len(), |i: int| y[i] != row_acc_bits(seed, x, i as nat, 10))
}

/// The columns of the ones of row `i`.
pub fn row_indices(seed: Block, k: usize, i: usize) -> (idx: Vec<usize>)
    requires
        0 < k,
        i <= u32::MAX,
    ensures
        idx@.len() == 10,
        forall|d: int|
            0 <= d < 10 ==> #[trigger] idx@[d] == lpn_index(seed@, k as nat, i as nat, d as nat),
{
    let mut idx: Vec<usize> = Vec::new();
    let mut d: usize = 0;
    while d < ROW_WEIGHT
        invariant
            d <= ROW_WEIGHT,
            0 < k,
            i <= u32::MAX,
            idx@.len() == d,
            forall|e: int|
                0 <= e < d ==> #[trigger] idx@[e] == lpn_index(
                    seed@,
                    k as nat,
                    i as nat,
                    e as nat,
                ),
        decreases ROW_WEIGHT - d,
    {
        let c = encrypt(seed, Block((i as u128) * 10 + (d as u128)));
        let col = (c.0 % (k as u128)) as usize;
        idx.push(col);
        d = d + 1;
    }
    idx
}

/// Computes `A * x + y` for blocks and for bits at once: `y` and `yb` are
/// replaced by their sums with the matrix applied to `x` and `xb`.
pub fn compute(seed: Block, y: &mut Vec<Block>, yb: &mut Vec<bool>, x: &[Block], xb: &[bool])
    requires
        x@.len() > 0,
        x@.len() == xb@.len(),
        old(y)@.len() == old(yb)@.len(),
        old(y)@.len() <= u32::MAX,
    ensures
        final(y)@ == encode(seed@, old(y)@, x@),
        final(yb)@ == encode_bits(seed@, old(yb)@, xb@),
{
    let n = y.len();
    let k = x.len();
    let mut i: usize = 0;
    while i < n
        invariant
            i <= n,
            n <= u32::MAX,
            k == x@.len(),
            k == xb@.len(),
            k > 0,
            y@.len() == n,
            yb@.len() == n,
            old(y)@.len() == n,
            old(yb)@.len() == n,
            forall|j: int| 0 <= j < i ==> (#[trigger] y@[j])@ == old(y)@[j]@ ^ row_acc(seed@, x@, j as nat, 10),
            forall|j: int| i <= j < n ==> #[trigger] y@[j] == old(y)@[j],
            forall|j: int|
                0 <= j < i ==> #[trigger] yb@[j] == (old(yb)@[j] != row_acc_bits(
                    seed@,
                    xb@,
                    j as nat,
                    10,
                )),
            forall|j: int| i <= j < n ==> #[trigger] yb@[j] == old(yb)@[j],
        decreases n - i,
    {
        let idx = row_indices(seed, k, i);
        let mut acc = Block::zero();
        let mut accb = false;
        let mut d: usize = 0;
        while d < ROW_WEIGHT
            invariant
                d <= ROW_WEIGHT,
                k == x@.len(),
                k == xb@.len(),
                k > 0,
                idx@.len() == 10,
                forall|e: int|
                    0 <= e < 10 ==> #[trigger] idx@[e] == lpn_index(
                        seed@,
                        k as nat,
                        i as nat,
                        e as nat,
                    ),
                acc@ == row_acc(seed@, x@, i as nat, d as nat),
                accb == row_acc_bits(seed@, xb@, i as nat, d as nat),
            decreases ROW_WEIGHT - d,
        {
            let col = idx[d];
            assert(col == lpn_index(seed@, k as nat, i as nat, d as nat));
            acc = acc.xor(x[col]);
            accb = accb != xb[col];
            d = d + 1;
        }
        let yi = y[i];
        let ybi = yb[i];
        y.set(i, yi.xor(acc));
        yb.set(i, ybi != accb);
        i = i + 1;
    }
    assert(y@ =~= encode(seed@, old(y)@, x@));
    assert(yb@ =~= encode_bits(seed@, old(yb)@, xb@));
}

/// Computes `A * x + y` for blocks.
pub fn compute_blocks(seed: Block, y: &mut Vec<Block>, x: &[Block])
    requires
        x@.len() > 0,
        old(y)@.len() <= u32::MAX,
    ensures
        final(y)@ == encode(seed@, old(y)@, x@),
{
    let n = y.len();
    let k = x.len();
    let mut i: usize = 0;
    while i < n
        invariant
            i <= n,
            n <= u32::MAX,
            k == x@.len(),
            k > 0,
            y@.len() == n,
            old(y)@.len() == n,
            forall|j: int| 0 <= j < i ==> (#[trigger] y@[j])@ == old(y)@[j]@ ^ row_acc(seed@, x@, j as nat, 10),
            forall|j: int| i <= j < n ==> #[trigger] y@[j] == old(y)@[j],
        decreases n - i,
    {
        let idx = row_indices(seed, k, i);
        let mut acc = Block::zero();
        let mut d: usize = 0;
        while d < ROW_WEIGHT
            invariant
                d <= ROW_WEIGHT,
                k == x@.len(),
                k > 0,
                idx@.len() == 10,
                forall|e: int|
                    0 <= e < 10 ==> #[trigger] idx@[e] == lpn_index(
                        seed@,
                        k as nat,
                        i as nat,
                        e as nat,
                    ),
                acc@ == row_acc(seed@, x@, i as nat, d as nat),
            decreases ROW_WEIGHT - d,
        {
            let col = idx[d];
            assert(col == lpn_index(seed@, k as nat, i as nat, d as nat));
            acc = acc.xor(x[col]);
            d = d + 1;
        }
        let yi = y[i];
        y.set(i, yi.xor(acc));
        i = i + 1;
    }
    assert(y@ =~= encode(seed@, old(y)@, x@));
}

/// The matrix keeps a correlation: where each block of `w` is the block
/// of `v` with delta added where the bit of `u` is set, the same holds of the
/// sums over the columns of a row's ones.
pub proof fn lemma_row_acc_correlated(
    seed: u128,
    v: Seq<Block>,
    u: Seq<bool>,
    w: Seq<Block>,
    delta: u128,
    i: nat,
    d: nat,
)
    requires
        v.len() > 0,
        v.len() == u.len(),
        v.len() == w.len(),
        forall|j: int| 0 <= j < v.len() ==> (#[trigger] w[j])@ == v[j]@ ^ sel(u[j], delta),
    ensures
        row_acc(seed, w, i, d) == row_acc(seed, v, i, d) ^ sel(row_acc_bits(seed, u, i, d), delta),
    decreases d,
{
    if d == 0 {
        lemma_xor_laws(0, 0, 0);
    } else {
        let e = (d - 1) as nat;
        lemma_row_acc_correlated(seed, v, u, w, delta, i, e);
        let col = lpn_index(seed, v.len(), i, e) as int;
        assert(0 <= col < v.len());
        assert(w[col]@ == v[col]@ ^ sel(u[col], delta));
        lemma_sel_sum(row_acc(seed, v, i, e), v[col]@, delta);
    }
}

/// Sums of blocks with delta added where a bit is set add up: the bits
/// add as the blocks do.
pub proof fn lemma_sel_sum(a: u128, b: u128, delta: u128)
    by (bit_vector)
    ensures
        (a ^ 0) ^ (b ^ 0) == (a ^ b) ^ 0,
        (a ^ delta) ^ (b ^ 0) == (a ^ b) ^ delta,
        (a ^ 0) ^ (b ^ delta) == (a ^ b) ^ delta,
        (a ^ delta) ^ (b ^ delta) == (a ^ b) ^ 0,
{
}

} // verus!
