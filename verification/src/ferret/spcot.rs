//! Single-point correlated OT: the sender gets a vector of blocks, the
//! receiver the same vector with delta added at one position of its choice.

pub mod error;
pub mod laws;
pub mod msgs;
pub mod receiver;
pub mod sender;

use crate::bits::{bit_at, get_bit};
use crate::block::{sel, Block};
use crate::ferret::ggm::{
    ggm_gen, ggm_reconstruct, is_expansion, leaf_sum, lemma_rec_acc, lemma_reconstruction,
    lemma_two_pow, level_acc, node, parity_sum, path, rec_acc, rec_node, turns_right, two_pow,
    MAX_DEPTH,
};
use crate::gf128::lemma_xor_laws;
use vstd::prelude::*;

verus! {

/// The mask bit of a level: the receiver's random choice bit, flipped
/// where the path to its position turns left at that level.
pub open spec fn mask_bit(r: bool, alpha: nat, h: nat, i: nat) -> bool {
    r == turns_right(alpha, h, i)
}

/// The masked sum of the left children of a level: the sum, the sender's
/// correlated block, and delta where the mask bit is set.
pub open spec fn masked_left(k0: u128, q: u128, mask: bool, delta: u128) -> u128 {
    (k0 ^ q) ^ sel(mask, delta)
}

/// The masked sum of the right children of a level: the sum, the
/// sender's correlated block, and delta where the mask bit is clear.
pub open spec fn masked_right(k1: u128, q: u128, mask: bool, delta: u128) -> u128 {
    (k1 ^ q) ^ sel(!mask, delta)
}

/// What the sender makes of one tree.
pub struct SenderTree {
    pub leaves: Vec<Block>,
    pub m0: Vec<Block>,
    pub m1: Vec<Block>,
    pub c: Block,
}

/// `t` is what the sender makes of the tree of depth `h` that grows from
/// `root`, with its correlated blocks `qs` and the receiver's mask bits.
pub open spec fn is_sender_tree(
    t: SenderTree,
    delta: u128,
    root: u128,
    h: nat,
    qs: Seq<Block>,
    mask: Seq<bool>,
) -> bool {
    &&& t.leaves@.len() == two_pow(h)
    &&& forall|k: int| 0 <= k < two_pow(h) ==> (#[trigger] t.leaves@[k])@ == node(root, h, k as nat)
    &&& t.m0@.len() == h
    &&& t.m1@.len() == h
    &&& forall|i: int|
        0 <= i < h ==> (#[trigger] t.m0@[i])@ == masked_left(
            parity_sum(root, (i + 1) as nat, false),
            qs[i]@,
            mask[i],
            delta,
        )
    &&& forall|i: int|
        0 <= i < h ==> (#[trigger] t.m1@[i])@ == masked_right(
            parity_sum(root, (i + 1) as nat, true),
            qs[i]@,
            mask[i],
            delta,
        )
    &&& t.c@ == leaf_sum(root, h) ^ delta
}

/// Expands one tree and masks the sums of its levels for the receiver.
pub fn sender_tree(delta: Block, root: Block, h: usize, qs: &[Block], mask: &[bool]) -> (t:
    SenderTree)
    requires
        h <= MAX_DEPTH,
        qs@.len() == h,
        mask@.len() == h,
    ensures
        is_sender_tree(t, delta@, root@, h as nat, qs@, mask@),
{
    let e = ggm_gen(root, h);
    let mut m0: Vec<Block> = Vec::new();
    let mut m1: Vec<Block> = Vec::new();
    let mut i: usize = 0;
    while i < h
        invariant
            i <= h,
            qs@.len() == h,
            mask@.len() == h,
            is_expansion(e, root@, h as nat),
            m0@.len() == i,
            m1@.len() == i,
            forall|j: int|
                0 <= j < i ==> (#[trigger] m0@[j])@ == masked_left(
                    parity_sum(root@, (j + 1) as nat, false),
                    qs@[j]@,
                    mask@[j],
                    delta@,
                ),
            forall|j: int|
                0 <= j < i ==> (#[trigger] m1@[j])@ == masked_right(
                    parity_sum(root@, (j + 1) as nat, true),
                    qs@[j]@,
                    mask@[j],
                    delta@,
                ),
        decreases h - i,
    {
        let b = mask[i];
        m0.push(e.k0[i].xor(qs[i]).xor(delta.select(b)));
        m1.push(e.k1[i].xor(qs[i]).xor(delta.select(!b)));
        i = i + 1;
    }
    let n = e.leaves.len();
    let mut c = Block::zero();
    let mut k: usize = 0;
    while k < n
        invariant
            k <= n,
            n == e.leaves@.len(),
            n == two_pow(h as nat),
            is_expansion(e, root@, h as nat),
            c@ == level_acc(root@, h as nat, k as nat),
        decreases n - k,
    {
        c = c.xor(e.leaves[k]);
        k = k + 1;
    }
    SenderTree { leaves: e.leaves, m0, m1, c: c.xor(delta) }
}

/// The receiver's key of a level: the masked sum of the side of the
/// path's sibling, with the receiver's correlated block taken off.
pub open spec fn receiver_key(alpha: nat, h: nat, i: nat, t: u128, m0: u128, m1: u128) -> u128 {
    if turns_right(alpha, h, i) {
        m0 ^ t
    } else {
        m1 ^ t
    }
}

/// The receiver's keys of a tree.
pub open spec fn receiver_keys(
    alpha: nat,
    h: nat,
    ts: Seq<Block>,
    m0: Seq<Block>,
    m1: Seq<Block>,
) -> Seq<Block> {
    Seq::new(h, |i: int| Block(receiver_key(alpha, h, i as nat, ts[i]@, m0[i]@, m1[i]@)))
}

/// Leaf `k` of the receiver's tree: reconstructed from the keys, and at
/// the chosen position the sender's sum with the other leaves taken off.
pub open spec fn receiver_leaf(alpha: nat, h: nat, keys: Seq<Block>, c: u128, k: nat) -> u128 {
    if k == alpha {
        c ^ rec_acc(alpha, h, keys, two_pow(h))
    } else {
        rec_node(alpha, h, keys, h, k)
    }
}

/// Whether the path to leaf `alpha` turns right, level by level from the
/// root.
pub fn turns(alpha: usize, h: usize) -> (t: Vec<bool>)
    requires
        h <= MAX_DEPTH,
    ensures
        t@.len() == h,
        forall|d: int| 0 <= d < h ==> #[trigger] t@[d] == turns_right(alpha as nat, h as nat, d as nat),
{
    let mut rev: Vec<bool> = Vec::new();
    let mut x = alpha;
    let mut up: usize = 0;
    while up < h
        invariant
            up <= h,
            rev@.len() == up,
            x == path(alpha as nat, up as nat),
            forall|u: int| 0 <= u < up ==> #[trigger] rev@[u] == (path(alpha as nat, u as nat) % 2 == 1),
        decreases h - up,
    {
        rev.push(x % 2 == 1);
        x = x / 2;
        up = up + 1;
    }
    let mut t: Vec<bool> = Vec::new();
    let mut d: usize = 0;
    while d < h
        invariant
            d <= h,
            rev@.len() == h,
            t@.len() == d,
            forall|u: int| 0 <= u < h ==> #[trigger] rev@[u] == (path(alpha as nat, u as nat) % 2 == 1),
            forall|e: int|
                0 <= e < d ==> #[trigger] t@[e] == turns_right(alpha as nat, h as nat, e as nat),
        decreases h - d,
    {
        t.push(rev[h - d - 1]);
        d = d + 1;
    }
    t
}

/// The receiver's mask bits of one tree: its random choice bits, each
/// flipped where the path to `alpha` turns left.
pub fn mask_bits(alpha: usize, h: usize, rs: &[bool]) -> (bits: Vec<bool>)
    requires
        h <= MAX_DEPTH,
        rs@.len() == h,
    ensures
        bits@.len() == h,
        forall|i: int|
            0 <= i < h ==> #[trigger] bits@[i] == mask_bit(rs@[i], alpha as nat, h as nat, i as nat),
{
    let t = turns(alpha, h);
    let mut bits: Vec<bool> = Vec::new();
    let mut i: usize = 0;
    while i < h
        invariant
            i <= h,
            rs@.len() == h,
            t@.len() == h,
            bits@.len() == i,
            forall|d: int|
                0 <= d < h ==> #[trigger] t@[d] == turns_right(alpha as nat, h as nat, d as nat),
            forall|j: int|
                0 <= j < i ==> #[trigger] bits@[j] == mask_bit(
                    rs@[j],
                    alpha as nat,
                    h as nat,
                    j as nat,
                ),
        decreases h - i,
    {
        bits.push(rs[i] == t[i]);
        i = i + 1;
    }
    bits
}

/// Reconstructs the receiver's tree from the sender's message for it.
pub fn receiver_tree(
    h: usize,
    alpha: usize,
    ts: &[Block],
    m0: &[Block],
    m1: &[Block],
    c: Block,
) -> (leaves: Vec<Block>)
    requires
        h <= MAX_DEPTH,
        alpha < two_pow(h as nat),
        ts@.len() == h,
        m0@.len() == h,
        m1@.len() == h,
    ensures
        leaves@.len() == two_pow(h as nat),
        forall|k: int|
            0 <= k < leaves@.len() ==> (#[trigger] leaves@[k])@ == receiver_leaf(
                alpha as nat,
                h as nat,
                receiver_keys(alpha as nat, h as nat, ts@, m0@, m1@),
                c@,
                k as nat,
            ),
{
    let t = turns(alpha, h);
    let mut keys: Vec<Block> = Vec::new();
    let mut i: usize = 0;
    while i < h
        invariant
            i <= h,
            ts@.len() == h,
            m0@.len() == h,
            m1@.len() == h,
            t@.len() == h,
            keys@.len() == i,
            forall|d: int|
                0 <= d < h ==> #[trigger] t@[d] == turns_right(alpha as nat, h as nat, d as nat),
            forall|j: int|
                0 <= j < i ==> (#[trigger] keys@[j])@ == receiver_key(
                    alpha as nat,
                    h as nat,
                    j as nat,
                    ts@[j]@,
                    m0@[j]@,
                    m1@[j]@,
                ),
        decreases h - i,
    {
        let k = if t[i] {
            m0[i].xor(ts[i])
        } else {
            m1[i].xor(ts[i])
        };
        keys.push(k);
        i = i + 1;
    }
    assert(keys@ =~= receiver_keys(alpha as nat, h as nat, ts@, m0@, m1@));
    let mut leaves = ggm_reconstruct(h, alpha, keys.as_slice());
    let n = leaves.len();
    let mut acc = Block::zero();
    let mut k: usize = 0;
    while k < n
        invariant
            k <= n,
            n == leaves@.len(),
            n == two_pow(h as nat),
            forall|j: int|
                0 <= j < n ==> (#[trigger] leaves@[j])@ == rec_node(
                    alpha as nat,
                    h as nat,
                    keys@,
                    h as nat,
                    j as nat,
                ),
            acc@ == rec_acc(alpha as nat, h as nat, keys@, k as nat),
        decreases n - k,
    {
        acc = acc.xor(leaves[k]);
        k = k + 1;
    }
    leaves.set(alpha, c.xor(acc));
    leaves
}

/// The receiver's vector of a tree is the sender's, with delta added at
/// the receiver's position.
///
/// `qs` are the sender's correlated blocks, `rs` and `ts` the receiver's
/// choice bits and blocks, with `ts[i] = qs[i] ^ rs[i] * delta`; the mask
/// bits are those of `rs` and `alpha`, and `m0`, `m1`, `c` the sender's
/// message for the tree that grows from `root`.
pub proof fn lemma_single_point(
    delta: u128,
    root: u128,
    h: nat,
    alpha: nat,
    qs: Seq<Block>,
    rs: Seq<bool>,
    ts: Seq<Block>,
    m0: Seq<Block>,
    m1: Seq<Block>,
    c: u128,
)
    requires
        alpha < two_pow(h),
        qs.len() == h,
        rs.len() == h,
        ts.len() == h,
        m0.len() == h,
        m1.len() == h,
        forall|i: int| 0 <= i < h ==> (#[trigger] ts[i])@ == qs[i]@ ^ sel(rs[i], delta),
        forall|i: int|
            0 <= i < h ==> (#[trigger] m0[i])@ == masked_left(
                parity_sum(root, (i + 1) as nat, false),
                qs[i]@,
                mask_bit(rs[i], alpha, h, i as nat),
                delta,
            ),
        forall|i: int|
            0 <= i < h ==> (#[trigger] m1[i])@ == masked_right(
                parity_sum(root, (i + 1) as nat, true),
                qs[i]@,
                mask_bit(rs[i], alpha, h, i as nat),
                delta,
            ),
        c == leaf_sum(root, h) ^ delta,
    ensures
        forall|k: nat|
            k < two_pow(h) ==> #[trigger] receiver_leaf(
                alpha,
                h,
                receiver_keys(alpha, h, ts, m0, m1),
                c,
                k,
            ) == node(root, h, k) ^ sel(k == alpha, delta),
{
    let keys = receiver_keys(alpha, h, ts, m0, m1);
    assert forall|d: int| 0 <= d < h implies (#[trigger] keys[d])@ == parity_sum(
        root,
        (d + 1) as nat,
        !turns_right(alpha, h, d as nat),
    ) by {
        let r = rs[d];
        let q = qs[d]@;
        let t = ts[d]@;
        assert(t == q ^ sel(r, delta));
        let right = !turns_right(alpha, h, d as nat);
        let k = parity_sum(root, (d + 1) as nat, right);
        assert(m0[d]@ == masked_left(
            parity_sum(root, (d + 1) as nat, false),
            q,
            mask_bit(r, alpha, h, d as nat),
            delta,
        ));
        assert(m1[d]@ == masked_right(
            parity_sum(root, (d + 1) as nat, true),
            q,
            mask_bit(r, alpha, h, d as nat),
            delta,
        ));
        lemma_unmask(k, q, delta);
    }
    lemma_reconstruction(root, alpha, h, keys, h);
    lemma_rec_acc(root, alpha, h, keys, two_pow(h));
    assert forall|k: nat| k < two_pow(h) implies #[trigger] receiver_leaf(alpha, h, keys, c, k)
        == node(root, h, k) ^ sel(k == alpha, delta) by {
        lemma_xor_laws(node(root, h, k), 0, 0);
        lemma_unmask(leaf_sum(root, h), node(root, h, alpha), delta);
    }
}

proof fn lemma_unmask(k: u128, q: u128, delta: u128)
    by (bit_vector)
    ensures
        ((k ^ q) ^ 0) ^ (q ^ 0) == k,
        ((k ^ q) ^ delta) ^ (q ^ delta) == k,
        (k ^ delta) ^ (k ^ q) == q ^ delta,
{
}

/// The sum of the depths of the first `b` trees of a batch: where the
/// levels of tree `b` start in the batch's vectors.
pub open spec fn depth_sum(hs: Seq<usize>, b: nat) -> nat
    decreases b,
{
    if b == 0 {
        0
    } else {
        depth_sum(hs, (b - 1) as nat) + hs[b - 1] as nat
    }
}

/// The depths of a batch are those of trees, and their sum is a length.
pub open spec fn depths_ok(hs: Seq<usize>) -> bool {
    &&& forall|b: int| 0 <= b < hs.len() ==> #[trigger] hs[b] <= MAX_DEPTH
    &&& depth_sum(hs, hs.len()) <= usize::MAX
}

/// The depths before a tree sum to no more than those up to a later one.
pub proof fn lemma_depth_sum_mono(hs: Seq<usize>, a: nat, b: nat)
    requires
        a <= b,
    ensures
        depth_sum(hs, a) <= depth_sum(hs, b),
    decreases b,
{
    if a < b {
        lemma_depth_sum_mono(hs, a, (b - 1) as nat);
    }
}

/// The vectors of a batch, one after the other.
pub open spec fn flatten(vs: Seq<Seq<Block>>) -> Seq<Block>
    decreases vs.len(),
{
    if vs.len() == 0 {
        Seq::empty()
    } else {
        flatten(vs.drop_last()) + vs.last()
    }
}

/// The vectors of a batch as mathematical sequences.
pub open spec fn deep(vs: Seq<Vec<Block>>) -> Seq<Seq<Block>> {
    Seq::new(vs.len(), |i: int| vs[i]@)
}

/// The sum of the depths of a batch, if they are those of trees and the
/// sum is a length.
pub fn total_depth(hs: &[usize]) -> (r: Option<usize>)
    ensures
        r is Some <==> depths_ok(hs@),
        r is Some ==> r->0 == depth_sum(hs@, hs@.len()),
{
    let mut total: usize = 0;
    let mut b: usize = 0;
    while b < hs.len()
        invariant
            b <= hs@.len(),
            total == depth_sum(hs@, b as nat),
            forall|k: int| 0 <= k < b ==> #[trigger] hs@[k] <= MAX_DEPTH,
        decreases hs@.len() - b,
    {
        let h = hs[b];
        if h > MAX_DEPTH {
            return None;
        }
        if total > usize::MAX - h {
            proof {
                lemma_depth_sum_mono(hs@, (b + 1) as nat, hs@.len());
            }
            return None;
        }
        total = total + h;
        b = b + 1;
    }
    Some(total)
}

/// Two to the power of a tree's depth.
pub fn pow2(h: usize) -> (n: usize)
    requires
        h <= MAX_DEPTH,
    ensures
        n == two_pow(h as nat),
{
    let mut n: usize = 1;
    let mut d: usize = 0;
    while d < h
        invariant
            d <= h,
            h <= MAX_DEPTH,
            n == two_pow(d as nat),
        decreases h - d,
    {
        proof {
            lemma_two_pow((d + 1) as nat, 31);
        }
        n = 2 * n;
        d = d + 1;
    }
    n
}

/// Reads `h` bits of a packed bit string from bit `off` on.
pub fn read_bits(bits: &[u8], off: usize, h: usize) -> (out: Vec<bool>)
    requires
        off + h <= 8 * bits@.len(),
        off + h <= usize::MAX,
    ensures
        out@.len() == h,
        forall|i: int| 0 <= i < h ==> #[trigger] out@[i] == bit_at(bits@, off + i),
{
    let mut out: Vec<bool> = Vec::new();
    let mut i: usize = 0;
    while i < h
        invariant
            i <= h,
            off + h <= 8 * bits@.len(),
            off + h <= usize::MAX,
            out@.len() == i,
            forall|j: int| 0 <= j < i ==> #[trigger] out@[j] == bit_at(bits@, off + j),
        decreases h - i,
    {
        let k = off + i;
        out.push(get_bit(bits[k / 8], (k % 8) as u8));
        i = i + 1;
    }
    out
}

/// Whether two lists of depths are the same.
pub fn same_depths(a: &[usize], b: &[usize]) -> (r: bool)
    ensures
        r == (a@ == b@),
{
    if a.len() != b.len() {
        return false;
    }
    let mut i: usize = 0;
    while i < a.len()
        invariant
            i <= a@.len(),
            a@.len() == b@.len(),
            forall|j: int| 0 <= j < i ==> a@[j] == b@[j],
        decreases a@.len() - i,
    {
        if a[i] != b[i] {
            return false;
        }
        i = i + 1;
    }
    assert(a@ =~= b@);
    true
}

/// The vectors of a batch, one after the other.
pub fn flatten_vec(vs: &Vec<Vec<Block>>) -> (out: Vec<Block>)
    ensures
        out@ == flatten(deep(vs@)),
{
    let mut out: Vec<Block> = Vec::new();
    let mut b: usize = 0;
    while b < vs.len()
        invariant
            b <= vs@.len(),
            out@ == flatten(deep(vs@).take(b as int)),
        decreases vs@.len() - b,
    {
        let v = &vs[b];
        let ghost before = out@;
        let mut k: usize = 0;
        while k < v.len()
            invariant
                k <= v@.len(),
                out@ == before + v@.take(k as int),
            decreases v@.len() - k,
        {
            out.push(v[k]);
            assert(v@.take(k + 1) =~= v@.take(k as int).push(v@[k as int]));
            k = k + 1;
        }
        proof {
            assert(v@.take(v@.len() as int) =~= v@);
            let next = deep(vs@).take(b + 1);
            assert(next.drop_last() =~= deep(vs@).take(b as int));
            assert(next.last() == v@);
        }
        b = b + 1;
    }
    assert(deep(vs@).take(vs@.len() as int) =~= deep(vs@));
    out
}

} // verus!
