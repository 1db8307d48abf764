//! The GGM tree: a binary tree of seeds in which each node is expanded
//! into its two children.

use crate::block::Block;
use crate::cipher::{expand, expand_spec};
use crate::gf128::lemma_xor_laws;
use vstd::prelude::*;

verus! {

/// The greatest depth of a tree.
pub const MAX_DEPTH: usize = 31;

/// Two to the power of `n`.
pub open spec fn two_pow(n: nat) -> nat
    decreases n,
{
    if n == 0 {
        1
    } else {
        2 * two_pow((n - 1) as nat)
    }
}

/// Powers of two grow, and those of the depths of a tree fit in 32 bits.
pub proof fn lemma_two_pow(a: nat, b: nat)
    requires
        a <= b,
    ensures
        0 < two_pow(a) <= two_pow(b),
        b <= 31 ==> two_pow(b) <= 0x8000_0000,
    decreases b,
{
    if a < b {
        lemma_two_pow(a, (b - 1) as nat);
    } else if b > 0 {
        lemma_two_pow((a - 1) as nat, (b - 1) as nat);
    }
    if b <= 31 {
        assert(two_pow(31) == 0x8000_0000) by {
            reveal_with_fuel(two_pow, 32);
        }
        if b < 31 {
            lemma_two_pow_mono(b, 31);
        }
    }
}

proof fn lemma_two_pow_mono(a: nat, b: nat)
    requires
        a <= b,
    ensures
        0 < two_pow(a) <= two_pow(b),
    decreases b,
{
    if a < b {
        lemma_two_pow_mono(a, (b - 1) as nat);
    } else if b > 0 {
        lemma_two_pow_mono((a - 1) as nat, (b - 1) as nat);
    }
}

/// Node `idx` at depth `depth` of the tree that grows from `seed`: the
/// left child of its parent where `idx` is even, the right child where it is
/// odd.
pub open spec fn node(seed: u128, depth: nat, idx: nat) -> u128
    decreases depth,
{
    if depth == 0 {
        seed
    } else {
        let children = expand_spec(node(seed, (depth - 1) as nat, idx / 2));
        if idx % 2 == 0 {
            children.0
        } else {
            children.1
        }
    }
}

/// The sum of the first `k` nodes at depth `depth`.
pub open spec fn level_acc(seed: u128, depth: nat, k: nat) -> u128
    decreases k,
{
    if k == 0 {
        0
    } else {
        level_acc(seed, depth, (k - 1) as nat) ^ node(seed, depth, (k - 1) as nat)
    }
}

/// The sum of all leaves of the tree of depth `h`.
pub open spec fn leaf_sum(seed: u128, h: nat) -> u128 {
    level_acc(seed, h, two_pow(h))
}

/// The sum of the first `k` left children at depth `depth`, or of the
/// first `k` right children where `right` holds.
pub open spec fn parity_acc(seed: u128, depth: nat, right: bool, k: nat) -> u128
    decreases k,
{
    if k == 0 {
        0
    } else {
        parity_acc(seed, depth, right, (k - 1) as nat) ^ node(
            seed,
            depth,
            (2 * (k - 1) + if right {
                1int
            } else {
                0int
            }) as nat,
        )
    }
}

/// The sum of all left children at depth `depth >= 1`, or of all right
/// children where `right` holds.
pub open spec fn parity_sum(seed: u128, depth: nat, right: bool) -> u128 {
    parity_acc(seed, depth, right, two_pow((depth - 1) as nat))
}

/// `alpha` halved `up` times: the index, `up` levels above the leaves, of
/// the node on the path to leaf `alpha`.
pub open spec fn path(alpha: nat, up: nat) -> nat
    decreases up,
{
    if up == 0 {
        alpha
    } else {
        path(alpha, (up - 1) as nat) / 2
    }
}

/// Whether the path to leaf `alpha` in a tree of depth `h` turns right
/// below depth `d`: bit `d` of `alpha`, most significant of its `h` bits
/// first.
pub open spec fn turns_right(alpha: nat, h: nat, d: nat) -> bool {
    path(alpha, (h - d - 1) as nat) % 2 == 1
}

/// The index at depth `d + 1` of the sibling of the path to leaf `alpha`.
pub open spec fn sibling(alpha: nat, h: nat, d: nat) -> nat {
    2 * path(alpha, (h - d) as nat) + if turns_right(alpha, h, d) {
        0nat
    } else {
        1nat
    }
}

/// What the receiver knows of node `k` at depth `d >= 1` before the
/// sibling of the path is recovered: nothing (zero) of the children of the
/// node on the path, and the child of the reconstructed parent otherwise.
pub open spec fn raw_child(alpha: nat, h: nat, keys: Seq<Block>, d: nat, k: nat) -> u128
    decreases d, 0nat, 0nat,
{
    if d == 0 || k / 2 == path(alpha, (h - (d - 1)) as nat) {
        0
    } else {
        let children = expand_spec(rec_node(alpha, h, keys, (d - 1) as nat, k / 2));
        if k % 2 == 0 {
            children.0
        } else {
            children.1
        }
    }
}

/// The sum of what the receiver knows of the first `m` left (or right)
/// children at depth `d`, before the sibling of the path is recovered.
pub open spec fn raw_acc(alpha: nat, h: nat, keys: Seq<Block>, d: nat, right: bool, m: nat) -> u128
    decreases d, 1nat, m,
{
    if m == 0 {
        0
    } else {
        raw_acc(alpha, h, keys, d, right, (m - 1) as nat) ^ raw_child(
            alpha,
            h,
            keys,
            d,
            (2 * (m - 1) + if right {
                1int
            } else {
                0int
            }) as nat,
        )
    }
}

/// Node `k` at depth `d` as the receiver reconstructs it from the keys:
/// zero on the path to `alpha`; the sibling of the path is the key of its
/// level with the other nodes of its side taken off; every other node is the
/// child of its reconstructed parent.
pub open spec fn rec_node(alpha: nat, h: nat, keys: Seq<Block>, d: nat, k: nat) -> u128
    decreases d, 2nat, 0nat,
{
    if d == 0 {
        0
    } else {
        let e = (d - 1) as nat;
        if k == sibling(alpha, h, e) {
            keys[e as int]@ ^ raw_acc(alpha, h, keys, d, !turns_right(alpha, h, e), two_pow(e))
        } else {
            raw_child(alpha, h, keys, d, k)
        }
    }
}

/// The sum of the first `k` reconstructed leaves.
pub open spec fn rec_acc(alpha: nat, h: nat, keys: Seq<Block>, k: nat) -> u128
    decreases k,
{
    if k == 0 {
        0
    } else {
        rec_acc(alpha, h, keys, (k - 1) as nat) ^ rec_node(alpha, h, keys, h, (k - 1) as nat)
    }
}

/// What a sender's tree gives: its leaves and, for each level below the
/// root, the sum of the left and the sum of the right children.
pub struct Expansion {
    pub leaves: Vec<Block>,
    pub k0: Vec<Block>,
    pub k1: Vec<Block>,
}

/// `e` is the expansion of the tree of depth `h` that grows from `seed`.
pub open spec fn is_expansion(e: Expansion, seed: u128, h: nat) -> bool {
    &&& e.leaves@.len() == two_pow(h)
    &&& e.k0@.len() == h
    &&& e.k1@.len() == h
    &&& forall|k: int| 0 <= k < two_pow(h) ==> (#[trigger] e.leaves@[k])@ == node(seed, h, k as nat)
    &&& forall|d: int|
        0 <= d < h ==> (#[trigger] e.k0@[d])@ == parity_sum(seed, (d + 1) as nat, false)
    &&& forall|d: int|
        0 <= d < h ==> (#[trigger] e.k1@[d])@ == parity_sum(seed, (d + 1) as nat, true)
}

/// Expands the tree of depth `h` that grows from `seed`.
pub fn ggm_gen(seed: Block, h: usize) -> (e: Expansion)
    requires
        h <= MAX_DEPTH,
    ensures
        is_expansion(e, seed@, h as nat),
{
    let mut cur: Vec<Block> = Vec::new();
    cur.push(seed);
    let mut k0: Vec<Block> = Vec::new();
    let mut k1: Vec<Block> = Vec::new();
    let mut d: usize = 0;
    while d < h
        invariant
            d <= h,
            h <= MAX_DEPTH,
            cur@.len() == two_pow(d as nat),
            k0@.len() == d,
            k1@.len() == d,
            forall|k: int| 0 <= k < cur@.len() ==> (#[trigger] cur@[k])@ == node(seed@, d as nat, k as nat),
            forall|e: int|
                0 <= e < d ==> (#[trigger] k0@[e])@ == parity_sum(seed@, (e + 1) as nat, false),
            forall|e: int|
                0 <= e < d ==> (#[trigger] k1@[e])@ == parity_sum(seed@, (e + 1) as nat, true),
        decreases h - d,
    {
        let n = cur.len();
        proof {
            lemma_two_pow(d as nat, (d + 1) as nat);
            lemma_two_pow((d + 1) as nat, 31);
        }
        let mut next: Vec<Block> = Vec::new();
        let mut s0 = Block::zero();
        let mut s1 = Block::zero();
        let mut k: usize = 0;
        while k < n
            invariant
                k <= n,
                n == cur@.len(),
                2 * n <= 0x8000_0000,
                next@.len() == 2 * k,
                forall|j: int| 0 <= j < n ==> (#[trigger] cur@[j])@ == node(seed@, d as nat, j as nat),
                forall|j: int|
                    0 <= j < 2 * k ==> (#[trigger] next@[j])@ == node(
                        seed@,
                        (d + 1) as nat,
                        j as nat,
                    ),
                s0@ == parity_acc(seed@, (d + 1) as nat, false, k as nat),
                s1@ == parity_acc(seed@, (d + 1) as nat, true, k as nat),
            decreases n - k,
        {
            let (l, r) = expand(cur[k]);
            let ghost before = next@;
            next.push(l);
            next.push(r);
            s0 = s0.xor(l);
            s1 = s1.xor(r);
            proof {
                assert((2 * k) / 2 == k && (2 * k + 1) / 2 == k);
                assert(l@ == node(seed@, (d + 1) as nat, (2 * k) as nat));
                assert(r@ == node(seed@, (d + 1) as nat, (2 * k + 1) as nat));
                assert forall|j: int| 0 <= j < 2 * (k + 1) implies (#[trigger] next@[j])@ == node(
                    seed@,
                    (d + 1) as nat,
                    j as nat,
                ) by {
                    if j < 2 * k {
                        assert(next@[j] == before[j]);
                    }
                }
            }
            k = k + 1;
        }
        k0.push(s0);
        k1.push(s1);
        cur = next;
        d = d + 1;
    }
    Expansion { leaves: cur, k0, k1 }
}

/// The indices of the nodes on the path to leaf `alpha`, root first.
fn path_indices(alpha: usize, h: usize) -> (p: Vec<usize>)
    requires
        h <= MAX_DEPTH,
    ensures
        p@.len() == h + 1,
        forall|d: int| 0 <= d <= h ==> #[trigger] p@[d] == path(alpha as nat, (h - d) as nat),
{
    let mut rev: Vec<usize> = Vec::new();
    let mut x = alpha;
    let mut up: usize = 0;
    rev.push(x);
    while up < h
        invariant
            up <= h,
            rev@.len() == up + 1,
            x == path(alpha as nat, up as nat),
            forall|u: int| 0 <= u <= up ==> #[trigger] rev@[u] == path(alpha as nat, u as nat),
        decreases h - up,
    {
        x = x / 2;
        up = up + 1;
        rev.push(x);
    }
    let mut p: Vec<usize> = Vec::new();
    let mut d: usize = 0;
    while d <= h
        invariant
            d <= h + 1,
            h <= MAX_DEPTH,
            rev@.len() == h + 1,
            p@.len() == d,
            forall|u: int| 0 <= u <= h ==> #[trigger] rev@[u] == path(alpha as nat, u as nat),
            forall|e: int| 0 <= e < d ==> #[trigger] p@[e] == path(alpha as nat, (h - e) as nat),
        decreases h + 1 - d,
    {
        p.push(rev[h - d]);
        d = d + 1;
    }
    p
}

/// Reconstructs the leaves of a tree of depth `h` from the keys of the
/// siblings of the path to leaf `alpha`; the leaf `alpha` itself is left
/// zero.
pub fn ggm_reconstruct(h: usize, alpha: usize, keys: &[Block]) -> (leaves: Vec<Block>)
    requires
        h <= MAX_DEPTH,
        keys@.len() == h,
        alpha < two_pow(h as nat),
    ensures
        leaves@.len() == two_pow(h as nat),
        forall|k: int|
            0 <= k < leaves@.len() ==> (#[trigger] leaves@[k])@ == rec_node(
                alpha as nat,
                h as nat,
                keys@,
                h as nat,
                k as nat,
            ),
{
    let paths = path_indices(alpha, h);
    let ghost a = alpha as nat;
    let ghost hh = h as nat;
    let mut cur: Vec<Block> = Vec::new();
    cur.push(Block::zero());
    let mut d: usize = 0;
    while d < h
        invariant
            d <= h,
            h <= MAX_DEPTH,
            a == alpha,
            hh == h,
            a < two_pow(hh),
            keys@.len() == h,
            paths@.len() == h + 1,
            forall|e: int| 0 <= e <= h ==> #[trigger] paths@[e] == path(a, (h - e) as nat),
            cur@.len() == two_pow(d as nat),
            forall|k: int|
                0 <= k < cur@.len() ==> (#[trigger] cur@[k])@ == rec_node(
                    a,
                    hh,
                    keys@,
                    d as nat,
                    k as nat,
                ),
        decreases h - d,
    {
        let n = cur.len();
        proof {
            lemma_two_pow(d as nat, (d + 1) as nat);
            lemma_two_pow((d + 1) as nat, 31);
        }
        let p = paths[d];
        let right = paths[d + 1] % 2 == 1;
        assert(right == turns_right(a, hh, d as nat));
        assert(p == path(a, (hh - d) as nat));
        let mut next: Vec<Block> = Vec::new();
        let mut acc = Block::zero();
        let mut k: usize = 0;
        while k < n
            invariant
                k <= n,
                n == cur@.len(),
                n == two_pow(d as nat),
                2 * n <= 0x8000_0000,
                d < h,
                hh == h,
                p == path(a, (hh - d) as nat),
                next@.len() == 2 * k,
                forall|j: int|
                    0 <= j < n ==> (#[trigger] cur@[j])@ == rec_node(
                        a,
                        hh,
                        keys@,
                        d as nat,
                        j as nat,
                    ),
                forall|j: int|
                    0 <= j < 2 * k ==> (#[trigger] next@[j])@ == raw_child(
                        a,
                        hh,
                        keys@,
                        (d + 1) as nat,
                        j as nat,
                    ),
                acc@ == raw_acc(a, hh, keys@, (d + 1) as nat, !right, k as nat),
            decreases n - k,
        {
            let (l, r) = if k == p {
                (Block::zero(), Block::zero())
            } else {
                expand(cur[k])
            };
            let ghost before = next@;
            next.push(l);
            next.push(r);
            acc = if right {
                acc.xor(l)
            } else {
                acc.xor(r)
            };
            proof {
                assert((2 * k) / 2 == k && (2 * k + 1) / 2 == k);
                assert(l@ == raw_child(a, hh, keys@, (d + 1) as nat, (2 * k) as nat));
                assert(r@ == raw_child(a, hh, keys@, (d + 1) as nat, (2 * k + 1) as nat));
                assert forall|j: int| 0 <= j < 2 * (k + 1) implies (#[trigger] next@[j])@
                    == raw_child(a, hh, keys@, (d + 1) as nat, j as nat) by {
                    if j < 2 * k {
                        assert(next@[j] == before[j]);
                    }
                }
            }
            k = k + 1;
        }
        let sib: usize = 2 * p + if right {
            0
        } else {
            1
        };
        proof {
            lemma_path_in_range(a, hh, d as nat);
        }
        let recovered = keys[d].xor(acc);
        let ghost raw = next@;
        next.set(sib, recovered);
        proof {
            assert(sib == sibling(a, hh, d as nat));
            assert forall|j: int| 0 <= j < next@.len() implies (#[trigger] next@[j])@ == rec_node(
                a,
                hh,
                keys@,
                (d + 1) as nat,
                j as nat,
            ) by {
                if j != sib {
                    assert(next@[j] == raw[j]);
                }
            }
        }
        cur = next;
        d = d + 1;
    }
    cur
}

/// The node on the path to a leaf of the tree lies within its level.
pub proof fn lemma_path_in_range(alpha: nat, h: nat, d: nat)
    requires
        d <= h,
        alpha < two_pow(h),
    ensures
        path(alpha, (h - d) as nat) < two_pow(d),
    decreases h - d,
{
    if d < h {
        lemma_path_in_range(alpha, h, d + 1);
        assert(path(alpha, (h - d) as nat) == path(alpha, (h - (d + 1)) as nat) / 2);
    }
}

/// The keys are those of an honest sender's tree: at each level the sum of
/// the children on the side of the sibling of the path to `alpha`.
pub open spec fn keys_of(seed: u128, alpha: nat, h: nat, keys: Seq<Block>) -> bool {
    &&& keys.len() == h
    &&& forall|d: int|
        0 <= d < h ==> (#[trigger] keys[d])@ == parity_sum(
            seed,
            (d + 1) as nat,
            !turns_right(alpha, h, d as nat),
        )
}

proof fn lemma_raw_acc(seed: u128, alpha: nat, h: nat, keys: Seq<Block>, d: nat, right: bool, m: nat)
    requires
        d < h,
        alpha < two_pow(h),
        m <= two_pow(d),
        forall|k: nat|
            k < two_pow(d) ==> #[trigger] rec_node(alpha, h, keys, d, k) == if k == path(
                alpha,
                (h - d) as nat,
            ) {
                0u128
            } else {
                node(seed, d, k)
            },
    ensures
        raw_acc(alpha, h, keys, d + 1, right, m) == parity_acc(seed, d + 1, right, m) ^ (if path(
            alpha,
            (h - d) as nat,
        ) < m {
            node(seed, d + 1, 2 * path(alpha, (h - d) as nat) + if right {
                1nat
            } else {
                0nat
            })
        } else {
            0u128
        }),
    decreases m,
{
    let p = path(alpha, (h - d) as nat);
    let side = if right {
        1nat
    } else {
        0nat
    };
    if m == 0 {
        lemma_xor_laws(0, 0, 0);
    } else {
        let j = (m - 1) as nat;
        lemma_raw_acc(seed, alpha, h, keys, d, right, j);
        let k = 2 * j + side;
        assert(k / 2 == j && k % 2 == side);
        let prev = parity_acc(seed, d + 1, right, j);
        let x = node(seed, d + 1, k);
        let hole = node(seed, d + 1, 2 * p + side);
        if j == p {
            assert(raw_child(alpha, h, keys, d + 1, k) == 0);
            lemma_xor_laws(prev, 0, 0);
            lemma_xor_laws(prev, x, 0);
        } else {
            assert(rec_node(alpha, h, keys, d, j) == node(seed, d, j));
            assert(raw_child(alpha, h, keys, d + 1, k) == x);
            if p < j {
                lemma_xor_swap3(prev, hole, x);
            } else {
                lemma_xor_laws(prev, 0, 0);
                lemma_xor_laws(prev ^ x, 0, 0);
            }
        }
    }
}

proof fn lemma_xor_swap3(a: u128, b: u128, c: u128)
    by (bit_vector)
    ensures
        (a ^ b) ^ c == (a ^ c) ^ b,
        a ^ (a ^ b) == b,
        (a ^ b) ^ (a ^ c) == b ^ c,
{
}

/// With the keys of an honest sender's tree, the receiver reconstructs
/// every node off the path to `alpha`; the nodes on the path stay zero.
pub proof fn lemma_reconstruction(seed: u128, alpha: nat, h: nat, keys: Seq<Block>, d: nat)
    requires
        d <= h,
        alpha < two_pow(h),
        keys_of(seed, alpha, h, keys),
    ensures
        forall|k: nat|
            k < two_pow(d) ==> #[trigger] rec_node(alpha, h, keys, d, k) == if k == path(
                alpha,
                (h - d) as nat,
            ) {
                0u128
            } else {
                node(seed, d, k)
            },
    decreases d,
{
    if d == 0 {
        lemma_path_in_range(alpha, h, 0);
    } else {
        let e = (d - 1) as nat;
        lemma_reconstruction(seed, alpha, h, keys, e);
        let p = path(alpha, (h - e) as nat);
        let q = path(alpha, (h - d) as nat);
        let right = !turns_right(alpha, h, e);
        let sib = sibling(alpha, h, e);
        lemma_path_in_range(alpha, h, e);
        assert(p == q / 2);
        assert(turns_right(alpha, h, e) == (q % 2 == 1));
        lemma_raw_acc(seed, alpha, h, keys, e, right, two_pow(e));
        assert forall|k: nat| k < two_pow(d) implies #[trigger] rec_node(alpha, h, keys, d, k)
            == if k == q {
            0u128
        } else {
            node(seed, d, k)
        } by {
            if k == sib {
                assert(keys[e as int]@ == parity_sum(seed, d, right));
                lemma_xor_swap3(parity_sum(seed, d, right), node(seed, d, sib), 0);
            } else if k / 2 == p {
                assert(k == q);
            } else {
                assert(k / 2 < two_pow(e));
                assert(rec_node(alpha, h, keys, e, k / 2) == node(seed, e, k / 2));
            }
        }
    }
}

/// With the keys of an honest sender's tree, the sum of the first `m`
/// reconstructed leaves is the sum of the sender's, without the leaf
/// `alpha`.
pub proof fn lemma_rec_acc(seed: u128, alpha: nat, h: nat, keys: Seq<Block>, m: nat)
    requires
        alpha < two_pow(h),
        m <= two_pow(h),
        keys_of(seed, alpha, h, keys),
    ensures
        rec_acc(alpha, h, keys, m) == level_acc(seed, h, m) ^ (if alpha < m {
            node(seed, h, alpha)
        } else {
            0u128
        }),
    decreases m,
{
    if m == 0 {
        lemma_xor_laws(0, 0, 0);
    } else {
        let j = (m - 1) as nat;
        lemma_rec_acc(seed, alpha, h, keys, j);
        lemma_reconstruction(seed, alpha, h, keys, h);
        let prev = level_acc(seed, h, j);
        let x = node(seed, h, j);
        let hole = node(seed, h, alpha);
        assert(rec_node(alpha, h, keys, h, j) == if j == alpha {
            0u128
        } else {
            x
        });
        if j == alpha {
            lemma_xor_laws(prev, 0, 0);
            lemma_xor_laws(prev, x, 0);
        } else if alpha < j {
            lemma_xor_swap3(prev, hole, x);
        } else {
            lemma_xor_laws(prev, 0, 0);
            lemma_xor_laws(prev ^ x, 0, 0);
        }
    }
}

} // verus!
