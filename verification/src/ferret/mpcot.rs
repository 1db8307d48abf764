//! Multi-point correlated OT: the sender gets a vector of blocks, the
//! receiver the same vector with delta added at the positions of its choice.
//!
//! Regular positions lie one in each of the buckets of equal size that the
//! index range is cut into; positions spread anywhere are placed in buckets
//! by Cuckoo hashing.

pub mod cuckoo;
pub mod error;
pub mod laws;
pub mod msgs;
pub mod receiver;
pub mod receiver_regular;
pub mod sender;
pub mod sender_regular;

use crate::block::{sel, Block};
use crate::ferret::error::ErrorKind;
use crate::ferret::ggm::{two_pow, MAX_DEPTH};
use crate::ferret::spcot::laws::single_point;
use vstd::arithmetic::div_mod::{lemma_fundamental_div_mod, lemma_fundamental_div_mod_converse};
use vstd::prelude::*;

verus! {

/// The depth of the smallest tree with at least `m` leaves: the binary
/// logarithm of `m`, rounded up.
pub open spec fn depth_for(m: nat) -> nat
    decreases m,
{
    if m <= 1 {
        0
    } else {
        1 + depth_for((m + 1) / 2)
    }
}

/// A tree of the depth for `m` leaves has at least `m` leaves.
pub proof fn lemma_depth_for(m: nat)
    ensures
        two_pow(depth_for(m)) >= m,
    decreases m,
{
    if m > 1 {
        lemma_depth_for((m + 1) / 2);
    }
}

/// What is wrong with a query for `t` positions among `n` indices, if
/// anything: there must be a position, and the buckets must be of equal
/// size, not empty, and small enough for a tree.
pub open spec fn query_error(t: nat, n: nat) -> Option<ErrorKind> {
    if t == 0 || n == 0 || n % t != 0 || depth_for(n / t) > MAX_DEPTH {
        Some(ErrorKind::InvalidParameters)
    } else {
        None
    }
}

/// The depth of the tree of each of the `t` buckets of `n` indices.
pub open spec fn depths(t: nat, n: nat) -> Seq<usize> {
    Seq::new(t, |j: int| depth_for(n / t) as usize)
}

/// The vector of length `t * m` that takes the first `m` blocks of each
/// of the `t` trees, tree after tree.
pub open spec fn regular_output(trees: Seq<Seq<Block>>, t: nat, m: nat) -> Seq<Block> {
    Seq::new(t * m, |i: int| trees[i / (m as int)][i % (m as int)])
}

/// What is wrong with the trees given for a query of `t` buckets of size
/// `m`, if anything: there must be `t` trees of the depth for `m` leaves.
pub open spec fn trees_error(trees: Seq<Seq<Block>>, t: nat, m: nat) -> Option<ErrorKind> {
    if trees.len() != t {
        Some(ErrorKind::CountMismatch(t as usize, trees.len() as usize))
    } else if exists|j: int| 0 <= j < t && #[trigger] trees[j].len() != two_pow(depth_for(m)) {
        Some(ErrorKind::InvalidPayload)
    } else {
        None
    }
}

/// A tree of depth `k` is deep enough for up to two to the power of `k`
/// leaves.
pub proof fn lemma_depth_for_bound(m: nat, k: nat)
    requires
        m <= two_pow(k),
    ensures
        depth_for(m) <= k,
    decreases m,
{
    if m > 1 {
        if k == 0 {
            assert(two_pow(0) == 1);
        } else {
            lemma_depth_for_bound((m + 1) / 2, (k - 1) as nat);
        }
    }
}

/// The depth of the smallest tree with at least `m` leaves.
pub fn depth_of(m: u32) -> (h: usize)
    ensures
        h == depth_for(m as nat),
        h <= 32,
{
    let mut x: u64 = m as u64;
    let mut h: usize = 0;
    proof {
        assert(two_pow(32) == 0x1_0000_0000) by {
            reveal_with_fuel(two_pow, 33);
        }
        lemma_depth_for_bound(m as nat, 32);
    }
    while x > 1
        invariant
            x <= m,
            depth_for(m as nat) == h + depth_for(x as nat),
            depth_for(m as nat) <= 32,
            x <= 0xffff_ffff,
        decreases x,
    {
        x = (x + 1) / 2;
        h = h + 1;
    }
    h
}

/// Validates a query for `t` positions among `n` indices and gives the
/// size of a bucket and the depth of its tree.
pub fn bucket_shape(t: u32, n: u32) -> (r: Result<(u32, usize), ErrorKind>)
    ensures
        match r {
            Ok((m, h)) => query_error(t as nat, n as nat) is None && m == n / t && h == depth_for(
                m as nat,
            ) && h <= MAX_DEPTH && m >= 1,
            Err(e) => query_error(t as nat, n as nat) == Some(e),
        },
{
    if t == 0 || n == 0 || n % t != 0 {
        return Err(ErrorKind::InvalidParameters);
    }
    let m = n / t;
    let h = depth_of(m);
    if h > MAX_DEPTH {
        return Err(ErrorKind::InvalidParameters);
    }
    proof {
        lemma_fundamental_div_mod(n as int, t as int);
        assert(m >= 1) by (nonlinear_arith)
            requires
                n == t * m,
                n > 0,
                t > 0,
                m >= 0,
        ;
    }
    Ok((m, h))
}

/// Takes the first `m` blocks of each tree, tree after tree.
pub fn take_buckets(trees: &[Vec<Block>], t: usize, m: usize, h: usize) -> (r: Result<
    Vec<Block>,
    ErrorKind,
>)
    requires
        h == depth_for(m as nat),
        h <= MAX_DEPTH,
        m >= 1,
        t * m <= u32::MAX,
    ensures
        match r {
            Ok(out) => trees_error(crate::ferret::spcot::deep(trees@), t as nat, m as nat)
                is None && out@ == regular_output(
                crate::ferret::spcot::deep(trees@),
                t as nat,
                m as nat,
            ),
            Err(e) => trees_error(crate::ferret::spcot::deep(trees@), t as nat, m as nat) == Some(
                e,
            ),
        },
{
    let ghost all = crate::ferret::spcot::deep(trees@);
    if trees.len() != t {
        return Err(ErrorKind::CountMismatch(t, trees.len()));
    }
    let size = crate::ferret::spcot::pow2(h);
    let mut j: usize = 0;
    while j < t
        invariant
            j <= t,
            trees@.len() == t,
            all == crate::ferret::spcot::deep(trees@),
            size == two_pow(depth_for(m as nat)),
            forall|k: int| 0 <= k < j ==> (#[trigger] all[k]).len() == size,
        decreases t - j,
    {
        if trees[j].len() != size {
            assert(all[j as int].len() != two_pow(depth_for(m as nat)));
            return Err(ErrorKind::InvalidPayload);
        }
        j = j + 1;
    }
    proof {
        lemma_depth_for(m as nat);
    }
    let mut out: Vec<Block> = Vec::new();
    let mut b: usize = 0;
    while b < t
        invariant
            b <= t,
            m >= 1,
            t * m <= u32::MAX,
            trees@.len() == t,
            all == crate::ferret::spcot::deep(trees@),
            size >= m,
            forall|k: int| 0 <= k < t ==> (#[trigger] all[k]).len() == size,
            out@.len() == b * m,
            forall|i: int|
                0 <= i < b * m ==> #[trigger] out@[i] == all[i / (m as int)][i % (m as int)],
        decreases t - b,
    {
        let tree = &trees[b];
        assert(tree@ == all[b as int]);
        let mut k: usize = 0;
        while k < m
            invariant
                k <= m,
                b < t,
                m >= 1,
                t * m <= u32::MAX,
                tree@ == all[b as int],
                tree@.len() >= m,
                out@.len() == b * m + k,
                forall|i: int|
                    0 <= i < b * m + k ==> #[trigger] out@[i] == all[i / (m as int)][i % (
                    m as int)],
            decreases m - k,
        {
            let ghost before = out@;
            out.push(tree[k]);
            proof {
                assert forall|i: int| 0 <= i < b * m + k + 1 implies #[trigger] out@[i]
                    == all[i / (m as int)][i % (m as int)] by {
                    if i < b * m + k {
                        assert(out@[i] == before[i]);
                    } else {
                        lemma_fundamental_div_mod_converse(i, m as int, b as int, k as int);
                    }
                }
            }
            k = k + 1;
        }
        proof {
            assert(b * m + m == (b + 1) * m) by (nonlinear_arith);
        }
        b = b + 1;
    }
    assert(out@ =~= regular_output(all, t as nat, m as nat));
    Ok(out)
}

/// The receiver's position in bucket `j` lies in that bucket.
pub open spec fn positions_regular(alphas: Seq<u32>, m: nat) -> bool {
    forall|j: int| 0 <= j < alphas.len() ==> (#[trigger] alphas[j]) as int / (m as int) == j
}

/// The receiver's vector is the sender's with delta added at the
/// receiver's positions, and nowhere else.
pub open spec fn multi_point(s: Seq<Block>, r: Seq<Block>, alphas: Seq<u32>, delta: u128) -> bool {
    &&& s.len() == r.len()
    &&& forall|i: int|
        0 <= i < s.len() ==> (#[trigger] r[i])@ == s[i]@ ^ sel(
            exists|j: int| 0 <= j < alphas.len() && #[trigger] alphas[j] == i,
            delta,
        )
}

/// Where the vectors of each bucket's tree differ by delta at the local
/// offset of the bucket's position and nowhere else, the vectors of the
/// query differ by delta at the positions and nowhere else.
pub proof fn lemma_multi_point(
    st: Seq<Seq<Block>>,
    rt: Seq<Seq<Block>>,
    alphas: Seq<u32>,
    m: nat,
    delta: u128,
)
    requires
        m >= 1,
        st.len() == alphas.len(),
        rt.len() == alphas.len(),
        positions_regular(alphas, m),
        forall|j: int| 0 <= j < alphas.len() ==> (#[trigger] st[j]).len() >= m,
        forall|j: int|
            0 <= j < alphas.len() ==> single_point(
                #[trigger] st[j],
                rt[j],
                (alphas[j] as int % (m as int)) as nat,
                delta,
            ),
    ensures
        multi_point(
            regular_output(st, alphas.len(), m),
            regular_output(rt, alphas.len(), m),
            alphas,
            delta,
        ),
{
    let t = alphas.len();
    let s = regular_output(st, t, m);
    let r = regular_output(rt, t, m);
    assert forall|i: int| 0 <= i < s.len() implies (#[trigger] r[i])@ == s[i]@ ^ sel(
        exists|j: int| 0 <= j < alphas.len() && #[trigger] alphas[j] == i,
        delta,
    ) by {
        let b = i / (m as int);
        let k = i % (m as int);
        lemma_fundamental_div_mod(i, m as int);
        assert(0 <= b < t) by (nonlinear_arith)
            requires
                0 <= i < t * m,
                i == m * b + k,
                0 <= k < m,
                m >= 1,
        ;
        assert(single_point(st[b], rt[b], (alphas[b] as int % (m as int)) as nat, delta));
        assert(rt[b][k]@ == st[b][k]@ ^ sel(k == alphas[b] as int % (m as int), delta));
        let hit = exists|j: int| 0 <= j < alphas.len() && #[trigger] alphas[j] == i;
        if k == alphas[b] as int % (m as int) {
            lemma_fundamental_div_mod(alphas[b] as int, m as int);
            assert(alphas[b] as int / (m as int) == b);
            assert(alphas[b] == i);
        } else {
            if hit {
                let j = choose|j: int| 0 <= j < alphas.len() && #[trigger] alphas[j] == i;
                assert(alphas[j] as int / (m as int) == j);
                assert(j == b);
            }
        }
    }
}

} // verus!
