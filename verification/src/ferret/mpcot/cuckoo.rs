//! Cuckoo hashing of positions into buckets: each index falls into up to
//! three buckets, and each chosen position is placed in one of its buckets,
//! alone.

use crate::block::{sel, Block};
use crate::cipher::{aes128_encrypt, encrypt};
use crate::ferret::error::ErrorKind;
use crate::ferret::ggm::{two_pow, MAX_DEPTH};
use crate::ferret::lpn::lemma_sel_sum;
use crate::ferret::mpcot::{depth_for, depth_of, lemma_depth_for, multi_point};
use crate::ferret::spcot::deep;
use crate::ferret::spcot::laws::single_point;
use vstd::prelude::*;

verus! {

/// Number of hash functions.
pub const CUCKOO_HASH_NUM: usize = 3;

/// Number of evictions after which the placement of a position is given
/// up.
pub const CUCKOO_TRIAL_NUM: usize = 100;

/// Number of buckets for `t` positions: one and a half times `t`, rounded
/// up.
pub open spec fn bucket_count(t: nat) -> nat {
    (3 * t + 1) / 2
}

/// The bucket that the `i`-th hash function gives to index `x`, among `m`
/// buckets.
pub open spec fn bucket_of(seed: u128, m: nat, i: nat, x: nat) -> nat {
    (aes128_encrypt(seed, (3 * x + i) as u128) as nat) % m
}

/// Whether index `x` falls into bucket `b`.
pub open spec fn in_bucket(seed: u128, m: nat, b: nat, x: nat) -> bool {
    bucket_of(seed, m, 0, x) == b || bucket_of(seed, m, 1, x) == b || bucket_of(seed, m, 2, x) == b
}

/// Number of indices below `upto` that fall into bucket `b`. For an index
/// in the bucket it is the rank of the index among those of the bucket.
pub open spec fn count(seed: u128, m: nat, b: nat, upto: nat) -> nat
    decreases upto,
{
    if upto == 0 {
        0
    } else {
        count(seed, m, b, (upto - 1) as nat) + if in_bucket(seed, m, b, (upto - 1) as nat) {
            1nat
        } else {
            0nat
        }
    }
}

/// The ranks grow with the indices, and strictly so past an index of the
/// bucket.
pub proof fn lemma_count(seed: u128, m: nat, b: nat, x: nat, y: nat)
    requires
        x <= y,
    ensures
        count(seed, m, b, x) <= count(seed, m, b, y),
        count(seed, m, b, y) <= y,
        x < y && in_bucket(seed, m, b, x) ==> count(seed, m, b, x) < count(seed, m, b, y),
    decreases y,
{
    if y > 0 {
        if x < y {
            lemma_count(seed, m, b, x, (y - 1) as nat);
        } else {
            lemma_count(seed, m, b, (x - 1) as nat, (y - 1) as nat);
        }
    }
}

/// The three buckets of an index.
pub fn hash_buckets(seed: Block, m: usize, x: u32) -> (h: (usize, usize, usize))
    requires
        m > 0,
    ensures
        h.0 == bucket_of(seed@, m as nat, 0, x as nat),
        h.1 == bucket_of(seed@, m as nat, 1, x as nat),
        h.2 == bucket_of(seed@, m as nat, 2, x as nat),
        h.0 < m,
        h.1 < m,
        h.2 < m,
{
    let base = 3 * (x as u128);
    let h0 = (encrypt(seed, Block(base)).0 % (m as u128)) as usize;
    let h1 = (encrypt(seed, Block(base + 1)).0 % (m as u128)) as usize;
    let h2 = (encrypt(seed, Block(base + 2)).0 % (m as u128)) as usize;
    (h0, h1, h2)
}

/// Counts an index in each of its buckets.
fn bump(cnt: &mut Vec<u32>, h: (usize, usize, usize))
    requires
        h.0 < old(cnt)@.len(),
        h.1 < old(cnt)@.len(),
        h.2 < old(cnt)@.len(),
        forall|b: int| 0 <= b < old(cnt)@.len() ==> #[trigger] old(cnt)@[b] < u32::MAX,
    ensures
        final(cnt)@.len() == old(cnt)@.len(),
        forall|b: int|
            0 <= b < old(cnt)@.len() ==> #[trigger] final(cnt)@[b] == old(cnt)@[b] + if b == h.0
                || b == h.1 || b == h.2 {
                1int
            } else {
                0int
            },
{
    let c0 = cnt[h.0];
    cnt.set(h.0, c0 + 1);
    if h.1 != h.0 {
        let c1 = cnt[h.1];
        cnt.set(h.1, c1 + 1);
    }
    if h.2 != h.0 && h.2 != h.1 {
        let c2 = cnt[h.2];
        cnt.set(h.2, c2 + 1);
    }
}

/// The number of indices below `n` in each of the `m` buckets.
pub fn bucket_sizes(seed: Block, m: usize, n: u32) -> (sizes: Vec<u32>)
    requires
        m > 0,
    ensures
        sizes@.len() == m,
        forall|b: int|
            0 <= b < m ==> #[trigger] sizes@[b] == count(seed@, m as nat, b as nat, n as nat),
{
    let mut cnt: Vec<u32> = Vec::new();
    let mut b: usize = 0;
    while b < m
        invariant
            b <= m,
            cnt@.len() == b,
            forall|k: int| 0 <= k < b ==> #[trigger] cnt@[k] == 0,
        decreases m - b,
    {
        cnt.push(0);
        b = b + 1;
    }
    let mut x: u32 = 0;
    while x < n
        invariant
            x <= n,
            m > 0,
            cnt@.len() == m,
            forall|k: int|
                0 <= k < m ==> #[trigger] cnt@[k] == count(seed@, m as nat, k as nat, x as nat),
        decreases n - x,
    {
        let h = hash_buckets(seed, m, x);
        proof {
            assert forall|k: int| 0 <= k < m implies #[trigger] cnt@[k] < u32::MAX by {
                lemma_count(seed@, m as nat, k as nat, x as nat, x as nat);
            }
        }
        bump(&mut cnt, h);
        x = x + 1;
    }
    cnt
}

/// What the tree of bucket `b` gives to index `x` through the `i`-th hash
/// function: the block at the rank of `x` in the bucket, or nothing where
/// an earlier hash function gave the same bucket.
pub open spec fn pick(trees: Seq<Seq<Block>>, seed: u128, m: nat, x: nat, i: nat) -> u128 {
    let b = bucket_of(seed, m, i, x);
    if (i >= 1 && b == bucket_of(seed, m, 0, x)) || (i >= 2 && b == bucket_of(seed, m, 1, x)) {
        0
    } else {
        trees[b as int][count(seed, m, b, x) as int]@
    }
}

/// The vector of length `n` whose block at index `x` is the sum of what
/// the trees of the buckets of `x` give to it.
pub open spec fn uniform_output(trees: Seq<Seq<Block>>, seed: u128, m: nat, n: nat) -> Seq<Block> {
    Seq::new(
        n,
        |x: int|
            Block(
                (pick(trees, seed, m, x as nat, 0) ^ pick(trees, seed, m, x as nat, 1)) ^ pick(
                    trees,
                    seed,
                    m,
                    x as nat,
                    2,
                ),
            ),
    )
}

/// Joins the vectors of the trees of the buckets to the vector of the
/// query: each index gets the sum of the blocks at its ranks in its buckets.
pub fn combine(trees: &[Vec<Block>], seed: Block, m: usize, n: u32, sizes: &[u32]) -> (out: Vec<
    Block,
>)
    requires
        m > 0,
        trees@.len() == m,
        sizes@.len() == m,
        forall|b: int|
            0 <= b < m ==> #[trigger] sizes@[b] == count(seed@, m as nat, b as nat, n as nat),
        forall|b: int| 0 <= b < m ==> (#[trigger] trees@[b])@.len() > sizes@[b],
    ensures
        out@ == uniform_output(deep(trees@), seed@, m as nat, n as nat),
{
    let ghost all = deep(trees@);
    let mut cnt: Vec<u32> = Vec::new();
    let mut b: usize = 0;
    while b < m
        invariant
            b <= m,
            cnt@.len() == b,
            forall|k: int| 0 <= k < b ==> #[trigger] cnt@[k] == 0,
        decreases m - b,
    {
        cnt.push(0);
        b = b + 1;
    }
    let mut out: Vec<Block> = Vec::new();
    let mut x: u32 = 0;
    while x < n
        invariant
            x <= n,
            m > 0,
            trees@.len() == m,
            sizes@.len() == m,
            all == deep(trees@),
            forall|k: int|
                0 <= k < m ==> #[trigger] sizes@[k] == count(seed@, m as nat, k as nat, n as nat),
            forall|k: int| 0 <= k < m ==> (#[trigger] trees@[k])@.len() > sizes@[k],
            cnt@.len() == m,
            forall|k: int|
                0 <= k < m ==> #[trigger] cnt@[k] == count(seed@, m as nat, k as nat, x as nat),
            out@.len() == x,
            forall|y: int|
                0 <= y < x ==> (#[trigger] out@[y])@ == (pick(all, seed@, m as nat, y as nat, 0)
                    ^ pick(all, seed@, m as nat, y as nat, 1)) ^ pick(
                    all,
                    seed@,
                    m as nat,
                    y as nat,
                    2,
                ),
        decreases n - x,
    {
        let h = hash_buckets(seed, m, x);
        proof {
            assert forall|k: int| 0 <= k < m implies #[trigger] cnt@[k] < u32::MAX by {
                lemma_count(seed@, m as nat, k as nat, x as nat, x as nat);
            }
            lemma_count(seed@, m as nat, h.0 as nat, x as nat, n as nat);
            lemma_count(seed@, m as nat, h.1 as nat, x as nat, n as nat);
            lemma_count(seed@, m as nat, h.2 as nat, x as nat, n as nat);
            assert(sizes@[h.0 as int] == count(seed@, m as nat, h.0 as nat, n as nat));
            assert(sizes@[h.1 as int] == count(seed@, m as nat, h.1 as nat, n as nat));
            assert(sizes@[h.2 as int] == count(seed@, m as nat, h.2 as nat, n as nat));
            assert(trees@[h.0 as int]@.len() > sizes@[h.0 as int]);
            assert(trees@[h.1 as int]@.len() > sizes@[h.1 as int]);
            assert(trees@[h.2 as int]@.len() > sizes@[h.2 as int]);
        }
        let v0 = trees[h.0][cnt[h.0] as usize];
        let v1 = if h.1 == h.0 {
            Block::zero()
        } else {
            trees[h.1][cnt[h.1] as usize]
        };
        let v2 = if h.2 == h.0 || h.2 == h.1 {
            Block::zero()
        } else {
            trees[h.2][cnt[h.2] as usize]
        };
        let ghost before = out@;
        out.push(v0.xor(v1).xor(v2));
        proof {
            assert(all[h.0 as int] == trees@[h.0 as int]@);
            assert(all[h.1 as int] == trees@[h.1 as int]@);
            assert(all[h.2 as int] == trees@[h.2 as int]@);
            assert forall|y: int| 0 <= y < x + 1 implies (#[trigger] out@[y])@ == (pick(
                all,
                seed@,
                m as nat,
                y as nat,
                0,
            ) ^ pick(all, seed@, m as nat, y as nat, 1)) ^ pick(all, seed@, m as nat, y as nat, 2) by {
                if y < x {
                    assert(out@[y] == before[y]);
                }
            }
        }
        bump(&mut cnt, h);
        x = x + 1;
    }
    assert(out@ =~= uniform_output(all, seed@, m as nat, n as nat));
    out
}

/// The table after the placement of `item` with its `idx`-th hash
/// function: the item takes its bucket, and the position that was there, if
/// any, is placed anew with its next hash function; `None` where this does
/// not end within `fuel` steps.
pub open spec fn insert(
    table: Seq<Option<(u32, u8)>>,
    seed: u128,
    item: u32,
    idx: u8,
    fuel: nat,
) -> Option<Seq<Option<(u32, u8)>>>
    decreases fuel,
{
    if fuel == 0 {
        None
    } else {
        let b = bucket_of(seed, table.len(), idx as nat, item as nat) as int;
        match table[b] {
            None => Some(table.update(b, Some((item, idx)))),
            Some((evicted, e)) => insert(
                table.update(b, Some((item, idx))),
                seed,
                evicted,
                ((e + 1) % 3) as u8,
                (fuel - 1) as nat,
            ),
        }
    }
}

/// The table of `m` buckets after the placement of the first `k`
/// positions, one after the other, each starting with its first hash
/// function.
pub open spec fn place_all(alphas: Seq<u32>, seed: u128, m: nat, k: nat) -> Option<
    Seq<Option<(u32, u8)>>,
>
    decreases k,
{
    if k == 0 {
        Some(Seq::new(m, |b: int| None))
    } else {
        match place_all(alphas, seed, m, (k - 1) as nat) {
            None => None,
            Some(table) => insert(table, seed, alphas[k - 1], 0, CUCKOO_TRIAL_NUM as nat),
        }
    }
}

/// Once the placement of a position is given up, so is that of all.
pub proof fn lemma_place_none(alphas: Seq<u32>, seed: u128, m: nat, k: nat, n: nat)
    requires
        k <= n,
        place_all(alphas, seed, m, k) is None,
    ensures
        place_all(alphas, seed, m, n) is None,
    decreases n,
{
    if k < n {
        lemma_place_none(alphas, seed, m, k, (n - 1) as nat);
    }
}

/// The bucket of one hash function of one item.
fn hash_bucket(seed: Block, m: usize, x: u32, idx: u8) -> (b: usize)
    requires
        m > 0,
        idx < 3,
    ensures
        b == bucket_of(seed@, m as nat, idx as nat, x as nat),
        b < m,
{
    (encrypt(seed, Block(3 * (x as u128) + (idx as u128))).0 % (m as u128)) as usize
}

/// Places the positions in a table of `m` buckets, one after the other.
pub fn place(alphas: &[u32], seed: Block, m: usize) -> (r: Option<Vec<Option<(u32, u8)>>>)
    requires
        m > 0,
    ensures
        match r {
            Some(table) => place_all(alphas@, seed@, m as nat, alphas@.len()) == Some(table@)
                && table@.len() == m,
            None => place_all(alphas@, seed@, m as nat, alphas@.len()) is None,
        },
{
    let mut table: Vec<Option<(u32, u8)>> = Vec::new();
    let mut b: usize = 0;
    while b < m
        invariant
            b <= m,
            table@.len() == b,
            forall|k: int| 0 <= k < b ==> #[trigger] table@[k] == None::<(u32, u8)>,
        decreases m - b,
    {
        table.push(None);
        b = b + 1;
    }
    assert(table@ =~= Seq::new(m as nat, |b: int| None::<(u32, u8)>));
    let mut k: usize = 0;
    while k < alphas.len()
        invariant
            k <= alphas@.len(),
            m > 0,
            table@.len() == m,
            place_all(alphas@, seed@, m as nat, k as nat) == Some(table@),
            forall|b: int|
                0 <= b < m ==> (#[trigger] table@[b] matches Some(e) ==> e.1 < 3),
        decreases alphas@.len() - k,
    {
        let ghost start = table@;
        let mut item = alphas[k];
        let mut idx: u8 = 0;
        let mut fuel: usize = CUCKOO_TRIAL_NUM;
        let mut placed = false;
        while fuel > 0 && !placed
            invariant
                m > 0,
                k < alphas@.len(),
                table@.len() == m,
                idx < 3,
                fuel <= CUCKOO_TRIAL_NUM,
                forall|b: int|
                    0 <= b < m ==> (#[trigger] table@[b] matches Some(e) ==> e.1 < 3),
                !placed ==> insert(start, seed@, alphas@[k as int], 0, CUCKOO_TRIAL_NUM as nat)
                    == insert(table@, seed@, item, idx, fuel as nat),
                placed ==> insert(start, seed@, alphas@[k as int], 0, CUCKOO_TRIAL_NUM as nat)
                    == Some(table@),
            decreases fuel,
                (if placed {
                    0nat
                } else {
                    1nat
                }),
        {
            let b = hash_bucket(seed, m, item, idx);
            let slot = table[b];
            table.set(b, Some((item, idx)));
            match slot {
                None => {
                    placed = true;
                },
                Some((evicted, e)) => {
                    item = evicted;
                    idx = (e + 1) % 3;
                    fuel = fuel - 1;
                },
            }
        }
        if !placed {
            proof {
                lemma_place_none(alphas@, seed@, m as nat, (k + 1) as nat, alphas@.len());
            }
            return None;
        }
        k = k + 1;
    }
    Some(table)
}

/// The position in bucket `b` of a table, if there is one.
pub open spec fn occupant(table: Seq<Option<(u32, u8)>>, b: int) -> Option<u32> {
    match table[b] {
        Some(e) => Some(e.0),
        None => None,
    }
}

/// Whether bucket `b` holds position `a`.
pub open spec fn holds(table: Seq<Option<(u32, u8)>>, b: nat, a: u32) -> bool {
    occupant(table, b as int) == Some(a)
}

/// Position `a` is in exactly one of its buckets.
pub open spec fn placed_once(table: Seq<Option<(u32, u8)>>, seed: u128, a: u32) -> bool {
    let m = table.len();
    let h0 = bucket_of(seed, m, 0, a as nat);
    let h1 = bucket_of(seed, m, 1, a as nat);
    let h2 = bucket_of(seed, m, 2, a as nat);
    let c0 = holds(table, h0, a);
    let c1 = h1 != h0 && holds(table, h1, a);
    let c2 = h2 != h0 && h2 != h1 && holds(table, h2, a);
    (c0 && !c1 && !c2) || (!c0 && c1 && !c2) || (!c0 && !c1 && c2)
}

/// The table places the positions well: each position is in exactly one
/// of its buckets, and each bucket that holds a position holds one of the
/// given positions, which falls into the bucket.
pub open spec fn well_placed(table: Seq<Option<(u32, u8)>>, alphas: Seq<u32>, seed: u128) -> bool {
    &&& forall|j: int| 0 <= j < alphas.len() ==> placed_once(table, seed, #[trigger] alphas[j])
    &&& forall|b: int|
        0 <= b < table.len() ==> (#[trigger] occupant(table, b) matches Some(a) ==> in_bucket(
            seed,
            table.len(),
            b as nat,
            a as nat,
        ) && exists|j: int| 0 <= j < alphas.len() && #[trigger] alphas[j] == a)
}

/// Whether the table places the positions well.
pub fn is_well_placed(table: &Vec<Option<(u32, u8)>>, alphas: &[u32], seed: Block) -> (r: bool)
    requires
        table@.len() > 0,
    ensures
        r == well_placed(table@, alphas@, seed@),
{
    let m = table.len();
    let ghost t = table@;
    let mut used: Vec<bool> = Vec::new();
    let mut b: usize = 0;
    while b < m
        invariant
            b <= m,
            used@.len() == b,
            forall|k: int| 0 <= k < b ==> !#[trigger] used@[k],
        decreases m - b,
    {
        used.push(false);
        b = b + 1;
    }
    let mut j: usize = 0;
    while j < alphas.len()
        invariant
            j <= alphas@.len(),
            m == table@.len(),
            m > 0,
            t == table@,
            used@.len() == m,
            forall|i: int| 0 <= i < j ==> placed_once(t, seed@, #[trigger] alphas@[i]),
            forall|b: int|
                0 <= b < m ==> (#[trigger] used@[b] <==> exists|i: int|
                    0 <= i < j && holds(t, b as nat, #[trigger] alphas@[i]) && in_bucket(
                        seed@,
                        m as nat,
                        b as nat,
                        alphas@[i] as nat,
                    )),
        decreases alphas@.len() - j,
    {
        let a = alphas[j];
        let h = hash_buckets(seed, m, a);
        let c0 = holds_at(table, h.0, a);
        let c1 = h.1 != h.0 && holds_at(table, h.1, a);
        let c2 = h.2 != h.0 && h.2 != h.1 && holds_at(table, h.2, a);
        let once = (c0 && !c1 && !c2) || (!c0 && c1 && !c2) || (!c0 && !c1 && c2);
        if !once {
            assert(!placed_once(t, seed@, alphas@[j as int]));
            return false;
        }
        let loc = if c0 {
            h.0
        } else if c1 {
            h.1
        } else {
            h.2
        };
        let ghost before = used@;
        used.set(loc, true);
        proof {
            assert forall|b: int| 0 <= b < m implies (#[trigger] used@[b] <==> exists|i: int|
                0 <= i < j + 1 && holds(t, b as nat, #[trigger] alphas@[i]) && in_bucket(
                    seed@,
                    m as nat,
                    b as nat,
                    alphas@[i] as nat,
                )) by {
                if b == loc {
                    assert(holds(t, b as nat, alphas@[j as int]) && in_bucket(
                        seed@,
                        m as nat,
                        b as nat,
                        alphas@[j as int] as nat,
                    ));
                } else {
                    assert(used@[b] == before[b]);
                    if exists|i: int|
                        0 <= i < j + 1 && holds(t, b as nat, #[trigger] alphas@[i]) && in_bucket(
                            seed@,
                            m as nat,
                            b as nat,
                            alphas@[i] as nat,
                        ) {
                        let i = choose|i: int|
                            0 <= i < j + 1 && holds(t, b as nat, #[trigger] alphas@[i])
                                && in_bucket(seed@, m as nat, b as nat, alphas@[i] as nat);
                        if i == j {
                            // the position is in bucket `b` and in bucket
                            // `loc`, both among its buckets
                            assert(false);
                        }
                    }
                }
            }
        }
        j = j + 1;
    }
    let mut b: usize = 0;
    while b < m
        invariant
            b <= m,
            m == table@.len(),
            t == table@,
            used@.len() == m,
            forall|i: int| 0 <= i < alphas@.len() ==> placed_once(t, seed@, #[trigger] alphas@[i]),
            forall|k: int|
                0 <= k < m ==> (#[trigger] used@[k] <==> exists|i: int|
                    0 <= i < alphas@.len() && holds(t, k as nat, #[trigger] alphas@[i])
                        && in_bucket(seed@, m as nat, k as nat, alphas@[i] as nat)),
            forall|k: int|
                0 <= k < b ==> (#[trigger] occupant(t, k) matches Some(a) ==> in_bucket(
                    seed@,
                    m as nat,
                    k as nat,
                    a as nat,
                ) && exists|i: int| 0 <= i < alphas@.len() && #[trigger] alphas@[i] == a),
        decreases m - b,
    {
        match table[b] {
            Some(e) => {
                if !used[b] {
                    proof {
                        if well_placed(t, alphas@, seed@) {
                            let a = e.0;
                            assert(occupant(t, b as int) == Some(a));
                            let i = choose|i: int| 0 <= i < alphas@.len() && #[trigger] alphas@[i] == a;
                            assert(holds(t, b as nat, alphas@[i]));
                            assert(false);
                        }
                    }
                    return false;
                }
                proof {
                    let i = choose|i: int|
                        0 <= i < alphas@.len() && holds(t, b as nat, #[trigger] alphas@[i])
                            && in_bucket(seed@, m as nat, b as nat, alphas@[i] as nat);
                    assert(alphas@[i] == e.0);
                }
            },
            None => {},
        }
        b = b + 1;
    }
    true
}

/// Whether bucket `b` of the table holds position `a`.
fn holds_at(table: &Vec<Option<(u32, u8)>>, b: usize, a: u32) -> (r: bool)
    requires
        b < table@.len(),
    ensures
        r == holds(table@, b as nat, a),
{
    match table[b] {
        Some(e) => e.0 == a,
        None => false,
    }
}

/// The position that the receiver chooses in the tree of bucket `b`: the
/// rank of the position that the bucket holds, or, for a bucket that holds
/// none, the place after the last index of the bucket.
pub open spec fn target(table: Seq<Option<(u32, u8)>>, seed: u128, n: nat, b: int) -> nat {
    match occupant(table, b) {
        Some(a) => count(seed, table.len(), b as nat, a as nat),
        None => count(seed, table.len(), b as nat, n),
    }
}

/// The depth of the tree of a bucket with `size` indices: the tree has a
/// leaf for each index and one more.
pub open spec fn bucket_depth(size: nat) -> nat {
    depth_for(size + 1)
}

/// The chosen position in the tree of each bucket.
pub fn targets(table: &Vec<Option<(u32, u8)>>, seed: Block, n: u32, sizes: &[u32]) -> (pos: Vec<
    u32,
>)
    requires
        table@.len() > 0,
        sizes@.len() == table@.len(),
        forall|b: int|
            0 <= b < table@.len() ==> #[trigger] sizes@[b] == count(
                seed@,
                table@.len(),
                b as nat,
                n as nat,
            ),
        forall|b: int|
            0 <= b < table@.len() ==> (#[trigger] occupant(table@, b) matches Some(a) ==> a < n
                && in_bucket(seed@, table@.len(), b as nat, a as nat)),
    ensures
        pos@.len() == table@.len(),
        forall|b: int|
            0 <= b < table@.len() ==> #[trigger] pos@[b] == target(table@, seed@, n as nat, b),
{
    let m = table.len();
    let ghost t = table@;
    let mut cnt: Vec<u32> = Vec::new();
    let mut pos: Vec<u32> = Vec::new();
    let mut b: usize = 0;
    while b < m
        invariant
            b <= m,
            m == sizes@.len(),
            cnt@.len() == b,
            pos@.len() == b,
            forall|k: int| 0 <= k < b ==> #[trigger] cnt@[k] == 0,
            forall|k: int| 0 <= k < b ==> #[trigger] pos@[k] == sizes@[k],
        decreases m - b,
    {
        cnt.push(0);
        pos.push(sizes[b]);
        b = b + 1;
    }
    let mut x: u32 = 0;
    while x < n
        invariant
            x <= n,
            m > 0,
            m == table@.len(),
            t == table@,
            sizes@.len() == m,
            cnt@.len() == m,
            pos@.len() == m,
            forall|k: int|
                0 <= k < m ==> #[trigger] sizes@[k] == count(seed@, m as nat, k as nat, n as nat),
            forall|k: int|
                0 <= k < m ==> (#[trigger] occupant(t, k) matches Some(a) ==> a < n && in_bucket(
                    seed@,
                    m as nat,
                    k as nat,
                    a as nat,
                )),
            forall|k: int|
                0 <= k < m ==> #[trigger] cnt@[k] == count(seed@, m as nat, k as nat, x as nat),
            forall|k: int|
                0 <= k < m ==> #[trigger] pos@[k] == match occupant(t, k) {
                    Some(a) => if a < x {
                        count(seed@, m as nat, k as nat, a as nat) as u32
                    } else {
                        sizes@[k]
                    },
                    None => sizes@[k],
                },
        decreases n - x,
    {
        let h = hash_buckets(seed, m, x);
        proof {
            assert forall|k: int| 0 <= k < m implies #[trigger] cnt@[k] < u32::MAX by {
                lemma_count(seed@, m as nat, k as nat, x as nat, x as nat);
            }
        }
        let ghost before = pos@;
        if holds_at(table, h.0, x) {
            pos.set(h.0, cnt[h.0]);
        }
        if holds_at(table, h.1, x) {
            pos.set(h.1, cnt[h.1]);
        }
        if holds_at(table, h.2, x) {
            pos.set(h.2, cnt[h.2]);
        }
        proof {
            assert forall|k: int| 0 <= k < m implies #[trigger] pos@[k] == match occupant(t, k) {
                Some(a) => if a < x + 1 {
                    count(seed@, m as nat, k as nat, a as nat) as u32
                } else {
                    sizes@[k]
                },
                None => sizes@[k],
            } by {
                assert(before[k] == match occupant(t, k) {
                    Some(a) => if a < x {
                        count(seed@, m as nat, k as nat, a as nat) as u32
                    } else {
                        sizes@[k]
                    },
                    None => sizes@[k],
                });
                if occupant(t, k) == Some(x) {
                    assert(in_bucket(seed@, m as nat, k as nat, x as nat));
                    assert(k == h.0 || k == h.1 || k == h.2);
                    assert(cnt@[k] == count(seed@, m as nat, k as nat, x as nat));
                } else {
                    assert(pos@[k] == before[k]);
                }
            }
        }
        bump(&mut cnt, h);
        x = x + 1;
    }
    proof {
        assert forall|b: int| 0 <= b < m implies #[trigger] pos@[b] == target(t, seed@, n as nat, b) by {
            assert(sizes@[b] == count(seed@, m as nat, b as nat, n as nat));
            match occupant(t, b) {
                Some(a) => {
                    lemma_count(seed@, m as nat, b as nat, a as nat, n as nat);
                },
                None => {},
            }
        }
    }
    pos
}

/// Where the vectors of each bucket's tree differ by delta at the
/// bucket's chosen position and nowhere else, and the table places the
/// positions well, the vectors of the query differ by delta at the positions
/// and nowhere else.
pub proof fn lemma_uniform_multi_point(
    st: Seq<Seq<Block>>,
    rt: Seq<Seq<Block>>,
    alphas: Seq<u32>,
    table: Seq<Option<(u32, u8)>>,
    seed: u128,
    n: nat,
    delta: u128,
)
    requires
        table.len() > 0,
        n <= u32::MAX,
        st.len() == table.len(),
        rt.len() == table.len(),
        well_placed(table, alphas, seed),
        forall|j: int| 0 <= j < alphas.len() ==> (#[trigger] alphas[j]) < n,
        forall|b: int|
            0 <= b < table.len() ==> (#[trigger] st[b]).len() > count(seed, table.len(), b as nat, n),
        forall|b: int|
            0 <= b < table.len() ==> single_point(
                #[trigger] st[b],
                rt[b],
                target(table, seed, n, b),
                delta,
            ),
    ensures
        multi_point(
            uniform_output(st, seed, table.len(), n),
            uniform_output(rt, seed, table.len(), n),
            alphas,
            delta,
        ),
{
    let m = table.len();
    let s = uniform_output(st, seed, m, n);
    let r = uniform_output(rt, seed, m, n);
    assert forall|x: int| 0 <= x < n implies (#[trigger] r[x])@ == s[x]@ ^ sel(
        exists|j: int| 0 <= j < alphas.len() && #[trigger] alphas[j] == x,
        delta,
    ) by {
        let h0 = bucket_of(seed, m, 0, x as nat);
        let h1 = bucket_of(seed, m, 1, x as nat);
        let h2 = bucket_of(seed, m, 2, x as nat);
        let c0 = holds(table, h0, x as u32);
        let c1 = h1 != h0 && holds(table, h1, x as u32);
        let c2 = h2 != h0 && h2 != h1 && holds(table, h2, x as u32);
        lemma_pick(st, rt, table, alphas, seed, n, delta, x as nat, 0);
        lemma_pick(st, rt, table, alphas, seed, n, delta, x as nat, 1);
        lemma_pick(st, rt, table, alphas, seed, n, delta, x as nat, 2);
        let first = pick(st, seed, m, x as nat, 0);
        let second = pick(st, seed, m, x as nat, 1);
        let third = pick(st, seed, m, x as nat, 2);
        lemma_sel_sum(first, second, delta);
        lemma_sel_sum(first ^ second, third, delta);
        let hit = exists|j: int| 0 <= j < alphas.len() && #[trigger] alphas[j] == x;
        if hit {
            let j = choose|j: int| 0 <= j < alphas.len() && #[trigger] alphas[j] == x;
            assert(placed_once(table, seed, alphas[j]));
        } else {
            if c0 {
                assert(occupant(table, h0 as int) == Some(x as u32));
            }
            if c1 {
                assert(occupant(table, h1 as int) == Some(x as u32));
            }
            if c2 {
                assert(occupant(table, h2 as int) == Some(x as u32));
            }
        }
    }
}

proof fn lemma_pick(
    st: Seq<Seq<Block>>,
    rt: Seq<Seq<Block>>,
    table: Seq<Option<(u32, u8)>>,
    alphas: Seq<u32>,
    seed: u128,
    n: nat,
    delta: u128,
    x: nat,
    i: nat,
)
    requires
        table.len() > 0,
        n <= u32::MAX,
        st.len() == table.len(),
        rt.len() == table.len(),
        well_placed(table, alphas, seed),
        forall|j: int| 0 <= j < alphas.len() ==> (#[trigger] alphas[j]) < n,
        forall|b: int|
            0 <= b < table.len() ==> (#[trigger] st[b]).len() > count(seed, table.len(), b as nat, n),
        forall|b: int|
            0 <= b < table.len() ==> single_point(
                #[trigger] st[b],
                rt[b],
                target(table, seed, n, b),
                delta,
            ),
        x < n,
        i < 3,
    ensures
        pick(rt, seed, table.len(), x, i) == pick(st, seed, table.len(), x, i) ^ sel(
            !((i >= 1 && bucket_of(seed, table.len(), i, x) == bucket_of(seed, table.len(), 0, x))
                || (i >= 2 && bucket_of(seed, table.len(), i, x) == bucket_of(
                seed,
                table.len(),
                1,
                x,
            ))) && holds(table, bucket_of(seed, table.len(), i, x), x as u32),
            delta,
        ),
{
    let m = table.len();
    let b = bucket_of(seed, m, i, x);
    let repeated = (i >= 1 && b == bucket_of(seed, m, 0, x)) || (i >= 2 && b == bucket_of(
        seed,
        m,
        1,
        x,
    ));
    if repeated {
        crate::gf128::lemma_xor_laws(0, 0, 0);
    } else {
        let k = count(seed, m, b, x) as int;
        assert(in_bucket(seed, m, b, x));
        lemma_count(seed, m, b, x, n);
        assert(st[b as int].len() > count(seed, m, b, n));
        assert(single_point(st[b as int], rt[b as int], target(table, seed, n, b as int), delta));
        assert(rt[b as int][k]@ == st[b as int][k]@ ^ sel(
            k == target(table, seed, n, b as int),
            delta,
        ));
        match occupant(table, b as int) {
            Some(a) => {
                assert(in_bucket(seed, m, b, a as nat));
                let j = choose|j: int| 0 <= j < alphas.len() && #[trigger] alphas[j] == a;
                assert(alphas[j] < n);
                if (a as nat) < x {
                    lemma_count(seed, m, b, a as nat, x);
                } else if (a as nat) > x {
                    lemma_count(seed, m, b, x, a as nat);
                }
            },
            None => {},
        }
    }
}

/// What is wrong with a query for `t` positions spread anywhere among `n`
/// indices, if anything: there must be a position and no more positions
/// than indices, the number of buckets must be a 32-bit number, and no
/// bucket may be too large for a tree.
pub open spec fn query_error(seed: u128, t: nat, n: nat) -> Option<ErrorKind> {
    if t == 0 || t > n || bucket_count(t) > u32::MAX || exists|b: int|
        0 <= b < bucket_count(t) && bucket_depth(#[trigger] count(seed, bucket_count(t), b as nat, n))
            > MAX_DEPTH {
        Some(ErrorKind::InvalidParameters)
    } else {
        None
    }
}

/// The depth of the tree of each bucket of a query.
pub open spec fn uniform_depths(seed: u128, t: nat, n: nat) -> Seq<usize> {
    Seq::new(
        bucket_count(t),
        |b: int| bucket_depth(count(seed, bucket_count(t), b as nat, n)) as usize,
    )
}

/// The sizes are those of the buckets of a query, and each bucket is
/// small enough for a tree.
pub open spec fn sizes_of(sizes: Seq<u32>, seed: u128, t: nat, n: nat) -> bool {
    &&& 0 < bucket_count(t) <= u32::MAX
    &&& sizes.len() == bucket_count(t)
    &&& forall|b: int|
        0 <= b < sizes.len() ==> #[trigger] sizes[b] == count(seed, bucket_count(t), b as nat, n)
    &&& forall|b: int|
        0 <= b < sizes.len() ==> bucket_depth(
            #[trigger] count(seed, bucket_count(t), b as nat, n),
        ) <= MAX_DEPTH
}

/// Validates a query and gives the sizes of its buckets.
pub fn check_query(seed: Block, t: u32, n: u32) -> (r: Result<Vec<u32>, ErrorKind>)
    ensures
        match r {
            Ok(sizes) => query_error(seed@, t as nat, n as nat) is None && sizes_of(
                sizes@,
                seed@,
                t as nat,
                n as nat,
            ),
            Err(e) => query_error(seed@, t as nat, n as nat) == Some(e),
        },
{
    if t == 0 || t > n {
        return Err(ErrorKind::InvalidParameters);
    }
    let m64: u64 = (3 * (t as u64) + 1) / 2;
    if m64 > u32::MAX as u64 {
        return Err(ErrorKind::InvalidParameters);
    }
    let m = m64 as usize;
    let sizes = bucket_sizes(seed, m, n);
    let mut b: usize = 0;
    while b < m
        invariant
            b <= m,
            m == bucket_count(t as nat),
            sizes@.len() == m,
            forall|k: int|
                0 <= k < m ==> #[trigger] sizes@[k] == count(seed@, m as nat, k as nat, n as nat),
            forall|k: int|
                0 <= k < b ==> bucket_depth(#[trigger] count(seed@, m as nat, k as nat, n as nat))
                    <= MAX_DEPTH,
        decreases m - b,
    {
        let size = sizes[b];
        if size == u32::MAX || depth_of(size + 1) > MAX_DEPTH {
            proof {
                assert(sizes@[b as int] == count(seed@, m as nat, b as nat, n as nat));
                if size == u32::MAX {
                    assert(two_pow(31) == 0x8000_0000) by {
                        reveal_with_fuel(two_pow, 32);
                    }
                    lemma_depth_for((size + 1) as nat);
                    if depth_for((size + 1) as nat) <= 31 {
                        crate::ferret::ggm::lemma_two_pow(depth_for((size + 1) as nat), 31);
                    }
                }
            }
            return Err(ErrorKind::InvalidParameters);
        }
        proof {
            assert(sizes@[b as int] == count(seed@, m as nat, b as nat, n as nat));
        }
        b = b + 1;
    }
    proof {
        if exists|b: int|
            0 <= b < bucket_count(t as nat) && bucket_depth(
                #[trigger] count(seed@, bucket_count(t as nat), b as nat, n as nat),
            ) > MAX_DEPTH {
            let b = choose|b: int|
                0 <= b < bucket_count(t as nat) && bucket_depth(
                    #[trigger] count(seed@, bucket_count(t as nat), b as nat, n as nat),
                ) > MAX_DEPTH;
            assert(false);
        }
    }
    Ok(sizes)
}

/// The depth of the tree of each bucket.
pub fn depths_of(sizes: &[u32]) -> (hs: Vec<usize>)
    requires
        forall|b: int| 0 <= b < sizes@.len() ==> (#[trigger] sizes@[b]) < u32::MAX,
    ensures
        hs@.len() == sizes@.len(),
        forall|b: int| 0 <= b < sizes@.len() ==> #[trigger] hs@[b] == bucket_depth(sizes@[b] as nat),
{
    let mut hs: Vec<usize> = Vec::new();
    let mut b: usize = 0;
    while b < sizes.len()
        invariant
            b <= sizes@.len(),
            hs@.len() == b,
            forall|k: int| 0 <= k < sizes@.len() ==> (#[trigger] sizes@[k]) < u32::MAX,
            forall|k: int| 0 <= k < b ==> #[trigger] hs@[k] == bucket_depth(sizes@[k] as nat),
        decreases sizes@.len() - b,
    {
        hs.push(depth_of(sizes[b] + 1));
        b = b + 1;
    }
    hs
}

/// What is wrong with the trees given for a query, if anything: there
/// must be a tree for each bucket, of the depth for the bucket.
pub open spec fn trees_error(trees: Seq<Seq<Block>>, seed: u128, t: nat, n: nat) -> Option<
    ErrorKind,
> {
    if trees.len() != bucket_count(t) {
        Some(ErrorKind::CountMismatch(bucket_count(t) as usize, trees.len() as usize))
    } else if exists|b: int|
        0 <= b < trees.len() && (#[trigger] trees[b]).len() != two_pow(
            bucket_depth(count(seed, bucket_count(t), b as nat, n)),
        ) {
        Some(ErrorKind::InvalidPayload)
    } else {
        None
    }
}

/// Validates the trees given for a query.
pub(crate) fn check_trees(trees: &[Vec<Block>], sizes: &[u32], Ghost(seed): Ghost<u128>, Ghost(t): Ghost<
    nat,
>, Ghost(n): Ghost<nat>) -> (r: Result<(), ErrorKind>)
    requires
        sizes_of(sizes@, seed, t, n),
        n <= u32::MAX,
    ensures
        match r {
            Ok(_) => trees_error(deep(trees@), seed, t, n) is None && forall|b: int|
                0 <= b < trees@.len() ==> (#[trigger] trees@[b])@.len() > sizes@[b],
            Err(e) => trees_error(deep(trees@), seed, t, n) == Some(e),
        },
{
    let m = sizes.len();
    let ghost all = deep(trees@);
    if trees.len() != m {
        return Err(ErrorKind::CountMismatch(m, trees.len()));
    }
    let mut b: usize = 0;
    while b < m
        invariant
            b <= m,
            m == sizes@.len(),
            trees@.len() == m,
            all == deep(trees@),
            sizes_of(sizes@, seed, t, n),
            n <= u32::MAX,
            forall|k: int|
                0 <= k < b ==> (#[trigger] all[k]).len() == two_pow(
                    bucket_depth(count(seed, bucket_count(t), k as nat, n)),
                ),
            forall|k: int| 0 <= k < b ==> (#[trigger] trees@[k])@.len() > sizes@[k],
        decreases m - b,
    {
        proof {
            assert(sizes@[b as int] == count(seed, bucket_count(t), b as nat, n));
            assert(bucket_depth(count(seed, bucket_count(t), b as nat, n)) <= MAX_DEPTH);
            lemma_count(seed, bucket_count(t), b as nat, n, n);
            lemma_depth_for((sizes@[b as int] + 1) as nat);
            crate::ferret::ggm::lemma_two_pow(bucket_depth(sizes@[b as int] as nat), 31);
        }
        let h = depth_of(sizes[b] + 1);
        if trees[b].len() != crate::ferret::spcot::pow2(h) {
            assert(all[b as int].len() != two_pow(
                bucket_depth(count(seed, bucket_count(t), b as nat, n)),
            ));
            return Err(ErrorKind::InvalidPayload);
        }
        assert(all[b as int] == trees@[b as int]@);
        b = b + 1;
    }
    Ok(())
}

} // verus!
