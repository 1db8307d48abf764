//! What holds between a sender and a receiver that run a query for
//! regular positions with each other.

use crate::block::Block;
use crate::ferret::ggm::two_pow;
use crate::ferret::mpcot::receiver_regular::{positions_error, queries};
use crate::ferret::mpcot::{
    depth_for, depths, lemma_depth_for, lemma_multi_point, multi_point, regular_output, trees_error,
};
use crate::ferret::spcot::laws::{lemma_batch_single_point, rcot, single_point};
use crate::ferret::spcot::msgs::{ExtendFS, MaskBits};
use crate::ferret::spcot::receiver::{batch_error, is_mask_bits, trees as receiver_trees};
use crate::ferret::spcot::sender::{is_extend_fs, trees as sender_trees};
use crate::prg::PrgView;
use vstd::prelude::*;

verus! {

/// The local offsets of the positions of a query: that of each bucket's
/// position within its bucket.
pub open spec fn offsets(alphas: Seq<u32>, n: nat) -> Seq<u32> {
    Seq::new(alphas.len(), |j: int| queries(alphas, n)[j].1)
}

/// A query gives vectors that differ by delta at the receiver's positions
/// and nowhere else, for every query that the receiver accepts.
///
/// `qs`, `rs`, `ts` are the blocks and choice bits of the random
/// correlated OTs that the batch of the buckets' trees draws, `masks` the
/// receiver's mask bits and `msg` the sender's answer; the trees are those
/// that the two single-point roles hand out for the batch. Both roles
/// accept the trees, and their vectors differ by delta exactly at `alphas`.
pub proof fn lemma_query_multi_point(
    delta: u128,
    prg: PrgView,
    alphas: Seq<u32>,
    n: nat,
    qs: Seq<Block>,
    rs: Seq<bool>,
    ts: Seq<Block>,
    masks: MaskBits,
    msg: ExtendFS,
)
    requires
        positions_error(alphas, n) is None,
        batch_error(depths(alphas.len(), n), offsets(alphas, n), qs.len()) is None,
        rcot(qs, rs, ts, delta),
        is_mask_bits(masks, depths(alphas.len(), n), offsets(alphas, n), rs),
        is_extend_fs(msg, delta, prg, depths(alphas.len(), n), qs, masks.bits@),
    ensures
        ({
            let t = alphas.len();
            let m = n / t;
            let hs = depths(t, n);
            let st = sender_trees(prg, hs);
            let rt = receiver_trees(hs, offsets(alphas, n), ts, msg);
            &&& trees_error(st, t, m) is None
            &&& trees_error(rt, t, m) is None
            &&& regular_output(st, t, m).len() == n
            &&& multi_point(regular_output(st, t, m), regular_output(rt, t, m), alphas, delta)
        }),
{
    let t = alphas.len();
    let m = n / t;
    let hs = depths(t, n);
    let pos = offsets(alphas, n);
    let st = sender_trees(prg, hs);
    let rt = receiver_trees(hs, pos, ts, msg);
    lemma_batch_single_point(delta, prg, hs, pos, qs, rs, ts, masks, msg);
    lemma_depth_for(m);
    vstd::arithmetic::div_mod::lemma_fundamental_div_mod(n as int, t as int);
    assert(t * m == n) by (nonlinear_arith)
        requires
            n == t * (n as int / t as int) + (n as int % t as int),
            n as int % t as int == 0,
            m == n as int / t as int,
    ;
    assert(m >= 1) by (nonlinear_arith)
        requires
            t * m == n,
            n > 0,
            t > 0,
    ;
    assert forall|j: int| 0 <= j < t implies (#[trigger] st[j]).len() == two_pow(depth_for(m))
        && rt[j].len() == two_pow(depth_for(m)) by {
        assert(hs[j] == depth_for(m) as usize);
    }
    assert forall|j: int| 0 <= j < t implies single_point(
        #[trigger] st[j],
        rt[j],
        (alphas[j] as int % (m as int)) as nat,
        delta,
    ) by {
        vstd::arithmetic::div_mod::lemma_mod_decreases(alphas[j] as nat, m);
        assert(pos[j] == queries(alphas, n)[j].1);
        assert(pos[j] as nat == (alphas[j] as int % (m as int)) as nat);
        assert(single_point(st[j], rt[j], pos[j] as nat, delta));
    }
    lemma_multi_point(st, rt, alphas, m, delta);
}

} // verus!
