//! What holds between a sender and a receiver that run the protocol with
//! each other.

use crate::bits::bit_at;
use crate::block::{blk_bit, inner_product, sel, Block};
use crate::gf128::{
    lemma_bits_sum, lemma_gf_mul_distributes, lemma_inner_product_offset, lemma_low_mask_step,
    lemma_xor_laws, selected_sum,
};
use crate::ferret::spcot::receiver::{
    bits_value, check_fr, chosen_weights, lemma_flatten_prefix, receiver_check_value, ReceiverView,
};
use crate::ferret::spcot::sender::{corrected, monomials, sender_check_value, SenderView};
use crate::ferret::spcot::flatten;
use crate::prg::seeded_blocks;
use crate::ferret::ggm::node;
use crate::ferret::spcot::msgs::{ExtendFS, MaskBits};
use crate::block::be_bytes;
use crate::ferret::spcot::msgs::CheckFS;
use crate::ferret::spcot::receiver::check_error;
use crate::ferret::spcot::receiver::{batch_error, is_mask_bits, part, trees as receiver_trees};
use crate::hash::blake3_digest;
use crate::ferret::spcot::sender::{is_extend_fs, trees as sender_trees};
use crate::ferret::spcot::{
    depth_sum, lemma_depth_sum_mono, lemma_single_point, mask_bit, receiver_keys, receiver_leaf,
};
use crate::prg::PrgView;
use vstd::prelude::*;

verus! {

/// The blocks of random correlated OTs: each of the receiver's blocks is
/// the sender's, with delta added where the receiver's choice bit is set.
pub open spec fn rcot(qs: Seq<Block>, rs: Seq<bool>, ts: Seq<Block>, delta: u128) -> bool {
    &&& qs.len() == rs.len()
    &&& qs.len() == ts.len()
    &&& forall|i: int| 0 <= i < qs.len() ==> (#[trigger] ts[i])@ == qs[i]@ ^ sel(rs[i], delta)
}

/// The receiver's vector `w` is the sender's vector `v` with `delta` added
/// at position `alpha` and nowhere else.
pub open spec fn single_point(v: Seq<Block>, w: Seq<Block>, alpha: nat, delta: u128) -> bool {
    &&& v.len() == w.len()
    &&& alpha < v.len()
    &&& forall|k: int| 0 <= k < v.len() ==> (#[trigger] w[k])@ == v[k]@ ^ sel(k == alpha, delta)
}

/// In a batch of trees, the receiver's vector of each tree is the sender's
/// with delta added at the receiver's position in that tree, and nowhere
/// else.
///
/// `qs`, `rs`, `ts` are the blocks and choice bits of the random
/// correlated OTs that the batch draws, `masks` the receiver's mask bits
/// and `msg` the sender's answer.
pub proof fn lemma_batch_single_point(
    delta: u128,
    prg: PrgView,
    hs: Seq<usize>,
    alphas: Seq<u32>,
    qs: Seq<Block>,
    rs: Seq<bool>,
    ts: Seq<Block>,
    masks: MaskBits,
    msg: ExtendFS,
)
    requires
        batch_error(hs, alphas, qs.len()) is None,
        rcot(qs, rs, ts, delta),
        is_mask_bits(masks, hs, alphas, rs),
        is_extend_fs(msg, delta, prg, hs, qs, masks.bits@),
    ensures
        forall|b: int|
            0 <= b < hs.len() ==> single_point(
                #[trigger] sender_trees(prg, hs)[b],
                receiver_trees(hs, alphas, ts, msg)[b],
                alphas[b] as nat,
                delta,
            ),
{
    assert forall|b: int| 0 <= b < hs.len() implies single_point(
        #[trigger] sender_trees(prg, hs)[b],
        receiver_trees(hs, alphas, ts, msg)[b],
        alphas[b] as nat,
        delta,
    ) by {
        let h = hs[b] as nat;
        let alpha = alphas[b] as nat;
        let off = depth_sum(hs, b as nat) as int;
        let root = prg.block_at(b as nat);
        lemma_depth_sum_mono(hs, (b + 1) as nat, hs.len());
        let qs_b = part(qs, hs, b);
        let rs_b = rs.subrange(off, off + h);
        let ts_b = part(ts, hs, b);
        let m0_b = part(msg.m0@, hs, b);
        let m1_b = part(msg.m1@, hs, b);
        let c = msg.c@[b]@;
        assert forall|i: int| 0 <= i < h implies (#[trigger] ts_b[i])@ == qs_b[i]@ ^ sel(
            rs_b[i],
            delta,
        ) by {
            assert(ts[off + i]@ == qs[off + i]@ ^ sel(rs[off + i], delta));
        }
        assert forall|i: int| 0 <= i < h implies (#[trigger] m0_b[i])@
            == crate::ferret::spcot::masked_left(
            crate::ferret::ggm::parity_sum(root, (i + 1) as nat, false),
            qs_b[i]@,
            mask_bit(rs_b[i], alpha, h, i as nat),
            delta,
        ) by {
            assert(m0_b[i] == msg.m0@[depth_sum(hs, b as nat) + i]);
            assert(bit_at(masks.bits@, depth_sum(hs, b as nat) + i) == mask_bit(
                rs[depth_sum(hs, b as nat) + i],
                alpha,
                h,
                i as nat,
            ));
        }
        assert forall|i: int| 0 <= i < h implies (#[trigger] m1_b[i])@
            == crate::ferret::spcot::masked_right(
            crate::ferret::ggm::parity_sum(root, (i + 1) as nat, true),
            qs_b[i]@,
            mask_bit(rs_b[i], alpha, h, i as nat),
            delta,
        ) by {
            assert(m1_b[i] == msg.m1@[depth_sum(hs, b as nat) + i]);
            assert(bit_at(masks.bits@, depth_sum(hs, b as nat) + i) == mask_bit(
                rs[depth_sum(hs, b as nat) + i],
                alpha,
                h,
                i as nat,
            ));
        }
        lemma_single_point(delta, root, h, alpha, qs_b, rs_b, ts_b, m0_b, m1_b, c);
        let v = sender_trees(prg, hs)[b];
        let w = receiver_trees(hs, alphas, ts, msg)[b];
        assert forall|k: int| 0 <= k < v.len() implies (#[trigger] w[k])@ == v[k]@ ^ sel(
            k == alpha,
            delta,
        ) by {
            assert(receiver_leaf(alpha, h, receiver_keys(alpha, h, ts_b, m0_b, m1_b), c, k as nat)
                == node(root, h, k as nat) ^ sel(k as nat == alpha, delta));
        }
    }
}

/// For each block of the vectors of a batch, one after the other, whether
/// it is at the chosen position of its tree.
pub open spec fn chosen_flags(ws: Seq<Seq<Block>>, alphas: Seq<u32>) -> Seq<bool>
    decreases ws.len(),
{
    if ws.len() == 0 {
        Seq::empty()
    } else {
        chosen_flags(ws.drop_last(), alphas.drop_last()) + Seq::new(
            ws.last().len(),
            |i: int| i == alphas.last(),
        )
    }
}

proof fn lemma_flat(vs: Seq<Seq<Block>>, ws: Seq<Seq<Block>>, alphas: Seq<u32>, delta: u128, k: int)
    requires
        vs.len() == ws.len(),
        ws.len() == alphas.len(),
        forall|b: int|
            0 <= b < vs.len() ==> single_point(#[trigger] vs[b], ws[b], alphas[b] as nat, delta),
        0 <= k <= ws.len(),
    ensures
        flatten(vs).len() == flatten(ws).len(),
        chosen_flags(ws, alphas).len() == flatten(ws).len(),
        forall|j: int|
            0 <= j < flatten(ws).len() ==> (#[trigger] flatten(ws)[j])@ == flatten(vs)[j]@ ^ sel(
                chosen_flags(ws, alphas)[j],
                delta,
            ),
        flatten(ws.take(k)).len() <= flatten(ws).len(),
        k < ws.len() ==> flatten(ws.take(k)).len() + ws[k].len() <= flatten(ws).len(),
        k < ws.len() ==> (forall|i: int|
            0 <= i < ws[k].len() ==> #[trigger] chosen_flags(ws, alphas)[flatten(ws.take(k)).len()
                + i] == (i == alphas[k])),
    decreases ws.len(),
{
    let n = ws.len() as int;
    if n == 0 {
        assert(ws.take(k) =~= ws);
    } else {
        let vs0 = vs.drop_last();
        let ws0 = ws.drop_last();
        let al0 = alphas.drop_last();
        let k0 = if k < n {
            k
        } else {
            n - 1
        };
        assert forall|b: int| 0 <= b < vs0.len() implies single_point(
            #[trigger] vs0[b],
            ws0[b],
            al0[b] as nat,
            delta,
        ) by {
            assert(single_point(vs[b], ws[b], alphas[b] as nat, delta));
        }
        lemma_flat(vs0, ws0, al0, delta, k0);
        assert(single_point(vs[n - 1], ws[n - 1], alphas[n - 1] as nat, delta));
        let off = flatten(ws0).len() as int;
        assert forall|j: int| 0 <= j < flatten(ws).len() implies (#[trigger] flatten(ws)[j])@
            == flatten(vs)[j]@ ^ sel(chosen_flags(ws, alphas)[j], delta) by {
            if j < off {
                assert(flatten(ws0)[j]@ == flatten(vs0)[j]@ ^ sel(chosen_flags(ws0, al0)[j], delta));
            } else {
                let i = j - off;
                assert(ws[n - 1][i]@ == vs[n - 1][i]@ ^ sel(i == alphas[n - 1] as nat, delta));
            }
        }
        if k < n - 1 {
            assert(ws0.take(k) =~= ws.take(k));
            assert(ws0[k] == ws[k]);
            assert forall|i: int| 0 <= i < ws[k].len() implies #[trigger] chosen_flags(
                ws,
                alphas,
            )[flatten(ws.take(k)).len() + i] == (i == alphas[k]) by {
                assert(chosen_flags(ws0, al0)[flatten(ws0.take(k)).len() + i] == (i == al0[k]));
            }
        } else if k == n - 1 {
            assert(ws.take(k) =~= ws0);
            assert forall|i: int| 0 <= i < ws[k].len() implies #[trigger] chosen_flags(
                ws,
                alphas,
            )[flatten(ws.take(k)).len() + i] == (i == alphas[k]) by {
                assert(chosen_flags(ws, alphas)[off + i] == (i == alphas.last()));
            }
        } else {
            assert(ws.take(k) =~= ws);
        }
    }
}

proof fn lemma_selected_single(
    c: Seq<bool>,
    w: Seq<Block>,
    n0: nat,
    len: nat,
    a: nat,
    m: nat,
)
    requires
        a < len,
        m <= len,
        n0 + len <= c.len(),
        n0 + len <= w.len(),
        forall|i: int| 0 <= i < len ==> #[trigger] c[n0 + i] == (i == a as int),
    ensures
        selected_sum(c, w, n0 + m) == selected_sum(c, w, n0) ^ sel(a < m, w[(n0 + a) as int]@),
    decreases m,
{
    let base = selected_sum(c, w, n0);
    if m == 0 {
        lemma_xor_laws(base, 0, 0);
    } else {
        let i = (m - 1) as nat;
        lemma_selected_single(c, w, n0, len, a, i);
        assert(c[n0 + (i as int)] == (i == a));
        lemma_xor_laws(base, 0, 0);
        lemma_xor_laws(base ^ w[(n0 + a) as int]@, 0, 0);
    }
}

proof fn lemma_chosen_weights(
    vs: Seq<Seq<Block>>,
    ws: Seq<Seq<Block>>,
    alphas: Seq<u32>,
    delta: u128,
    w: Seq<Block>,
    k: nat,
)
    requires
        vs.len() == ws.len(),
        ws.len() == alphas.len(),
        forall|b: int|
            0 <= b < vs.len() ==> single_point(#[trigger] vs[b], ws[b], alphas[b] as nat, delta),
        k <= ws.len(),
        w.len() >= flatten(ws).len(),
    ensures
        selected_sum(chosen_flags(ws, alphas), w, flatten(ws.take(k as int)).len())
            == chosen_weights(ws, alphas, w, k),
    decreases k,
{
    let c = chosen_flags(ws, alphas);
    if k == 0 {
        assert(ws.take(0) =~= Seq::<Seq<Block>>::empty());
    } else {
        let b = (k - 1) as int;
        lemma_chosen_weights(vs, ws, alphas, delta, w, (k - 1) as nat);
        lemma_flat(vs, ws, alphas, delta, b);
        lemma_flatten_prefix(ws, b);
        let n0 = flatten(ws.take(b)).len();
        let len = ws[b].len();
        assert(single_point(vs[b], ws[b], alphas[b] as nat, delta));
        assert forall|i: int| 0 <= i < len implies #[trigger] c[n0 + i] == (i == alphas[b] as nat) by {
            assert(c[flatten(ws.take(b)).len() + i] == (i == alphas[b]));
        }
        lemma_selected_single(c, w, n0, len, alphas[b] as nat, len);
    }
}

/// The consistency check of an honest run holds: where the receiver's
/// vector of each tree is the sender's with delta added at the tree's chosen
/// position, and the OTs of the check are correlated, the two parties
/// compute the same value, so that the receiver accepts the sender's digest.
pub proof fn lemma_check_complete(
    sd: SenderView,
    rd: ReceiverView,
    y_star: Seq<Block>,
    x_star: Seq<bool>,
    z_star: Seq<Block>,
    chi_seed: u128,
)
    requires
        sd.unchecked_vs.len() == rd.unchecked_ws.len(),
        rd.unchecked_ws.len() == rd.alphas.len(),
        forall|b: int|
            0 <= b < sd.unchecked_vs.len() ==> single_point(
                #[trigger] sd.unchecked_vs[b],
                rd.unchecked_ws[b],
                rd.alphas[b] as nat,
                sd.delta,
            ),
        y_star.len() == 128,
        rcot(y_star, x_star, z_star, sd.delta),
    ensures
        receiver_check_value(rd, z_star, chi_seed) == sender_check_value(
            sd,
            y_star,
            check_fr(rd, x_star, chi_seed),
        ),
{
    let delta = sd.delta;
    let vs = flatten(sd.unchecked_vs);
    let ws = flatten(rd.unchecked_ws);
    let flags = chosen_flags(rd.unchecked_ws, rd.alphas);
    let trees = rd.unchecked_ws.len();
    lemma_flat(sd.unchecked_vs, rd.unchecked_ws, rd.alphas, delta, trees as int);
    let chi = seeded_blocks(chi_seed, ws.len());
    // the weighted sums of the vectors differ by delta times the weights at
    // the chosen positions
    lemma_inner_product_offset(vs, ws, flags, delta, chi);
    lemma_chosen_weights(sd.unchecked_vs, rd.unchecked_ws, rd.alphas, delta, chi, trees);
    assert(rd.unchecked_ws.take(trees as int) =~= rd.unchecked_ws);
    let chi_alpha = chosen_weights(rd.unchecked_ws, rd.alphas, chi, trees);
    assert(selected_sum(flags, chi, ws.len()) == chi_alpha);
    // the receiver's blocks of the check differ from the sender's by delta
    // times the receiver's choice bits
    let base = monomials();
    lemma_inner_product_offset(y_star, z_star, x_star, delta, base);
    lemma_bits_value(x_star, base, 128);
    let xs = bits_value(x_star, 128);
    // the sender's corrected blocks differ from its own by delta times
    // the receiver's message
    let check = check_fr(rd, x_star, chi_seed);
    let xp = check.x_prime@;
    assert(xp == xs ^ chi_alpha);
    let ys = corrected(y_star, xp, delta);
    let bits = Seq::new(128, |i: int| blk_bit(xp, i as nat));
    lemma_inner_product_offset(y_star, ys, bits, delta, base);
    lemma_bits_sum(xp, bits, base, 128);
    lemma_low_mask_step(xp, 0);
    assert(selected_sum(bits, base, 128) == xp);
    lemma_gf_mul_distributes(xs, chi_alpha, delta);
    let p = inner_product(vs, chi);
    let q = inner_product(y_star, base);
    lemma_check_values_bv(p, q, crate::block::gf_mul(xs, delta), crate::block::gf_mul(chi_alpha, delta));
}

proof fn lemma_check_values_bv(p: u128, q: u128, a: u128, b: u128)
    by (bit_vector)
    ensures
        (p ^ b) ^ (q ^ a) == p ^ (q ^ (a ^ b)),
{
}

proof fn lemma_bits_value(x: Seq<bool>, base: Seq<Block>, n: nat)
    requires
        n <= 128,
        x.len() >= n,
        base.len() >= n,
        forall|i: int| 0 <= i < n ==> (#[trigger] base[i])@ == 1u128 << (i as u128),
    ensures
        selected_sum(x, base, n) == bits_value(x, n),
    decreases n,
{
    if n > 0 {
        lemma_bits_value(x, base, (n - 1) as nat);
    }
}

/// The two roles of a session are in step: they hold as many vectors that
/// await the check, and each of the receiver's is the sender's with delta
/// added at the receiver's position in that tree, and nowhere else.
pub open spec fn in_step(sd: SenderView, rd: ReceiverView) -> bool {
    &&& sd.unchecked_vs.len() == rd.unchecked_ws.len()
    &&& rd.unchecked_ws.len() == rd.alphas.len()
    &&& forall|b: int|
        0 <= b < sd.unchecked_vs.len() ==> single_point(
            #[trigger] sd.unchecked_vs[b],
            rd.unchecked_ws[b],
            rd.alphas[b] as nat,
            sd.delta,
        )
}

/// A batch that both roles extend leaves them in step, whatever awaited
/// the check before: the vectors of the new trees differ by delta at the
/// receiver's positions only.
pub proof fn lemma_extend_keeps_step(
    sd: SenderView,
    rd: ReceiverView,
    hs: Seq<usize>,
    alphas: Seq<u32>,
    qs: Seq<Block>,
    rs: Seq<bool>,
    ts: Seq<Block>,
    masks: MaskBits,
    msg: ExtendFS,
)
    requires
        in_step(sd, rd),
        batch_error(hs, alphas, qs.len()) is None,
        rcot(qs, rs, ts, sd.delta),
        is_mask_bits(masks, hs, alphas, rs),
        is_extend_fs(msg, sd.delta, sd.prg, hs, qs, masks.bits@),
    ensures
        in_step(
            SenderView {
                delta: sd.delta,
                prg: sd.prg.skip_blocks(hs.len()),
                unchecked_vs: sd.unchecked_vs + sender_trees(sd.prg, hs),
            },
            ReceiverView {
                unchecked_ws: rd.unchecked_ws + receiver_trees(hs, alphas, ts, msg),
                alphas: rd.alphas + alphas,
                chi_seed: rd.chi_seed,
            },
        ),
{
    lemma_batch_single_point(sd.delta, sd.prg, hs, alphas, qs, rs, ts, masks, msg);
    let n = sd.unchecked_vs.len() as int;
    let vs = sd.unchecked_vs + sender_trees(sd.prg, hs);
    let ws = rd.unchecked_ws + receiver_trees(hs, alphas, ts, msg);
    let al = rd.alphas + alphas;
    assert forall|b: int| 0 <= b < vs.len() implies single_point(
        #[trigger] vs[b],
        ws[b],
        al[b] as nat,
        sd.delta,
    ) by {
        if b < n {
            assert(single_point(
                sd.unchecked_vs[b],
                rd.unchecked_ws[b],
                rd.alphas[b] as nat,
                sd.delta,
            ));
        } else {
            assert(single_point(
                sender_trees(sd.prg, hs)[b - n],
                receiver_trees(hs, alphas, ts, msg)[b - n],
                alphas[b - n] as nat,
                sd.delta,
            ));
        }
    }
}

/// The check of two roles in step succeeds: where the check draws random
/// correlated OTs and the sender answers the receiver's message with the
/// digest of its value, the receiver finds nothing wrong. What the two then
/// hand out are the vectors that awaited the check, which differ by delta
/// at the receiver's positions only.
pub proof fn lemma_check_succeeds(
    sd: SenderView,
    rd: ReceiverView,
    y_star: Seq<Block>,
    x_star: Seq<bool>,
    z_star: Seq<Block>,
    chi_seed: Block,
    answer: CheckFS,
)
    requires
        in_step(sd, rd),
        y_star.len() == 128,
        rcot(y_star, x_star, z_star, sd.delta),
        answer.hashed_v@ == blake3_digest(
            be_bytes(sender_check_value(sd, y_star, check_fr(rd, x_star, chi_seed@))),
        ),
    ensures
        check_error(ReceiverView { chi_seed: Some(chi_seed), ..rd }, z_star, answer) is None,
{
    lemma_check_complete(sd, rd, y_star, x_star, z_star, chi_seed@);
}

} // verus!
