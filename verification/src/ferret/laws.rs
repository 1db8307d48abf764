//! What holds between a sender and a receiver that run the protocol with
//! each other.

use crate::block::{sel, Block};
use crate::ferret::lpn::{
    lemma_row_acc_correlated, lemma_sel_sum, row_acc, row_acc_bits, LpnParameters, LpnType,
};
use crate::ferret::mpcot::multi_point;
use crate::ferret::receiver::{
    iteration_blocks, iteration_choices, noise, unzip, zip, ReceiverView,
};
use crate::ferret::sender::{iteration, iterations_needed, setup_error, SenderView};
use crate::prg::PrgView;
use crate::rcot::correlated;
use vstd::arithmetic::div_mod::lemma_fundamental_div_mod;
use vstd::prelude::*;

verus! {

/// An iteration keeps the correlation: where the base OTs are correlated
/// and the vectors of the multi-point query differ by delta exactly at the
/// receiver's noisy positions, the vectors of the iteration are correlated
/// OTs, and so are the OTs that it hands out and the base of the next
/// iteration.
pub proof fn lemma_iteration_correlated(
    sd: SenderView,
    rd: ReceiverView,
    s: Seq<Block>,
    r: Seq<Block>,
)
    requires
        sd.wf(),
        rd.wf(),
        rd.alphas is Some,
        sd.params == rd.params,
        sd.seed == rd.seed,
        correlated(sd.v, rd.u, rd.w, sd.delta),
        s.len() == sd.params.n,
        multi_point(s, r, rd.alphas->0, sd.delta),
    ensures
        correlated(iteration(sd, s), iteration_choices(rd), iteration_blocks(rd, r), sd.delta),
        correlated(
            iteration(sd, s).skip(sd.params.k as int),
            iteration_choices(rd).skip(sd.params.k as int),
            iteration_blocks(rd, r).skip(sd.params.k as int),
            sd.delta,
        ),
        correlated(
            iteration(sd, s).take(sd.params.k as int),
            iteration_choices(rd).take(sd.params.k as int),
            iteration_blocks(rd, r).take(sd.params.k as int),
            sd.delta,
        ),
{
    let delta = sd.delta;
    let seed = sd.seed;
    let n = sd.params.n as nat;
    let k = sd.params.k as int;
    let y = iteration(sd, s);
    let x = iteration_choices(rd);
    let z = iteration_blocks(rd, r);
    let e = noise(rd.alphas->0, n);
    assert forall|i: int| 0 <= i < n implies (#[trigger] z[i])@ == y[i]@ ^ sel(x[i], delta) by {
        lemma_row_acc_correlated(seed, sd.v, rd.u, rd.w, delta, i as nat, 10);
        let a = row_acc(seed, sd.v, i as nat, 10);
        let b = row_acc_bits(seed, rd.u, i as nat, 10);
        assert(r[i]@ == s[i]@ ^ sel(e[i], delta));
        assert(x[i] == (e[i] != b));
        lemma_sel_sum(s[i]@, a, delta);
    }
    assert forall|i: int| 0 <= i < n - k implies (#[trigger] z.skip(k)[i])@ == y.skip(k)[i]@ ^ sel(
        x.skip(k)[i],
        delta,
    ) by {
        assert(z[i + k]@ == y[i + k]@ ^ sel(x[i + k], delta));
    }
    assert forall|i: int| 0 <= i < k implies (#[trigger] z.take(k)[i])@ == y.take(k)[i]@ ^ sel(
        x.take(k)[i],
        delta,
    ) by {
        assert(z[i]@ == y[i]@ ^ sel(x[i], delta));
    }
}

/// With `buffered` OTs at hand and `l` more from each iteration, `count`
/// OTs are at hand after `j` iterations if and only if `j` is at least the
/// number of iterations needed. From nothing at hand this number is
/// `count / l`, rounded up.
pub proof fn lemma_iterations_needed(buffered: nat, count: nat, l: nat, j: nat)
    requires
        l > 0,
    ensures
        (buffered + j * l >= count) <==> (j >= iterations_needed(buffered, count, l)),
        iterations_needed(0, count, l) == (count + l - 1) / (l as int),
        iterations_needed(0, count, l) * l >= count,
        count > 0 ==> (iterations_needed(0, count, l) - 1) * l < count,
{
    lemma_ceil(count, l);
    if count == 0 {
        vstd::arithmetic::div_mod::lemma_basic_div(l - 1, l as int);
    }
    if count > buffered {
        let d = (count - buffered) as nat;
        lemma_ceil(d, l);
        let q = iterations_needed(buffered, count, l) as int;
        if j >= q {
            assert(j * l >= q * l) by (nonlinear_arith)
                requires
                    j >= q,
                    l > 0,
            ;
        } else {
            assert(j * l <= (q - 1) * l) by (nonlinear_arith)
                requires
                    j <= q - 1,
                    l > 0,
            ;
        }
    } else {
        assert(j * l >= 0) by (nonlinear_arith)
            requires
                j >= 0,
                l > 0,
        ;
    }
}

proof fn lemma_ceil(d: nat, l: nat)
    requires
        l > 0,
    ensures
        ((d + l - 1) / (l as int)) * l >= d,
        d > 0 ==> ((d + l - 1) / (l as int) - 1) * l < d,
        (d + l - 1) / (l as int) >= 0,
{
    let q = (d + l - 1) / (l as int);
    lemma_fundamental_div_mod(d + l - 1, l as int);
    assert(l * q == q * l) by (nonlinear_arith);
    assert((q - 1) * l == q * l - l) by (nonlinear_arith);
    assert(q >= 0) by (nonlinear_arith)
        requires
            l * q + (d + l - 1) % (l as int) == d + l - 1,
            0 <= (d + l - 1) % (l as int) < l,
            d >= 0,
            l > 0,
    ;
}

/// The OTs at hand stay correlated: where those at hand are correlated and
/// the new ones are, so are all together, those of a batch that is handed
/// out, and those that are left.
pub proof fn lemma_buffers_correlated(
    sbuf: Seq<Block>,
    rbuf: Seq<(bool, Block)>,
    out_s: Seq<Block>,
    out_x: Seq<bool>,
    out_z: Seq<Block>,
    delta: u128,
    count: int,
)
    requires
        correlated(sbuf, unzip(rbuf).0, unzip(rbuf).1, delta),
        correlated(out_s, out_x, out_z, delta),
        0 <= count <= sbuf.len() + out_s.len(),
    ensures
        correlated(
            sbuf + out_s,
            unzip(rbuf + zip(out_x, out_z)).0,
            unzip(rbuf + zip(out_x, out_z)).1,
            delta,
        ),
        correlated(
            (sbuf + out_s).take(count),
            unzip((rbuf + zip(out_x, out_z)).take(count)).0,
            unzip((rbuf + zip(out_x, out_z)).take(count)).1,
            delta,
        ),
        correlated(
            (sbuf + out_s).skip(count),
            unzip((rbuf + zip(out_x, out_z)).skip(count)).0,
            unzip((rbuf + zip(out_x, out_z)).skip(count)).1,
            delta,
        ),
{
    let s = sbuf + out_s;
    let r = rbuf + zip(out_x, out_z);
    let n = sbuf.len() as int;
    assert forall|i: int| 0 <= i < s.len() implies (#[trigger] unzip(r).1[i])@ == s[i]@ ^ sel(
        unzip(r).0[i],
        delta,
    ) by {
        if i < n {
            assert(unzip(rbuf).1[i]@ == sbuf[i]@ ^ sel(unzip(rbuf).0[i], delta));
        } else {
            assert(out_z[i - n]@ == out_s[i - n]@ ^ sel(out_x[i - n], delta));
        }
    }
    assert forall|i: int| 0 <= i < count implies (#[trigger] unzip(r.take(count)).1[i])@ == s.take(
        count,
    )[i]@ ^ sel(unzip(r.take(count)).0[i], delta) by {
        assert(unzip(r).1[i]@ == s[i]@ ^ sel(unzip(r).0[i], delta));
    }
    assert forall|i: int| 0 <= i < s.len() - count implies (#[trigger] unzip(r.skip(count)).1[i])@
        == s.skip(count)[i]@ ^ sel(unzip(r.skip(count)).0[i], delta) by {
        assert(unzip(r).1[i + count]@ == s[i + count]@ ^ sel(unzip(r).0[i + count], delta));
    }
}

/// The two roles of a session are in step: they have the same
/// parameters, the same seed of the LPN matrix and the same number of
/// iterations behind them; their base OTs are correlated, and so are the OTs
/// that they have at hand; and their next batches have the same number.
pub open spec fn in_step(
    sd: SenderView,
    sbuf: Seq<Block>,
    sid: u64,
    rd: ReceiverView,
    rbuf: Seq<(bool, Block)>,
    rid: u64,
) -> bool {
    &&& sd.wf()
    &&& rd.wf()
    &&& sd.params == rd.params
    &&& sd.seed == rd.seed
    &&& sd.counter == rd.counter
    &&& correlated(sd.v, rd.u, rd.w, sd.delta)
    &&& correlated(sbuf, unzip(rbuf).0, unzip(rbuf).1, sd.delta)
    &&& sid == rid
}

/// Two roles that were set up with the same parameters, the seed that the
/// receiver chose, and correlated base OTs are in step.
pub proof fn lemma_setup_in_step(
    delta: u128,
    params: LpnParameters,
    lpn_type: LpnType,
    seed: u128,
    rng: PrgView,
    v: Seq<Block>,
    u: Seq<bool>,
    w: Seq<Block>,
    id: u64,
)
    requires
        setup_error(params, lpn_type, v.len()) is None,
        correlated(v, u, w, delta),
    ensures
        in_step(
            SenderView { delta, counter: 0, params, seed, v },
            Seq::empty(),
            id,
            ReceiverView { counter: 0, params, lpn_type, seed, u, w, rng, alphas: None },
            Seq::empty(),
            id,
        ),
{
}

/// An iteration leaves the two roles in step: where the vectors of the
/// multi-point query differ by delta exactly at the noisy positions that the
/// receiver drew, the OTs that the iteration adds to those at hand are
/// correlated, and so is the base of the next iteration. It adds `n - k`
/// OTs.
pub proof fn lemma_iteration_keeps_step(
    sd: SenderView,
    sbuf: Seq<Block>,
    rd: ReceiverView,
    rbuf: Seq<(bool, Block)>,
    id: u64,
    s: Seq<Block>,
    r: Seq<Block>,
)
    requires
        in_step(sd, sbuf, id, rd, rbuf, id),
        rd.alphas is Some,
        s.len() == sd.params.n,
        multi_point(s, r, rd.alphas->0, sd.delta),
    ensures
        in_step(
            SenderView {
                counter: sd.counter + 1,
                v: iteration(sd, s).take(sd.params.k as int),
                ..sd
            },
            sbuf + iteration(sd, s).skip(sd.params.k as int),
            id,
            ReceiverView {
                counter: rd.counter + 1,
                u: iteration_choices(rd).take(rd.params.k as int),
                w: iteration_blocks(rd, r).take(rd.params.k as int),
                alphas: None,
                ..rd
            },
            rbuf + zip(
                iteration_choices(rd).skip(rd.params.k as int),
                iteration_blocks(rd, r).skip(rd.params.k as int),
            ),
            id,
        ),
        iteration(sd, s).skip(sd.params.k as int).len() == sd.params.n - sd.params.k,
{
    let k = sd.params.k as int;
    lemma_iteration_correlated(sd, rd, s, r);
    lemma_buffers_correlated(
        sbuf,
        rbuf,
        iteration(sd, s).skip(k),
        iteration_choices(rd).skip(k),
        iteration_blocks(rd, r).skip(k),
        sd.delta,
        0,
    );
}

/// A batch that both roles hand out is correlated, in every call: where
/// the roles are in step and the sender has `count` OTs at hand, so has the
/// receiver; each block of the receiver's batch is the sender's, with delta
/// added where the choice bit is set; the batches have the same number; and
/// the roles are in step afterwards, with what is left at hand.
pub proof fn lemma_batch_correlated(
    sd: SenderView,
    sbuf: Seq<Block>,
    rd: ReceiverView,
    rbuf: Seq<(bool, Block)>,
    id: u64,
    count: nat,
    choices: Seq<bool>,
    msgs: Seq<Block>,
)
    requires
        in_step(sd, sbuf, id, rd, rbuf, id),
        count <= sbuf.len(),
        id < u64::MAX,
        choices.len() == count,
        msgs.len() == count,
        zip(choices, msgs) == rbuf.take(count as int),
    ensures
        count <= rbuf.len(),
        correlated(sbuf.take(count as int), choices, msgs, sd.delta),
        in_step(
            sd,
            sbuf.skip(count as int),
            (id + 1) as u64,
            rd,
            rbuf.skip(count as int),
            (id + 1) as u64,
        ),
{
    lemma_buffers_correlated(
        sbuf,
        rbuf,
        Seq::empty(),
        Seq::empty(),
        Seq::empty(),
        sd.delta,
        count as int,
    );
    assert(sbuf + Seq::<Block>::empty() =~= sbuf);
    assert(rbuf + zip(Seq::<bool>::empty(), Seq::<Block>::empty()) =~= rbuf);
    let taken = rbuf.take(count as int);
    assert forall|i: int| 0 <= i < count implies (#[trigger] msgs[i])@ == sbuf.take(count as int)[i]@
        ^ sel(choices[i], sd.delta) by {
        assert(zip(choices, msgs)[i] == taken[i]);
        assert(unzip(taken).1[i]@ == sbuf.take(count as int)[i]@ ^ sel(
            unzip(taken).0[i],
            sd.delta,
        ));
    }
}

/// Batches are handed out in the order in which the iterations gave their
/// OTs, none dropped and none handed out twice: two batches in a row are
/// the first OTs at hand, and what is left after them is what is left of the
/// whole, whether or not iterations added OTs behind between the two.
pub proof fn lemma_batches_in_order<A>(buf: Seq<A>, more: Seq<A>, first: nat, second: nat)
    requires
        first <= buf.len(),
        second <= buf.len() - first + more.len(),
    ensures
        buf.take(first as int) + (buf.skip(first as int) + more).take(second as int) == (buf
            + more).take((first + second) as int),
        (buf.skip(first as int) + more).skip(second as int) == (buf + more).skip((first + second) as int),
{
    assert(buf.take(first as int) + (buf.skip(first as int) + more).take(second as int) =~= (buf
        + more).take((first + second) as int));
    assert((buf.skip(first as int) + more).skip(second as int) =~= (buf + more).skip(
        (first + second) as int,
    ));
}

} // verus!
