//! What holds between a sender and a receiver that run the protocol with
//! each other.

use crate::bits::{bit_at, bits_of, packs};
use crate::block::{lemma_block_ext, lemma_lsb0_bit_xor, lemma_lsb0_bit_zero, lsb0_bit, sel, Block};
use crate::cipher::tccr_spec;
use crate::gf128::{lemma_inner_acc_offset, lemma_xor_laws};
use crate::kos::msgs::{Check, Extend};
use crate::kos::receiver::{
    check_of, flips, plaintext, receiver_base, receiver_extended, receiver_u_bit,
    ExtensionView as ReceiverView,
};
use crate::kos::sender::{
    check_holds, chis, is_payload, sender_base, sender_bit, sender_extended,
    ExtensionView as SenderView,
};
use vstd::prelude::*;

verus! {

/// The sender's generators are those of the receiver that the bits of
/// delta choose: the second of a pair where the bit is set, the first
/// where it is clear.
pub open spec fn seeds_match(s: SenderView, r: ReceiverView) -> bool {
    forall|i: int|
        0 <= i < 128 ==> #[trigger] s.rngs[i] == if lsb0_bit(s.delta, i) {
            r.rngs1[i]
        } else {
            r.rngs0[i]
        }
}

/// The sender's shares are the receiver's, with delta added where the
/// receiver's choice is set.
pub open spec fn correlated(qs: Seq<Block>, ts: Seq<Block>, choices: Seq<bool>, delta: u128) -> bool {
    &&& qs.len() == ts.len()
    &&& qs.len() == choices.len()
    &&& forall|j: int| 0 <= j < qs.len() ==> (#[trigger] qs[j])@ == ts[j]@ ^ sel(choices[j], delta)
}

/// After base setup with the seeds that the sender's base choices select,
/// the generators match.
pub proof fn lemma_base_setup_matches(delta: u128, seeds: Seq<Block>, pairs: Seq<[Block; 2]>)
    requires
        forall|i: int|
            0 <= i < 128 ==> #[trigger] seeds[i] == if lsb0_bit(delta, i) {
                pairs[i]@[1]
            } else {
                pairs[i]@[0]
            },
    ensures
        seeds_match(sender_base(delta, seeds), receiver_base(pairs)),
{
    let s = sender_base(delta, seeds);
    let r = receiver_base(pairs);
    assert forall|i: int| 0 <= i < 128 implies #[trigger] s.rngs[i] == if lsb0_bit(s.delta, i) {
        r.rngs1[i]
    } else {
        r.rngs0[i]
    } by {
        assert(seeds[i] == if lsb0_bit(delta, i) {
            pairs[i]@[1]
        } else {
            pairs[i]@[0]
        });
    }
}

/// An extension by no OTs changes neither role and its message is empty.
pub proof fn lemma_extend_zero_is_noop(
    spre: SenderView,
    spost: SenderView,
    rpre: ReceiverView,
    rpost: ReceiverView,
    r: Seq<u8>,
    msg: Extend,
)
    requires
        spre.wf(),
        rpre.wf(),
        r.len() == 0,
        receiver_extended(rpre, rpost, r, 0, msg),
        sender_extended(spre, spost, msg.us@, 0),
    ensures
        spost == spre,
        rpost == rpre,
        msg.count == 0,
        msg.us@ == Seq::<u8>::empty(),
{
    assert(spost.rngs =~= spre.rngs);
    assert(spost.unchecked_qs =~= spre.unchecked_qs);
    assert(rpost.rngs0 =~= rpre.rngs0);
    assert(rpost.rngs1 =~= rpre.rngs1);
    assert(rpost.unchecked_ts =~= rpre.unchecked_ts);
    assert(bits_of(r) =~= Seq::<bool>::empty());
    assert(rpost.unchecked_choices =~= rpre.unchecked_choices);
    assert(msg.us@ =~= Seq::<u8>::empty());
}

/// The OTs of an extension are correlated: each share of the sender is the
/// receiver's share, with delta added where the receiver's choice is set.
/// The generators of the two still match afterwards.
pub proof fn lemma_extension_correlated(
    spre: SenderView,
    spost: SenderView,
    rpre: ReceiverView,
    rpost: ReceiverView,
    r: Seq<u8>,
    rc: nat,
    msg: Extend,
)
    requires
        spre.wf(),
        rpre.wf(),
        seeds_match(spre, rpre),
        8 * r.len() == rc,
        receiver_extended(rpre, rpost, r, rc, msg),
        sender_extended(spre, spost, msg.us@, rc),
    ensures
        seeds_match(spost, rpost),
        forall|j: int|
            0 <= j < rc ==> (#[trigger] spost.unchecked_qs[spre.unchecked_qs.len() + j])@
                == rpost.unchecked_ts[rpre.unchecked_ts.len() + j]@ ^ sel(bit_at(r, j), spre.delta),
{
    let ns = spre.unchecked_qs.len() as int;
    let nr = rpre.unchecked_ts.len() as int;
    let delta = spre.delta;
    assert forall|i: int| 0 <= i < 128 implies #[trigger] spost.rngs[i] == if lsb0_bit(
        spost.delta,
        i,
    ) {
        rpost.rngs1[i]
    } else {
        rpost.rngs0[i]
    } by {
        assert(spre.rngs[i] == if lsb0_bit(spre.delta, i) {
            rpre.rngs1[i]
        } else {
            rpre.rngs0[i]
        });
        assert(spost.rngs[i] == spre.rngs[i].advance(rc / 8));
        assert(rpost.rngs0[i] == rpre.rngs0[i].advance(rc / 8));
        assert(rpost.rngs1[i] == rpre.rngs1[i].advance(rc / 8));
    }
    assert forall|j: int| 0 <= j < rc implies (#[trigger] spost.unchecked_qs[ns + j])@
        == rpost.unchecked_ts[nr + j]@ ^ sel(bit_at(r, j), delta) by {
        let q = spost.unchecked_qs[ns + j]@;
        let t = rpost.unchecked_ts[nr + j]@;
        let c = bit_at(r, j);
        assert forall|i: int| 0 <= i < 128 implies lsb0_bit(q, i) == lsb0_bit(t ^ sel(c, delta), i) by {
            assert(lsb0_bit(spost.unchecked_qs[ns + j]@, i) == sender_bit(
                spre,
                msg.us@,
                rc,
                i,
                j,
            ));
            assert(lsb0_bit(rpost.unchecked_ts[nr + j]@, i) == bit_at(
                rpre.rngs0[i].output(rc / 8),
                j,
            ));
            assert(bit_at(msg.us@, i * rc + j) == receiver_u_bit(rpre, r, rc, i, j));
            assert(spre.rngs[i] == if lsb0_bit(spre.delta, i) {
                rpre.rngs1[i]
            } else {
                rpre.rngs0[i]
            });
            lemma_lsb0_bit_xor(t, sel(c, delta), i);
            lemma_lsb0_bit_zero(i);
        }
        lemma_block_ext(q, t ^ sel(c, delta));
    }
}

/// Extending keeps correlated what awaits the check.
pub proof fn lemma_extension_keeps_correlation(
    spre: SenderView,
    spost: SenderView,
    rpre: ReceiverView,
    rpost: ReceiverView,
    r: Seq<u8>,
    rc: nat,
    msg: Extend,
)
    requires
        spre.wf(),
        rpre.wf(),
        seeds_match(spre, rpre),
        correlated(spre.unchecked_qs, rpre.unchecked_ts, rpre.unchecked_choices, spre.delta),
        8 * r.len() == rc,
        receiver_extended(rpre, rpost, r, rc, msg),
        sender_extended(spre, spost, msg.us@, rc),
    ensures
        seeds_match(spost, rpost),
        correlated(spost.unchecked_qs, rpost.unchecked_ts, rpost.unchecked_choices, spost.delta),
{
    lemma_extension_correlated(spre, spost, rpre, rpost, r, rc, msg);
    let n = spre.unchecked_qs.len() as int;
    assert forall|j: int| 0 <= j < spost.unchecked_qs.len() implies (
    #[trigger] spost.unchecked_qs[j])@ == rpost.unchecked_ts[j]@ ^ sel(
        rpost.unchecked_choices[j],
        spost.delta,
    ) by {
        if j < n {
            assert(spost.unchecked_qs[j] == spost.unchecked_qs.subrange(0, n)[j]);
            assert(rpost.unchecked_ts[j] == rpost.unchecked_ts.subrange(0, n)[j]);
            assert(spre.unchecked_qs[j]@ == rpre.unchecked_ts[j]@ ^ sel(
                rpre.unchecked_choices[j],
                spre.delta,
            ));
        } else {
            let k = j - n;
            assert(spost.unchecked_qs[n + k]@ == rpost.unchecked_ts[n + k]@ ^ sel(
                bit_at(r, k),
                spre.delta,
            ));
            assert(bits_of(r)[k] == bit_at(r, k));
        }
    }
}

/// The check of an honest receiver holds: where the shares that await the
/// check are correlated, the sender accepts the receiver's check message.
pub proof fn lemma_check_complete(s: SenderView, r: ReceiverView, chi_seed: u128)
    requires
        correlated(s.unchecked_qs, r.unchecked_ts, r.unchecked_choices, s.delta),
    ensures
        check_holds(s, chi_seed, check_of(r, chi_seed)),
{
    let n = s.unchecked_qs.len();
    lemma_inner_acc_offset(
        r.unchecked_ts,
        s.unchecked_qs,
        r.unchecked_choices,
        s.delta,
        chis(chi_seed, n),
        n,
    );
}

/// A check message that differs from one that holds in `t0` or in `t1`
/// only does not hold.
pub proof fn lemma_check_detects_tampering(s: SenderView, chi_seed: u128, good: Check, bad: Check)
    requires
        check_holds(s, chi_seed, good),
        bad.x == good.x,
        bad.t0 != good.t0 || bad.t1 != good.t1,
    ensures
        !check_holds(s, chi_seed, bad),
{
}

/// The OTs that are ready are in step: both roles hold as many, the
/// receiver has given keys to all that the sender has sent or holds ready,
/// and the key of each is the hash of the receiver's share under the tweak
/// that the sender uses for it, the share being the sender's with delta
/// added where the receiver's choice is set.
pub open spec fn in_step(s: SenderView, r: ReceiverView) -> bool {
    &&& s.qs.len() == r.keys.len()
    &&& s.qs.len() == r.choices.len()
    &&& r.keyed == s.counter + s.qs.len()
    &&& forall|j: int|
        0 <= j < s.qs.len() ==> (#[trigger] r.keys[j])@ == tccr_spec(
            (s.counter + j) as u128,
            s.qs[j]@ ^ sel(r.choices[j], s.delta),
        )
}

/// Right after base setup the two roles are in step: nothing is ready and
/// nothing was sent.
pub proof fn lemma_base_in_step(delta: u128, seeds: Seq<Block>, pairs: Seq<[Block; 2]>)
    ensures
        in_step(sender_base(delta, seeds), receiver_base(pairs)),
        correlated(
            sender_base(delta, seeds).unchecked_qs,
            receiver_base(pairs).unchecked_ts,
            receiver_base(pairs).unchecked_choices,
            delta,
        ),
{
}

/// An extension leaves the two roles in step: it touches no OT that is
/// ready.
pub proof fn lemma_extension_keeps_step(
    spre: SenderView,
    spost: SenderView,
    rpre: ReceiverView,
    rpost: ReceiverView,
    r: Seq<u8>,
    rc: nat,
    msg: Extend,
)
    requires
        in_step(spre, rpre),
        receiver_extended(rpre, rpost, r, rc, msg),
        sender_extended(spre, spost, msg.us@, rc),
    ensures
        in_step(spost, rpost),
{
}

/// A check that both roles make leaves them in step, in every round: where
/// they were in step before and the shares that awaited the check are
/// correlated, the keys that the receiver makes for the OTs that pass are
/// made with the tweaks that the sender will use for them.
pub proof fn lemma_check_keeps_step(s: SenderView, r: ReceiverView)
    requires
        in_step(s, r),
        correlated(s.unchecked_qs, r.unchecked_ts, r.unchecked_choices, s.delta),
        s.unchecked_qs.len() >= 256,
    ensures
        in_step(s.checked(), r.checked()),
        correlated(
            s.checked().unchecked_qs,
            r.checked().unchecked_ts,
            r.checked().unchecked_choices,
            s.delta,
        ),
{
    let sp = s.checked();
    let rp = r.checked();
    let n = s.qs.len() as int;
    let kept = s.unchecked_qs.len() - 256;
    assert(r.new_keys().len() == kept);
    assert forall|j: int| 0 <= j < sp.qs.len() implies (#[trigger] rp.keys[j])@ == tccr_spec(
        (sp.counter + j) as u128,
        sp.qs[j]@ ^ sel(rp.choices[j], sp.delta),
    ) by {
        if j < n {
            assert(rp.keys[j] == r.keys[j]);
            assert(sp.qs[j] == s.qs[j]);
            assert(rp.choices[j] == r.choices[j]);
        } else {
            let k = j - n;
            assert(rp.keys[j] == r.new_keys()[k]);
            assert(sp.qs[j] == s.unchecked_qs[k]);
            assert(rp.choices[j] == r.unchecked_choices[k]);
            let c = r.unchecked_choices[k];
            let t = r.unchecked_ts[k]@;
            assert(s.unchecked_qs[k]@ == t ^ sel(c, s.delta));
            lemma_xor_laws(t, sel(c, s.delta), 0);
            assert((t ^ sel(c, s.delta)) ^ sel(c, s.delta) == t);
            assert(r.keyed + k == s.counter + j);
        }
    }
}

/// A transfer gives the receiver the message it chose, in every round, and
/// leaves the two roles in step.
///
/// Where the roles are in step and the corrections are those for the
/// choices `wanted`, each plaintext that the receiver finds in the sender's
/// ciphertexts is the message of the pair that `wanted` selects.
pub proof fn lemma_transfer(
    s: SenderView,
    r: ReceiverView,
    msgs: Seq<[Block; 2]>,
    wanted: Seq<bool>,
    flip: Seq<u8>,
    cts: Seq<Block>,
)
    requires
        in_step(s, r),
        msgs.len() <= s.qs.len(),
        msgs.len() == wanted.len(),
        packs(flip, flips(r.choices, wanted)),
        is_payload(s, msgs, flip, cts),
    ensures
        forall|j: int|
            0 <= j < msgs.len() ==> #[trigger] plaintext(r, cts, j) == if wanted[j] {
                msgs[j]@[1]@
            } else {
                msgs[j]@[0]@
            },
        in_step(s.sent(msgs.len()), r.received(msgs.len())),
{
    assert forall|j: int| 0 <= j < msgs.len() implies #[trigger] plaintext(r, cts, j)
        == if wanted[j] {
        msgs[j]@[1]@
    } else {
        msgs[j]@[0]@
    } by {
        let c = r.choices[j];
        let q = s.qs[j]@;
        let tweak = (s.counter + j) as u128;
        let key = r.keys[j]@;
        assert(key == tccr_spec(tweak, q ^ sel(c, s.delta)));
        assert(bit_at(flip, j) == (j < flips(r.choices, wanted).len() && flips(
            r.choices,
            wanted,
        )[j]));
        assert(bit_at(flip, j) == (c != wanted[j]));
        assert(cts[2 * j]@ == tccr_spec(tweak, q) ^ crate::kos::sender::first_msg(msgs, flip, j));
        lemma_xor_laws(q, s.delta, 0);
        lemma_xor_laws(key, msgs[j]@[0]@, 0);
        lemma_xor_laws(key, msgs[j]@[1]@, 0);
        if c {
            assert(cts[2 * j + 1]@ == key ^ crate::kos::sender::second_msg(msgs, flip, j));
        } else {
            assert(cts[2 * j]@ == key ^ crate::kos::sender::first_msg(msgs, flip, j));
        }
    }
    let m = msgs.len() as int;
    let sp = s.sent(msgs.len());
    let rp = r.received(msgs.len());
    assert forall|j: int| 0 <= j < sp.qs.len() implies (#[trigger] rp.keys[j])@ == tccr_spec(
        (sp.counter + j) as u128,
        sp.qs[j]@ ^ sel(rp.choices[j], sp.delta),
    ) by {
        assert(rp.keys[j] == r.keys[j + m]);
        assert(sp.qs[j] == s.qs[j + m]);
        assert(rp.choices[j] == r.choices[j + m]);
    }
}

} // verus!
