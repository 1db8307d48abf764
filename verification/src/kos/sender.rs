//! The KOS15 sender.

pub mod state;

use crate::bits::{bit_at, get_bit};
use crate::block::{clmul_spec, inner_acc, lsb0_bit, Block};
use crate::cipher::{tccr, tccr_spec};
use crate::kos::error::SenderError;
use crate::kos::msgs::{Check, Derandomize, Extend, SenderPayload};
use crate::kos::{
    extension_count, lemma_matrix_bit_at, lemma_pushed_row, next_rows, round_up,
    transpose_to_blocks, xor_sel, SenderConfig, CSP, SACRIFICED,
};
use crate::matrix::{lemma_cell_in_bounds, Matrix};
use crate::prg::{seeded_blocks, stretch, Prg, PrgView};
use vstd::prelude::*;

verus! {

/// Marks the types that are states of the sender.
pub trait Sealed {

}

/// The sender's state.
pub trait State: Sealed {

}

/// The sender's initial state.
#[derive(Default)]
pub struct Initialized {}

impl Sealed for Initialized {

}

impl State for Initialized {

}

/// The sender's state after base setup.
pub struct Extension {
    /// Sender's base OT choices.
    delta: Block,
    /// The generators seeded with what the base OTs gave.
    rngs: Vec<Prg>,
    /// Sender's share of the extended OTs that passed a check.
    qs: Vec<Block>,
    /// Number of OTs sent so far.
    counter: usize,
    /// Sender's share of the extended OTs that await a check.
    unchecked_qs: Vec<Block>,
    /// Whether an operation has failed for good.
    failed: bool,
}

impl Sealed for Extension {

}

impl State for Extension {

}

/// What the sender holds after base setup.
pub struct ExtensionView {
    pub delta: u128,
    pub rngs: Seq<PrgView>,
    pub qs: Seq<Block>,
    pub counter: nat,
    pub unchecked_qs: Seq<Block>,
    /// An operation has failed for good: every later one is refused.
    pub failed: bool,
}

impl ExtensionView {
    /// There is one generator for each base OT.
    pub open spec fn wf(self) -> bool {
        self.rngs.len() == 128
    }

    /// The state after an operation has failed for good.
    pub open spec fn fail(self) -> ExtensionView {
        ExtensionView { failed: true, ..self }
    }

    /// The state after a check that held: all but the last 256 of the OTs
    /// that awaited it are ready to send.
    pub open spec fn checked(self) -> ExtensionView {
        ExtensionView {
            qs: self.qs + self.unchecked_qs.take(self.unchecked_qs.len() - SACRIFICED),
            unchecked_qs: Seq::empty(),
            ..self
        }
    }

    /// The state after `n` pairs were sent: the first `n` OTs are used up.
    pub open spec fn sent(self, n: nat) -> ExtensionView {
        ExtensionView { qs: self.qs.skip(n as int), counter: self.counter + n, ..self }
    }
}

/// The error of a role that has failed before: it names the state that the
/// operation needs.
pub open spec fn is_state_error(e: SenderError) -> bool {
    e matches SenderError::InvalidState(s) && s@ == "Extension"@
}

/// An error after which the role can go on: only that more OTs were asked
/// for than are ready.
pub open spec fn is_recoverable(e: SenderError) -> bool {
    e is InsufficientSetup
}

impl View for Extension {
    type V = ExtensionView;

    closed spec fn view(&self) -> ExtensionView {
        ExtensionView {
            delta: self.delta@,
            rngs: Seq::new(self.rngs@.len(), |i: int| self.rngs@[i]@),
            qs: self.qs@,
            counter: self.counter as nat,
            unchecked_qs: self.unchecked_qs@,
            failed: self.failed,
        }
    }
}

/// KOS15 sender.
pub struct Sender<T: State> {
    config: SenderConfig,
    state: T,
}

impl View for Sender<Extension> {
    type V = ExtensionView;

    closed spec fn view(&self) -> ExtensionView {
        self.state@
    }
}

/// The sender's state right after base setup.
pub open spec fn sender_base(delta: u128, seeds: Seq<Block>) -> ExtensionView {
    ExtensionView {
        delta,
        rngs: Seq::new(128, |i: int| PrgView { seed: stretch(seeds[i]@), word_pos: 0 }),
        qs: Seq::empty(),
        counter: 0,
        unchecked_qs: Seq::empty(),
        failed: false,
    }
}

/// The error with which the sender answers an extension message, if any;
/// `rc` is the number of OTs that the sender extends.
pub open spec fn extend_error(rc: nat, count: usize, us: Seq<u8>) -> Option<SenderError> {
    if count != rc {
        Some(SenderError::CountMismatch(count, rc as usize))
    } else if us.len() != 16 * rc {
        Some(SenderError::InvalidPayload)
    } else {
        None
    }
}

/// Bit `i` of the sender's share of the `j`-th OT of an extension by `rc`
/// OTs: bit `j` of the `i`-th generator's output, flipped where bit `i` of
/// delta and bit `j` of the receiver's `i`-th row are both set.
pub open spec fn sender_bit(pre: ExtensionView, us: Seq<u8>, rc: nat, i: int, j: int) -> bool {
    bit_at(pre.rngs[i].output(rc / 8), j) != (lsb0_bit(pre.delta, i) && bit_at(us, i * rc + j))
}

/// `post` is the sender's state after extending `pre` by `rc` OTs with
/// the receiver's rows `us`.
pub open spec fn sender_extended(pre: ExtensionView, post: ExtensionView, us: Seq<u8>, rc: nat) -> bool {
    &&& post.delta == pre.delta
    &&& post.qs == pre.qs
    &&& post.counter == pre.counter
    &&& post.failed == pre.failed
    &&& post.rngs.len() == 128
    &&& forall|i: int| 0 <= i < 128 ==> #[trigger] post.rngs[i] == pre.rngs[i].advance(rc / 8)
    &&& post.unchecked_qs.len() == pre.unchecked_qs.len() + rc
    &&& post.unchecked_qs.subrange(0, pre.unchecked_qs.len() as int) == pre.unchecked_qs
    &&& forall|j: int, i: int|
        0 <= j < rc && 0 <= i < 128 ==> #[trigger] lsb0_bit(
            post.unchecked_qs[pre.unchecked_qs.len() + j]@,
            i,
        ) == sender_bit(pre, us, rc, i, j)
}

/// The `n` weights of a consistency check, drawn from the generator that
/// the check's seed starts.
pub open spec fn chis(chi_seed: u128, n: nat) -> Seq<Block> {
    seeded_blocks(chi_seed, n)
}

/// What the sender expects of the receiver's check: the weighted sum of
/// its unchecked shares, plus the carry-less product of the receiver's `x`
/// with delta.
pub open spec fn expected_check(pre: ExtensionView, chi_seed: u128, x: u128) -> (u128, u128) {
    let n = pre.unchecked_qs.len();
    let s = inner_acc(pre.unchecked_qs, chis(chi_seed, n), n);
    (s.0 ^ clmul_spec(x, pre.delta).0, s.1 ^ clmul_spec(x, pre.delta).1)
}

/// The receiver's check is the one the sender expects.
pub open spec fn check_holds(pre: ExtensionView, chi_seed: u128, check: Check) -> bool {
    expected_check(pre, chi_seed, check.x@) == (check.t0@, check.t1@)
}

/// The error with which the sender refuses to send `n` pairs, if any.
pub open spec fn send_error(pre: ExtensionView, n: nat, flip: Seq<u8>) -> Option<SenderError> {
    if n > 8 * flip.len() {
        Some(SenderError::CountMismatch((8 * flip.len()) as usize, n as usize))
    } else if n > pre.qs.len() {
        Some(SenderError::InsufficientSetup(n as usize, pre.qs.len() as usize))
    } else {
        None
    }
}

/// The message that the first ciphertext of the `j`-th pair hides.
pub open spec fn first_msg(msgs: Seq<[Block; 2]>, flip: Seq<u8>, j: int) -> u128 {
    if bit_at(flip, j) {
        msgs[j]@[1]@
    } else {
        msgs[j]@[0]@
    }
}

/// The message that the second ciphertext of the `j`-th pair hides.
pub open spec fn second_msg(msgs: Seq<[Block; 2]>, flip: Seq<u8>, j: int) -> u128 {
    if bit_at(flip, j) {
        msgs[j]@[0]@
    } else {
        msgs[j]@[1]@
    }
}

/// `cts` are the ciphertexts of `msgs` under the keys of the first shares
/// in `pre`, corrected by the receiver's `flip`.
pub open spec fn is_payload(pre: ExtensionView, msgs: Seq<[Block; 2]>, flip: Seq<u8>, cts: Seq<Block>) -> bool {
    &&& cts.len() == 2 * msgs.len()
    &&& forall|j: int|
        0 <= j < msgs.len() ==> {
            &&& (#[trigger] cts[2 * j])@ == tccr_spec((pre.counter + j) as u128, pre.qs[j]@)
                ^ first_msg(msgs, flip, j)
            &&& cts[2 * j + 1]@ == tccr_spec((pre.counter + j) as u128, pre.qs[j]@ ^ pre.delta)
                ^ second_msg(msgs, flip, j)
        }
}

impl Sender<Initialized> {
    /// Creates a new sender.
    pub fn new(config: SenderConfig) -> (s: Self)
        ensures
            s.config() == config,
    {
        Sender { config, state: Initialized {  } }
    }

    /// Completes the base setup: `delta` holds the sender's base OT
    /// choices, `seeds` what it received for them.
    pub fn base_setup(self, delta: Block, seeds: [Block; CSP]) -> (s: Sender<Extension>)
        ensures
            s@ == sender_base(delta@, seeds@),
            s.config() == self.config(),
    {
        let mut rngs: Vec<Prg> = Vec::new();
        let mut i: usize = 0;
        while i < CSP
            invariant
                i <= CSP,
                rngs@.len() == i,
                forall|k: int|
                    0 <= k < i ==> (#[trigger] rngs@[k])@ == (PrgView {
                        seed: stretch(seeds@[k]@),
                        word_pos: 0,
                    }),
            decreases CSP - i,
        {
            rngs.push(Prg::from_block(seeds[i]));
            i = i + 1;
        }
        let s = Sender {
            config: self.config,
            state: Extension {
                delta,
                rngs,
                qs: Vec::new(),
                counter: 0,
                unchecked_qs: Vec::new(),
                failed: false,
            },
        };
        assert(s@.rngs =~= sender_base(delta@, seeds@).rngs);
        s
    }
}

impl<T: State> Sender<T> {
    /// The sender's configuration.
    pub closed spec fn config(&self) -> SenderConfig {
        self.config
    }
}

impl Sender<Extension> {
    /// Number of OTs that are set up and checked, ready to send.
    pub fn remaining(&self) -> (n: usize)
        ensures
            n == self@.qs.len(),
    {
        self.state.qs.len()
    }

    /// Number of OTs sent so far.
    pub fn counter(&self) -> (n: usize)
        ensures
            n == self@.counter,
    {
        self.state.counter
    }

    /// Whether an operation has failed for good.
    pub fn is_failed(&self) -> (b: bool)
        ensures
            b == self@.failed,
    {
        self.state.failed
    }

    /// Performs the IKNP extension for `count` OTs, rounded up to a
    /// multiple of 64, with the receiver's extension message.
    ///
    /// The new OTs await the consistency check. An extension by no OTs
    /// changes nothing. A message that does not fit is refused, and the
    /// role has failed for good; one that has failed refuses every
    /// operation.
    pub fn extend(&mut self, count: usize, extend: Extend) -> (res: Result<(), SenderError>)
        requires
            old(self)@.wf(),
            16 * extension_count(count as nat) <= usize::MAX,
        ensures
            final(self).config() == old(self).config(),
            match res {
                Ok(_) => !old(self)@.failed && extend_error(
                    extension_count(count as nat),
                    extend.count,
                    extend.us@,
                ) is None && sender_extended(
                    old(self)@,
                    final(self)@,
                    extend.us@,
                    extension_count(count as nat),
                ),
                Err(e) => final(self)@ == old(self)@.fail() && (if old(self)@.failed {
                    is_state_error(e)
                } else {
                    extend_error(extension_count(count as nat), extend.count, extend.us@) == Some(e)
                }),
            },
    {
        let ghost pre = self@;
        if self.state.failed {
            assert(self@.rngs =~= pre.fail().rngs);
            return Err(SenderError::InvalidState("Extension".to_owned()));
        }
        let rc = round_up(count);
        if extend.count != rc {
            self.state.failed = true;
            assert(self@.rngs =~= pre.fail().rngs);
            return Err(SenderError::CountMismatch(extend.count, rc));
        }
        let w = rc / 8;
        if extend.us.len() != CSP * w {
            self.state.failed = true;
            assert(self@.rngs =~= pre.fail().rngs);
            return Err(SenderError::InvalidPayload);
        }
        let ghost us = extend.us@;
        if rc == 0 {
            proof {
                assert(self@.unchecked_qs.subrange(0, pre.unchecked_qs.len() as int)
                    =~= pre.unchecked_qs);
            }
            return Ok(());
        }
        let delta = self.state.delta;
        let rows = next_rows(&mut self.state.rngs, w);
        proof {
            assert forall|k: int| 0 <= k < 128 implies #[trigger] self@.rngs[k]
                == pre.rngs[k].advance(w as nat) by {
                assert(self.state.rngs@[k]@ == old(self).state.rngs@[k]@.advance(w as nat));
            }
        }
        let mut m = Matrix::new(Vec::new(), w);
        let mut i: usize = 0;
        while i < CSP
            invariant
                i <= CSP,
                rc == 8 * w,
                w > 0,
                us == extend.us@,
                us.len() == 128 * w,
                us.len() <= usize::MAX,
                m@.row_width == w,
                m@.data.len() == i * w,
                pre.wf(),
                delta@ == pre.delta,
                rows@.len() == 128,
                forall|k: int|
                    0 <= k < 128 ==> (#[trigger] rows@[k])@ == pre.rngs[k].output(w as nat)
                        && rows@[k]@.len() == w,
                forall|k: int, j: int|
                    0 <= k < i && 0 <= j < rc ==> #[trigger] m@.bit(k, j) == sender_bit(
                        pre,
                        us,
                        rc as nat,
                        k,
                        j,
                    ),
            decreases CSP - i,
        {
            proof {
                lemma_cell_in_bounds(i as int, 128, w as int, 0);
            }
            let u = vstd::slice::slice_subrange(extend.us.as_slice(), i * w, i * w + w);
            let q = xor_sel(rows[i].as_slice(), u, delta.bit(i));
            let ghost m0 = m@;
            m.push_row(q.as_slice());
            proof {
                lemma_pushed_row(m0.data, q@, i as int);
                assert(m@ == (crate::matrix::MatrixView { data: m0.data + q@, row_width: w as nat }));
                assert(m0 == (crate::matrix::MatrixView { data: m0.data, row_width: w as nat }));
                assert forall|k: int, j: int| 0 <= k < i + 1 && 0 <= j < rc implies #[trigger] m@.bit(
                    k,
                    j,
                ) == sender_bit(pre, us, rc as nat, k, j) by {
                    if k < i {
                        assert(m0.bit(k, j) == sender_bit(pre, us, rc as nat, k, j));
                    } else {
                        assert(m@.bit(i as int, j) == bit_at(q@, j));
                        lemma_matrix_bit_at(us, w as nat, i as int, j);
                        assert(u@[j / 8] == us[i * w + j / 8]);
                        assert(bit_at(u@, j) == bit_at(us, i * rc + j));
                    }
                }
            }
            i = i + 1;
        }
        proof {
            assert(m@.data.len() == 128 * w);
            assert((128 * w) % (w as int) == 0) by (nonlinear_arith)
                requires
                    w > 0,
            ;
            assert((128 * w) / (w as int) == 128) by (nonlinear_arith)
                requires
                    w > 0,
            ;
        }
        let mut blocks = transpose_to_blocks(m);
        self.state.unchecked_qs.append(&mut blocks);
        proof {
            let post = self@;
            assert(post.unchecked_qs.subrange(0, pre.unchecked_qs.len() as int)
                =~= pre.unchecked_qs);
        }
        Ok(())
    }

    /// Checks the receiver's consistency proof for all OTs that await it.
    ///
    /// The seed of the weights must be unbiased: both parties draw it
    /// after the receiver has sent its last extension message. If the check
    /// holds, the last 256 of the OTs are given up and the others are ready
    /// to send. If it does not, the OTs that awaited the check are dropped
    /// and the role has failed for good: it refuses every later operation.
    pub fn check(&mut self, chi_seed: Block, receiver_check: Check) -> (res: Result<
        (),
        SenderError,
    >)
        requires
            old(self)@.failed || old(self)@.unchecked_qs.len() >= SACRIFICED,
        ensures
            final(self).config() == old(self).config(),
            match res {
                Ok(_) => !old(self)@.failed && check_holds(old(self)@, chi_seed@, receiver_check)
                    && final(self)@ == old(self)@.checked(),
                Err(e) => if old(self)@.failed {
                    is_state_error(e) && final(self)@ == old(self)@
                } else {
                    &&& !check_holds(old(self)@, chi_seed@, receiver_check)
                    &&& e == SenderError::ConsistencyCheckFailed
                    &&& final(self)@ == (ExtensionView {
                        unchecked_qs: Seq::empty(),
                        failed: true,
                        ..old(self)@
                    })
                },
            },
    {
        let ghost pre = self@;
        if self.state.failed {
            assert(self@.rngs =~= pre.rngs);
            return Err(SenderError::InvalidState("Extension".to_owned()));
        }
        let mut unchecked: Vec<Block> = Vec::new();
        unchecked.append(&mut self.state.unchecked_qs);
        let n = unchecked.len();
        let weights = Prg::blocks_from_seed(chi_seed, n);
        assert(unchecked@ =~= pre.unchecked_qs);
        let (s0, s1) = Block::inner_clmul(unchecked.as_slice(), weights.as_slice());
        let (x0, x1) = receiver_check.x.clmul(self.state.delta);
        let c0 = s0.xor(x0);
        let c1 = s1.xor(x1);
        proof {
            assert(self@.rngs =~= pre.rngs);
        }
        if !(c0.0 == receiver_check.t0.0 && c1.0 == receiver_check.t1.0) {
            self.state.failed = true;
            assert(self@.rngs =~= pre.rngs);
            assert(self@.unchecked_qs =~= Seq::<Block>::empty());
            return Err(SenderError::ConsistencyCheckFailed);
        }
        unchecked.truncate(n - SACRIFICED);
        self.state.qs.append(&mut unchecked);
        proof {
            assert(self@.rngs =~= pre.rngs);
            assert(self@.unchecked_qs =~= Seq::<Block>::empty());
            assert(self@.qs =~= pre.checked().qs);
        }
        Ok(())
    }

    /// Encrypts the pairs of messages for the receiver, each pair under
    /// the two keys of the next OT, corrected by the receiver's
    /// derandomization.
    ///
    /// Where more pairs are given than OTs are ready, nothing changes and
    /// the sender can go on after extending further. Corrections for fewer
    /// OTs than pairs make the role fail for good.
    pub fn send(&mut self, msgs: &[[Block; 2]], derandomize: Derandomize) -> (res: Result<
        SenderPayload,
        SenderError,
    >)
        requires
            old(self)@.counter + msgs@.len() <= usize::MAX,
            2 * msgs@.len() <= usize::MAX,
        ensures
            final(self).config() == old(self).config(),
            match res {
                Ok(payload) => {
                    &&& !old(self)@.failed
                    &&& send_error(old(self)@, msgs@.len(), derandomize.flip@) is None
                    &&& is_payload(old(self)@, msgs@, derandomize.flip@, payload.ciphertexts@)
                    &&& final(self)@ == old(self)@.sent(msgs@.len())
                },
                Err(e) => if old(self)@.failed {
                    is_state_error(e) && final(self)@ == old(self)@
                } else {
                    &&& send_error(old(self)@, msgs@.len(), derandomize.flip@) == Some(e)
                    &&& final(self)@ == if is_recoverable(e) {
                        old(self)@
                    } else {
                        old(self)@.fail()
                    }
                },
            },
    {
        let ghost pre = self@;
        if self.state.failed {
            return Err(SenderError::InvalidState("Extension".to_owned()));
        }
        let n = msgs.len();
        let flip = derandomize.flip.as_slice();
        if flip.len() < n / 8 || (flip.len() == n / 8 && n % 8 != 0) {
            self.state.failed = true;
            assert(self@.rngs =~= pre.fail().rngs);
            return Err(SenderError::CountMismatch(8 * flip.len(), n));
        }
        if n > self.state.qs.len() {
            return Err(SenderError::InsufficientSetup(n, self.state.qs.len()));
        }
        let rest = self.state.qs.split_off(n);
        let delta = self.state.delta;
        let counter = self.state.counter;
        let mut cts: Vec<Block> = Vec::new();
        let mut j: usize = 0;
        while j < n
            invariant
                j <= n,
                n == msgs@.len(),
                n <= 8 * flip@.len(),
                flip@ == derandomize.flip@,
                self.state.qs@ == pre.qs.take(n as int),
                n <= pre.qs.len(),
                delta@ == pre.delta,
                counter == pre.counter,
                counter + n <= usize::MAX,
                2 * n <= usize::MAX,
                cts@.len() == 2 * j,
                forall|k: int|
                    0 <= k < j ==> {
                        &&& (#[trigger] cts@[2 * k])@ == tccr_spec(
                            (pre.counter + k) as u128,
                            pre.qs[k]@,
                        ) ^ first_msg(msgs@, flip@, k)
                        &&& cts@[2 * k + 1]@ == tccr_spec(
                            (pre.counter + k) as u128,
                            pre.qs[k]@ ^ pre.delta,
                        ) ^ second_msg(msgs@, flip@, k)
                    },
            decreases n - j,
        {
            let q = self.state.qs[j];
            let tweak = Block((counter + j) as u128);
            let k0 = tccr(tweak, q);
            let k1 = tccr(tweak, q.xor(delta));
            let f = get_bit(flip[j / 8], (j % 8) as u8);
            let m0 = msgs[j][0];
            let m1 = msgs[j][1];
            let ghost before = cts@;
            if f {
                cts.push(k0.xor(m1));
                cts.push(k1.xor(m0));
            } else {
                cts.push(k0.xor(m0));
                cts.push(k1.xor(m1));
            }
            proof {
                assert forall|k: int| 0 <= k < j + 1 implies {
                    &&& (#[trigger] cts@[2 * k])@ == tccr_spec(
                        (pre.counter + k) as u128,
                        pre.qs[k]@,
                    ) ^ first_msg(msgs@, flip@, k)
                    &&& cts@[2 * k + 1]@ == tccr_spec(
                        (pre.counter + k) as u128,
                        pre.qs[k]@ ^ pre.delta,
                    ) ^ second_msg(msgs@, flip@, k)
                } by {
                    if k < j {
                        assert(cts@[2 * k] == before[2 * k]);
                        assert(cts@[2 * k + 1] == before[2 * k + 1]);
                    }
                }
            }
            j = j + 1;
        }
        self.state.qs = rest;
        self.state.counter = counter + n;
        proof {
            assert(self@.rngs =~= pre.rngs);
            assert(self@.qs =~= pre.qs.skip(n as int));
            assert(is_payload(pre, msgs@, flip@, cts@));
        }
        Ok(SenderPayload { ciphertexts: cts })
    }
}

} // verus!
