//! The KOS15 receiver.

pub mod state;

use crate::bits::{bit_at, bits_of, from_lsb0_iter, packs, to_lsb0_vec};
use crate::block::{inner_acc, lsb0_bit, Block};
use crate::cipher::{tccr, tccr_spec};
use crate::gf128::selected_sum;
use crate::hash::{blake3_digest, blake3_hash};
use crate::kos::error::ReceiverError;
use crate::kos::msgs::{Check, Derandomize, Extend, SenderPayload};
use crate::kos::sender::chis;
use crate::kos::{
    blocks_bytes, blocks_to_bytes, extension_count, lemma_matrix_bit_at, lemma_pushed_row,
    next_rows, round_up, transpose_to_blocks, xor_sel, ReceiverConfig, CSP, SACRIFICED,
};
use crate::matrix::Matrix;
use crate::prg::{stretch, system_random, Prg, PrgView};
use vstd::prelude::*;

verus! {

/// Marks the types that are states of the receiver.
pub trait Sealed {

}

/// The receiver's state.
pub trait State: Sealed {

}

/// The receiver's initial state.
#[derive(Default)]
pub struct Initialized {}

impl Sealed for Initialized {

}

impl State for Initialized {

}

/// The receiver's state after base setup.
pub struct Extension {
    /// The generators seeded with the first seed of each pair.
    rngs0: Vec<Prg>,
    /// The generators seeded with the second seed of each pair.
    rngs1: Vec<Prg>,
    /// Receiver's keys that passed a check.
    keys: Vec<Block>,
    /// Receiver's random choices that passed a check.
    choices: Vec<bool>,
    /// Number of OTs extended so far.
    counter: usize,
    /// Number of OTs that were given a key so far.
    keyed: usize,
    /// Receiver's share of the extended OTs that await a check.
    unchecked_ts: Vec<Block>,
    /// Receiver's random choices that await a check.
    unchecked_choices: Vec<bool>,
    /// Whether an operation has failed for good.
    failed: bool,
}

impl Sealed for Extension {

}

impl State for Extension {

}

/// What the receiver holds after base setup.
pub struct ExtensionView {
    pub rngs0: Seq<PrgView>,
    pub rngs1: Seq<PrgView>,
    pub keys: Seq<Block>,
    pub choices: Seq<bool>,
    /// Number of OTs extended so far, those given up at a check included.
    pub counter: nat,
    /// Number of OTs that were given a key so far: the place that the next
    /// OT to pass a check takes among all that ever passed one.
    pub keyed: nat,
    pub unchecked_ts: Seq<Block>,
    pub unchecked_choices: Seq<bool>,
    /// An operation has failed for good: every later one is refused.
    pub failed: bool,
}

impl ExtensionView {
    /// There is a pair of generators for each base OT, a choice for each
    /// key, and a choice for each share that awaits a check; every OT that
    /// has a key or awaits a check was extended.
    pub open spec fn wf(self) -> bool {
        &&& self.rngs0.len() == 128
        &&& self.rngs1.len() == 128
        &&& self.keys.len() == self.choices.len()
        &&& self.unchecked_ts.len() == self.unchecked_choices.len()
        &&& self.keyed + self.unchecked_ts.len() <= self.counter
    }

    /// The state after an operation has failed for good.
    pub open spec fn fail(self) -> ExtensionView {
        ExtensionView { failed: true, ..self }
    }

    /// The keys of the OTs that pass the next check: all but the last 256
    /// of those that await it. The key of an OT is the hash of the
    /// receiver's share under the place that the OT takes among all that
    /// ever passed a check, which is the tweak that the sender uses for it.
    pub open spec fn new_keys(self) -> Seq<Block> {
        Seq::new(
            (self.unchecked_ts.len() - SACRIFICED) as nat,
            |j: int| Block(tccr_spec((self.keyed + j) as u128, self.unchecked_ts[j]@)),
        )
    }

    /// The state after a check: all but the last 256 of the OTs that
    /// awaited it have their keys and are ready to receive.
    pub open spec fn checked(self) -> ExtensionView {
        ExtensionView {
            keys: self.keys + self.new_keys(),
            choices: self.choices + self.unchecked_choices.take(
                self.unchecked_choices.len() - SACRIFICED,
            ),
            keyed: self.keyed + self.new_keys().len(),
            unchecked_ts: Seq::empty(),
            unchecked_choices: Seq::empty(),
            ..self
        }
    }

    /// The state after `n` pairs were received: the first `n` OTs are
    /// used up.
    pub open spec fn received(self, n: nat) -> ExtensionView {
        ExtensionView { keys: self.keys.skip(n as int), choices: self.choices.skip(n as int), ..self }
    }
}

/// The error of a role that has failed before: it names the state that the
/// operation needs.
pub open spec fn is_state_error(e: ReceiverError) -> bool {
    e matches ReceiverError::InvalidState(s) && s@ == "Extension"@
}

impl View for Extension {
    type V = ExtensionView;

    closed spec fn view(&self) -> ExtensionView {
        ExtensionView {
            rngs0: Seq::new(self.rngs0@.len(), |i: int| self.rngs0@[i]@),
            rngs1: Seq::new(self.rngs1@.len(), |i: int| self.rngs1@[i]@),
            keys: self.keys@,
            choices: self.choices@,
            counter: self.counter as nat,
            keyed: self.keyed as nat,
            unchecked_ts: self.unchecked_ts@,
            unchecked_choices: self.unchecked_choices@,
            failed: self.failed,
        }
    }
}

/// KOS15 receiver.
pub struct Receiver<T: State> {
    config: ReceiverConfig,
    state: T,
    /// The digests of the batches of ciphertexts received, where the
    /// receiver commits.
    tape: Vec<[u8; 32]>,
}

impl View for Receiver<Extension> {
    type V = ExtensionView;

    closed spec fn view(&self) -> ExtensionView {
        self.state@
    }
}

/// The receiver's state right after base setup.
pub open spec fn receiver_base(seeds: Seq<[Block; 2]>) -> ExtensionView {
    ExtensionView {
        rngs0: Seq::new(128, |i: int| PrgView { seed: stretch(seeds[i]@[0]@), word_pos: 0 }),
        rngs1: Seq::new(128, |i: int| PrgView { seed: stretch(seeds[i]@[1]@), word_pos: 0 }),
        keys: Seq::empty(),
        choices: Seq::empty(),
        counter: 0,
        keyed: 0,
        unchecked_ts: Seq::empty(),
        unchecked_choices: Seq::empty(),
        failed: false,
    }
}

/// Bit `j` of row `i` of the receiver's extension message: the sum of bit
/// `j` of the outputs of the two generators of pair `i` and of the `j`-th
/// choice.
pub open spec fn receiver_u_bit(pre: ExtensionView, r: Seq<u8>, rc: nat, i: int, j: int) -> bool {
    (bit_at(pre.rngs1[i].output(rc / 8), j) != bit_at(pre.rngs0[i].output(rc / 8), j)) != bit_at(
        r,
        j,
    )
}

/// `post` and `msg` are the receiver's state and extension message after
/// extending `pre` by `rc` OTs with the choices packed in `r`.
pub open spec fn receiver_extended(
    pre: ExtensionView,
    post: ExtensionView,
    r: Seq<u8>,
    rc: nat,
    msg: Extend,
) -> bool {
    let n = pre.unchecked_ts.len() as int;
    &&& post.keys == pre.keys
    &&& post.choices == pre.choices
    &&& post.counter == pre.counter + rc
    &&& post.keyed == pre.keyed
    &&& post.failed == pre.failed
    &&& post.rngs0.len() == 128
    &&& post.rngs1.len() == 128
    &&& forall|i: int| 0 <= i < 128 ==> #[trigger] post.rngs0[i] == pre.rngs0[i].advance(rc / 8)
    &&& forall|i: int| 0 <= i < 128 ==> #[trigger] post.rngs1[i] == pre.rngs1[i].advance(rc / 8)
    &&& post.unchecked_ts.len() == n + rc
    &&& post.unchecked_ts.subrange(0, n) == pre.unchecked_ts
    &&& post.unchecked_choices == pre.unchecked_choices + bits_of(r)
    &&& forall|j: int, i: int|
        0 <= j < rc && 0 <= i < 128 ==> #[trigger] lsb0_bit(post.unchecked_ts[n + j]@, i)
            == bit_at(pre.rngs0[i].output(rc / 8), j)
    &&& msg.count == rc
    &&& msg.us@.len() == 16 * rc
    &&& forall|i: int, j: int|
        0 <= i < 128 && 0 <= j < rc ==> #[trigger] bit_at(msg.us@, i * rc + j) == receiver_u_bit(
            pre,
            r,
            rc,
            i,
            j,
        )
}

/// The receiver's consistency check for the OTs that await it in `pre`.
pub open spec fn check_of(pre: ExtensionView, chi_seed: u128) -> Check {
    let n = pre.unchecked_ts.len();
    let w = chis(chi_seed, n);
    Check {
        x: Block(selected_sum(pre.unchecked_choices, w, n)),
        t0: Block(inner_acc(pre.unchecked_ts, w, n).0),
        t1: Block(inner_acc(pre.unchecked_ts, w, n).1),
    }
}

/// The corrections for the choices `wanted`, given the random `choices`:
/// one bit for each OT that both have, set where the two differ.
pub open spec fn flips(choices: Seq<bool>, wanted: Seq<bool>) -> Seq<bool> {
    Seq::new(
        if choices.len() <= wanted.len() {
            choices.len()
        } else {
            wanted.len()
        },
        |j: int| choices[j] != wanted[j],
    )
}

/// The error with which the receiver refuses a payload, if any.
pub open spec fn receive_error(pre: ExtensionView, cts: Seq<Block>) -> Option<ReceiverError> {
    if cts.len() % 2 != 0 {
        Some(ReceiverError::InvalidPayload)
    } else if cts.len() / 2 > pre.keys.len() {
        Some(ReceiverError::CountMismatch(pre.keys.len() as usize, (cts.len() / 2) as usize))
    } else {
        None
    }
}

/// The plaintext of the `j`-th pair of ciphertexts: the ciphertext that
/// the receiver's random choice selects, with the key removed.
pub open spec fn plaintext(pre: ExtensionView, cts: Seq<Block>, j: int) -> u128 {
    if pre.choices[j] {
        pre.keys[j]@ ^ cts[2 * j + 1]@
    } else {
        pre.keys[j]@ ^ cts[2 * j]@
    }
}

impl Receiver<Initialized> {
    /// Creates a new receiver.
    pub fn new(config: ReceiverConfig) -> (r: Self)
        ensures
            r.config() == config,
            r.tape() == Seq::<Seq<u8>>::empty(),
    {
        let r = Receiver { config, state: Initialized {  }, tape: Vec::new() };
        assert(r.tape() =~= Seq::<Seq<u8>>::empty());
        r
    }

    /// Completes the base setup with the pairs of seeds that the receiver
    /// sent by base OT.
    pub fn base_setup(self, seeds: [[Block; 2]; CSP]) -> (r: Receiver<Extension>)
        ensures
            r@ == receiver_base(seeds@),
            r.config() == self.config(),
            r.tape() == self.tape(),
    {
        let mut rngs0: Vec<Prg> = Vec::new();
        let mut rngs1: Vec<Prg> = Vec::new();
        let mut i: usize = 0;
        while i < CSP
            invariant
                i <= CSP,
                rngs0@.len() == i,
                rngs1@.len() == i,
                forall|k: int|
                    0 <= k < i ==> (#[trigger] rngs0@[k])@ == (PrgView {
                        seed: stretch(seeds@[k]@[0]@),
                        word_pos: 0,
                    }),
                forall|k: int|
                    0 <= k < i ==> (#[trigger] rngs1@[k])@ == (PrgView {
                        seed: stretch(seeds@[k]@[1]@),
                        word_pos: 0,
                    }),
            decreases CSP - i,
        {
            rngs0.push(Prg::from_block(seeds[i][0]));
            rngs1.push(Prg::from_block(seeds[i][1]));
            i = i + 1;
        }
        let r = Receiver {
            config: self.config,
            state: Extension {
                rngs0,
                rngs1,
                keys: Vec::new(),
                choices: Vec::new(),
                counter: 0,
                keyed: 0,
                unchecked_ts: Vec::new(),
                unchecked_choices: Vec::new(),
                failed: false,
            },
            tape: self.tape,
        };
        assert(r@.rngs0 =~= receiver_base(seeds@).rngs0);
        assert(r@.rngs1 =~= receiver_base(seeds@).rngs1);
        r
    }
}

impl<T: State> Receiver<T> {
    /// The receiver's configuration.
    pub closed spec fn config(&self) -> ReceiverConfig {
        self.config
    }

    /// The digests on the receiver's tape, oldest first.
    pub closed spec fn tape(&self) -> Seq<Seq<u8>> {
        Seq::new(self.tape@.len(), |i: int| self.tape@[i]@)
    }
}

impl Receiver<Extension> {
    /// Number of OTs that are set up and checked, ready to receive.
    pub fn remaining(&self) -> (n: usize)
        ensures
            n == self@.keys.len(),
    {
        self.state.keys.len()
    }

    /// Number of OTs extended so far.
    pub fn counter(&self) -> (n: usize)
        ensures
            n == self@.counter,
    {
        self.state.counter
    }

    /// Whether an operation has failed for good.
    pub fn is_failed(&self) -> (b: bool)
        ensures
            b == self@.failed,
    {
        self.state.failed
    }

    /// The digests on the receiver's tape, oldest first.
    pub fn tape_digests(&self) -> (t: &[[u8; 32]])
        ensures
            Seq::new(t@.len(), |i: int| t@[i]@) == self.tape(),
    {
        let t = self.tape.as_slice();
        assert(Seq::new(t@.len(), |i: int| t@[i]@) =~= self.tape());
        t
    }

    /// The receiver's random choices for the OTs that are ready.
    pub fn choices(&self) -> (c: &[bool])
        ensures
            c@ == self@.choices,
    {
        self.state.choices.as_slice()
    }

    /// Performs the IKNP extension for `count` OTs, rounded up to a
    /// multiple of 64, with the given random choices: one bit for each OT,
    /// eight to a byte, least significant bit first.
    ///
    /// The new OTs await the consistency check. An extension by no OTs
    /// changes nothing and gives an empty message. A role that has failed
    /// refuses.
    pub fn extend_with_choices(&mut self, count: usize, choices: &[u8]) -> (res: Result<
        Extend,
        ReceiverError,
    >)
        requires
            old(self)@.wf(),
            16 * extension_count(count as nat) <= usize::MAX,
            old(self)@.counter + extension_count(count as nat) <= usize::MAX,
            8 * choices@.len() == extension_count(count as nat),
        ensures
            final(self).config() == old(self).config(),
            final(self).tape() == old(self).tape(),
            final(self)@.wf(),
            match res {
                Ok(msg) => !old(self)@.failed && receiver_extended(
                    old(self)@,
                    final(self)@,
                    choices@,
                    extension_count(count as nat),
                    msg,
                ),
                Err(e) => old(self)@.failed && is_state_error(e) && final(self)@ == old(self)@,
            },
    {
        if self.state.failed {
            return Err(ReceiverError::InvalidState("Extension".to_owned()));
        }
        let rc = round_up(count);
        let w = rc / 8;
        let ghost pre = self@;
        let ghost r = choices@;
        if rc == 0 {
            proof {
                assert(bits_of(r) =~= Seq::<bool>::empty());
                assert(self@.unchecked_choices =~= pre.unchecked_choices + bits_of(r));
                assert(self@.unchecked_ts.subrange(0, pre.unchecked_ts.len() as int)
                    =~= pre.unchecked_ts);
            }
            return Ok(Extend { count: rc, us: Vec::new() });
        }
        let rows0 = next_rows(&mut self.state.rngs0, w);
        let rows1 = next_rows(&mut self.state.rngs1, w);
        proof {
            assert forall|k: int| 0 <= k < 128 implies #[trigger] self@.rngs0[k]
                == pre.rngs0[k].advance(w as nat) by {
                assert(self.state.rngs0@[k]@ == old(self).state.rngs0@[k]@.advance(w as nat));
            }
            assert forall|k: int| 0 <= k < 128 implies #[trigger] self@.rngs1[k]
                == pre.rngs1[k].advance(w as nat) by {
                assert(self.state.rngs1@[k]@ == old(self).state.rngs1@[k]@.advance(w as nat));
            }
        }
        let mut ts = Matrix::new(Vec::new(), w);
        let mut us = Matrix::new(Vec::new(), w);
        let mut i: usize = 0;
        while i < CSP
            invariant
                i <= CSP,
                rc == 8 * w,
                w > 0,
                r == choices@,
                r.len() == w,
                ts@.row_width == w,
                ts@.data.len() == i * w,
                us@.row_width == w,
                us@.data.len() == i * w,
                pre.wf(),
                rows0@.len() == 128,
                rows1@.len() == 128,
                forall|k: int|
                    0 <= k < 128 ==> (#[trigger] rows0@[k])@ == pre.rngs0[k].output(w as nat)
                        && rows0@[k]@.len() == w,
                forall|k: int|
                    0 <= k < 128 ==> (#[trigger] rows1@[k])@ == pre.rngs1[k].output(w as nat)
                        && rows1@[k]@.len() == w,
                forall|k: int, j: int|
                    0 <= k < i && 0 <= j < rc ==> #[trigger] ts@.bit(k, j) == bit_at(
                        pre.rngs0[k].output(w as nat),
                        j,
                    ),
                forall|k: int, j: int|
                    0 <= k < i && 0 <= j < rc ==> #[trigger] us@.bit(k, j) == receiver_u_bit(
                        pre,
                        r,
                        rc as nat,
                        k,
                        j,
                    ),
            decreases CSP - i,
        {
            let t = rows0[i].as_slice();
            let v = xor_sel(rows1[i].as_slice(), t, true);
            let u = xor_sel(v.as_slice(), choices, true);
            let ghost ts0 = ts@;
            let ghost us0 = us@;
            ts.push_row(t);
            us.push_row(u.as_slice());
            proof {
                lemma_pushed_row(ts0.data, t@, i as int);
                lemma_pushed_row(us0.data, u@, i as int);
                assert(ts@ == (crate::matrix::MatrixView { data: ts0.data + t@, row_width: w as nat }));
                assert(ts0 == (crate::matrix::MatrixView { data: ts0.data, row_width: w as nat }));
                assert(us@ == (crate::matrix::MatrixView { data: us0.data + u@, row_width: w as nat }));
                assert(us0 == (crate::matrix::MatrixView { data: us0.data, row_width: w as nat }));
                assert forall|k: int, j: int| 0 <= k < i + 1 && 0 <= j < rc implies #[trigger] ts@.bit(
                    k,
                    j,
                ) == bit_at(pre.rngs0[k].output(w as nat), j) by {
                    if k < i {
                        assert(ts0.bit(k, j) == bit_at(pre.rngs0[k].output(w as nat), j));
                    } else {
                        assert(ts@.bit(i as int, j) == bit_at(t@, j));
                    }
                }
                assert forall|k: int, j: int| 0 <= k < i + 1 && 0 <= j < rc implies #[trigger] us@.bit(
                    k,
                    j,
                ) == receiver_u_bit(pre, r, rc as nat, k, j) by {
                    if k < i {
                        assert(us0.bit(k, j) == receiver_u_bit(pre, r, rc as nat, k, j));
                    } else {
                        assert(us@.bit(i as int, j) == bit_at(u@, j));
                        assert(bit_at(u@, j) == (bit_at(v@, j) != (true && bit_at(r, j))));
                        assert(bit_at(v@, j) == (bit_at(rows1@[i as int]@, j) != (true && bit_at(
                            t@,
                            j,
                        ))));
                    }
                }
            }
            i = i + 1;
        }
        proof {
            assert(ts@.data.len() == 128 * w);
            assert((128 * w) % (w as int) == 0) by (nonlinear_arith)
                requires
                    w > 0,
            ;
            assert((128 * w) / (w as int) == 128) by (nonlinear_arith)
                requires
                    w > 0,
            ;
        }
        let ghost usv = us@;
        let mut blocks = transpose_to_blocks(ts);
        let counter = self.state.counter;
        let ghost n0 = pre.unchecked_ts.len() as int;
        let ghost fresh = blocks@;
        self.state.unchecked_ts.append(&mut blocks);
        let mut bits = to_lsb0_vec(choices);
        let ghost rr0 = self@.rngs0;
        let ghost rr1 = self@.rngs1;
        self.state.unchecked_choices.append(&mut bits);
        self.state.counter = counter + rc;
        let msg = Extend { count: rc, us: us.into_inner() };
        proof {
            let post = self@;
            assert(post.rngs0 =~= rr0);
            assert(post.rngs1 =~= rr1);
            assert(post.unchecked_ts.subrange(0, n0) =~= pre.unchecked_ts);
            assert(bits_of(r).len() == rc);
            assert forall|jj: int, ii: int| 0 <= jj < rc && 0 <= ii < 128 implies #[trigger] lsb0_bit(
                post.unchecked_ts[n0 + jj]@,
                ii,
            ) == bit_at(pre.rngs0[ii].output(rc as nat / 8), jj) by {
                assert(post.unchecked_ts[n0 + jj] == fresh[jj]);
            }
            assert forall|ii: int, jj: int| 0 <= ii < 128 && 0 <= jj < rc implies #[trigger] bit_at(
                msg.us@,
                ii * rc + jj,
            ) == receiver_u_bit(pre, r, rc as nat, ii, jj) by {
                lemma_matrix_bit_at(usv.data, w as nat, ii, jj);
                assert(usv.bit(ii, jj) == receiver_u_bit(pre, r, rc as nat, ii, jj));
            }
        }
        Ok(msg)
    }

    /// Performs the IKNP extension for `count` OTs, rounded up to a
    /// multiple of 64, with choices drawn at random.
    ///
    /// The new OTs await the consistency check. A role that has failed
    /// refuses.
    pub fn extend(&mut self, count: usize) -> (res: Result<Extend, ReceiverError>)
        requires
            old(self)@.wf(),
            16 * extension_count(count as nat) <= usize::MAX,
            old(self)@.counter + extension_count(count as nat) <= usize::MAX,
        ensures
            final(self).config() == old(self).config(),
            final(self).tape() == old(self).tape(),
            final(self)@.wf(),
            match res {
                Ok(msg) => !old(self)@.failed && exists|r: Seq<u8>|
                    8 * r.len() == extension_count(count as nat) && #[trigger] receiver_extended(
                        old(self)@,
                        final(self)@,
                        r,
                        extension_count(count as nat),
                        msg,
                    ),
                Err(e) => old(self)@.failed && is_state_error(e) && final(self)@ == old(self)@,
            },
    {
        if self.state.failed {
            return Err(ReceiverError::InvalidState("Extension".to_owned()));
        }
        let rc = round_up(count);
        let choices = system_random(rc / 8);
        self.extend_with_choices(count, choices.as_slice())
    }

    /// Computes the receiver's consistency check for all OTs that await
    /// it.
    ///
    /// The seed of the weights must be unbiased: both parties draw it
    /// after the receiver has sent its last extension message. The last
    /// 256 of the OTs are given up; the others get their keys and are ready
    /// to receive. A role that has failed refuses.
    pub fn check(&mut self, chi_seed: Block) -> (res: Result<Check, ReceiverError>)
        requires
            old(self)@.wf(),
            old(self)@.failed || old(self)@.unchecked_ts.len() >= SACRIFICED,
        ensures
            final(self).config() == old(self).config(),
            final(self).tape() == old(self).tape(),
            final(self)@.wf(),
            match res {
                Ok(check) => !old(self)@.failed && check == check_of(old(self)@, chi_seed@)
                    && final(self)@ == old(self)@.checked(),
                Err(e) => old(self)@.failed && is_state_error(e) && final(self)@ == old(self)@,
            },
    {
        if self.state.failed {
            return Err(ReceiverError::InvalidState("Extension".to_owned()));
        }
        let ghost pre = self@;
        let mut ts: Vec<Block> = Vec::new();
        ts.append(&mut self.state.unchecked_ts);
        let mut choices: Vec<bool> = Vec::new();
        choices.append(&mut self.state.unchecked_choices);
        let n = ts.len();
        let weights = Prg::blocks_from_seed(chi_seed, n);
        assert(ts@ =~= pre.unchecked_ts);
        assert(choices@ =~= pre.unchecked_choices);
        let (t0, t1) = Block::inner_clmul(ts.as_slice(), weights.as_slice());
        let mut x = Block::zero();
        let mut j: usize = 0;
        while j < n
            invariant
                j <= n,
                n == choices@.len(),
                n == weights@.len(),
                x@ == selected_sum(choices@, weights@, j as nat),
            decreases n - j,
        {
            x = x.xor(weights[j].select(choices[j]));
            j = j + 1;
        }
        let kept = n - SACRIFICED;
        let keyed = self.state.keyed;
        let mut keys: Vec<Block> = Vec::new();
        let mut j: usize = 0;
        while j < kept
            invariant
                j <= kept,
                kept == n - SACRIFICED,
                n == ts@.len(),
                ts@ == pre.unchecked_ts,
                keyed == pre.keyed,
                keyed + n <= usize::MAX,
                keys@.len() == j,
                forall|k: int| 0 <= k < j ==> #[trigger] keys@[k] == pre.new_keys()[k],
            decreases kept - j,
        {
            keys.push(tccr(Block((keyed + j) as u128), ts[j]));
            j = j + 1;
        }
        assert(keys@ =~= pre.new_keys());
        choices.truncate(kept);
        self.state.keys.append(&mut keys);
        self.state.choices.append(&mut choices);
        self.state.keyed = keyed + kept;
        proof {
            assert(self@.rngs0 =~= pre.rngs0);
            assert(self@.rngs1 =~= pre.rngs1);
        }
        Ok(Check { x, t0, t1 })
    }

    /// Computes the corrections that turn the receiver's random choices
    /// into the given ones: one bit for each OT that is ready and has a
    /// choice given, set where the given choice differs from the random
    /// one; eight bits to a byte, least significant bit first. A role that
    /// has failed refuses.
    pub fn derandomize(&self, choices: &[bool]) -> (res: Result<Derandomize, ReceiverError>)
        ensures
            match res {
                Ok(d) => !self@.failed && packs(d.flip@, flips(self@.choices, choices@)),
                Err(e) => self@.failed && is_state_error(e),
            },
    {
        if self.state.failed {
            return Err(ReceiverError::InvalidState("Extension".to_owned()));
        }
        let n = if self.state.choices.len() <= choices.len() {
            self.state.choices.len()
        } else {
            choices.len()
        };
        let mut bits: Vec<bool> = Vec::new();
        let mut j: usize = 0;
        while j < n
            invariant
                j <= n,
                n <= self.state.choices@.len(),
                n <= choices@.len(),
                bits@.len() == j,
                forall|k: int|
                    0 <= k < j ==> #[trigger] bits@[k] == (self.state.choices@[k] != choices@[k]),
            decreases n - j,
        {
            bits.push(self.state.choices[j] != choices[j]);
            j = j + 1;
        }
        assert(bits@ =~= flips(self@.choices, choices@));
        Ok(Derandomize { flip: from_lsb0_iter(bits.as_slice()) })
    }

    /// Decrypts the sender's payload: of each pair of ciphertexts the
    /// one that the receiver's random choice selects, with the next key.
    ///
    /// A receiver that commits adds the BLAKE3 digest of the ciphertexts'
    /// bytes to its tape. A payload that is malformed or holds more pairs
    /// than OTs are ready makes the role fail for good; one that has failed
    /// refuses every operation.
    pub fn receive(&mut self, payload: SenderPayload) -> (res: Result<Vec<Block>, ReceiverError>)
        requires
            old(self)@.wf(),
        ensures
            final(self).config() == old(self).config(),
            final(self)@.wf(),
            match res {
                Ok(msgs) => {
                    let cts = payload.ciphertexts@;
                    let n = cts.len() / 2;
                    &&& !old(self)@.failed
                    &&& receive_error(old(self)@, cts) is None
                    &&& msgs@.len() == n
                    &&& forall|j: int| 0 <= j < n ==> (#[trigger] msgs@[j])@ == plaintext(
                        old(self)@,
                        cts,
                        j,
                    )
                    &&& final(self)@ == old(self)@.received(n)
                    &&& final(self).tape() == if old(self).config().receiver_commit() {
                        old(self).tape().push(blake3_digest(blocks_bytes(cts)))
                    } else {
                        old(self).tape()
                    }
                },
                Err(e) => {
                    &&& if old(self)@.failed {
                        is_state_error(e)
                    } else {
                        receive_error(old(self)@, payload.ciphertexts@) == Some(e)
                    }
                    &&& final(self)@ == old(self)@.fail()
                    &&& final(self).tape() == old(self).tape()
                },
            },
    {
        let ghost pre = self@;
        if self.state.failed {
            assert(self@.rngs0 =~= pre.rngs0);
            assert(self@.rngs1 =~= pre.rngs1);
            return Err(ReceiverError::InvalidState("Extension".to_owned()));
        }
        let cts = payload.ciphertexts.as_slice();
        if cts.len() % 2 != 0 {
            self.state.failed = true;
            assert(self@.rngs0 =~= pre.rngs0);
            assert(self@.rngs1 =~= pre.rngs1);
            return Err(ReceiverError::InvalidPayload);
        }
        let count = cts.len() / 2;
        if count > self.state.keys.len() {
            self.state.failed = true;
            assert(self@.rngs0 =~= pre.rngs0);
            assert(self@.rngs1 =~= pre.rngs1);
            return Err(ReceiverError::CountMismatch(self.state.keys.len(), count));
        }
        let ghost tape0 = self.tape();
        if self.config.receiver_commit() {
            let bytes = blocks_to_bytes(cts);
            let digest = blake3_hash(bytes.as_slice());
            self.tape.push(digest);
            assert(self.tape() =~= tape0.push(blake3_digest(blocks_bytes(cts@))));
        }
        let rest_keys = self.state.keys.split_off(count);
        let rest_choices = self.state.choices.split_off(count);
        let mut out: Vec<Block> = Vec::new();
        let mut j: usize = 0;
        while j < count
            invariant
                j <= count,
                cts@.len() == 2 * count,
                cts@.len() <= usize::MAX,
                count <= pre.keys.len(),
                pre.keys.len() == pre.choices.len(),
                self.state.keys@ == pre.keys.take(count as int),
                self.state.choices@ == pre.choices.take(count as int),
                out@.len() == j,
                forall|k: int| 0 <= k < j ==> (#[trigger] out@[k])@ == plaintext(pre, cts@, k),
            decreases count - j,
        {
            let key = self.state.keys[j];
            let c = self.state.choices[j];
            let m = if c {
                key.xor(cts[2 * j + 1])
            } else {
                key.xor(cts[2 * j])
            };
            out.push(m);
            j = j + 1;
        }
        self.state.keys = rest_keys;
        self.state.choices = rest_choices;
        proof {
            assert(self@.rngs0 =~= pre.rngs0);
            assert(self@.rngs1 =~= pre.rngs1);
            assert(self@.keys =~= pre.keys.skip(count as int));
            assert(self@.choices =~= pre.choices.skip(count as int));
        }
        Ok(out)
    }
}

} // verus!
