//! The SPCOT receiver.

use crate::bits::{bit_at, from_lsb0_iter};
use crate::block::{be_bytes, inner_product, sel, Block};
use crate::ferret::error::ErrorKind;
use crate::ferret::ggm::two_pow;
use crate::ferret::spcot::error::ReceiverError;
use crate::ferret::spcot::msgs::{CheckFR, CheckFS, ExtendFS, MaskBits};
use crate::ferret::spcot::sender::{monomial_basis, monomials, CSP};
use crate::ferret::spcot::{
    depth_sum, depths_ok, flatten, lemma_depth_sum_mono, mask_bit, mask_bits, pow2, receiver_keys,
    receiver_leaf, receiver_tree, total_depth,
};
use crate::hash::{blake3_digest, blake3_hash};
use crate::prg::{seeded_blocks, system_random, Prg};
use vstd::prelude::*;

verus! {

/// What the receiver holds between setup and completion.
pub struct ReceiverData {
    /// The vectors that await the consistency check, each with its chosen
    /// position, tree by tree.
    unchecked: Vec<(Vec<Block>, u32)>,
    /// The seed of the weights of the check that is under way.
    chi_seed: Option<Block>,
}

impl ReceiverData {
    /// Each chosen position lies within its vector.
    #[verifier::type_invariant]
    spec fn positions_within(self) -> bool {
        forall|b: int|
            0 <= b < self.unchecked@.len() ==> (#[trigger] self.unchecked@[b]).1
                < self.unchecked@[b].0@.len()
    }

    spec fn view(self) -> ReceiverView {
        ReceiverView {
            unchecked_ws: outputs(self.unchecked@).0,
            alphas: outputs(self.unchecked@).1,
            chi_seed: self.chi_seed,
        }
    }
}

/// The state of the receiver.
pub enum State {
    Initialized,
    Extension(ReceiverData),
    Complete,
    Error,
}

/// What the receiver holds between setup and completion.
pub struct ReceiverView {
    pub unchecked_ws: Seq<Seq<Block>>,
    pub alphas: Seq<u32>,
    pub chi_seed: Option<Block>,
}

/// The state of the receiver.
pub enum StateView {
    Initialized,
    Extension(ReceiverView),
    Complete,
    Error,
}

/// SPCOT receiver.
pub struct Receiver {
    state: State,
}

impl View for Receiver {
    type V = StateView;

    closed spec fn view(&self) -> StateView {
        match self.state {
            State::Initialized => StateView::Initialized,
            State::Extension(d) => StateView::Extension(d.view()),
            State::Complete => StateView::Complete,
            State::Error => StateView::Error,
        }
    }
}

impl ReceiverView {
    /// There is a position for each tree, within the tree.
    pub open spec fn wf(self) -> bool {
        &&& self.alphas.len() == self.unchecked_ws.len()
        &&& forall|b: int|
            0 <= b < self.alphas.len() ==> (#[trigger] self.alphas[b]) < self.unchecked_ws[b].len()
    }
}

/// The error of a receiver that is not in the state that an operation
/// needs; it names that state.
pub open spec fn is_state_error(e: ReceiverError, expected: Seq<char>) -> bool {
    e matches ReceiverError::StateError(s) && s@ == expected
}

/// Each position lies within its tree.
pub open spec fn positions_ok(hs: Seq<usize>, alphas: Seq<u32>) -> bool {
    forall|b: int| 0 <= b < hs.len() ==> (#[trigger] alphas[b]) < two_pow(hs[b] as nat)
}

/// What is wrong with the trees and positions of a batch and with the
/// number `n` of correlated OTs given for it, if anything.
pub open spec fn batch_error(hs: Seq<usize>, alphas: Seq<u32>, n: nat) -> Option<ErrorKind> {
    if hs.len() != alphas.len() {
        Some(ErrorKind::CountMismatch(hs.len() as usize, alphas.len() as usize))
    } else if !depths_ok(hs) || !positions_ok(hs, alphas) {
        Some(ErrorKind::InvalidParameters)
    } else if n != depth_sum(hs, hs.len()) {
        Some(ErrorKind::CountMismatch(depth_sum(hs, hs.len()) as usize, n as usize))
    } else {
        None
    }
}

/// What is wrong with what an extension was given, if anything.
pub open spec fn extend_error(
    hs: Seq<usize>,
    alphas: Seq<u32>,
    ts: Seq<Block>,
    msg: ExtendFS,
) -> Option<ErrorKind> {
    if batch_error(hs, alphas, ts.len()) is Some {
        batch_error(hs, alphas, ts.len())
    } else if msg.m0@.len() != ts.len() || msg.m1@.len() != ts.len() || msg.c@.len() != hs.len() {
        Some(ErrorKind::InvalidPayload)
    } else {
        None
    }
}

/// `m` are the mask bits of a batch: for level `i` of tree `b` the
/// receiver's choice bit, flipped where the path to the tree's position
/// turns left; packed, with zeros after the last bit.
pub open spec fn is_mask_bits(m: MaskBits, hs: Seq<usize>, alphas: Seq<u32>, rs: Seq<bool>) -> bool {
    &&& m.shape@ == hs
    &&& m.bits@.len() == (depth_sum(hs, hs.len()) + 7) / 8
    &&& forall|b: int, i: int|
        0 <= b < hs.len() && 0 <= i < hs[b] ==> #[trigger] bit_at(
            m.bits@,
            depth_sum(hs, b as nat) + i,
        ) == mask_bit(rs[depth_sum(hs, b as nat) + i], alphas[b] as nat, hs[b] as nat, i as nat)
    &&& forall|k: int|
        depth_sum(hs, hs.len()) <= k < 8 * m.bits@.len() ==> !#[trigger] bit_at(m.bits@, k)
}

/// The part of a batch's vector that belongs to tree `b`.
pub open spec fn part(xs: Seq<Block>, hs: Seq<usize>, b: int) -> Seq<Block> {
    xs.subrange(depth_sum(hs, b as nat) as int, depth_sum(hs, b as nat) + hs[b])
}

/// The receiver's vectors of the trees of a batch.
pub open spec fn trees(hs: Seq<usize>, alphas: Seq<u32>, ts: Seq<Block>, msg: ExtendFS) -> Seq<
    Seq<Block>,
> {
    Seq::new(
        hs.len(),
        |b: int|
            Seq::new(
                two_pow(hs[b] as nat),
                |k: int|
                    Block(
                        receiver_leaf(
                            alphas[b] as nat,
                            hs[b] as nat,
                            receiver_keys(
                                alphas[b] as nat,
                                hs[b] as nat,
                                part(ts, hs, b),
                                part(msg.m0@, hs, b),
                                part(msg.m1@, hs, b),
                            ),
                            msg.c@[b]@,
                            k as nat,
                        ),
                    ),
            ),
    )
}

/// The block whose bit `i`, the coefficient of `X^i`, is the `i`-th of
/// the first `n` given bits.
pub open spec fn bits_value(x: Seq<bool>, n: nat) -> u128
    decreases n,
{
    if n == 0 {
        0
    } else {
        bits_value(x, (n - 1) as nat) ^ sel(x[n - 1], 1u128 << ((n - 1) as u128))
    }
}

/// The sum of the weights at the chosen positions of the first `b` trees.
pub open spec fn chosen_weights(
    ws: Seq<Seq<Block>>,
    alphas: Seq<u32>,
    weights: Seq<Block>,
    b: nat,
) -> u128
    decreases b,
{
    if b == 0 {
        0
    } else {
        chosen_weights(ws, alphas, weights, (b - 1) as nat) ^ weights[flatten(
            ws.take(b - 1),
        ).len() + alphas[b - 1]]@
    }
}

/// The receiver's part of the check: the seed of the weights, and the
/// receiver's choice bits of the check masking the sum of the weights at
/// its chosen positions.
pub open spec fn check_fr(d: ReceiverView, x_star: Seq<bool>, chi_seed: u128) -> CheckFR {
    let n = flatten(d.unchecked_ws).len();
    CheckFR {
        chi_seed: Block(chi_seed),
        x_prime: Block(
            bits_value(x_star, 128) ^ chosen_weights(
                d.unchecked_ws,
                d.alphas,
                seeded_blocks(chi_seed, n),
                d.unchecked_ws.len(),
            ),
        ),
    }
}

/// The receiver's value of the consistency check: the weighted sum of the
/// vectors that await the check, and the receiver's blocks of the check
/// read as the coefficients of a polynomial in `X`.
pub open spec fn receiver_check_value(d: ReceiverView, z_star: Seq<Block>, chi_seed: u128) -> u128 {
    let ws = flatten(d.unchecked_ws);
    inner_product(ws, seeded_blocks(chi_seed, ws.len())) ^ inner_product(z_star, monomials())
}

/// What is wrong with what the check was given, if anything.
pub open spec fn check_error(d: ReceiverView, z_star: Seq<Block>, check: CheckFS) -> Option<
    ErrorKind,
> {
    if z_star.len() != CSP {
        Some(ErrorKind::CountMismatch(CSP, z_star.len() as usize))
    } else if check.hashed_v@ != blake3_digest(
        be_bytes(receiver_check_value(d, z_star, d.chi_seed->0@)),
    ) {
        Some(ErrorKind::ConsistencyCheckFailed)
    } else {
        None
    }
}

/// The vectors and positions of a batch, tree by tree.
pub open spec fn outputs(out: Seq<(Vec<Block>, u32)>) -> (Seq<Seq<Block>>, Seq<u32>) {
    (Seq::new(out.len(), |b: int| out[b].0@), Seq::new(out.len(), |b: int| out[b].1))
}

/// Takes the state out for a transition and leaves `Error` in its place
/// until the transition installs the next state.
fn take_state(state: &mut State) -> (taken: State)
    ensures
        taken == *old(state),
        *final(state) == State::Error,
{
    let mut taken = State::Error;
    core::mem::swap(state, &mut taken);
    taken
}

/// Validates the trees and positions of a batch and the number of
/// correlated OTs given for it.
fn check_batch(hs: &[usize], alphas: &[u32], n: usize) -> (r: Result<(), ErrorKind>)
    ensures
        match r {
            Ok(_) => batch_error(hs@, alphas@, n as nat) is None,
            Err(k) => batch_error(hs@, alphas@, n as nat) == Some(k),
        },
{
    if hs.len() != alphas.len() {
        return Err(ErrorKind::CountMismatch(hs.len(), alphas.len()));
    }
    let total = match total_depth(hs) {
        Some(t) => t,
        None => {
            return Err(ErrorKind::InvalidParameters);
        },
    };
    let mut b: usize = 0;
    while b < hs.len()
        invariant
            b <= hs@.len(),
            hs@.len() == alphas@.len(),
            depths_ok(hs@),
            forall|k: int| 0 <= k < b ==> (#[trigger] alphas@[k]) < two_pow(hs@[k] as nat),
        decreases hs@.len() - b,
    {
        if alphas[b] as usize >= pow2(hs[b]) {
            return Err(ErrorKind::InvalidParameters);
        }
        b = b + 1;
    }
    if n != total {
        return Err(ErrorKind::CountMismatch(total, n));
    }
    Ok(())
}

/// The vectors of a batch, one after the other.
fn flatten_pairs(vs: &Vec<(Vec<Block>, u32)>) -> (out: Vec<Block>)
    ensures
        out@ == flatten(outputs(vs@).0),
{
    let ghost all = outputs(vs@).0;
    let mut out: Vec<Block> = Vec::new();
    let mut b: usize = 0;
    while b < vs.len()
        invariant
            b <= vs@.len(),
            all == outputs(vs@).0,
            out@ == flatten(all.take(b as int)),
        decreases vs@.len() - b,
    {
        let v = &vs[b].0;
        let ghost before = out@;
        let mut k: usize = 0;
        while k < v.len()
            invariant
                k <= v@.len(),
                out@ == before + v@.take(k as int),
            decreases v@.len() - k,
        {
            out.push(v[k]);
            assert(v@.take(k + 1) =~= v@.take(k as int).push(v@[k as int]));
            k = k + 1;
        }
        proof {
            assert(v@.take(v@.len() as int) =~= v@);
            lemma_flatten_prefix(all, b as int);
        }
        b = b + 1;
    }
    assert(all.take(vs@.len() as int) =~= all);
    out
}

/// Whether two digests are the same.
fn same_digest(a: &[u8; 32], b: &[u8; 32]) -> (r: bool)
    ensures
        r == (a@ == b@),
{
    let mut i: usize = 0;
    while i < 32
        invariant
            i <= 32,
            forall|j: int| 0 <= j < i ==> a@[j] == b@[j],
        decreases 32 - i,
    {
        if a[i] != b[i] {
            return false;
        }
        i = i + 1;
    }
    assert(a@ =~= b@);
    true
}

impl Receiver {
    /// Creates a new receiver.
    pub fn new() -> (r: Self)
        ensures
            r@ is Initialized,
    {
        Receiver { state: State::Initialized }
    }

    /// Completes the setup.
    pub fn setup(&mut self) -> (res: Result<(), ReceiverError>)
        ensures
            match res {
                Ok(_) => old(self)@ is Initialized && final(self)@ == StateView::Extension(
                    ReceiverView {
                        unchecked_ws: Seq::empty(),
                        alphas: Seq::empty(),
                        chi_seed: None,
                    },
                ),
                Err(e) => !(old(self)@ is Initialized) && final(self)@ is Error && is_state_error(
                    e,
                    "Initialized"@,
                ),
            },
    {
        let state = take_state(&mut self.state);
        match state {
            State::Initialized => {
                let d = ReceiverData { unchecked: Vec::new(), chi_seed: None };
                assert(d.view().unchecked_ws =~= Seq::<Seq<Block>>::empty());
                assert(d.view().alphas =~= Seq::<u32>::empty());
                self.state = State::Extension(d);
                Ok(())
            },
            _ => Err(ReceiverError::StateError("Initialized".to_owned())),
        }
    }

    /// Computes the mask bits of a batch of trees of the depths `hs` with
    /// the chosen positions `alphas`. `rs` are the receiver's choice bits of
    /// as many random correlated OTs as the batch has levels.
    pub fn extend_mask_bits(&mut self, hs: &[usize], alphas: &[u32], rs: &[bool]) -> (res: Result<
        MaskBits,
        ReceiverError,
    >)
        ensures
            match res {
                Ok(m) => {
                    &&& old(self)@ is Extension
                    &&& final(self)@ == old(self)@
                    &&& batch_error(hs@, alphas@, rs@.len()) is None
                    &&& is_mask_bits(m, hs@, alphas@, rs@)
                },
                Err(e) => {
                    &&& final(self)@ is Error
                    &&& if old(self)@ is Extension {
                        batch_error(hs@, alphas@, rs@.len()) matches Some(kind) && e
                            == ReceiverError::CoreError(kind)
                    } else {
                        is_state_error(e, "Extension"@)
                    }
                },
            },
    {
        let state = take_state(&mut self.state);
        let d = match state {
            State::Extension(d) => d,
            _ => {
                return Err(ReceiverError::StateError("Extension".to_owned()));
            },
        };
        match check_batch(hs, alphas, rs.len()) {
            Err(kind) => {
                return Err(ReceiverError::CoreError(kind));
            },
            Ok(_) => {},
        }
        let mut flat: Vec<bool> = Vec::new();
        let mut shape: Vec<usize> = Vec::new();
        let mut off: usize = 0;
        let mut b: usize = 0;
        while b < hs.len()
            invariant
                b <= hs@.len(),
                hs@.len() == alphas@.len(),
                depths_ok(hs@),
                positions_ok(hs@, alphas@),
                rs@.len() == depth_sum(hs@, hs@.len()),
                off == depth_sum(hs@, b as nat),
                flat@.len() == off,
                shape@ == hs@.take(b as int),
                forall|bb: int, i: int|
                    0 <= bb < b && 0 <= i < hs@[bb] ==> #[trigger] flat@[depth_sum(hs@, bb as nat)
                        + i] == mask_bit(
                        rs@[depth_sum(hs@, bb as nat) + i],
                        alphas@[bb] as nat,
                        hs@[bb] as nat,
                        i as nat,
                    ),
            decreases hs@.len() - b,
        {
            let h = hs[b];
            proof {
                lemma_depth_sum_mono(hs@, (b + 1) as nat, hs@.len());
            }
            let rs_b = vstd::slice::slice_subrange(rs, off, off + h);
            let mut bits_b = mask_bits(alphas[b] as usize, h, rs_b);
            let ghost before = flat@;
            let ghost fresh = bits_b@;
            flat.append(&mut bits_b);
            shape.push(h);
            proof {
                assert(shape@ =~= hs@.take(b + 1));
                assert forall|bb: int, i: int| 0 <= bb < b + 1 && 0 <= i < hs@[bb] implies
                    #[trigger] flat@[depth_sum(hs@, bb as nat) + i] == mask_bit(
                    rs@[depth_sum(hs@, bb as nat) + i],
                    alphas@[bb] as nat,
                    hs@[bb] as nat,
                    i as nat,
                ) by {
                    if bb < b {
                        lemma_depth_sum_mono(hs@, (bb + 1) as nat, b as nat);
                        assert(flat@[depth_sum(hs@, bb as nat) + i] == before[depth_sum(
                            hs@,
                            bb as nat,
                        ) + i]);
                    } else {
                        assert(flat@[off + i] == fresh[i]);
                        assert(rs_b@[i] == rs@[off + i]);
                    }
                }
            }
            off = off + h;
            b = b + 1;
        }
        let bits = from_lsb0_iter(flat.as_slice());
        let m = MaskBits { bits, shape };
        proof {
            assert(hs@.take(hs@.len() as int) =~= hs@);
            assert forall|bb: int, i: int| 0 <= bb < hs@.len() && 0 <= i < hs@[bb] implies
                #[trigger] bit_at(m.bits@, depth_sum(hs@, bb as nat) + i) == mask_bit(
                rs@[depth_sum(hs@, bb as nat) + i],
                alphas@[bb] as nat,
                hs@[bb] as nat,
                i as nat,
            ) by {
                lemma_depth_sum_mono(hs@, (bb + 1) as nat, hs@.len());
                assert(flat@[depth_sum(hs@, bb as nat) + i] == mask_bit(
                    rs@[depth_sum(hs@, bb as nat) + i],
                    alphas@[bb] as nat,
                    hs@[bb] as nat,
                    i as nat,
                ));
            }
        }
        self.state = State::Extension(d);
        Ok(m)
    }

    /// Reconstructs the trees of a batch from the sender's message. `ts`
    /// are the receiver's blocks of the random correlated OTs whose choice
    /// bits made the mask bits.
    ///
    /// The vectors of the trees await the consistency check.
    pub fn extend(&mut self, hs: &[usize], alphas: &[u32], ts: &[Block], msg: &ExtendFS) -> (res:
        Result<(), ReceiverError>)
        ensures
            match res {
                Ok(_) => {
                    &&& old(self)@ matches StateView::Extension(pre)
                    &&& extend_error(hs@, alphas@, ts@, *msg) is None
                    &&& final(self)@ == StateView::Extension(
                        ReceiverView {
                            unchecked_ws: pre.unchecked_ws + trees(hs@, alphas@, ts@, *msg),
                            alphas: pre.alphas + alphas@,
                            chi_seed: pre.chi_seed,
                        },
                    )
                },
                Err(e) => {
                    &&& final(self)@ is Error
                    &&& if old(self)@ is Extension {
                        extend_error(hs@, alphas@, ts@, *msg) matches Some(kind) && e
                            == ReceiverError::CoreError(kind)
                    } else {
                        is_state_error(e, "Extension"@)
                    }
                },
            },
    {
        let state = take_state(&mut self.state);
        let mut d = match state {
            State::Extension(d) => d,
            _ => {
                return Err(ReceiverError::StateError("Extension".to_owned()));
            },
        };
        match check_batch(hs, alphas, ts.len()) {
            Err(kind) => {
                return Err(ReceiverError::CoreError(kind));
            },
            Ok(_) => {},
        }
        if msg.m0.len() != ts.len() || msg.m1.len() != ts.len() || msg.c.len() != hs.len() {
            return Err(ReceiverError::CoreError(ErrorKind::InvalidPayload));
        }
        let ghost pre = d.view();
        let ghost tr = trees(hs@, alphas@, ts@, *msg);
        proof {
            use_type_invariant(&d);
        }
        let ReceiverData { unchecked: mut unchecked, chi_seed } = d;
        let mut off: usize = 0;
        let mut b: usize = 0;
        while b < hs.len()
            invariant
                b <= hs@.len(),
                hs@.len() == alphas@.len(),
                depths_ok(hs@),
                positions_ok(hs@, alphas@),
                ts@.len() == depth_sum(hs@, hs@.len()),
                msg.m0@.len() == ts@.len(),
                msg.m1@.len() == ts@.len(),
                msg.c@.len() == hs@.len(),
                off == depth_sum(hs@, b as nat),
                tr == trees(hs@, alphas@, ts@, *msg),
                chi_seed == pre.chi_seed,
                forall|k: int|
                    0 <= k < unchecked@.len() ==> (#[trigger] unchecked@[k]).1
                        < unchecked@[k].0@.len(),
                outputs(unchecked@).0 == pre.unchecked_ws + tr.take(b as int),
                outputs(unchecked@).1 == pre.alphas + alphas@.take(b as int),
            decreases hs@.len() - b,
        {
            let h = hs[b];
            proof {
                lemma_depth_sum_mono(hs@, (b + 1) as nat, hs@.len());
            }
            let ts_b = vstd::slice::slice_subrange(ts, off, off + h);
            let m0_b = vstd::slice::slice_subrange(msg.m0.as_slice(), off, off + h);
            let m1_b = vstd::slice::slice_subrange(msg.m1.as_slice(), off, off + h);
            let leaves = receiver_tree(h, alphas[b] as usize, ts_b, m0_b, m1_b, msg.c[b]);
            let ghost ws_before = outputs(unchecked@).0;
            let ghost al_before = outputs(unchecked@).1;
            let ghost un_before = unchecked@;
            proof {
                assert(ts_b@ =~= part(ts@, hs@, b as int));
                assert(m0_b@ =~= part(msg.m0@, hs@, b as int));
                assert(m1_b@ =~= part(msg.m1@, hs@, b as int));
                assert(leaves@ =~= tr[b as int]);
            }
            unchecked.push((leaves, alphas[b]));
            proof {
                assert forall|k: int| 0 <= k < unchecked@.len() implies (#[trigger] unchecked@[k]).1
                    < unchecked@[k].0@.len() by {
                    if k < un_before.len() {
                        assert(unchecked@[k] == un_before[k]);
                    }
                }
                assert(outputs(unchecked@).0 =~= ws_before.push(tr[b as int]));
                assert(outputs(unchecked@).1 =~= al_before.push(alphas@[b as int]));
                assert(tr.take(b + 1) =~= tr.take(b as int).push(tr[b as int]));
                assert(outputs(unchecked@).0 =~= pre.unchecked_ws + tr.take(b + 1));
                assert(alphas@.take(b + 1) =~= alphas@.take(b as int).push(alphas@[b as int]));
                assert(outputs(unchecked@).1 =~= pre.alphas + alphas@.take(b + 1));
            }
            off = off + h;
            b = b + 1;
        }
        proof {
            assert(tr.take(hs@.len() as int) =~= tr);
            assert(alphas@.take(hs@.len() as int) =~= alphas@);
        }
        self.state = State::Extension(ReceiverData { unchecked, chi_seed });
        Ok(())
    }

    /// Computes the receiver's part of the consistency check with the
    /// given seed of the weights. `x_star` are the receiver's choice bits of
    /// 128 further random correlated OTs.
    pub fn check_pre_with_seed(&mut self, x_star: &[bool], chi_seed: Block) -> (res: Result<
        CheckFR,
        ReceiverError,
    >)
        ensures
            match res {
                Ok(m) => {
                    &&& old(self)@ matches StateView::Extension(pre)
                    &&& x_star@.len() == CSP
                    &&& m == check_fr(pre, x_star@, chi_seed@)
                    &&& final(self)@ == StateView::Extension(
                        ReceiverView { chi_seed: Some(chi_seed), ..pre },
                    )
                },
                Err(e) => {
                    &&& final(self)@ is Error
                    &&& if old(self)@ is Extension {
                        x_star@.len() != CSP && e == ReceiverError::CoreError(
                            ErrorKind::CountMismatch(CSP, x_star@.len() as usize),
                        )
                    } else {
                        is_state_error(e, "Extension"@)
                    }
                },
            },
    {
        let state = take_state(&mut self.state);
        let mut d = match state {
            State::Extension(d) => d,
            _ => {
                return Err(ReceiverError::StateError("Extension".to_owned()));
            },
        };
        if x_star.len() != CSP {
            return Err(ReceiverError::CoreError(ErrorKind::CountMismatch(CSP, x_star.len())));
        }
        let ghost pre = d.view();
        let mut x = Block::zero();
        let mut i: usize = 0;
        while i < CSP
            invariant
                i <= CSP,
                x_star@.len() == CSP,
                x@ == bits_value(x_star@, i as nat),
            decreases CSP - i,
        {
            x = x.xor(Block(1u128 << (i as u32)).select(x_star[i]));
            i = i + 1;
        }
        let ws = flatten_pairs(&d.unchecked);
        let weights = Prg::blocks_from_seed(chi_seed, ws.len());
        let mut acc = Block::zero();
        let mut off: usize = 0;
        let mut b: usize = 0;
        proof {
            use_type_invariant(&d);
        }
        while b < d.unchecked.len()
            invariant
                b <= d.unchecked@.len(),
                pre.wf(),
                pre == d.view(),
                ws@ == flatten(pre.unchecked_ws),
                weights@.len() == ws@.len(),
                off == flatten(pre.unchecked_ws.take(b as int)).len(),
                acc@ == chosen_weights(pre.unchecked_ws, pre.alphas, weights@, b as nat),
            decreases d.unchecked@.len() - b,
        {
            proof {
                lemma_flatten_prefix(pre.unchecked_ws, b as int);
                assert(pre.alphas[b as int] < pre.unchecked_ws[b as int].len());
            }
            let a = d.unchecked[b].1 as usize;
            acc = acc.xor(weights[off + a]);
            off = off + d.unchecked[b].0.len();
            b = b + 1;
        }
        let d = ReceiverData { unchecked: d.unchecked, chi_seed: Some(chi_seed) };
        self.state = State::Extension(d);
        Ok(CheckFR { chi_seed, x_prime: x.xor(acc) })
    }

    /// Computes the receiver's part of the consistency check with a fresh
    /// random seed of the weights.
    pub fn check_pre(&mut self, x_star: &[bool]) -> (res: Result<CheckFR, ReceiverError>)
        ensures
            match res {
                Ok(m) => {
                    &&& old(self)@ matches StateView::Extension(pre)
                    &&& x_star@.len() == CSP
                    &&& m == check_fr(pre, x_star@, m.chi_seed@)
                    &&& final(self)@ == StateView::Extension(
                        ReceiverView { chi_seed: Some(m.chi_seed), ..pre },
                    )
                },
                Err(e) => {
                    &&& final(self)@ is Error
                    &&& if old(self)@ is Extension {
                        x_star@.len() != CSP && e == ReceiverError::CoreError(
                            ErrorKind::CountMismatch(CSP, x_star@.len() as usize),
                        )
                    } else {
                        is_state_error(e, "Extension"@)
                    }
                },
            },
    {
        let bytes = system_random(16);
        let chi_seed = Block::from_slice(bytes.as_slice());
        self.check_pre_with_seed(x_star, chi_seed)
    }

    /// Checks the sender's part of the consistency check against the
    /// vectors that await it, and hands the vectors out, each with its
    /// chosen position.
    ///
    /// `z_star` are the receiver's blocks of the random correlated OTs
    /// whose choice bits went into the receiver's part of the check.
    pub fn check(&mut self, z_star: &[Block], check: CheckFS) -> (res: Result<
        Vec<(Vec<Block>, u32)>,
        ReceiverError,
    >)
        ensures
            match res {
                Ok(out) => {
                    &&& old(self)@ matches StateView::Extension(pre)
                    &&& pre.chi_seed is Some
                    &&& check_error(pre, z_star@, check) is None
                    &&& outputs(out@) == (pre.unchecked_ws, pre.alphas)
                    &&& final(self)@ == StateView::Extension(
                        ReceiverView {
                            unchecked_ws: Seq::empty(),
                            alphas: Seq::empty(),
                            chi_seed: None,
                        },
                    )
                },
                Err(e) => {
                    &&& final(self)@ is Error
                    &&& match old(self)@ {
                        StateView::Extension(pre) => if pre.chi_seed is Some {
                            check_error(pre, z_star@, check) matches Some(kind) && e
                                == ReceiverError::CoreError(kind)
                        } else {
                            is_state_error(e, "Checking"@)
                        },
                        _ => is_state_error(e, "Extension"@),
                    }
                },
            },
    {
        let state = take_state(&mut self.state);
        let mut d = match state {
            State::Extension(d) => d,
            _ => {
                return Err(ReceiverError::StateError("Extension".to_owned()));
            },
        };
        let chi_seed = match d.chi_seed {
            Some(s) => s,
            None => {
                return Err(ReceiverError::StateError("Checking".to_owned()));
            },
        };
        if z_star.len() != CSP {
            return Err(ReceiverError::CoreError(ErrorKind::CountMismatch(CSP, z_star.len())));
        }
        let base = monomial_basis();
        let ws = flatten_pairs(&d.unchecked);
        let weights = Prg::blocks_from_seed(chi_seed, ws.len());
        let w = Block::inn_prdt_red(ws.as_slice(), weights.as_slice()).xor(
            Block::inn_prdt_red(z_star, base.as_slice()),
        );
        let hashed_w = blake3_hash(w.to_bytes().as_slice());
        if !same_digest(&hashed_w, &check.hashed_v) {
            return Err(ReceiverError::CoreError(ErrorKind::ConsistencyCheckFailed));
        }
        let out = d.unchecked;
        let d = ReceiverData { unchecked: Vec::new(), chi_seed: None };
        proof {
            assert(d.view().unchecked_ws =~= Seq::<Seq<Block>>::empty());
            assert(d.view().alphas =~= Seq::<u32>::empty());
        }
        self.state = State::Extension(d);
        Ok(out)
    }

    /// Tests that the role performs extensions, before anything is drawn
    /// or read for an operation that needs it. A role in another state has
    /// failed for good.
    pub fn expect_extension(&mut self) -> (res: Result<(), ReceiverError>)
        ensures
            match res {
                Ok(_) => old(self)@ is Extension && final(self)@ == old(self)@,
                Err(e) => !(old(self)@ is Extension) && final(self)@ is Error && is_state_error(
                    e,
                    "Extension"@,
                ),
            },
    {
        let extending = match &self.state {
            State::Extension(_) => true,
            _ => false,
        };
        if !extending {
            self.state = State::Error;
            return Err(ReceiverError::StateError("Extension".to_owned()));
        }
        Ok(())
    }

    /// Gives the role up, as after a failure of the transport or of the
    /// correlated OT in the middle of an operation: the role is in the
    /// `Error` state and every further operation fails.
    pub fn abort(&mut self)
        ensures
            final(self)@ is Error,
    {
        self.state = State::Error;
    }

    /// Completes the role: no further extension or check is possible.
    pub fn finalize(&mut self) -> (res: Result<(), ReceiverError>)
        ensures
            match res {
                Ok(_) => old(self)@ is Extension && final(self)@ is Complete,
                Err(e) => !(old(self)@ is Extension) && final(self)@ is Error && is_state_error(
                    e,
                    "Extension"@,
                ),
            },
    {
        let state = take_state(&mut self.state);
        match state {
            State::Extension(_) => {
                self.state = State::Complete;
                Ok(())
            },
            _ => Err(ReceiverError::StateError("Extension".to_owned())),
        }
    }
}

/// The vectors of the first `b + 1` trees are those of the first `b` and
/// the vector of tree `b`; they are a part of all.
pub proof fn lemma_flatten_prefix(vs: Seq<Seq<Block>>, b: int)
    requires
        0 <= b < vs.len(),
    ensures
        flatten(vs.take(b + 1)) == flatten(vs.take(b)) + vs[b],
        flatten(vs.take(b + 1)).len() <= flatten(vs).len(),
    decreases vs.len() - b,
{
    let next = vs.take(b + 1);
    assert(next.drop_last() =~= vs.take(b));
    assert(next.last() == vs[b]);
    if b + 1 < vs.len() {
        lemma_flatten_prefix(vs, b + 1);
    } else {
        assert(vs.take(b + 1) =~= vs);
    }
}

} // verus!
