//! The SPCOT sender.

use crate::bits::bit_at;
use crate::block::{blk_bit, be_bytes, inner_product, sel, Block};
use crate::ferret::error::ErrorKind;
use crate::ferret::ggm::{leaf_sum, node, parity_sum, two_pow};
use crate::ferret::spcot::error::SenderError;
use crate::ferret::spcot::msgs::{CheckFR, CheckFS, ExtendFS, MaskBits};
use crate::ferret::spcot::{
    SenderTree, deep, depth_sum, depths_ok, flatten, flatten_vec, lemma_depth_sum_mono,
    masked_left, masked_right, read_bits, same_depths, sender_tree, total_depth,
};
use crate::hash::{blake3_digest, blake3_hash};
use crate::prg::{seeded_blocks, stretch, Prg, PrgView};
use vstd::prelude::*;

verus! {

/// Number of correlated OTs that a consistency check draws.
pub const CSP: usize = 128;

/// What the sender holds between setup and completion.
pub struct SenderData {
    /// The sender's global secret.
    delta: Block,
    /// The generator of the roots of the trees.
    prg: Prg,
    /// The vectors that await the consistency check, tree by tree.
    unchecked_vs: Vec<Vec<Block>>,
}

/// The state of the sender.
pub enum State {
    Initialized,
    Extension(SenderData),
    Complete,
    Error,
}

/// What the sender holds between setup and completion.
pub struct SenderView {
    pub delta: u128,
    pub prg: PrgView,
    pub unchecked_vs: Seq<Seq<Block>>,
}

/// The state of the sender.
pub enum StateView {
    Initialized,
    Extension(SenderView),
    Complete,
    Error,
}

/// SPCOT sender.
pub struct Sender {
    state: State,
}

impl View for Sender {
    type V = StateView;

    closed spec fn view(&self) -> StateView {
        match self.state {
            State::Initialized => StateView::Initialized,
            State::Extension(d) => StateView::Extension(
                SenderView { delta: d.delta@, prg: d.prg@, unchecked_vs: deep(d.unchecked_vs@) },
            ),
            State::Complete => StateView::Complete,
            State::Error => StateView::Error,
        }
    }
}

/// The error of a sender that is not in the state that an operation
/// needs; it names the state `Extension`, or `Initialized` for setup.
pub open spec fn is_state_error(e: SenderError, expected: Seq<char>) -> bool {
    e matches SenderError::StateError(s) && s@ == expected
}

/// The vectors of the trees of a batch: all leaves of each tree, the root
/// of tree `b` being the `b`-th block of the generator.
pub open spec fn trees(prg: PrgView, hs: Seq<usize>) -> Seq<Seq<Block>> {
    Seq::new(
        hs.len(),
        |b: int|
            Seq::new(
                two_pow(hs[b] as nat),
                |k: int| Block(node(prg.block_at(b as nat), hs[b] as nat, k as nat)),
            ),
    )
}

/// What is wrong with what an extension was given, if anything.
pub open spec fn extend_error(hs: Seq<usize>, qs: Seq<Block>, masks: MaskBits) -> Option<ErrorKind> {
    if !depths_ok(hs) {
        Some(ErrorKind::InvalidParameters)
    } else if qs.len() != depth_sum(hs, hs.len()) {
        Some(ErrorKind::CountMismatch(depth_sum(hs, hs.len()) as usize, qs.len() as usize))
    } else if masks.shape@ != hs || masks.bits@.len() != (depth_sum(hs, hs.len()) + 7) / 8 {
        Some(ErrorKind::InvalidPayload)
    } else {
        None
    }
}

/// `msg` is the sender's message for a batch of trees: for level `i` of
/// tree `b` the masked sums of its children, and for each tree the sum of
/// its leaves and delta.
pub open spec fn is_extend_fs(
    msg: ExtendFS,
    delta: u128,
    prg: PrgView,
    hs: Seq<usize>,
    qs: Seq<Block>,
    bits: Seq<u8>,
) -> bool {
    &&& msg.m0@.len() == depth_sum(hs, hs.len())
    &&& msg.m1@.len() == depth_sum(hs, hs.len())
    &&& msg.c@.len() == hs.len()
    &&& forall|b: int, i: int|
        0 <= b < hs.len() && 0 <= i < hs[b] ==> (#[trigger] msg.m0@[depth_sum(hs, b as nat) + i])@
            == masked_left(
            parity_sum(prg.block_at(b as nat), (i + 1) as nat, false),
            qs[depth_sum(hs, b as nat) + i]@,
            bit_at(bits, depth_sum(hs, b as nat) + i),
            delta,
        )
    &&& forall|b: int, i: int|
        0 <= b < hs.len() && 0 <= i < hs[b] ==> (#[trigger] msg.m1@[depth_sum(hs, b as nat) + i])@
            == masked_right(
            parity_sum(prg.block_at(b as nat), (i + 1) as nat, true),
            qs[depth_sum(hs, b as nat) + i]@,
            bit_at(bits, depth_sum(hs, b as nat) + i),
            delta,
        )
    &&& forall|b: int|
        0 <= b < hs.len() ==> (#[trigger] msg.c@[b])@ == leaf_sum(
            prg.block_at(b as nat),
            hs[b] as nat,
        ) ^ delta
}

/// The monomials `1, X, ..., X^127`.
pub open spec fn monomials() -> Seq<Block> {
    Seq::new(128, |i: int| Block(1u128 << (i as u128)))
}

/// The sender's correlated blocks of the check, each with delta added
/// where the bit of the receiver's `x_prime` is set.
pub open spec fn corrected(y_star: Seq<Block>, x_prime: u128, delta: u128) -> Seq<Block> {
    Seq::new(128, |i: int| Block(y_star[i]@ ^ sel(blk_bit(x_prime, i as nat), delta)))
}

/// The sender's value of the consistency check: the weighted sum of the
/// vectors that await the check, and the corrected blocks of the check
/// read as the coefficients of a polynomial in `X`.
pub open spec fn sender_check_value(d: SenderView, y_star: Seq<Block>, check: CheckFR) -> u128 {
    let vs = flatten(d.unchecked_vs);
    inner_product(vs, seeded_blocks(check.chi_seed@, vs.len())) ^ inner_product(
        corrected(y_star, check.x_prime@, d.delta),
        monomials(),
    )
}

/// The monomials `1, X, ..., X^127`.
pub fn monomial_basis() -> (base: Vec<Block>)
    ensures
        base@ == monomials(),
{
    let mut base: Vec<Block> = Vec::new();
    let mut i: u32 = 0;
    while i < 128
        invariant
            i <= 128,
            base@.len() == i,
            forall|j: int| 0 <= j < i ==> (#[trigger] base@[j])@ == 1u128 << (j as u128),
        decreases 128 - i,
    {
        base.push(Block(1u128 << i));
        i = i + 1;
    }
    assert(base@ =~= monomials());
    base
}

/// Takes the state out for a transition and leaves `Error` in its place
/// until the transition installs the next state.
fn take_state(state: &mut State) -> (taken: State)
    ensures
        taken == *old(state),
        *final(state) == State::Error,
{
    let mut taken = State::Error;
    core::mem::swap(state, &mut taken);
    taken
}

impl Sender {
    /// Creates a new sender.
    pub fn new() -> (s: Self)
        ensures
            s@ is Initialized,
    {
        Sender { state: State::Initialized }
    }

    /// Completes the setup with the sender's global secret and the seed of
    /// the generator that the roots of the trees are drawn from.
    pub fn setup_with_delta(&mut self, delta: Block, seed: Block) -> (res: Result<(), SenderError>)
        ensures
            match res {
                Ok(_) => old(self)@ is Initialized && final(self)@ == StateView::Extension(
                    SenderView {
                        delta: delta@,
                        prg: PrgView { seed: stretch(seed@), word_pos: 0 },
                        unchecked_vs: Seq::empty(),
                    },
                ),
                Err(e) => !(old(self)@ is Initialized) && final(self)@ is Error && is_state_error(
                    e,
                    "Initialized"@,
                ),
            },
    {
        let state = take_state(&mut self.state);
        match state {
            State::Initialized => {
                let d = SenderData { delta, prg: Prg::from_block(seed), unchecked_vs: Vec::new() };
                assert(deep(d.unchecked_vs@) =~= Seq::<Seq<Block>>::empty());
                self.state = State::Extension(d);
                Ok(())
            },
            _ => Err(SenderError::StateError("Initialized".to_owned())),
        }
    }

    /// Expands a batch of trees of the depths `hs` and answers the
    /// receiver's mask bits. `qs` are the sender's blocks of as many random
    /// correlated OTs as the batch has levels.
    ///
    /// The vectors of the trees await the consistency check.
    pub fn extend(&mut self, hs: &[usize], qs: &[Block], masks: &MaskBits) -> (res: Result<
        ExtendFS,
        SenderError,
    >)
        ensures
            match res {
                Ok(msg) => {
                    &&& old(self)@ matches StateView::Extension(pre)
                    &&& extend_error(hs@, qs@, *masks) is None
                    &&& is_extend_fs(msg, pre.delta, pre.prg, hs@, qs@, masks.bits@)
                    &&& final(self)@ == StateView::Extension(
                        SenderView {
                            delta: pre.delta,
                            prg: pre.prg.skip_blocks(hs@.len()),
                            unchecked_vs: pre.unchecked_vs + trees(pre.prg, hs@),
                        },
                    )
                },
                Err(e) => {
                    &&& final(self)@ is Error
                    &&& if old(self)@ is Extension {
                        extend_error(hs@, qs@, *masks) matches Some(kind) && e
                            == SenderError::CoreError(kind)
                    } else {
                        is_state_error(e, "Extension"@)
                    }
                },
            },
    {
        let state = take_state(&mut self.state);
        let mut d = match state {
            State::Extension(d) => d,
            _ => {
                return Err(SenderError::StateError("Extension".to_owned()));
            },
        };
        let total = match total_depth(hs) {
            Some(t) => t,
            None => {
                return Err(SenderError::CoreError(ErrorKind::InvalidParameters));
            },
        };
        if qs.len() != total {
            return Err(SenderError::CoreError(ErrorKind::CountMismatch(total, qs.len())));
        }
        if !same_depths(masks.shape.as_slice(), hs) || masks.bits.len() != total / 8 + (if total % 8
            == 0 {
            0
        } else {
            1
        }) {
            return Err(SenderError::CoreError(ErrorKind::InvalidPayload));
        }
        let ghost pre = SenderView {
            delta: d.delta@,
            prg: d.prg@,
            unchecked_vs: deep(d.unchecked_vs@),
        };
        let ghost bits = masks.bits@;
        let delta = d.delta;
        let mut m0: Vec<Block> = Vec::new();
        let mut m1: Vec<Block> = Vec::new();
        let mut c: Vec<Block> = Vec::new();
        let mut off: usize = 0;
        let mut b: usize = 0;
        while b < hs.len()
            invariant
                b <= hs@.len(),
                depths_ok(hs@),
                total == depth_sum(hs@, hs@.len()),
                qs@.len() == total,
                8 * bits.len() >= total,
                bits == masks.bits@,
                off == depth_sum(hs@, b as nat),
                off <= total,
                delta@ == pre.delta,
                d.delta == delta,
                d.prg@ == pre.prg.skip_blocks(b as nat),
                deep(d.unchecked_vs@) == pre.unchecked_vs + trees(pre.prg, hs@).take(b as int),
                m0@.len() == off,
                m1@.len() == off,
                c@.len() == b,
                forall|bb: int, i: int|
                    0 <= bb < b && 0 <= i < hs@[bb] ==> (#[trigger] m0@[depth_sum(hs@, bb as nat)
                        + i])@ == masked_left(
                        parity_sum(pre.prg.block_at(bb as nat), (i + 1) as nat, false),
                        qs@[depth_sum(hs@, bb as nat) + i]@,
                        bit_at(bits, depth_sum(hs@, bb as nat) + i),
                        delta@,
                    ),
                forall|bb: int, i: int|
                    0 <= bb < b && 0 <= i < hs@[bb] ==> (#[trigger] m1@[depth_sum(hs@, bb as nat)
                        + i])@ == masked_right(
                        parity_sum(pre.prg.block_at(bb as nat), (i + 1) as nat, true),
                        qs@[depth_sum(hs@, bb as nat) + i]@,
                        bit_at(bits, depth_sum(hs@, bb as nat) + i),
                        delta@,
                    ),
                forall|bb: int|
                    0 <= bb < b ==> (#[trigger] c@[bb])@ == leaf_sum(
                        pre.prg.block_at(bb as nat),
                        hs@[bb] as nat,
                    ) ^ delta@,
            decreases hs@.len() - b,
        {
            let h = hs[b];
            proof {
                lemma_depth_sum_mono(hs@, (b + 1) as nat, hs@.len());
            }
            let root = d.prg.random_block();
            let qs_b = vstd::slice::slice_subrange(qs, off, off + h);
            let mask_b = read_bits(masks.bits.as_slice(), off, h);
            let t = sender_tree(delta, root, h, qs_b, mask_b.as_slice());
            let ghost m0_before = m0@;
            let ghost m1_before = m1@;
            let ghost c_before = c@;
            let ghost vs_before = deep(d.unchecked_vs@);
            let SenderTree { leaves, m0: mut t0, m1: mut t1, c: tc } = t;
            let ghost t0v = t0@;
            let ghost t1v = t1@;
            m0.append(&mut t0);
            m1.append(&mut t1);
            c.push(tc);
            d.unchecked_vs.push(leaves);
            proof {
                assert(root@ == pre.prg.block_at(b as nat));
                let tr = trees(pre.prg, hs@);
                assert(leaves@ =~= tr[b as int]);
                assert(deep(d.unchecked_vs@) =~= vs_before.push(leaves@));
                assert(tr.take(b + 1) =~= tr.take(b as int).push(tr[b as int]));
                assert(deep(d.unchecked_vs@) =~= pre.unchecked_vs + tr.take(b + 1));
                assert forall|bb: int, i: int| 0 <= bb < b + 1 && 0 <= i < hs@[bb] implies (
                #[trigger] m0@[depth_sum(hs@, bb as nat) + i])@ == masked_left(
                    parity_sum(pre.prg.block_at(bb as nat), (i + 1) as nat, false),
                    qs@[depth_sum(hs@, bb as nat) + i]@,
                    bit_at(bits, depth_sum(hs@, bb as nat) + i),
                    delta@,
                ) by {
                    if bb < b {
                        lemma_depth_sum_mono(hs@, (bb + 1) as nat, b as nat);
                        assert(m0@[depth_sum(hs@, bb as nat) + i] == m0_before[depth_sum(
                            hs@,
                            bb as nat,
                        ) + i]);
                    } else {
                        assert(m0@[off + i] == t0v[i]);
                        assert(qs_b@[i] == qs@[off + i]);
                    }
                }
                assert forall|bb: int, i: int| 0 <= bb < b + 1 && 0 <= i < hs@[bb] implies (
                #[trigger] m1@[depth_sum(hs@, bb as nat) + i])@ == masked_right(
                    parity_sum(pre.prg.block_at(bb as nat), (i + 1) as nat, true),
                    qs@[depth_sum(hs@, bb as nat) + i]@,
                    bit_at(bits, depth_sum(hs@, bb as nat) + i),
                    delta@,
                ) by {
                    if bb < b {
                        lemma_depth_sum_mono(hs@, (bb + 1) as nat, b as nat);
                        assert(m1@[depth_sum(hs@, bb as nat) + i] == m1_before[depth_sum(
                            hs@,
                            bb as nat,
                        ) + i]);
                    } else {
                        assert(m1@[off + i] == t1v[i]);
                        assert(qs_b@[i] == qs@[off + i]);
                    }
                }
                assert forall|bb: int| 0 <= bb < b + 1 implies (#[trigger] c@[bb])@ == leaf_sum(
                    pre.prg.block_at(bb as nat),
                    hs@[bb] as nat,
                ) ^ delta@ by {
                    if bb < b {
                        assert(c@[bb] == c_before[bb]);
                    }
                }
            }
            off = off + h;
            b = b + 1;
        }
        proof {
            assert(trees(pre.prg, hs@).take(hs@.len() as int) =~= trees(pre.prg, hs@));
        }
        self.state = State::Extension(d);
        Ok(ExtendFS { m0, m1, c })
    }

    /// Computes the sender's part of the consistency check for the
    /// vectors that await it, and hands the vectors out, tree by tree.
    ///
    /// `y_star` are the sender's blocks of 128 further random correlated
    /// OTs.
    pub fn check(&mut self, y_star: &[Block], check: CheckFR) -> (res: Result<
        (Vec<Vec<Block>>, CheckFS),
        SenderError,
    >)
        ensures
            match res {
                Ok(out) => {
                    &&& old(self)@ matches StateView::Extension(pre)
                    &&& y_star@.len() == CSP
                    &&& deep(out.0@) == pre.unchecked_vs
                    &&& out.1.hashed_v@ == blake3_digest(
                        be_bytes(sender_check_value(pre, y_star@, check)),
                    )
                    &&& final(self)@ == StateView::Extension(
                        SenderView { unchecked_vs: Seq::empty(), ..pre },
                    )
                },
                Err(e) => {
                    &&& final(self)@ is Error
                    &&& if old(self)@ is Extension {
                        y_star@.len() != CSP && e == SenderError::CoreError(
                            ErrorKind::CountMismatch(CSP, y_star@.len() as usize),
                        )
                    } else {
                        is_state_error(e, "Extension"@)
                    }
                },
            },
    {
        let state = take_state(&mut self.state);
        let mut d = match state {
            State::Extension(d) => d,
            _ => {
                return Err(SenderError::StateError("Extension".to_owned()));
            },
        };
        if y_star.len() != CSP {
            return Err(SenderError::CoreError(ErrorKind::CountMismatch(CSP, y_star.len())));
        }
        let ghost pre = SenderView {
            delta: d.delta@,
            prg: d.prg@,
            unchecked_vs: deep(d.unchecked_vs@),
        };
        let mut ys: Vec<Block> = Vec::new();
        let mut i: usize = 0;
        while i < CSP
            invariant
                i <= CSP,
                y_star@.len() == CSP,
                ys@.len() == i,
                forall|j: int|
                    0 <= j < i ==> (#[trigger] ys@[j])@ == y_star@[j]@ ^ sel(
                        blk_bit(check.x_prime@, j as nat),
                        d.delta@,
                    ),
            decreases CSP - i,
        {
            let bit = (check.x_prime.0 >> (i as u32)) & 1u128 == 1u128;
            ys.push(y_star[i].xor(d.delta.select(bit)));
            i = i + 1;
        }
        assert(ys@ =~= corrected(y_star@, check.x_prime@, pre.delta));
        let base = monomial_basis();
        let vs = flatten_vec(&d.unchecked_vs);
        let weights = Prg::blocks_from_seed(check.chi_seed, vs.len());
        let v = Block::inn_prdt_red(vs.as_slice(), weights.as_slice()).xor(
            Block::inn_prdt_red(ys.as_slice(), base.as_slice()),
        );
        let hashed_v = blake3_hash(v.to_bytes().as_slice());
        let mut out: Vec<Vec<Block>> = Vec::new();
        out.append(&mut d.unchecked_vs);
        proof {
            assert(deep(out@) =~= pre.unchecked_vs);
            assert(deep(d.unchecked_vs@) =~= Seq::<Seq<Block>>::empty());
        }
        self.state = State::Extension(d);
        Ok((out, CheckFS { hashed_v }))
    }

    /// Tests that the role performs extensions, before anything is drawn
    /// or read for an operation that needs it. A role in another state has
    /// failed for good.
    pub fn expect_extension(&mut self) -> (res: Result<(), SenderError>)
        ensures
            match res {
                Ok(_) => old(self)@ is Extension && final(self)@ == old(self)@,
                Err(e) => !(old(self)@ is Extension) && final(self)@ is Error && is_state_error(
                    e,
                    "Extension"@,
                ),
            },
    {
        let extending = match &self.state {
            State::Extension(_) => true,
            _ => false,
        };
        if !extending {
            self.state = State::Error;
            return Err(SenderError::StateError("Extension".to_owned()));
        }
        Ok(())
    }

    /// Gives the role up, as after a failure of the transport or of the
    /// correlated OT in the middle of an operation: the role is in the
    /// `Error` state and every further operation fails.
    pub fn abort(&mut self)
        ensures
            final(self)@ is Error,
    {
        self.state = State::Error;
    }

    /// Completes the role: no further extension or check is possible.
    pub fn finalize(&mut self) -> (res: Result<(), SenderError>)
        ensures
            match res {
                Ok(_) => old(self)@ is Extension && final(self)@ is Complete,
                Err(e) => !(old(self)@ is Extension) && final(self)@ is Error && is_state_error(
                    e,
                    "Extension"@,
                ),
            },
    {
        let state = take_state(&mut self.state);
        match state {
            State::Extension(_) => {
                self.state = State::Complete;
                Ok(())
            },
            _ => Err(SenderError::StateError("Extension".to_owned())),
        }
    }
}

} // verus!
