//! The Ferret sender.

use crate::block::Block;
use crate::ferret::error::{ErrorKind, SenderError};
use crate::ferret::lpn::{compute_blocks, encode, LpnParameters, LpnType};
use crate::ferret::mpcot::msgs::HashSeed;
use crate::ferret::mpcot::sender::{Sender as MpcotSender, StateView as UniformState};
use crate::ferret::mpcot::sender_regular::{SenderRegular, State as MpcotState};
use crate::ferret::msgs::LpnSeed;
use crate::rcot::{RCOTSenderOutput, TransferId};
use vstd::prelude::*;

verus! {

/// What the sender holds between setup and completion.
pub struct SenderData {
    /// The sender's global secret.
    delta: Block,
    /// Number of iterations done.
    counter: usize,
    /// The parameters of the LPN problem.
    params: LpnParameters,
    /// The seed of the LPN matrix.
    seed: Block,
    /// The sender's blocks of the base OTs of the next iteration.
    v: Vec<Block>,
}

impl SenderData {
    /// The parameters are usable and there is a block for each base OT.
    #[verifier::type_invariant]
    spec fn well_formed(self) -> bool {
        self.params.valid() && self.v@.len() == self.params.k
    }
}

/// The state of the sender.
pub enum State {
    Initialized,
    Extension(SenderData),
    Complete,
    Error,
}

/// The kind of the role's MPCOT sender.
#[derive(Debug, Clone, Copy, PartialEq, Eq, Structural)]
pub enum MpcotKind {
    /// Not set up yet.
    Initial,
    /// For positions spread anywhere.
    Uniform,
    /// For regular positions.
    Regular,
    /// Failed.
    Error,
}

/// What the sender holds between setup and completion.
pub struct SenderView {
    pub delta: u128,
    pub counter: nat,
    pub params: LpnParameters,
    pub seed: u128,
    pub v: Seq<Block>,
}

/// The state of the sender.
pub enum StateView {
    Initialized,
    Extension(SenderView),
    Complete,
    Error,
}

/// Ferret sender.
pub struct Sender {
    state: State,
    kind: MpcotKind,
    /// The MPCOT sender for regular positions.
    mpcot: SenderRegular,
    /// The MPCOT sender for positions spread anywhere.
    uniform: MpcotSender,
    /// The OTs extended and not yet handed out.
    buffer: Vec<Block>,
    /// The number of the next batch to hand out.
    next_id: u64,
}

impl View for Sender {
    type V = StateView;

    closed spec fn view(&self) -> StateView {
        match self.state {
            State::Initialized => StateView::Initialized,
            State::Extension(d) => StateView::Extension(
                SenderView {
                    delta: d.delta@,
                    counter: d.counter as nat,
                    params: d.params,
                    seed: d.seed@,
                    v: d.v@,
                },
            ),
            State::Complete => StateView::Complete,
            State::Error => StateView::Error,
        }
    }
}

impl SenderView {
    /// The parameters are usable and there is a block for each base OT.
    pub open spec fn wf(self) -> bool {
        self.params.valid() && self.v.len() == self.params.k
    }
}

/// The error of a sender that is not in the state that an operation
/// needs; it names that state.
pub open spec fn is_state_error(e: SenderError, expected: Seq<char>) -> bool {
    e matches SenderError::StateError(s) && s@ == expected
}

/// The error of a sender whose MPCOT sender is not of the kind that an
/// operation needs; it names that kind.
pub open spec fn is_type_error(e: SenderError, expected: Seq<char>) -> bool {
    e matches SenderError::MPCOTSenderTypeError(s) && s@ == expected
}

/// What is wrong with the parameters and base OTs of a setup, if
/// anything: the parameters must be usable, regular positions need buckets
/// of equal size, and there must be a base OT for each of the `k` columns.
pub open spec fn setup_error(params: LpnParameters, lpn_type: LpnType, k_given: nat) -> Option<
    ErrorKind,
> {
    if !params.valid() || (lpn_type is Regular && params.n % params.t != 0) {
        Some(ErrorKind::InvalidParameters)
    } else if k_given != params.k {
        Some(ErrorKind::CountMismatch(params.k, k_given as usize))
    } else {
        None
    }
}

/// The sender's vector of an iteration: the LPN matrix applied to the
/// base blocks, added to the vector of the multi-point query.
pub open spec fn iteration(d: SenderView, s: Seq<Block>) -> Seq<Block> {
    encode(d.seed, s, d.v)
}

/// Number of iterations that it takes to have `count` OTs, with
/// `buffered` of them at hand and `l` more from each iteration.
pub open spec fn iterations_needed(buffered: nat, count: nat, l: nat) -> nat {
    if count <= buffered {
        0
    } else {
        ((count - buffered + l - 1) / (l as int)) as nat
    }
}

fn take_state(state: &mut State) -> (taken: State)
    ensures
        taken == *old(state),
        *final(state) == State::Error,
{
    let mut taken = State::Error;
    core::mem::swap(state, &mut taken);
    taken
}

impl Sender {
    /// The kind of the role's MPCOT sender.
    pub closed spec fn kind(&self) -> MpcotKind {
        self.kind
    }

    /// The role's MPCOT sender for regular positions.
    pub closed spec fn mpcot(&self) -> SenderRegular {
        self.mpcot
    }

    /// The role's MPCOT sender for positions spread anywhere.
    pub closed spec fn mpcot_uniform(&self) -> MpcotSender {
        self.uniform
    }

    /// The OTs extended and not yet handed out.
    pub closed spec fn buffer(&self) -> Seq<Block> {
        self.buffer@
    }

    /// The number of the next batch to hand out.
    pub closed spec fn next_id(&self) -> u64 {
        self.next_id
    }

    /// Number of iterations done, for a role that is set up.
    pub fn counter(&self) -> (c: Option<usize>)
        ensures
            match self@ {
                StateView::Extension(d) => c == Some(d.counter as usize),
                _ => c is None,
            },
    {
        match &self.state {
            State::Extension(d) => Some(d.counter),
            _ => None,
        }
    }

    /// The number of the next batch to hand out.
    pub fn next_transfer_id(&self) -> (id: u64)
        ensures
            id == self.next_id(),
    {
        self.next_id
    }

    /// Creates a new sender.
    pub fn new() -> (s: Self)
        ensures
            s@ is Initialized,
            s.kind() is Initial,
            s.mpcot().state() is Initialized,
            s.mpcot().spcot()@ is Initialized,
            s.mpcot_uniform().state() is Initialized,
            s.mpcot_uniform().spcot()@ is Initialized,
            s.buffer() == Seq::<Block>::empty(),
            s.next_id() == 0,
    {
        Sender {
            state: State::Initialized,
            kind: MpcotKind::Initial,
            mpcot: SenderRegular::new(),
            uniform: MpcotSender::new(),
            buffer: Vec::new(),
            next_id: 0,
        }
    }

    /// Gives access to the role's MPCOT sender for regular positions, to
    /// run the multi-point query of an iteration.
    pub fn mpcot_mut(&mut self) -> (inner: &mut SenderRegular)
        ensures
            *inner == old(self).mpcot(),
            final(self).mpcot() == *final(inner),
            final(self).mpcot_uniform() == old(self).mpcot_uniform(),
            final(self)@ == old(self)@,
            final(self).kind() == old(self).kind(),
            final(self).buffer() == old(self).buffer(),
            final(self).next_id() == old(self).next_id(),
    {
        &mut self.mpcot
    }

    /// Gives access to the role's MPCOT sender for positions spread
    /// anywhere, to run the multi-point query of an iteration.
    pub fn mpcot_uniform_mut(&mut self) -> (inner: &mut MpcotSender)
        ensures
            *inner == old(self).mpcot_uniform(),
            final(self).mpcot_uniform() == *final(inner),
            final(self).mpcot() == old(self).mpcot(),
            final(self)@ == old(self)@,
            final(self).kind() == old(self).kind(),
            final(self).buffer() == old(self).buffer(),
            final(self).next_id() == old(self).next_id(),
    {
        &mut self.uniform
    }

    /// The kind of the role's MPCOT sender.
    pub fn mpcot_kind(&self) -> (k: MpcotKind)
        ensures
            k == self.kind(),
    {
        self.kind
    }

    /// Sets the role up: its MPCOT sender for the kind of positions, with
    /// the sender's global secret and the seed of its trees, and the Ferret
    /// core with the LPN parameters, the seed of the LPN matrix that the
    /// receiver sent, and the sender's blocks `v` of `k` random correlated
    /// OTs. For positions spread anywhere the receiver also sent the seed of
    /// the hash functions of the buckets.
    pub fn setup_with_parameters(
        &mut self,
        delta: Block,
        params: LpnParameters,
        lpn_type: LpnType,
        mpcot_seed: Block,
        hash_seed: Option<HashSeed>,
        seed: LpnSeed,
        v: &[Block],
    ) -> (res: Result<(), SenderError>)
        ensures
            final(self).buffer() == old(self).buffer(),
            final(self).next_id() == old(self).next_id(),
            match res {
                Ok(_) => {
                    &&& old(self)@ is Initialized
                    &&& old(self).kind() is Initial
                    &&& setup_error(params, lpn_type, v@.len()) is None
                    &&& final(self)@ == StateView::Extension(
                        SenderView { delta: delta@, counter: 0, params, seed: seed.seed@, v: v@ },
                    )
                    &&& match lpn_type {
                        LpnType::Regular => {
                            &&& old(self).mpcot().state() is Initialized
                            &&& old(self).mpcot().spcot()@ is Initialized
                            &&& final(self).kind() is Regular
                            &&& final(self).mpcot().state() == (MpcotState::Extension {
                                query: None,
                            })
                            &&& final(self).mpcot_uniform() == old(self).mpcot_uniform()
                        },
                        LpnType::Uniform => {
                            &&& hash_seed matches Some(h)
                            &&& old(self).mpcot_uniform().state() is Initialized
                            &&& old(self).mpcot_uniform().spcot()@ is Initialized
                            &&& final(self).kind() is Uniform
                            &&& final(self).mpcot_uniform().state() == (UniformState::Extension {
                                hash_seed: h.seed@,
                                query: None,
                            })
                            &&& final(self).mpcot() == old(self).mpcot()
                        },
                    }
                },
                Err(e) => {
                    &&& final(self)@ is Error
                    &&& if !(old(self)@ is Initialized) {
                        is_state_error(e, "Initialized"@)
                    } else if !(old(self).kind() is Initial) {
                        is_type_error(e, "Initial"@) && final(self).kind() is Error
                    } else if setup_error(params, lpn_type, v@.len()) is Some {
                        e == SenderError::CoreError(setup_error(params, lpn_type, v@.len())->0)
                    } else if lpn_type is Regular {
                        &&& !(old(self).mpcot().state() is Initialized && old(self).mpcot().spcot()@
                            is Initialized)
                        &&& e is MPCOTSenderRegularError
                        &&& final(self).kind() is Error
                    } else if hash_seed is None {
                        e == SenderError::CoreError(ErrorKind::InvalidPayload)
                    } else {
                        &&& !(old(self).mpcot_uniform().state() is Initialized && old(self).mpcot_uniform().spcot()@ is Initialized)
                        &&& e is MPCOTSenderError
                        &&& final(self).kind() is Error
                    }
                },
            },
    {
        let state = take_state(&mut self.state);
        match state {
            State::Initialized => {},
            _ => {
                return Err(SenderError::StateError("Initialized".to_owned()));
            },
        }
        match self.kind {
            MpcotKind::Initial => {},
            _ => {
                self.kind = MpcotKind::Error;
                return Err(SenderError::MPCOTSenderTypeError("Initial".to_owned()));
            },
        }
        let regular = match lpn_type {
            LpnType::Regular => true,
            LpnType::Uniform => false,
        };
        if !params.is_valid() || (regular && params.n % params.t != 0) {
            return Err(SenderError::CoreError(ErrorKind::InvalidParameters));
        }
        if v.len() != params.k {
            return Err(SenderError::CoreError(ErrorKind::CountMismatch(params.k, v.len())));
        }
        if regular {
            match self.mpcot.setup_with_delta(delta, mpcot_seed) {
                Ok(_) => {},
                Err(e) => {
                    self.kind = MpcotKind::Error;
                    return Err(SenderError::MPCOTSenderRegularError(e));
                },
            }
            self.kind = MpcotKind::Regular;
        } else {
            let h = match hash_seed {
                Some(h) => h,
                None => {
                    return Err(SenderError::CoreError(ErrorKind::InvalidPayload));
                },
            };
            match self.uniform.setup_with_delta(delta, mpcot_seed, h) {
                Ok(_) => {},
                Err(e) => {
                    self.kind = MpcotKind::Error;
                    return Err(SenderError::MPCOTSenderError(e));
                },
            }
            self.kind = MpcotKind::Uniform;
        }
        let d = SenderData {
            delta,
            counter: 0,
            params,
            seed: seed.seed,
            v: vstd::slice::slice_to_vec(v),
        };
        self.state = State::Extension(d);
        Ok(())
    }

    /// The multi-point query of the next iteration: the number of
    /// positions and the number of indices.
    pub fn get_mpcot_query(&mut self) -> (res: Result<(u32, u32), SenderError>)
        ensures
            final(self).kind() == old(self).kind(),
            final(self).mpcot() == old(self).mpcot(),
            final(self).mpcot_uniform() == old(self).mpcot_uniform(),
            final(self).buffer() == old(self).buffer(),
            final(self).next_id() == old(self).next_id(),
            match res {
                Ok(q) => {
                    &&& old(self)@ matches StateView::Extension(d)
                    &&& d.wf()
                    &&& q.0 == d.params.t
                    &&& q.1 == d.params.n
                    &&& final(self)@ == old(self)@
                },
                Err(e) => !(old(self)@ is Extension) && final(self)@ is Error && is_state_error(
                    e,
                    "Extension"@,
                ),
            },
    {
        let state = take_state(&mut self.state);
        let d = match state {
            State::Extension(d) => d,
            _ => {
                return Err(SenderError::StateError("Extension".to_owned()));
            },
        };
        proof {
            use_type_invariant(&d);
        }
        let q = (d.params.t as u32, d.params.n as u32);
        self.state = State::Extension(d);
        Ok(q)
    }

    /// Performs an iteration with the sender's vector `s` of the
    /// multi-point query: it gives the `n - k` new OTs; the first `k` blocks
    /// of the iteration's vector become the base of the next iteration.
    pub fn extend(&mut self, s: &[Block]) -> (res: Result<Vec<Block>, SenderError>)
        requires
            old(self)@ matches StateView::Extension(d) ==> d.counter < usize::MAX,
        ensures
            final(self).kind() == old(self).kind(),
            final(self).mpcot() == old(self).mpcot(),
            final(self).mpcot_uniform() == old(self).mpcot_uniform(),
            final(self).buffer() == old(self).buffer(),
            final(self).next_id() == old(self).next_id(),
            match res {
                Ok(out) => {
                    &&& old(self)@ matches StateView::Extension(d)
                    &&& s@.len() == d.params.n
                    &&& out@ == iteration(d, s@).skip(d.params.k as int)
                    &&& final(self)@ == StateView::Extension(
                        SenderView {
                            counter: d.counter + 1,
                            v: iteration(d, s@).take(d.params.k as int),
                            ..d
                        },
                    )
                },
                Err(e) => {
                    &&& final(self)@ is Error
                    &&& match old(self)@ {
                        StateView::Extension(d) => s@.len() != d.params.n && e
                            == SenderError::CoreError(
                            ErrorKind::CountMismatch(d.params.n, s@.len() as usize),
                        ),
                        _ => is_state_error(e, "Extension"@),
                    }
                },
            },
    {
        let state = take_state(&mut self.state);
        let d = match state {
            State::Extension(d) => d,
            _ => {
                return Err(SenderError::StateError("Extension".to_owned()));
            },
        };
        if s.len() != d.params.n {
            return Err(SenderError::CoreError(ErrorKind::CountMismatch(d.params.n, s.len())));
        }
        proof {
            use_type_invariant(&d);
        }
        let mut y = vstd::slice::slice_to_vec(s);
        compute_blocks(d.seed, &mut y, d.v.as_slice());
        let out = y.split_off(d.params.k);
        proof {
            assert(y@ =~= encode(d.seed@, s@, d.v@).take(d.params.k as int));
            assert(out@ =~= encode(d.seed@, s@, d.v@).skip(d.params.k as int));
        }
        let d = SenderData {
            delta: d.delta,
            counter: d.counter + 1,
            params: d.params,
            seed: d.seed,
            v: y,
        };
        self.state = State::Extension(d);
        Ok(out)
    }

    /// Whether the role has fewer than `count` OTs at hand, so that another
    /// iteration is needed before `count` OTs can be handed out.
    pub fn needs_extension(&self, count: usize) -> (b: bool)
        ensures
            b == (self.buffer().len() < count),
    {
        self.buffer.len() < count
    }

    /// Performs an iteration and keeps its OTs at hand.
    pub fn extend_buffered(&mut self, s: &[Block]) -> (res: Result<(), SenderError>)
        requires
            old(self)@ matches StateView::Extension(d) ==> d.counter < usize::MAX,
        ensures
            final(self).kind() == old(self).kind(),
            final(self).mpcot() == old(self).mpcot(),
            final(self).mpcot_uniform() == old(self).mpcot_uniform(),
            final(self).next_id() == old(self).next_id(),
            match res {
                Ok(_) => {
                    &&& old(self)@ matches StateView::Extension(d)
                    &&& s@.len() == d.params.n
                    &&& final(self).buffer() == old(self).buffer() + iteration(d, s@).skip(
                        d.params.k as int,
                    )
                    &&& final(self)@ == StateView::Extension(
                        SenderView {
                            counter: d.counter + 1,
                            v: iteration(d, s@).take(d.params.k as int),
                            ..d
                        },
                    )
                },
                Err(e) => {
                    &&& final(self)@ is Error
                    &&& final(self).buffer() == old(self).buffer()
                    &&& match old(self)@ {
                        StateView::Extension(d) => s@.len() != d.params.n && e
                            == SenderError::CoreError(
                            ErrorKind::CountMismatch(d.params.n, s@.len() as usize),
                        ),
                        _ => is_state_error(e, "Extension"@),
                    }
                },
            },
    {
        let mut out = self.extend(s)?;
        self.buffer.append(&mut out);
        Ok(())
    }

    /// Hands out the next `count` of the OTs at hand as a batch; what is
    /// left stays at hand for the next batch. Where fewer are at hand,
    /// nothing changes and more iterations are needed first.
    pub fn send_random_correlated(&mut self, count: usize) -> (res: Result<
        RCOTSenderOutput,
        SenderError,
    >)
        requires
            old(self).next_id() < u64::MAX,
        ensures
            final(self).kind() == old(self).kind(),
            final(self).mpcot() == old(self).mpcot(),
            final(self).mpcot_uniform() == old(self).mpcot_uniform(),
            match res {
                Ok(out) => {
                    &&& old(self)@ is Extension
                    &&& count <= old(self).buffer().len()
                    &&& out.id == TransferId(old(self).next_id())
                    &&& out.msgs@ == old(self).buffer().take(count as int)
                    &&& final(self).buffer() == old(self).buffer().skip(count as int)
                    &&& final(self).next_id() == old(self).next_id() + 1
                    &&& final(self)@ == old(self)@
                },
                Err(e) => {
                    &&& final(self).buffer() == old(self).buffer()
                    &&& final(self).next_id() == old(self).next_id()
                    &&& if old(self)@ is Extension {
                        &&& count > old(self).buffer().len()
                        &&& e == SenderError::CoreError(
                            ErrorKind::InsufficientSetup(count, old(self).buffer().len() as usize),
                        )
                        &&& final(self)@ == old(self)@
                    } else {
                        is_state_error(e, "Extension"@) && final(self)@ is Error
                    }
                },
            },
    {
        let state = take_state(&mut self.state);
        let d = match state {
            State::Extension(d) => d,
            _ => {
                return Err(SenderError::StateError("Extension".to_owned()));
            },
        };
        self.state = State::Extension(d);
        if count > self.buffer.len() {
            return Err(
                SenderError::CoreError(ErrorKind::InsufficientSetup(count, self.buffer.len())),
            );
        }
        let rest = self.buffer.split_off(count);
        let mut msgs: Vec<Block> = Vec::new();
        msgs.append(&mut self.buffer);
        self.buffer = rest;
        let id = TransferId(self.next_id);
        self.next_id = self.next_id + 1;
        proof {
            assert(msgs@ =~= old(self).buffer().take(count as int));
            assert(self.buffer@ =~= old(self).buffer().skip(count as int));
        }
        Ok(RCOTSenderOutput { id, msgs })
    }

    /// Tests that the role awaits its setup, before anything is drawn or
    /// read for it. A role in another state has failed for good.
    pub fn expect_initialized(&mut self) -> (res: Result<(), SenderError>)
        ensures
            final(self).kind() == old(self).kind(),
            final(self).mpcot() == old(self).mpcot(),
            final(self).mpcot_uniform() == old(self).mpcot_uniform(),
            final(self).buffer() == old(self).buffer(),
            final(self).next_id() == old(self).next_id(),
            match res {
                Ok(_) => old(self)@ is Initialized && final(self)@ == old(self)@,
                Err(e) => !(old(self)@ is Initialized) && final(self)@ is Error && is_state_error(
                    e,
                    "Initialized"@,
                ),
            },
    {
        let fresh = match &self.state {
            State::Initialized => true,
            _ => false,
        };
        if !fresh {
            self.state = State::Error;
            return Err(SenderError::StateError("Initialized".to_owned()));
        }
        Ok(())
    }

    /// Gives the role up, as after a failure of the transport or of the
    /// correlated OT in the middle of an operation: the role and the roles
    /// it owns are in the `Error` state and every further operation fails.
    pub fn abort(&mut self)
        ensures
            final(self)@ is Error,
            final(self).kind() is Error,
            final(self).mpcot().state() is Error,
            final(self).mpcot().spcot()@ is Error,
            final(self).mpcot_uniform().state() is Error,
            final(self).mpcot_uniform().spcot()@ is Error,
            final(self).buffer() == old(self).buffer(),
            final(self).next_id() == old(self).next_id(),
    {
        self.state = State::Error;
        self.kind = MpcotKind::Error;
        self.mpcot.abort();
        self.uniform.abort();
    }

    /// Completes the role and its MPCOT sender.
    ///
    /// Only a role that performs extensions, with an MPCOT sender that
    /// does, can be completed. Any other has failed for good.
    pub fn finalize(&mut self) -> (res: Result<(), SenderError>)
        ensures
            final(self).buffer() == old(self).buffer(),
            final(self).next_id() == old(self).next_id(),
            final(self).kind() == old(self).kind(),
            match res {
                Ok(_) => {
                    &&& old(self)@ is Extension
                    &&& final(self)@ is Complete
                    &&& match old(self).kind() {
                        MpcotKind::Regular => {
                            &&& old(self).mpcot().state() is Extension
                            &&& old(self).mpcot().spcot()@ is Extension
                            &&& final(self).mpcot().state() is Complete
                            &&& final(self).mpcot().spcot()@ is Complete
                            &&& final(self).mpcot_uniform() == old(self).mpcot_uniform()
                        },
                        MpcotKind::Uniform => {
                            &&& old(self).mpcot_uniform().state() is Extension
                            &&& old(self).mpcot_uniform().spcot()@ is Extension
                            &&& final(self).mpcot_uniform().state() is Complete
                            &&& final(self).mpcot_uniform().spcot()@ is Complete
                            &&& final(self).mpcot() == old(self).mpcot()
                        },
                        _ => false,
                    }
                },
                Err(e) => {
                    &&& final(self)@ is Error
                    &&& if !(old(self)@ is Extension) || old(self).kind() is Initial || old(
                        self,
                    ).kind() is Error {
                        &&& is_state_error(e, "Extension"@)
                        &&& final(self).mpcot() == old(self).mpcot()
                        &&& final(self).mpcot_uniform() == old(self).mpcot_uniform()
                    } else if old(self).kind() is Regular {
                        &&& !(old(self).mpcot().state() is Extension && old(self).mpcot().spcot()@
                            is Extension)
                        &&& final(self).mpcot().state() is Error
                        &&& final(self).mpcot_uniform() == old(self).mpcot_uniform()
                        &&& e is MPCOTSenderRegularError
                    } else {
                        &&& !(old(self).mpcot_uniform().state() is Extension && old(
                            self,
                        ).mpcot_uniform().spcot()@ is Extension)
                        &&& final(self).mpcot_uniform().state() is Error
                        &&& final(self).mpcot() == old(self).mpcot()
                        &&& e is MPCOTSenderError
                    }
                },
            },
    {
        let extending = match &self.state {
            State::Extension(_) => true,
            _ => false,
        };
        self.state = State::Error;
        if !extending {
            return Err(SenderError::StateError("Extension".to_owned()));
        }
        match self.kind {
            MpcotKind::Regular => {
                match self.mpcot.finalize() {
                    Ok(_) => {},
                    Err(e) => {
                        return Err(SenderError::MPCOTSenderRegularError(e));
                    },
                }
            },
            MpcotKind::Uniform => {
                match self.uniform.finalize() {
                    Ok(_) => {},
                    Err(e) => {
                        return Err(SenderError::MPCOTSenderError(e));
                    },
                }
            },
            _ => {
                return Err(SenderError::StateError("Extension".to_owned()));
            },
        }
        self.state = State::Complete;
        Ok(())
    }
}

} // verus!
