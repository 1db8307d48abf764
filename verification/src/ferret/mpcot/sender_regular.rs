//! The MPCOT sender for regular positions.

use crate::block::Block;
use crate::ferret::mpcot::error::SenderRegularError;
use crate::ferret::mpcot::{
    bucket_shape, depths, query_error, regular_output, take_buckets, trees_error,
};
use crate::ferret::spcot::deep;
use crate::ferret::spcot::sender::{Sender as SpcotSender, SenderView, StateView as SpcotView};
use crate::prg::{stretch, PrgView};
use vstd::prelude::*;

verus! {

/// The state of the sender.
pub enum State {
    Initialized,
    /// Set up; `query` holds the number of positions and of indices of the
    /// query that is under way.
    Extension { query: Option<(u32, u32)> },
    Complete,
    Error,
}

/// MPCOT regular sender.
pub struct SenderRegular {
    state: State,
    /// The SPCOT sender that expands the trees of the buckets.
    spcot: SpcotSender,
}

impl SenderRegular {
    /// The state of the role.
    pub closed spec fn state(&self) -> State {
        self.state
    }

    /// The SPCOT sender that expands the trees of the buckets.
    pub closed spec fn spcot(&self) -> SpcotSender {
        self.spcot
    }

    /// Gives access to the SPCOT sender, to run the batch of a query.
    pub fn spcot_mut(&mut self) -> (inner: &mut SpcotSender)
        ensures
            *inner == old(self).spcot(),
            final(self).spcot() == *final(inner),
            final(self).state() == old(self).state(),
    {
        &mut self.spcot
    }
}

/// The error of a sender that is not in the state that an operation
/// needs; it names that state.
pub open spec fn is_state_error(e: SenderRegularError, expected: Seq<char>) -> bool {
    e matches SenderRegularError::StateError(s) && s@ == expected
}

fn take_state(state: &mut State) -> (taken: State)
    ensures
        taken == *old(state),
        *final(state) == State::Error,
{
    let mut taken = State::Error;
    core::mem::swap(state, &mut taken);
    taken
}

impl SenderRegular {
    /// Creates a new sender.
    pub fn new() -> (s: Self)
        ensures
            s.state() is Initialized,
            s.spcot()@ is Initialized,
    {
        SenderRegular { state: State::Initialized, spcot: SpcotSender::new() }
    }

    /// Completes the setup with the sender's global secret and the seed of
    /// the generator that the roots of the trees are drawn from.
    pub fn setup_with_delta(&mut self, delta: Block, seed: Block) -> (res: Result<
        (),
        SenderRegularError,
    >)
        ensures
            match res {
                Ok(_) => {
                    &&& old(self).state() is Initialized
                    &&& old(self).spcot()@ is Initialized
                    &&& final(self).state() == (State::Extension { query: None })
                    &&& final(self).spcot()@ == SpcotView::Extension(
                        SenderView {
                            delta: delta@,
                            prg: PrgView { seed: stretch(seed@), word_pos: 0 },
                            unchecked_vs: Seq::empty(),
                        },
                    )
                },
                Err(e) => {
                    &&& final(self).state() is Error
                    &&& if old(self).state() is Initialized {
                        &&& !(old(self).spcot()@ is Initialized)
                        &&& final(self).spcot()@ is Error
                        &&& e matches SenderRegularError::SPCOTSenderError(inner)
                        &&& crate::ferret::spcot::sender::is_state_error(inner, "Initialized"@)
                    } else {
                        is_state_error(e, "Initialized"@) && final(self).spcot()@ == old(self).spcot()@
                    }
                },
            },
    {
        let state = take_state(&mut self.state);
        match state {
            State::Initialized => {},
            _ => {
                return Err(SenderRegularError::StateError("Initialized".to_owned()));
            },
        }
        match self.spcot.setup_with_delta(delta, seed) {
            Ok(_) => {},
            Err(e) => {
                return Err(SenderRegularError::SPCOTSenderError(e));
            },
        }
        self.state = State::Extension { query: None };
        Ok(())
    }

    /// Begins a query for `t` positions among `n` indices, and gives the
    /// depths of the trees of the SPCOT batch that answers it: one tree for
    /// each of the `t` buckets of `n / t` indices.
    pub fn pre_extend(&mut self, t: u32, n: u32) -> (res: Result<Vec<usize>, SenderRegularError>)
        ensures
            final(self).spcot()@ == old(self).spcot()@,
            match res {
                Ok(hs) => {
                    &&& old(self).state() is Extension
                    &&& query_error(t as nat, n as nat) is None
                    &&& hs@ == depths(t as nat, n as nat)
                    &&& final(self).state() == (State::Extension { query: Some((t, n)) })
                },
                Err(e) => {
                    &&& final(self).state() is Error
                    &&& if old(self).state() is Extension {
                        query_error(t as nat, n as nat) matches Some(kind) && e
                            == SenderRegularError::CoreError(kind)
                    } else {
                        is_state_error(e, "Extension"@)
                    }
                },
            },
    {
        let state = take_state(&mut self.state);
        match state {
            State::Extension { query: _ } => {},
            _ => {
                return Err(SenderRegularError::StateError("Extension".to_owned()));
            },
        }
        let (m, h) = match bucket_shape(t, n) {
            Ok(s) => s,
            Err(kind) => {
                return Err(SenderRegularError::CoreError(kind));
            },
        };
        let mut hs: Vec<usize> = Vec::new();
        let mut j: u32 = 0;
        while j < t
            invariant
                j <= t,
                hs@.len() == j,
                forall|k: int| 0 <= k < j ==> #[trigger] hs@[k] == h,
            decreases t - j,
        {
            hs.push(h);
            j = j + 1;
        }
        assert(hs@ =~= depths(t as nat, n as nat));
        self.state = State::Extension { query: Some((t, n)) };
        Ok(hs)
    }

    /// Ends the query that is under way: from the vectors of the trees
    /// that the SPCOT batch gave, it takes the part of each bucket and
    /// joins the parts to the vector of the query.
    pub fn extend(&mut self, st: &[Vec<Block>]) -> (res: Result<Vec<Block>, SenderRegularError>)
        ensures
            final(self).spcot()@ == old(self).spcot()@,
            match res {
                Ok(out) => {
                    &&& old(self).state() matches State::Extension { query: Some(q) }
                    &&& query_error(q.0 as nat, q.1 as nat) is None
                    &&& trees_error(deep(st@), q.0 as nat, (q.1 / q.0) as nat) is None
                    &&& out@ == regular_output(deep(st@), q.0 as nat, (q.1 / q.0) as nat)
                    &&& final(self).state() == (State::Extension { query: None })
                },
                Err(e) => {
                    &&& final(self).state() is Error
                    &&& match old(self).state() {
                        State::Extension { query: Some(q) } => {
                            if query_error(q.0 as nat, q.1 as nat) is Some {
                                e == SenderRegularError::CoreError(
                                    query_error(q.0 as nat, q.1 as nat)->0,
                                )
                            } else {
                                trees_error(deep(st@), q.0 as nat, (q.1 / q.0) as nat) matches Some(
                                    kind,
                                ) && e == SenderRegularError::CoreError(kind)
                            }
                        },
                        State::Extension { query: None } => is_state_error(e, "PreExtension"@),
                        _ => is_state_error(e, "Extension"@),
                    }
                },
            },
    {
        let state = take_state(&mut self.state);
        let (t, n) = match state {
            State::Extension { query: Some(q) } => q,
            State::Extension { query: None } => {
                return Err(SenderRegularError::StateError("PreExtension".to_owned()));
            },
            _ => {
                return Err(SenderRegularError::StateError("Extension".to_owned()));
            },
        };
        let (m, h) = match bucket_shape(t, n) {
            Ok(s) => s,
            Err(kind) => {
                return Err(SenderRegularError::CoreError(kind));
            },
        };
        proof {
            vstd::arithmetic::div_mod::lemma_fundamental_div_mod(n as int, t as int);
        }
        let out = match take_buckets(st, t as usize, m as usize, h) {
            Ok(out) => out,
            Err(kind) => {
                return Err(SenderRegularError::CoreError(kind));
            },
        };
        self.state = State::Extension { query: None };
        Ok(out)
    }

    /// Gives the role up, as after a failure of the transport or of the
    /// correlated OT in the middle of an operation: the role and its SPCOT
    /// role are in the `Error` state and every further operation fails.
    pub fn abort(&mut self)
        ensures
            final(self).state() is Error,
            final(self).spcot()@ is Error,
    {
        self.state = State::Error;
        self.spcot.abort();
    }

    /// Completes the role and its SPCOT sender.
    pub fn finalize(&mut self) -> (res: Result<(), SenderRegularError>)
        ensures
            match res {
                Ok(_) => {
                    &&& old(self).state() is Extension
                    &&& old(self).spcot()@ is Extension
                    &&& final(self).state() is Complete
                    &&& final(self).spcot()@ is Complete
                },
                Err(e) => {
                    &&& final(self).state() is Error
                    &&& if old(self).state() is Extension {
                        &&& !(old(self).spcot()@ is Extension)
                        &&& final(self).spcot()@ is Error
                        &&& e matches SenderRegularError::SPCOTSenderError(inner)
                        &&& crate::ferret::spcot::sender::is_state_error(inner, "Extension"@)
                    } else {
                        is_state_error(e, "Extension"@) && final(self).spcot() == old(self).spcot()
                    }
                },
            },
    {
        let state = take_state(&mut self.state);
        match state {
            State::Extension { query: _ } => {},
            _ => {
                return Err(SenderRegularError::StateError("Extension".to_owned()));
            },
        }
        match self.spcot.finalize() {
            Ok(_) => {},
            Err(e) => {
                return Err(SenderRegularError::SPCOTSenderError(e));
            },
        }
        self.state = State::Complete;
        Ok(())
    }
}

} // verus!
