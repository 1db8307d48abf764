//! The MPCOT sender for positions spread anywhere.

use crate::block::Block;
use crate::ferret::mpcot::cuckoo::{
    bucket_count, check_query, check_trees, combine, depths_of, query_error,
    sizes_of, trees_error, uniform_depths, uniform_output,
};
use crate::ferret::mpcot::error::SenderError;
use crate::ferret::mpcot::lemma_depth_for;
use crate::ferret::mpcot::msgs::HashSeed;
use crate::ferret::spcot::deep;
use crate::ferret::spcot::sender::{Sender as SpcotSender, SenderView, StateView as SpcotView};
use crate::prg::{stretch, PrgView};
use vstd::prelude::*;

verus! {

/// What the sender holds between setup and completion.
pub struct Ready {
    /// The seed of the hash functions of the buckets.
    hash_seed: Block,
    /// The query that is under way: the number of positions, the number
    /// of indices, and the sizes of the buckets.
    query: Option<(u32, u32, Vec<u32>)>,
}

impl Ready {
    /// The sizes are those of the buckets of the query.
    #[verifier::type_invariant]
    spec fn sized(self) -> bool {
        match self.query {
            Some(q) => sizes_of(q.2@, self.hash_seed@, q.0 as nat, q.1 as nat),
            None => true,
        }
    }

    spec fn view(self) -> StateView {
        StateView::Extension {
            hash_seed: self.hash_seed@,
            query: match self.query {
                Some(q) => Some((q.0, q.1)),
                None => None,
            },
        }
    }
}

/// The state of the sender.
pub enum State {
    Initialized,
    Extension(Ready),
    Complete,
    Error,
}

/// The state of the sender.
pub enum StateView {
    Initialized,
    /// Set up with the seed of the hash functions; `query` holds the
    /// number of positions and of indices of the query that is under way.
    Extension { hash_seed: u128, query: Option<(u32, u32)> },
    Complete,
    Error,
}

/// MPCOT sender.
pub struct Sender {
    state: State,
    /// The SPCOT sender that expands the trees of the buckets.
    spcot: SpcotSender,
}

/// The error of a sender that is not in the state that an operation
/// needs; it names that state.
pub open spec fn is_state_error(e: SenderError, expected: Seq<char>) -> bool {
    e matches SenderError::StateError(s) && s@ == expected
}

fn take_state(state: &mut State) -> (taken: State)
    ensures
        taken == *old(state),
        *final(state) == State::Error,
{
    let mut taken = State::Error;
    core::mem::swap(state, &mut taken);
    taken
}

impl Sender {
    /// The state of the role.
    pub closed spec fn state(&self) -> StateView {
        match self.state {
            State::Initialized => StateView::Initialized,
            State::Extension(r) => r.view(),
            State::Complete => StateView::Complete,
            State::Error => StateView::Error,
        }
    }

    /// The SPCOT sender that expands the trees of the buckets.
    pub closed spec fn spcot(&self) -> SpcotSender {
        self.spcot
    }

    /// Gives access to the SPCOT sender, to run the batch of a query.
    pub fn spcot_mut(&mut self) -> (inner: &mut SpcotSender)
        ensures
            *inner == old(self).spcot(),
            final(self).spcot() == *final(inner),
            final(self).state() == old(self).state(),
    {
        &mut self.spcot
    }

    /// Creates a new sender.
    pub fn new() -> (s: Self)
        ensures
            s.state() is Initialized,
            s.spcot()@ is Initialized,
    {
        Sender { state: State::Initialized, spcot: SpcotSender::new() }
    }

    /// Completes the setup with the sender's global secret, the seed of
    /// the generator that the roots of the trees are drawn from, and the
    /// seed of the hash functions that the receiver sent.
    pub fn setup_with_delta(&mut self, delta: Block, seed: Block, hash_seed: HashSeed) -> (res:
        Result<(), SenderError>)
        ensures
            match res {
                Ok(_) => {
                    &&& old(self).state() is Initialized
                    &&& old(self).spcot()@ is Initialized
                    &&& final(self).state() == (StateView::Extension {
                        hash_seed: hash_seed.seed@,
                        query: None,
                    })
                    &&& final(self).spcot()@ == SpcotView::Extension(
                        SenderView {
                            delta: delta@,
                            prg: PrgView { seed: stretch(seed@), word_pos: 0 },
                            unchecked_vs: Seq::empty(),
                        },
                    )
                },
                Err(e) => {
                    &&& final(self).state() is Error
                    &&& if old(self).state() is Initialized {
                        &&& !(old(self).spcot()@ is Initialized)
                        &&& final(self).spcot()@ is Error
                        &&& e matches SenderError::SPCOTSenderError(inner)
                        &&& crate::ferret::spcot::sender::is_state_error(inner, "Initialized"@)
                    } else {
                        is_state_error(e, "Initialized"@) && final(self).spcot() == old(self).spcot()
                    }
                },
            },
    {
        let state = take_state(&mut self.state);
        match state {
            State::Initialized => {},
            _ => {
                return Err(SenderError::StateError("Initialized".to_owned()));
            },
        }
        match self.spcot.setup_with_delta(delta, seed) {
            Ok(_) => {},
            Err(e) => {
                return Err(SenderError::SPCOTSenderError(e));
            },
        }
        self.state = State::Extension(Ready { hash_seed: hash_seed.seed, query: None });
        Ok(())
    }

    /// Begins a query for `t` positions among `n` indices, and gives the
    /// depths of the trees of the SPCOT batch that answers it: one tree for
    /// each of the buckets that the indices are hashed into, with a leaf
    /// for each index of the bucket and one more.
    pub fn pre_extend(&mut self, t: u32, n: u32) -> (res: Result<Vec<usize>, SenderError>)
        ensures
            final(self).spcot() == old(self).spcot(),
            match res {
                Ok(hs) => {
                    &&& old(self).state() matches StateView::Extension { hash_seed, .. }
                    &&& query_error(hash_seed, t as nat, n as nat) is None
                    &&& hs@ == uniform_depths(hash_seed, t as nat, n as nat)
                    &&& final(self).state() == (StateView::Extension {
                        hash_seed,
                        query: Some((t, n)),
                    })
                },
                Err(e) => {
                    &&& final(self).state() is Error
                    &&& match old(self).state() {
                        StateView::Extension { hash_seed, .. } => query_error(
                            hash_seed,
                            t as nat,
                            n as nat,
                        ) matches Some(kind) && e == SenderError::CoreError(kind),
                        _ => is_state_error(e, "Extension"@),
                    }
                },
            },
    {
        let state = take_state(&mut self.state);
        let ready = match state {
            State::Extension(r) => r,
            _ => {
                return Err(SenderError::StateError("Extension".to_owned()));
            },
        };
        let hash_seed = ready.hash_seed;
        let sizes = match check_query(hash_seed, t, n) {
            Ok(s) => s,
            Err(kind) => {
                return Err(SenderError::CoreError(kind));
            },
        };
        proof {
            assert forall|b: int| 0 <= b < sizes@.len() implies (#[trigger] sizes@[b])
                < u32::MAX by {
                let c = crate::ferret::mpcot::cuckoo::count(
                    hash_seed@,
                    bucket_count(t as nat),
                    b as nat,
                    n as nat,
                );
                assert(sizes@[b] == c);
                lemma_depth_for((c + 1) as nat);
                crate::ferret::ggm::lemma_two_pow(
                    crate::ferret::mpcot::cuckoo::bucket_depth(c),
                    31,
                );
            }
        }
        let hs = depths_of(sizes.as_slice());
        assert(hs@ =~= uniform_depths(hash_seed@, t as nat, n as nat));
        self.state = State::Extension(Ready { hash_seed, query: Some((t, n, sizes)) });
        Ok(hs)
    }

    /// Ends the query that is under way: each index gets the sum of the
    /// blocks that the trees of its buckets hold for it.
    pub fn extend(&mut self, st: &[Vec<Block>]) -> (res: Result<Vec<Block>, SenderError>)
        ensures
            final(self).spcot() == old(self).spcot(),
            match res {
                Ok(out) => {
                    &&& old(self).state() matches StateView::Extension {
                        hash_seed,
                        query: Some(q),
                    }
                    &&& trees_error(deep(st@), hash_seed, q.0 as nat, q.1 as nat) is None
                    &&& out@ == uniform_output(
                        deep(st@),
                        hash_seed,
                        bucket_count(q.0 as nat),
                        q.1 as nat,
                    )
                    &&& final(self).state() == (StateView::Extension { hash_seed, query: None })
                },
                Err(e) => {
                    &&& final(self).state() is Error
                    &&& match old(self).state() {
                        StateView::Extension { hash_seed, query: Some(q) } => trees_error(
                            deep(st@),
                            hash_seed,
                            q.0 as nat,
                            q.1 as nat,
                        ) matches Some(kind) && e == SenderError::CoreError(kind),
                        StateView::Extension { hash_seed, query: None } => is_state_error(
                            e,
                            "PreExtension"@,
                        ),
                        _ => is_state_error(e, "Extension"@),
                    }
                },
            },
    {
        let state = take_state(&mut self.state);
        let ready = match state {
            State::Extension(r) => r,
            _ => {
                return Err(SenderError::StateError("Extension".to_owned()));
            },
        };
        proof {
            use_type_invariant(&ready);
        }
        let Ready { hash_seed, query } = ready;
        let (t, n, sizes) = match query {
            Some(q) => q,
            None => {
                return Err(SenderError::StateError("PreExtension".to_owned()));
            },
        };
        match check_trees(st, sizes.as_slice(), Ghost(hash_seed@), Ghost(t as nat), Ghost(n as nat)) {
            Ok(_) => {},
            Err(kind) => {
                return Err(SenderError::CoreError(kind));
            },
        }
        let out = combine(st, hash_seed, sizes.len(), n, sizes.as_slice());
        self.state = State::Extension(Ready { hash_seed, query: None });
        Ok(out)
    }

    /// Tests that the role awaits its setup, before anything is read for
    /// it. A role in another state has failed for good.
    pub fn expect_initialized(&mut self) -> (res: Result<(), SenderError>)
        ensures
            final(self).spcot() == old(self).spcot(),
            match res {
                Ok(_) => old(self).state() is Initialized && final(self).state() == old(
                    self,
                ).state(),
                Err(e) => !(old(self).state() is Initialized) && final(self).state() is Error
                    && is_state_error(e, "Initialized"@),
            },
    {
        let fresh = match &self.state {
            State::Initialized => true,
            _ => false,
        };
        if !fresh {
            self.state = State::Error;
            return Err(SenderError::StateError("Initialized".to_owned()));
        }
        Ok(())
    }

    /// Gives the role up, as after a failure of the transport or of the
    /// correlated OT in the middle of an operation: the role and its SPCOT
    /// role are in the `Error` state and every further operation fails.
    pub fn abort(&mut self)
        ensures
            final(self).state() is Error,
            final(self).spcot()@ is Error,
    {
        self.state = State::Error;
        self.spcot.abort();
    }

    /// Completes the role and its SPCOT sender.
    pub fn finalize(&mut self) -> (res: Result<(), SenderError>)
        ensures
            match res {
                Ok(_) => {
                    &&& old(self).state() is Extension
                    &&& old(self).spcot()@ is Extension
                    &&& final(self).state() is Complete
                    &&& final(self).spcot()@ is Complete
                },
                Err(e) => {
                    &&& final(self).state() is Error
                    &&& if old(self).state() is Extension {
                        &&& !(old(self).spcot()@ is Extension)
                        &&& final(self).spcot()@ is Error
                        &&& e matches SenderError::SPCOTSenderError(inner)
                        &&& crate::ferret::spcot::sender::is_state_error(inner, "Extension"@)
                    } else {
                        is_state_error(e, "Extension"@) && final(self).spcot() == old(self).spcot()
                    }
                },
            },
    {
        let state = take_state(&mut self.state);
        match state {
            State::Extension(_) => {},
            _ => {
                return Err(SenderError::StateError("Extension".to_owned()));
            },
        }
        match self.spcot.finalize() {
            Ok(_) => {},
            Err(e) => {
                return Err(SenderError::SPCOTSenderError(e));
            },
        }
        self.state = State::Complete;
        Ok(())
    }
}

} // verus!
