//! The MPCOT receiver for positions spread anywhere.

use crate::block::Block;
use crate::ferret::error::ErrorKind;
use crate::ferret::mpcot::cuckoo::{
    bucket_count, bucket_depth, check_query, check_trees, combine, count, depths_of,
    is_well_placed, place, place_all, query_error, sizes_of, target, targets, trees_error,
    uniform_output, well_placed,
};
use crate::ferret::mpcot::error::ReceiverError;
use crate::ferret::mpcot::lemma_depth_for;
use crate::ferret::mpcot::msgs::HashSeed;
use crate::ferret::spcot::deep;
use crate::ferret::spcot::receiver::{
    Receiver as SpcotReceiver, ReceiverView, StateView as SpcotView,
};
use vstd::prelude::*;

verus! {

/// What the receiver holds between setup and completion.
pub struct Ready {
    /// The seed of the hash functions of the buckets.
    hash_seed: Block,
    /// The query that is under way: the number of positions, the number
    /// of indices, and the sizes of the buckets.
    query: Option<(u32, u32, Vec<u32>)>,
}

impl Ready {
    /// The sizes are those of the buckets of the query.
    #[verifier::type_invariant]
    spec fn sized(self) -> bool {
        match self.query {
            Some(q) => sizes_of(q.2@, self.hash_seed@, q.0 as nat, q.1 as nat),
            None => true,
        }
    }

    spec fn view(self) -> StateView {
        StateView::Extension {
            hash_seed: self.hash_seed@,
            query: match self.query {
                Some(q) => Some((q.0, q.1)),
                None => None,
            },
        }
    }
}

/// The state of the receiver.
pub enum State {
    Initialized,
    Extension(Ready),
    Complete,
    Error,
}

/// The state of the receiver.
pub enum StateView {
    Initialized,
    /// Set up with the seed of the hash functions; `query` holds the
    /// number of positions and of indices of the query that is under way.
    Extension { hash_seed: u128, query: Option<(u32, u32)> },
    Complete,
    Error,
}

/// MPCOT receiver.
pub struct Receiver {
    state: State,
    /// The SPCOT receiver that reconstructs the trees of the buckets.
    spcot: SpcotReceiver,
}

/// The error of a receiver that is not in the state that an operation
/// needs; it names that state.
pub open spec fn is_state_error(e: ReceiverError, expected: Seq<char>) -> bool {
    e matches ReceiverError::StateError(s) && s@ == expected
}

/// What is wrong with a query for the positions `alphas` among `n`
/// indices, if anything: each position must be an index, and the positions
/// must find their places in the buckets, each in a bucket of its own.
pub open spec fn positions_error(alphas: Seq<u32>, seed: u128, n: nat) -> Option<ErrorKind> {
    let m = bucket_count(alphas.len());
    if alphas.len() > u32::MAX || query_error(seed, alphas.len(), n) is Some {
        Some(ErrorKind::InvalidParameters)
    } else if exists|j: int| 0 <= j < alphas.len() && (#[trigger] alphas[j]) >= n {
        Some(ErrorKind::InvalidParameters)
    } else {
        match place_all(alphas, seed, m, alphas.len()) {
            None => Some(ErrorKind::InvalidParameters),
            Some(table) => if well_placed(table, alphas, seed) {
                None
            } else {
                Some(ErrorKind::InvalidParameters)
            },
        }
    }
}

/// The depth of the tree and the chosen position of each bucket: the
/// rank of the position that the bucket holds, or, for a bucket that holds
/// none, the place after the last index of the bucket.
pub open spec fn queries(alphas: Seq<u32>, seed: u128, n: nat) -> Seq<(usize, u32)> {
    let m = bucket_count(alphas.len());
    let table = place_all(alphas, seed, m, alphas.len())->0;
    Seq::new(
        m,
        |b: int| (bucket_depth(count(seed, m, b as nat, n)) as usize, target(table, seed, n, b) as u32),
    )
}

fn take_state(state: &mut State) -> (taken: State)
    ensures
        taken == *old(state),
        *final(state) == State::Error,
{
    let mut taken = State::Error;
    core::mem::swap(state, &mut taken);
    taken
}

impl Receiver {
    /// The state of the role.
    pub closed spec fn state(&self) -> StateView {
        match self.state {
            State::Initialized => StateView::Initialized,
            State::Extension(r) => r.view(),
            State::Complete => StateView::Complete,
            State::Error => StateView::Error,
        }
    }

    /// The SPCOT receiver that reconstructs the trees of the buckets.
    pub closed spec fn spcot(&self) -> SpcotReceiver {
        self.spcot
    }

    /// Gives access to the SPCOT receiver, to run the batch of a query.
    pub fn spcot_mut(&mut self) -> (inner: &mut SpcotReceiver)
        ensures
            *inner == old(self).spcot(),
            final(self).spcot() == *final(inner),
            final(self).state() == old(self).state(),
    {
        &mut self.spcot
    }

    /// Creates a new receiver.
    pub fn new() -> (r: Self)
        ensures
            r.state() is Initialized,
            r.spcot()@ is Initialized,
    {
        Receiver { state: State::Initialized, spcot: SpcotReceiver::new() }
    }

    /// Completes the setup with the seed of the hash functions of the
    /// buckets, and gives the seed to send to the sender.
    pub fn setup(&mut self, hash_seed: Block) -> (res: Result<HashSeed, ReceiverError>)
        ensures
            match res {
                Ok(msg) => {
                    &&& old(self).state() is Initialized
                    &&& old(self).spcot()@ is Initialized
                    &&& msg.seed == hash_seed
                    &&& final(self).state() == (StateView::Extension {
                        hash_seed: hash_seed@,
                        query: None,
                    })
                    &&& final(self).spcot()@ == SpcotView::Extension(
                        ReceiverView {
                            unchecked_ws: Seq::empty(),
                            alphas: Seq::empty(),
                            chi_seed: None,
                        },
                    )
                },
                Err(e) => {
                    &&& final(self).state() is Error
                    &&& if old(self).state() is Initialized {
                        &&& !(old(self).spcot()@ is Initialized)
                        &&& final(self).spcot()@ is Error
                        &&& e matches ReceiverError::SpcotReceiverError(inner)
                        &&& crate::ferret::spcot::receiver::is_state_error(inner, "Initialized"@)
                    } else {
                        is_state_error(e, "Initialized"@) && final(self).spcot() == old(self).spcot()
                    }
                },
            },
    {
        let state = take_state(&mut self.state);
        match state {
            State::Initialized => {},
            _ => {
                return Err(ReceiverError::StateError("Initialized".to_owned()));
            },
        }
        match self.spcot.setup() {
            Ok(_) => {},
            Err(e) => {
                return Err(ReceiverError::SpcotReceiverError(e));
            },
        }
        self.state = State::Extension(Ready { hash_seed, query: None });
        Ok(HashSeed { seed: hash_seed })
    }

    /// Begins a query for the positions `alphas` among `n` indices: the
    /// positions are placed in the buckets by Cuckoo hashing, and the trees
    /// of the SPCOT batch that answers the query are given, for each bucket
    /// the depth of its tree and its chosen position.
    pub fn pre_extend(&mut self, alphas: &[u32], n: u32) -> (res: Result<
        Vec<(usize, u32)>,
        ReceiverError,
    >)
        ensures
            final(self).spcot() == old(self).spcot(),
            match res {
                Ok(qs) => {
                    &&& old(self).state() matches StateView::Extension { hash_seed, .. }
                    &&& positions_error(alphas@, hash_seed, n as nat) is None
                    &&& qs@ == queries(alphas@, hash_seed, n as nat)
                    &&& final(self).state() == (StateView::Extension {
                        hash_seed,
                        query: Some((alphas@.len() as u32, n)),
                    })
                },
                Err(e) => {
                    &&& final(self).state() is Error
                    &&& match old(self).state() {
                        StateView::Extension { hash_seed, .. } => positions_error(
                            alphas@,
                            hash_seed,
                            n as nat,
                        ) matches Some(kind) && e == ReceiverError::CoreError(kind),
                        _ => is_state_error(e, "Extension"@),
                    }
                },
            },
    {
        let state = take_state(&mut self.state);
        let ready = match state {
            State::Extension(r) => r,
            _ => {
                return Err(ReceiverError::StateError("Extension".to_owned()));
            },
        };
        let hash_seed = ready.hash_seed;
        if alphas.len() > u32::MAX as usize {
            return Err(ReceiverError::CoreError(ErrorKind::InvalidParameters));
        }
        let t = alphas.len() as u32;
        let sizes = match check_query(hash_seed, t, n) {
            Ok(s) => s,
            Err(kind) => {
                return Err(ReceiverError::CoreError(kind));
            },
        };
        let mut j: usize = 0;
        while j < alphas.len()
            invariant
                j <= alphas@.len(),
                forall|i: int| 0 <= i < j ==> (#[trigger] alphas@[i]) < n,
                self.spcot() == old(self).spcot(),
                self.state() is Error,
                old(self).state() matches StateView::Extension { hash_seed: h, .. } && h
                    == hash_seed@,
                alphas@.len() <= u32::MAX,
                query_error(hash_seed@, alphas@.len(), n as nat) is None,
            decreases alphas@.len() - j,
        {
            if alphas[j] >= n {
                return Err(ReceiverError::CoreError(ErrorKind::InvalidParameters));
            }
            j = j + 1;
        }
        let m = sizes.len();
        let table = match place(alphas, hash_seed, m) {
            Some(t) => t,
            None => {
                return Err(ReceiverError::CoreError(ErrorKind::InvalidParameters));
            },
        };
        if !is_well_placed(&table, alphas, hash_seed) {
            return Err(ReceiverError::CoreError(ErrorKind::InvalidParameters));
        }
        proof {
            assert forall|b: int| 0 <= b < sizes@.len() implies (#[trigger] sizes@[b])
                < u32::MAX by {
                let c = count(hash_seed@, bucket_count(t as nat), b as nat, n as nat);
                assert(sizes@[b] == c);
                lemma_depth_for((c + 1) as nat);
                crate::ferret::ggm::lemma_two_pow(bucket_depth(c), 31);
            }
        }
        let hs = depths_of(sizes.as_slice());
        let pos = targets(&table, hash_seed, n, sizes.as_slice());
        let mut qs: Vec<(usize, u32)> = Vec::new();
        let mut b: usize = 0;
        while b < m
            invariant
                b <= m,
                hs@.len() == m,
                pos@.len() == m,
                qs@.len() == b,
                forall|k: int| 0 <= k < b ==> #[trigger] qs@[k] == (hs@[k], pos@[k]),
            decreases m - b,
        {
            qs.push((hs[b], pos[b]));
            b = b + 1;
        }
        proof {
            assert forall|k: int| 0 <= k < m implies #[trigger] qs@[k] == queries(
                alphas@,
                hash_seed@,
                n as nat,
            )[k] by {
                assert(hs@[k] == bucket_depth(sizes@[k] as nat));
                assert(sizes@[k] == count(hash_seed@, m as nat, k as nat, n as nat));
                assert(pos@[k] == target(table@, hash_seed@, n as nat, k));
            }
            assert(qs@ =~= queries(alphas@, hash_seed@, n as nat));
        }
        self.state = State::Extension(Ready { hash_seed, query: Some((t, n, sizes)) });
        Ok(qs)
    }

    /// Ends the query that is under way: each index gets the sum of the
    /// blocks that the trees of its buckets hold for it.
    pub fn extend(&mut self, rt: &[Vec<Block>]) -> (res: Result<Vec<Block>, ReceiverError>)
        ensures
            final(self).spcot() == old(self).spcot(),
            match res {
                Ok(out) => {
                    &&& old(self).state() matches StateView::Extension {
                        hash_seed,
                        query: Some(q),
                    }
                    &&& trees_error(deep(rt@), hash_seed, q.0 as nat, q.1 as nat) is None
                    &&& out@ == uniform_output(
                        deep(rt@),
                        hash_seed,
                        bucket_count(q.0 as nat),
                        q.1 as nat,
                    )
                    &&& final(self).state() == (StateView::Extension { hash_seed, query: None })
                },
                Err(e) => {
                    &&& final(self).state() is Error
                    &&& match old(self).state() {
                        StateView::Extension { hash_seed, query: Some(q) } => trees_error(
                            deep(rt@),
                            hash_seed,
                            q.0 as nat,
                            q.1 as nat,
                        ) matches Some(kind) && e == ReceiverError::CoreError(kind),
                        StateView::Extension { hash_seed, query: None } => is_state_error(
                            e,
                            "PreExtension"@,
                        ),
                        _ => is_state_error(e, "Extension"@),
                    }
                },
            },
    {
        let state = take_state(&mut self.state);
        let ready = match state {
            State::Extension(r) => r,
            _ => {
                return Err(ReceiverError::StateError("Extension".to_owned()));
            },
        };
        proof {
            use_type_invariant(&ready);
        }
        let Ready { hash_seed, query } = ready;
        let (t, n, sizes) = match query {
            Some(q) => q,
            None => {
                return Err(ReceiverError::StateError("PreExtension".to_owned()));
            },
        };
        match check_trees(rt, sizes.as_slice(), Ghost(hash_seed@), Ghost(t as nat), Ghost(n as nat)) {
            Ok(_) => {},
            Err(kind) => {
                return Err(ReceiverError::CoreError(kind));
            },
        }
        let out = combine(rt, hash_seed, sizes.len(), n, sizes.as_slice());
        self.state = State::Extension(Ready { hash_seed, query: None });
        Ok(out)
    }

    /// Gives the role up, as after a failure of the transport or of the
    /// correlated OT in the middle of an operation: the role and its SPCOT
    /// role are in the `Error` state and every further operation fails.
    pub fn abort(&mut self)
        ensures
            final(self).state() is Error,
            final(self).spcot()@ is Error,
    {
        self.state = State::Error;
        self.spcot.abort();
    }

    /// Completes the role and its SPCOT receiver.
    pub fn finalize(&mut self) -> (res: Result<(), ReceiverError>)
        ensures
            match res {
                Ok(_) => {
                    &&& old(self).state() is Extension
                    &&& old(self).spcot()@ is Extension
                    &&& final(self).state() is Complete
                    &&& final(self).spcot()@ is Complete
                },
                Err(e) => {
                    &&& final(self).state() is Error
                    &&& if old(self).state() is Extension {
                        &&& !(old(self).spcot()@ is Extension)
                        &&& final(self).spcot()@ is Error
                        &&& e matches ReceiverError::SpcotReceiverError(inner)
                        &&& crate::ferret::spcot::receiver::is_state_error(inner, "Extension"@)
                    } else {
                        is_state_error(e, "Extension"@) && final(self).spcot() == old(self).spcot()
                    }
                },
            },
    {
        let state = take_state(&mut self.state);
        match state {
            State::Extension(_) => {},
            _ => {
                return Err(ReceiverError::StateError("Extension".to_owned()));
            },
        }
        match self.spcot.finalize() {
            Ok(_) => {},
            Err(e) => {
                return Err(ReceiverError::SpcotReceiverError(e));
            },
        }
        self.state = State::Complete;
        Ok(())
    }
}

} // verus!
