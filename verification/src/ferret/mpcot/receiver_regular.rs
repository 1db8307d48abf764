//! The MPCOT receiver for regular positions.

use crate::block::Block;
use crate::ferret::error::ErrorKind;
use crate::ferret::mpcot::error::ReceiverRegularError;
use crate::ferret::mpcot::{
    bucket_shape, depth_for, positions_regular, query_error, regular_output, take_buckets,
    trees_error,
};
use crate::ferret::spcot::deep;
use crate::ferret::spcot::receiver::{
    Receiver as SpcotReceiver, ReceiverView, StateView as SpcotView,
};
use vstd::prelude::*;

verus! {

/// The state of the receiver.
pub enum State {
    Initialized,
    /// Set up; `query` holds the number of positions and of indices of the
    /// query that is under way.
    Extension { query: Option<(u32, u32)> },
    Complete,
    Error,
}

/// MPCOT regular receiver.
pub struct ReceiverRegular {
    state: State,
    /// The SPCOT receiver that reconstructs the trees of the buckets.
    spcot: SpcotReceiver,
}

impl ReceiverRegular {
    /// The state of the role.
    pub closed spec fn state(&self) -> State {
        self.state
    }

    /// The SPCOT receiver that reconstructs the trees of the buckets.
    pub closed spec fn spcot(&self) -> SpcotReceiver {
        self.spcot
    }

    /// Gives access to the SPCOT receiver, to run the batch of a query.
    pub fn spcot_mut(&mut self) -> (inner: &mut SpcotReceiver)
        ensures
            *inner == old(self).spcot(),
            final(self).spcot() == *final(inner),
            final(self).state() == old(self).state(),
    {
        &mut self.spcot
    }
}

/// The error of a receiver that is not in the state that an operation
/// needs; it names that state.
pub open spec fn is_state_error(e: ReceiverRegularError, expected: Seq<char>) -> bool {
    e matches ReceiverRegularError::StateError(s) && s@ == expected
}

/// What is wrong with a query for the positions `alphas` among `n`
/// indices, if anything: the buckets must be of equal size, and the `j`-th
/// position must lie in bucket `j`.
pub open spec fn positions_error(alphas: Seq<u32>, n: nat) -> Option<ErrorKind> {
    if query_error(alphas.len(), n) is Some {
        query_error(alphas.len(), n)
    } else if alphas.len() > u32::MAX || !positions_regular(alphas, n / alphas.len()) {
        Some(ErrorKind::InvalidParameters)
    } else {
        None
    }
}

/// The depth of the tree and the local offset of the position of each
/// bucket.
pub open spec fn queries(alphas: Seq<u32>, n: nat) -> Seq<(usize, u32)> {
    Seq::new(
        alphas.len(),
        |j: int|
            (
                depth_for(n / alphas.len()) as usize,
                (alphas[j] as int % ((n / alphas.len()) as int)) as u32,
            ),
    )
}

fn take_state(state: &mut State) -> (taken: State)
    ensures
        taken == *old(state),
        *final(state) == State::Error,
{
    let mut taken = State::Error;
    core::mem::swap(state, &mut taken);
    taken
}

impl ReceiverRegular {
    /// Creates a new receiver.
    pub fn new() -> (r: Self)
        ensures
            r.state() is Initialized,
            r.spcot()@ is Initialized,
    {
        ReceiverRegular { state: State::Initialized, spcot: SpcotReceiver::new() }
    }

    /// Completes the setup.
    pub fn setup(&mut self) -> (res: Result<(), ReceiverRegularError>)
        ensures
            match res {
                Ok(_) => {
                    &&& old(self).state() is Initialized
                    &&& old(self).spcot()@ is Initialized
                    &&& final(self).state() == (State::Extension { query: None })
                    &&& final(self).spcot()@ == SpcotView::Extension(
                        ReceiverView {
                            unchecked_ws: Seq::empty(),
                            alphas: Seq::empty(),
                            chi_seed: None,
                        },
                    )
                },
                Err(e) => {
                    &&& final(self).state() is Error
                    &&& if old(self).state() is Initialized {
                        &&& !(old(self).spcot()@ is Initialized)
                        &&& final(self).spcot()@ is Error
                        &&& e matches ReceiverRegularError::SpcotReceiverError(inner)
                        &&& crate::ferret::spcot::receiver::is_state_error(inner, "Initialized"@)
                    } else {
                        is_state_error(e, "Initialized"@) && final(self).spcot()@ == old(self).spcot()@
                    }
                },
            },
    {
        let state = take_state(&mut self.state);
        match state {
            State::Initialized => {},
            _ => {
                return Err(ReceiverRegularError::StateError("Initialized".to_owned()));
            },
        }
        match self.spcot.setup() {
            Ok(_) => {},
            Err(e) => {
                return Err(ReceiverRegularError::SpcotReceiverError(e));
            },
        }
        self.state = State::Extension { query: None };
        Ok(())
    }

    /// Begins a query for the positions `alphas` among `n` indices, and
    /// gives the trees of the SPCOT batch that answers it: for each bucket
    /// the depth of its tree and the local offset of its position.
    pub fn pre_extend(&mut self, alphas: &[u32], n: u32) -> (res: Result<
        Vec<(usize, u32)>,
        ReceiverRegularError,
    >)
        ensures
            final(self).spcot()@ == old(self).spcot()@,
            match res {
                Ok(qs) => {
                    &&& old(self).state() is Extension
                    &&& positions_error(alphas@, n as nat) is None
                    &&& qs@ == queries(alphas@, n as nat)
                    &&& final(self).state() == (State::Extension {
                        query: Some((alphas@.len() as u32, n)),
                    })
                },
                Err(e) => {
                    &&& final(self).state() is Error
                    &&& if old(self).state() is Extension {
                        positions_error(alphas@, n as nat) matches Some(kind) && e
                            == ReceiverRegularError::CoreError(kind)
                    } else {
                        is_state_error(e, "Extension"@)
                    }
                },
            },
    {
        let state = take_state(&mut self.state);
        match state {
            State::Extension { query: _ } => {},
            _ => {
                return Err(ReceiverRegularError::StateError("Extension".to_owned()));
            },
        }
        if alphas.len() > u32::MAX as usize {
            proof {
                if query_error(alphas@.len(), n as nat) is None {
                    let t = alphas@.len() as int;
                    vstd::arithmetic::div_mod::lemma_fundamental_div_mod(n as int, t);
                    assert(false) by (nonlinear_arith)
                        requires
                            n == t * (n as int / t) + (n as int % t),
                            n as int % t == 0,
                            0 < n <= u32::MAX,
                            t > u32::MAX,
                            n as int / t >= 0,
                    ;
                }
            }
            return Err(ReceiverRegularError::CoreError(ErrorKind::InvalidParameters));
        }
        let t = alphas.len() as u32;
        let (m, h) = match bucket_shape(t, n) {
            Ok(s) => s,
            Err(kind) => {
                return Err(ReceiverRegularError::CoreError(kind));
            },
        };
        let mut qs: Vec<(usize, u32)> = Vec::new();
        let mut j: usize = 0;
        while j < alphas.len()
            invariant
                j <= alphas@.len(),
                alphas@.len() == t,
                m >= 1,
                m == n / t,
                query_error(t as nat, n as nat) is None,
                self.spcot() == old(self).spcot(),
                self.state() is Error,
                old(self).state() is Extension,
                h == depth_for(m as nat),
                qs@.len() == j,
                forall|k: int| 0 <= k < j ==> (#[trigger] alphas@[k]) as int / (m as int) == k,
                forall|k: int|
                    0 <= k < j ==> #[trigger] qs@[k] == (h, (alphas@[k] as int % (m as int)) as u32),
            decreases alphas@.len() - j,
        {
            let a = alphas[j];
            if (a / m) as usize != j {
                assert(alphas@[j as int] as int / (m as int) != j);
                return Err(ReceiverRegularError::CoreError(ErrorKind::InvalidParameters));
            }
            qs.push((h, a % m));
            j = j + 1;
        }
        assert(qs@ =~= queries(alphas@, n as nat));
        self.state = State::Extension { query: Some((t, n)) };
        Ok(qs)
    }

    /// Ends the query that is under way: from the vectors of the trees
    /// that the SPCOT batch gave, it takes the part of each bucket and
    /// joins the parts to the vector of the query.
    pub fn extend(&mut self, rt: &[Vec<Block>]) -> (res: Result<Vec<Block>, ReceiverRegularError>)
        ensures
            final(self).spcot()@ == old(self).spcot()@,
            match res {
                Ok(out) => {
                    &&& old(self).state() matches State::Extension { query: Some(q) }
                    &&& query_error(q.0 as nat, q.1 as nat) is None
                    &&& trees_error(deep(rt@), q.0 as nat, (q.1 / q.0) as nat) is None
                    &&& out@ == regular_output(deep(rt@), q.0 as nat, (q.1 / q.0) as nat)
                    &&& final(self).state() == (State::Extension { query: None })
                },
                Err(e) => {
                    &&& final(self).state() is Error
                    &&& match old(self).state() {
                        State::Extension { query: Some(q) } => {
                            if query_error(q.0 as nat, q.1 as nat) is Some {
                                e == ReceiverRegularError::CoreError(
                                    query_error(q.0 as nat, q.1 as nat)->0,
                                )
                            } else {
                                trees_error(deep(rt@), q.0 as nat, (q.1 / q.0) as nat) matches Some(
                                    kind,
                                ) && e == ReceiverRegularError::CoreError(kind)
                            }
                        },
                        State::Extension { query: None } => is_state_error(e, "PreExtension"@),
                        _ => is_state_error(e, "Extension"@),
                    }
                },
            },
    {
        let state = take_state(&mut self.state);
        let (t, n) = match state {
            State::Extension { query: Some(q) } => q,
            State::Extension { query: None } => {
                return Err(ReceiverRegularError::StateError("PreExtension".to_owned()));
            },
            _ => {
                return Err(ReceiverRegularError::StateError("Extension".to_owned()));
            },
        };
        let (m, h) = match bucket_shape(t, n) {
            Ok(s) => s,
            Err(kind) => {
                return Err(ReceiverRegularError::CoreError(kind));
            },
        };
        proof {
            vstd::arithmetic::div_mod::lemma_fundamental_div_mod(n as int, t as int);
        }
        let out = match take_buckets(rt, t as usize, m as usize, h) {
            Ok(out) => out,
            Err(kind) => {
                return Err(ReceiverRegularError::CoreError(kind));
            },
        };
        self.state = State::Extension { query: None };
        Ok(out)
    }

    /// Gives the role up, as after a failure of the transport or of the
    /// correlated OT in the middle of an operation: the role and its SPCOT
    /// role are in the `Error` state and every further operation fails.
    pub fn abort(&mut self)
        ensures
            final(self).state() is Error,
            final(self).spcot()@ is Error,
    {
        self.state = State::Error;
        self.spcot.abort();
    }

    /// Completes the role and its SPCOT receiver.
    pub fn finalize(&mut self) -> (res: Result<(), ReceiverRegularError>)
        ensures
            match res {
                Ok(_) => {
                    &&& old(self).state() is Extension
                    &&& old(self).spcot()@ is Extension
                    &&& final(self).state() is Complete
                    &&& final(self).spcot()@ is Complete
                },
                Err(e) => {
                    &&& final(self).state() is Error
                    &&& if old(self).state() is Extension {
                        &&& !(old(self).spcot()@ is Extension)
                        &&& final(self).spcot()@ is Error
                        &&& e matches ReceiverRegularError::SpcotReceiverError(inner)
                        &&& crate::ferret::spcot::receiver::is_state_error(inner, "Extension"@)
                    } else {
                        is_state_error(e, "Extension"@) && final(self).spcot() == old(self).spcot()
                    }
                },
            },
    {
        let state = take_state(&mut self.state);
        match state {
            State::Extension { query: _ } => {},
            _ => {
                return Err(ReceiverRegularError::StateError("Extension".to_owned()));
            },
        }
        match self.spcot.finalize() {
            Ok(_) => {},
            Err(e) => {
                return Err(ReceiverRegularError::SpcotReceiverError(e));
            },
        }
        self.state = State::Complete;
        Ok(())
    }
}

} // verus!
