//! The Ferret receiver.

use crate::block::Block;
use crate::ferret::error::{ErrorKind, ReceiverError};
use crate::ferret::lpn::{compute, encode, encode_bits, LpnParameters, LpnType};
use crate::ferret::mpcot::msgs::HashSeed;
use crate::ferret::mpcot::receiver::{Receiver as MpcotReceiver, StateView as UniformState};
use crate::ferret::mpcot::receiver_regular::{ReceiverRegular, State as MpcotState};
use crate::ferret::msgs::LpnSeed;
use crate::ferret::sender::{setup_error, MpcotKind};
use crate::prg::{stretch, Prg, PrgView};
use crate::rcot::{RCOTReceiverOutput, TransferId};
use vstd::arithmetic::div_mod::lemma_fundamental_div_mod;
use vstd::prelude::*;

verus! {

/// What the receiver holds between setup and completion.
pub struct ReceiverData {
    /// Number of iterations done.
    counter: usize,
    /// The parameters of the LPN problem.
    params: LpnParameters,
    /// How the noisy positions are spread.
    lpn_type: LpnType,
    /// The seed of the LPN matrix.
    seed: Block,
    /// The receiver's choice bits of the base OTs of the next iteration.
    u: Vec<bool>,
    /// The receiver's blocks of the base OTs of the next iteration.
    w: Vec<Block>,
    /// The generator of the noisy positions.
    rng: Prg,
    /// The noisy positions of the iteration that is under way.
    alphas: Option<Vec<u32>>,
}

impl ReceiverData {
    /// The parameters are usable, the buckets of regular positions are of
    /// equal size, there is a choice bit and a block for each base OT, and
    /// the noisy positions are indices.
    #[verifier::type_invariant]
    spec fn well_formed(self) -> bool {
        self.view().wf()
    }

    spec fn view(self) -> ReceiverView {
        ReceiverView {
            counter: self.counter as nat,
            params: self.params,
            lpn_type: self.lpn_type,
            seed: self.seed@,
            u: self.u@,
            w: self.w@,
            rng: self.rng@,
            alphas: match self.alphas {
                Some(a) => Some(a@),
                None => None,
            },
        }
    }
}

/// The state of the receiver.
pub enum State {
    Initialized,
    Extension(ReceiverData),
    Complete,
    Error,
}

/// What the receiver holds between setup and completion.
pub struct ReceiverView {
    pub counter: nat,
    pub params: LpnParameters,
    pub lpn_type: LpnType,
    pub seed: u128,
    pub u: Seq<bool>,
    pub w: Seq<Block>,
    pub rng: PrgView,
    pub alphas: Option<Seq<u32>>,
}

/// The state of the receiver.
pub enum StateView {
    Initialized,
    Extension(ReceiverView),
    Complete,
    Error,
}

/// Ferret receiver.
pub struct Receiver {
    state: State,
    kind: MpcotKind,
    /// The MPCOT receiver for regular positions.
    mpcot: ReceiverRegular,
    /// The MPCOT receiver for positions spread anywhere.
    uniform: MpcotReceiver,
    /// The OTs extended and not yet handed out.
    buffer: Vec<(bool, Block)>,
    /// The number of the next batch to hand out.
    next_id: u64,
}

impl View for Receiver {
    type V = StateView;

    closed spec fn view(&self) -> StateView {
        match self.state {
            State::Initialized => StateView::Initialized,
            State::Extension(d) => StateView::Extension(d.view()),
            State::Complete => StateView::Complete,
            State::Error => StateView::Error,
        }
    }
}

impl ReceiverView {
    /// The parameters are usable, the buckets of regular positions are of
    /// equal size, there is a choice bit and a block for each base OT, and
    /// the noisy positions are indices.
    pub open spec fn wf(self) -> bool {
        &&& self.params.valid()
        &&& self.lpn_type is Regular ==> self.params.n % self.params.t == 0
        &&& self.u.len() == self.params.k
        &&& self.w.len() == self.params.k
        &&& self.alphas matches Some(a) ==> a.len() == self.params.t && forall|j: int|
            0 <= j < a.len() ==> (#[trigger] a[j]) < self.params.n
    }
}

/// The error of a receiver that is not in the state that an operation
/// needs; it names that state.
pub open spec fn is_state_error(e: ReceiverError, expected: Seq<char>) -> bool {
    e matches ReceiverError::StateError(s) && s@ == expected
}

/// The error of a receiver whose MPCOT receiver is not of the kind that
/// an operation needs; it names that kind.
pub open spec fn is_type_error(e: ReceiverError, expected: Seq<char>) -> bool {
    e matches ReceiverError::MPCOTReceiverTypeError(s) && s@ == expected
}

/// The noisy positions of an iteration: one in each of the `t` buckets
/// of `m` indices, at the offset that the generator's next number gives.
pub open spec fn regular_positions(rng: PrgView, t: nat, m: nat) -> Seq<u32> {
    Seq::new(t, |j: int| (j * m + (rng.number_at(j as nat) as nat) % m) as u32)
}

/// Number of numbers that the generator may give before the drawing of
/// `t` distinct positions is given up.
pub open spec fn draw_limit(t: nat) -> nat {
    64 * t + 64
}

/// The noisy positions of an iteration, spread anywhere among `n`
/// indices, and the generator after they are drawn: each number of the
/// generator gives an index, which is taken unless it was drawn before, until
/// there are `t` positions; `None` where `fuel` numbers do not give as many.
pub open spec fn uniform_draw(rng: PrgView, chosen: Seq<u32>, t: nat, n: nat, fuel: nat) -> Option<
    (Seq<u32>, PrgView),
>
    decreases fuel,
{
    if chosen.len() >= t {
        Some((chosen, rng))
    } else if fuel == 0 {
        None
    } else {
        let x = ((rng.number() as nat) % n) as u32;
        let next = rng.advance(4);
        if chosen.contains(x) {
            uniform_draw(next, chosen, t, n, (fuel - 1) as nat)
        } else {
            uniform_draw(next, chosen.push(x), t, n, (fuel - 1) as nat)
        }
    }
}

/// The noise of an iteration: a bit for each index, set at the noisy
/// positions.
pub open spec fn noise(alphas: Seq<u32>, n: nat) -> Seq<bool> {
    Seq::new(n, |i: int| exists|j: int| 0 <= j < alphas.len() && #[trigger] alphas[j] == i)
}

/// The receiver's choice bits of an iteration: the LPN matrix applied to
/// the base choice bits, added to the noise.
pub open spec fn iteration_choices(d: ReceiverView) -> Seq<bool> {
    encode_bits(d.seed, noise(d.alphas->0, d.params.n as nat), d.u)
}

/// The receiver's blocks of an iteration: the LPN matrix applied to the
/// base blocks, added to the vector of the multi-point query.
pub open spec fn iteration_blocks(d: ReceiverView, r: Seq<Block>) -> Seq<Block> {
    encode(d.seed, r, d.w)
}

/// The choice bits and the blocks of the OTs at hand.
pub open spec fn unzip(buffer: Seq<(bool, Block)>) -> (Seq<bool>, Seq<Block>) {
    (Seq::new(buffer.len(), |i: int| buffer[i].0), Seq::new(buffer.len(), |i: int| buffer[i].1))
}

/// The OTs of the given choice bits and blocks.
pub open spec fn zip(choices: Seq<bool>, blocks: Seq<Block>) -> Seq<(bool, Block)> {
    Seq::new(choices.len(), |i: int| (choices[i], blocks[i]))
}

fn take_state(state: &mut State) -> (taken: State)
    ensures
        taken == *old(state),
        *final(state) == State::Error,
{
    let mut taken = State::Error;
    core::mem::swap(state, &mut taken);
    taken
}

/// Draws the noisy positions of an iteration.
fn draw_positions(rng: &mut Prg, t: usize, m: usize) -> (alphas: Vec<u32>)
    requires
        m >= 1,
        t * m <= u32::MAX,
    ensures
        alphas@ == regular_positions(old(rng)@, t as nat, m as nat),
        final(rng)@ == old(rng)@.skip_numbers(t as nat),
        forall|j: int| 0 <= j < t ==> (#[trigger] alphas@[j]) < t * m,
{
    let mut alphas: Vec<u32> = Vec::new();
    let mut j: usize = 0;
    while j < t
        invariant
            j <= t,
            m >= 1,
            t * m <= u32::MAX,
            alphas@.len() == j,
            rng@ == old(rng)@.skip_numbers(j as nat),
            forall|i: int|
                0 <= i < j ==> #[trigger] alphas@[i] == (i * m + (old(rng)@.number_at(
                    i as nat,
                ) as nat) % (m as nat)) as u32,
            forall|i: int| 0 <= i < j ==> (#[trigger] alphas@[i]) < t * m,
        decreases t - j,
    {
        let x = rng.random_u32();
        let off = (x as usize) % m;
        proof {
            assert(j * m + m <= t * m) by (nonlinear_arith)
                requires
                    j + 1 <= t,
                    m >= 0,
            ;
            assert(0 <= j * m) by (nonlinear_arith)
                requires
                    0 <= j,
                    0 <= m,
            ;
        }
        alphas.push((j * m + off) as u32);
        j = j + 1;
    }
    assert(alphas@ =~= regular_positions(old(rng)@, t as nat, m as nat));
    alphas
}

/// Draws the noisy positions of an iteration, spread anywhere among `n`
/// indices.
fn draw_distinct(rng: &mut Prg, t: usize, n: usize) -> (r: Option<Vec<u32>>)
    requires
        0 < n <= u32::MAX,
        t <= n,
    ensures
        match r {
            Some(alphas) => uniform_draw(old(rng)@, Seq::empty(), t as nat, n as nat, draw_limit(
                t as nat,
            )) == Some((alphas@, final(rng)@)) && alphas@.len() == t && forall|j: int|
                0 <= j < t ==> (#[trigger] alphas@[j]) < n,
            None => uniform_draw(old(rng)@, Seq::empty(), t as nat, n as nat, draw_limit(t as nat))
                is None,
        },
{
    let mut taken: Vec<bool> = Vec::new();
    let mut i: usize = 0;
    while i < n
        invariant
            i <= n,
            taken@.len() == i,
            forall|k: int| 0 <= k < i ==> !#[trigger] taken@[k],
        decreases n - i,
    {
        taken.push(false);
        i = i + 1;
    }
    let mut chosen: Vec<u32> = Vec::new();
    let mut fuel: u64 = 64 * (t as u64) + 64;
    let ghost start = uniform_draw(old(rng)@, Seq::empty(), t as nat, n as nat, draw_limit(t as nat));
    while chosen.len() < t && fuel > 0
        invariant
            0 < n <= u32::MAX,
            t <= n,
            taken@.len() == n,
            chosen@.len() <= t,
            forall|j: int| 0 <= j < chosen@.len() ==> (#[trigger] chosen@[j]) < n,
            forall|k: int| 0 <= k < n ==> (#[trigger] taken@[k] <==> chosen@.contains(k as u32)),
            start == uniform_draw(rng@, chosen@, t as nat, n as nat, fuel as nat),
        decreases fuel,
    {
        let x = ((rng.random_u32() as usize) % n) as u32;
        if !taken[x as usize] {
            let ghost before = chosen@;
            taken.set(x as usize, true);
            chosen.push(x);
            proof {
                assert forall|k: int| 0 <= k < n implies (#[trigger] taken@[k]
                    <==> chosen@.contains(k as u32)) by {
                    if k == x {
                        assert(chosen@[chosen@.len() - 1] == x);
                    } else {
                        if before.contains(k as u32) {
                            let j = choose|j: int| 0 <= j < before.len() && before[j] == k as u32;
                            assert(chosen@[j] == k as u32);
                        }
                        if chosen@.contains(k as u32) {
                            let j = choose|j: int| 0 <= j < chosen@.len() && chosen@[j] == k as u32;
                            assert(j < before.len());
                            assert(before[j] == k as u32);
                        }
                    }
                }
            }
        }
        fuel = fuel - 1;
    }
    if chosen.len() == t {
        Some(chosen)
    } else {
        None
    }
}

/// The noise of the given positions.
fn noise_of(alphas: &[u32], n: usize) -> (e: Vec<bool>)
    requires
        forall|j: int| 0 <= j < alphas@.len() ==> (#[trigger] alphas@[j]) < n,
    ensures
        e@ == noise(alphas@, n as nat),
{
    let mut e: Vec<bool> = Vec::new();
    let mut i: usize = 0;
    while i < n
        invariant
            i <= n,
            e@.len() == i,
            forall|k: int| 0 <= k < i ==> !#[trigger] e@[k],
        decreases n - i,
    {
        e.push(false);
        i = i + 1;
    }
    let mut j: usize = 0;
    while j < alphas.len()
        invariant
            j <= alphas@.len(),
            e@.len() == n,
            forall|k: int| 0 <= k < alphas@.len() ==> (#[trigger] alphas@[k]) < n,
            forall|i: int|
                0 <= i < n ==> #[trigger] e@[i] == (exists|k: int|
                    0 <= k < j && #[trigger] alphas@[k] == i),
        decreases alphas@.len() - j,
    {
        let ghost before = e@;
        let a = alphas[j] as usize;
        e.set(a, true);
        proof {
            assert forall|i: int| 0 <= i < n implies #[trigger] e@[i] == (exists|k: int|
                0 <= k < j + 1 && #[trigger] alphas@[k] == i) by {
                if i == a {
                    assert(alphas@[j as int] == i);
                } else {
                    assert(e@[i] == before[i]);
                    if exists|k: int| 0 <= k < j + 1 && #[trigger] alphas@[k] == i {
                        let k = choose|k: int| 0 <= k < j + 1 && #[trigger] alphas@[k] == i;
                        assert(k < j);
                    }
                }
            }
        }
        j = j + 1;
    }
    assert(e@ =~= noise(alphas@, n as nat));
    e
}

impl Receiver {
    /// The kind of the role's MPCOT receiver.
    pub closed spec fn kind(&self) -> MpcotKind {
        self.kind
    }

    /// The role's MPCOT receiver for regular positions.
    pub closed spec fn mpcot(&self) -> ReceiverRegular {
        self.mpcot
    }

    /// The role's MPCOT receiver for positions spread anywhere.
    pub closed spec fn mpcot_uniform(&self) -> MpcotReceiver {
        self.uniform
    }

    /// The OTs extended and not yet handed out.
    pub closed spec fn buffer(&self) -> Seq<(bool, Block)> {
        self.buffer@
    }

    /// The number of the next batch to hand out.
    pub closed spec fn next_id(&self) -> u64 {
        self.next_id
    }

    /// Number of iterations done, for a role that is set up.
    pub fn counter(&self) -> (c: Option<usize>)
        ensures
            match self@ {
                StateView::Extension(d) => c == Some(d.counter as usize),
                _ => c is None,
            },
    {
        match &self.state {
            State::Extension(d) => Some(d.counter),
            _ => None,
        }
    }

    /// The number of the next batch to hand out.
    pub fn next_transfer_id(&self) -> (id: u64)
        ensures
            id == self.next_id(),
    {
        self.next_id
    }

    /// Creates a new receiver.
    pub fn new() -> (r: Self)
        ensures
            r@ is Initialized,
            r.kind() is Initial,
            r.mpcot().state() is Initialized,
            r.mpcot().spcot()@ is Initialized,
            r.mpcot_uniform().state() is Initialized,
            r.mpcot_uniform().spcot()@ is Initialized,
            r.buffer() == Seq::<(bool, Block)>::empty(),
            r.next_id() == 0,
    {
        Receiver {
            state: State::Initialized,
            kind: MpcotKind::Initial,
            mpcot: ReceiverRegular::new(),
            uniform: MpcotReceiver::new(),
            buffer: Vec::new(),
            next_id: 0,
        }
    }

    /// Gives access to the role's MPCOT receiver for regular positions, to
    /// run the multi-point query of an iteration.
    pub fn mpcot_mut(&mut self) -> (inner: &mut ReceiverRegular)
        ensures
            *inner == old(self).mpcot(),
            final(self).mpcot() == *final(inner),
            final(self).mpcot_uniform() == old(self).mpcot_uniform(),
            final(self)@ == old(self)@,
            final(self).kind() == old(self).kind(),
            final(self).buffer() == old(self).buffer(),
            final(self).next_id() == old(self).next_id(),
    {
        &mut self.mpcot
    }

    /// Gives access to the role's MPCOT receiver for positions spread
    /// anywhere, to run the multi-point query of an iteration.
    pub fn mpcot_uniform_mut(&mut self) -> (inner: &mut MpcotReceiver)
        ensures
            *inner == old(self).mpcot_uniform(),
            final(self).mpcot_uniform() == *final(inner),
            final(self).mpcot() == old(self).mpcot(),
            final(self)@ == old(self)@,
            final(self).kind() == old(self).kind(),
            final(self).buffer() == old(self).buffer(),
            final(self).next_id() == old(self).next_id(),
    {
        &mut self.uniform
    }

    /// The kind of the role's MPCOT receiver.
    pub fn mpcot_kind(&self) -> (k: MpcotKind)
        ensures
            k == self.kind(),
    {
        self.kind
    }

    /// Sets the role up: its MPCOT receiver for the kind of positions, and
    /// the Ferret core with the LPN parameters, the seed of the LPN matrix,
    /// and the receiver's choice bits `u` and blocks `w` of `k` random
    /// correlated OTs. It gives the seeds to send to the sender: that of the
    /// LPN matrix and, for positions spread anywhere, that of the hash
    /// functions of the buckets.
    ///
    /// The noisy positions of the iterations are drawn from the generator
    /// that the seed of the LPN matrix starts.
    pub fn setup_with_parameters(
        &mut self,
        params: LpnParameters,
        lpn_type: LpnType,
        seed: Block,
        hash_seed: Block,
        u: &[bool],
        w: &[Block],
    ) -> (res: Result<(LpnSeed, Option<HashSeed>), ReceiverError>)
        ensures
            final(self).buffer() == old(self).buffer(),
            final(self).next_id() == old(self).next_id(),
            match res {
                Ok(msgs) => {
                    &&& old(self)@ is Initialized
                    &&& old(self).kind() is Initial
                    &&& setup_error(params, lpn_type, u@.len()) is None
                    &&& w@.len() == u@.len()
                    &&& msgs.0.seed == seed
                    &&& final(self)@ == StateView::Extension(
                        ReceiverView {
                            counter: 0,
                            params,
                            lpn_type,
                            seed: seed@,
                            u: u@,
                            w: w@,
                            rng: PrgView { seed: stretch(seed@), word_pos: 0 },
                            alphas: None,
                        },
                    )
                    &&& match lpn_type {
                        LpnType::Regular => {
                            &&& msgs.1 is None
                            &&& old(self).mpcot().state() is Initialized
                            &&& old(self).mpcot().spcot()@ is Initialized
                            &&& final(self).kind() is Regular
                            &&& final(self).mpcot().state() == (MpcotState::Extension {
                                query: None,
                            })
                            &&& final(self).mpcot_uniform() == old(self).mpcot_uniform()
                        },
                        LpnType::Uniform => {
                            &&& msgs.1 == Some(HashSeed { seed: hash_seed })
                            &&& old(self).mpcot_uniform().state() is Initialized
                            &&& old(self).mpcot_uniform().spcot()@ is Initialized
                            &&& final(self).kind() is Uniform
                            &&& final(self).mpcot_uniform().state() == (UniformState::Extension {
                                hash_seed: hash_seed@,
                                query: None,
                            })
                            &&& final(self).mpcot() == old(self).mpcot()
                        },
                    }
                },
                Err(e) => {
                    &&& final(self)@ is Error
                    &&& if !(old(self)@ is Initialized) {
                        is_state_error(e, "Initialized"@)
                    } else if !(old(self).kind() is Initial) {
                        is_type_error(e, "Initial"@) && final(self).kind() is Error
                    } else if setup_error(params, lpn_type, u@.len()) is Some {
                        e == ReceiverError::CoreError(setup_error(params, lpn_type, u@.len())->0)
                    } else if w@.len() != u@.len() {
                        e == ReceiverError::CoreError(
                            ErrorKind::CountMismatch(params.k, w@.len() as usize),
                        )
                    } else if lpn_type is Regular {
                        &&& !(old(self).mpcot().state() is Initialized && old(self).mpcot().spcot()@
                            is Initialized)
                        &&& e is MPCOTReceiverRegularError
                        &&& final(self).kind() is Error
                    } else {
                        &&& !(old(self).mpcot_uniform().state() is Initialized && old(self).mpcot_uniform().spcot()@ is Initialized)
                        &&& e is MPCOTReceiverError
                        &&& final(self).kind() is Error
                    }
                },
            },
    {
        let state = take_state(&mut self.state);
        match state {
            State::Initialized => {},
            _ => {
                return Err(ReceiverError::StateError("Initialized".to_owned()));
            },
        }
        match self.kind {
            MpcotKind::Initial => {},
            _ => {
                self.kind = MpcotKind::Error;
                return Err(ReceiverError::MPCOTReceiverTypeError("Initial".to_owned()));
            },
        }
        let regular = match lpn_type {
            LpnType::Regular => true,
            LpnType::Uniform => false,
        };
        if !params.is_valid() || (regular && params.n % params.t != 0) {
            return Err(ReceiverError::CoreError(ErrorKind::InvalidParameters));
        }
        if u.len() != params.k {
            return Err(ReceiverError::CoreError(ErrorKind::CountMismatch(params.k, u.len())));
        }
        if w.len() != params.k {
            return Err(ReceiverError::CoreError(ErrorKind::CountMismatch(params.k, w.len())));
        }
        let mut hash_msg: Option<HashSeed> = None;
        if regular {
            match self.mpcot.setup() {
                Ok(_) => {},
                Err(e) => {
                    self.kind = MpcotKind::Error;
                    return Err(ReceiverError::MPCOTReceiverRegularError(e));
                },
            }
            self.kind = MpcotKind::Regular;
        } else {
            match self.uniform.setup(hash_seed) {
                Ok(msg) => {
                    hash_msg = Some(msg);
                },
                Err(e) => {
                    self.kind = MpcotKind::Error;
                    return Err(ReceiverError::MPCOTReceiverError(e));
                },
            }
            self.kind = MpcotKind::Uniform;
        }
        let d = ReceiverData {
            counter: 0,
            params,
            lpn_type,
            seed,
            u: vstd::slice::slice_to_vec(u),
            w: vstd::slice::slice_to_vec(w),
            rng: Prg::from_block(seed),
            alphas: None,
        };
        self.state = State::Extension(d);
        Ok((LpnSeed { seed }, hash_msg))
    }

    /// Draws the noisy positions of the next iteration and gives the
    /// multi-point query for them: the positions and the number of indices.
    /// Regular positions are one in each bucket; positions spread anywhere
    /// are distinct.
    pub fn get_mpcot_query(&mut self) -> (res: Result<(Vec<u32>, u32), ReceiverError>)
        ensures
            final(self).kind() == old(self).kind(),
            final(self).mpcot() == old(self).mpcot(),
            final(self).mpcot_uniform() == old(self).mpcot_uniform(),
            final(self).buffer() == old(self).buffer(),
            final(self).next_id() == old(self).next_id(),
            match res {
                Ok(q) => {
                    &&& old(self)@ matches StateView::Extension(d)
                    &&& d.wf()
                    &&& q.1 == d.params.n
                    &&& match d.lpn_type {
                        LpnType::Regular => {
                            &&& q.0@ == regular_positions(
                                d.rng,
                                d.params.t as nat,
                                (d.params.n / d.params.t) as nat,
                            )
                            &&& final(self)@ == StateView::Extension(
                                ReceiverView {
                                    rng: d.rng.skip_numbers(d.params.t as nat),
                                    alphas: Some(q.0@),
                                    ..d
                                },
                            )
                        },
                        LpnType::Uniform => {
                            &&& uniform_draw(
                                d.rng,
                                Seq::empty(),
                                d.params.t as nat,
                                d.params.n as nat,
                                draw_limit(d.params.t as nat),
                            ) matches Some(drawn)
                            &&& q.0@ == drawn.0
                            &&& final(self)@ == StateView::Extension(
                                ReceiverView { rng: drawn.1, alphas: Some(q.0@), ..d },
                            )
                        },
                    }
                },
                Err(e) => {
                    &&& final(self)@ is Error
                    &&& match old(self)@ {
                        StateView::Extension(d) => {
                            &&& d.lpn_type is Uniform
                            &&& uniform_draw(
                                d.rng,
                                Seq::empty(),
                                d.params.t as nat,
                                d.params.n as nat,
                                draw_limit(d.params.t as nat),
                            ) is None
                            &&& e == ReceiverError::CoreError(ErrorKind::InvalidParameters)
                        },
                        _ => is_state_error(e, "Extension"@),
                    }
                },
            },
    {
        let state = take_state(&mut self.state);
        let d = match state {
            State::Extension(d) => d,
            _ => {
                return Err(ReceiverError::StateError("Extension".to_owned()));
            },
        };
        proof {
            use_type_invariant(&d);
        }
        let ghost pre = d.view();
        let ReceiverData { counter, params, lpn_type, seed, u, w, rng: mut rng, alphas: _ } = d;
        let t = params.t;
        let alphas = match lpn_type {
            LpnType::Regular => {
                let m = params.n / t;
                proof {
                    lemma_fundamental_div_mod(params.n as int, t as int);
                    assert(m >= 1) by (nonlinear_arith)
                        requires
                            params.n == t * m,
                            params.n > 0,
                            t > 0,
                            m >= 0,
                    ;
                }
                draw_positions(&mut rng, t, m)
            },
            LpnType::Uniform => {
                match draw_distinct(&mut rng, t, params.n) {
                    Some(a) => a,
                    None => {
                        return Err(ReceiverError::CoreError(ErrorKind::InvalidParameters));
                    },
                }
            },
        };
        let kept = alphas.clone();
        assert(kept@ =~= alphas@);
        let n = params.n as u32;
        let d = ReceiverData { counter, params, lpn_type, seed, u, w, rng, alphas: Some(kept) };
        self.state = State::Extension(d);
        Ok((alphas, n))
    }

    /// Performs an iteration with the receiver's vector `r` of the
    /// multi-point query: it gives the choice bits and the blocks of the
    /// `n - k` new OTs; the first `k` of the iteration become the base of
    /// the next iteration.
    pub fn extend(&mut self, r: &[Block]) -> (res: Result<(Vec<bool>, Vec<Block>), ReceiverError>)
        requires
            old(self)@ matches StateView::Extension(d) ==> d.counter < usize::MAX,
        ensures
            final(self).kind() == old(self).kind(),
            final(self).mpcot() == old(self).mpcot(),
            final(self).mpcot_uniform() == old(self).mpcot_uniform(),
            final(self).buffer() == old(self).buffer(),
            final(self).next_id() == old(self).next_id(),
            match res {
                Ok(out) => {
                    &&& old(self)@ matches StateView::Extension(d)
                    &&& d.wf()
                    &&& d.alphas is Some
                    &&& r@.len() == d.params.n
                    &&& out.0@ == iteration_choices(d).skip(d.params.k as int)
                    &&& out.1@ == iteration_blocks(d, r@).skip(d.params.k as int)
                    &&& final(self)@ == StateView::Extension(
                        ReceiverView {
                            counter: d.counter + 1,
                            u: iteration_choices(d).take(d.params.k as int),
                            w: iteration_blocks(d, r@).take(d.params.k as int),
                            alphas: None,
                            ..d
                        },
                    )
                },
                Err(e) => {
                    &&& final(self)@ is Error
                    &&& match old(self)@ {
                        StateView::Extension(d) => if d.alphas is None {
                            is_state_error(e, "Query"@)
                        } else {
                            r@.len() != d.params.n && e == ReceiverError::CoreError(
                                ErrorKind::CountMismatch(d.params.n, r@.len() as usize),
                            )
                        },
                        _ => is_state_error(e, "Extension"@),
                    }
                },
            },
    {
        let state = take_state(&mut self.state);
        let d = match state {
            State::Extension(d) => d,
            _ => {
                return Err(ReceiverError::StateError("Extension".to_owned()));
            },
        };
        proof {
            use_type_invariant(&d);
        }
        let ghost pre = d.view();
        let ReceiverData { counter, params, lpn_type, seed, u, w, rng, alphas } = d;
        let alphas = match alphas {
            Some(a) => a,
            None => {
                return Err(ReceiverError::StateError("Query".to_owned()));
            },
        };
        if r.len() != params.n {
            return Err(ReceiverError::CoreError(ErrorKind::CountMismatch(params.n, r.len())));
        }
        let mut x = noise_of(alphas.as_slice(), params.n);
        let mut z = vstd::slice::slice_to_vec(r);
        compute(seed, &mut z, &mut x, w.as_slice(), u.as_slice());
        let out_x = x.split_off(params.k);
        let out_z = z.split_off(params.k);
        proof {
            assert(x@ =~= iteration_choices(pre).take(params.k as int));
            assert(z@ =~= iteration_blocks(pre, r@).take(params.k as int));
            assert(out_x@ =~= iteration_choices(pre).skip(params.k as int));
            assert(out_z@ =~= iteration_blocks(pre, r@).skip(params.k as int));
        }
        let d = ReceiverData {
            counter: counter + 1,
            params,
            lpn_type,
            seed,
            u: x,
            w: z,
            rng,
            alphas: None,
        };
        self.state = State::Extension(d);
        Ok((out_x, out_z))
    }

    /// Whether the role has fewer than `count` OTs at hand, so that another
    /// iteration is needed before `count` OTs can be handed out.
    pub fn needs_extension(&self, count: usize) -> (b: bool)
        ensures
            b == (self.buffer().len() < count),
    {
        self.buffer.len() < count
    }

    /// Performs an iteration and keeps its OTs at hand.
    pub fn extend_buffered(&mut self, r: &[Block]) -> (res: Result<(), ReceiverError>)
        requires
            old(self)@ matches StateView::Extension(d) ==> d.counter < usize::MAX,
        ensures
            final(self).kind() == old(self).kind(),
            final(self).mpcot() == old(self).mpcot(),
            final(self).mpcot_uniform() == old(self).mpcot_uniform(),
            final(self).next_id() == old(self).next_id(),
            match res {
                Ok(_) => {
                    &&& old(self)@ matches StateView::Extension(d)
                    &&& d.wf()
                    &&& d.alphas is Some
                    &&& r@.len() == d.params.n
                    &&& final(self).buffer() == old(self).buffer() + zip(
                        iteration_choices(d).skip(d.params.k as int),
                        iteration_blocks(d, r@).skip(d.params.k as int),
                    )
                    &&& final(self)@ == StateView::Extension(
                        ReceiverView {
                            counter: d.counter + 1,
                            u: iteration_choices(d).take(d.params.k as int),
                            w: iteration_blocks(d, r@).take(d.params.k as int),
                            alphas: None,
                            ..d
                        },
                    )
                },
                Err(e) => {
                    &&& final(self)@ is Error
                    &&& final(self).buffer() == old(self).buffer()
                    &&& match old(self)@ {
                        StateView::Extension(d) => if d.alphas is None {
                            is_state_error(e, "Query"@)
                        } else {
                            r@.len() != d.params.n && e == ReceiverError::CoreError(
                                ErrorKind::CountMismatch(d.params.n, r@.len() as usize),
                            )
                        },
                        _ => is_state_error(e, "Extension"@),
                    }
                },
            },
    {
        let (x, z) = self.extend(r)?;
        let ghost before = self.buffer@;
        let ghost st = self@;
        let n = x.len();
        let mut i: usize = 0;
        while i < n
            invariant
                i <= n,
                n == x@.len(),
                n == z@.len(),
                self.buffer@ == before + zip(x@, z@).take(i as int),
                self.kind() == old(self).kind(),
                self.mpcot() == old(self).mpcot(),
                self.mpcot_uniform() == old(self).mpcot_uniform(),
                self.next_id() == old(self).next_id(),
                self@ == st,
            decreases n - i,
        {
            self.buffer.push((x[i], z[i]));
            proof {
                assert(zip(x@, z@).take(i + 1) =~= zip(x@, z@).take(i as int).push((x@[i as int], z@[i as int])));
            }
            i = i + 1;
        }
        proof {
            assert(zip(x@, z@).take(n as int) =~= zip(x@, z@));
        }
        Ok(())
    }

    /// Hands out the next `count` of the OTs at hand as a batch; what is
    /// left stays at hand for the next batch. Where fewer are at hand,
    /// nothing changes and more iterations are needed first.
    pub fn receive_random_correlated(&mut self, count: usize) -> (res: Result<
        RCOTReceiverOutput,
        ReceiverError,
    >)
        requires
            old(self).next_id() < u64::MAX,
        ensures
            final(self).kind() == old(self).kind(),
            final(self).mpcot() == old(self).mpcot(),
            final(self).mpcot_uniform() == old(self).mpcot_uniform(),
            match res {
                Ok(out) => {
                    &&& old(self)@ is Extension
                    &&& count <= old(self).buffer().len()
                    &&& out.id == TransferId(old(self).next_id())
                    &&& zip(out.choices@, out.msgs@) == old(self).buffer().take(count as int)
                    &&& out.choices@.len() == count
                    &&& out.msgs@.len() == count
                    &&& final(self).buffer() == old(self).buffer().skip(count as int)
                    &&& final(self).next_id() == old(self).next_id() + 1
                    &&& final(self)@ == old(self)@
                },
                Err(e) => {
                    &&& final(self).buffer() == old(self).buffer()
                    &&& final(self).next_id() == old(self).next_id()
                    &&& if old(self)@ is Extension {
                        &&& count > old(self).buffer().len()
                        &&& e == ReceiverError::CoreError(
                            ErrorKind::InsufficientSetup(count, old(self).buffer().len() as usize),
                        )
                        &&& final(self)@ == old(self)@
                    } else {
                        is_state_error(e, "Extension"@) && final(self)@ is Error
                    }
                },
            },
    {
        let state = take_state(&mut self.state);
        let d = match state {
            State::Extension(d) => d,
            _ => {
                return Err(ReceiverError::StateError("Extension".to_owned()));
            },
        };
        self.state = State::Extension(d);
        if count > self.buffer.len() {
            return Err(
                ReceiverError::CoreError(ErrorKind::InsufficientSetup(count, self.buffer.len())),
            );
        }
        let mut choices: Vec<bool> = Vec::new();
        let mut msgs: Vec<Block> = Vec::new();
        let ghost st = self@;
        let mut i: usize = 0;
        while i < count
            invariant
                i <= count,
                count <= self.buffer@.len(),
                self.buffer@ == old(self).buffer(),
                choices@.len() == i,
                msgs@.len() == i,
                forall|k: int| 0 <= k < i ==> #[trigger] choices@[k] == self.buffer@[k].0,
                forall|k: int| 0 <= k < i ==> #[trigger] msgs@[k] == self.buffer@[k].1,
                self@ == st,
                self.kind() == old(self).kind(),
                self.mpcot() == old(self).mpcot(),
                self.mpcot_uniform() == old(self).mpcot_uniform(),
                self.next_id() == old(self).next_id(),
            decreases count - i,
        {
            choices.push(self.buffer[i].0);
            msgs.push(self.buffer[i].1);
            i = i + 1;
        }
        let rest = self.buffer.split_off(count);
        self.buffer = rest;
        let id = TransferId(self.next_id);
        self.next_id = self.next_id + 1;
        proof {
            assert(zip(choices@, msgs@) =~= old(self).buffer().take(count as int));
            assert(self.buffer@ =~= old(self).buffer().skip(count as int));
        }
        Ok(RCOTReceiverOutput { id, choices, msgs })
    }

    /// Tests that the role awaits its setup, before anything is drawn or
    /// read for it. A role in another state has failed for good.
    pub fn expect_initialized(&mut self) -> (res: Result<(), ReceiverError>)
        ensures
            final(self).kind() == old(self).kind(),
            final(self).mpcot() == old(self).mpcot(),
            final(self).mpcot_uniform() == old(self).mpcot_uniform(),
            final(self).buffer() == old(self).buffer(),
            final(self).next_id() == old(self).next_id(),
            match res {
                Ok(_) => old(self)@ is Initialized && final(self)@ == old(self)@,
                Err(e) => !(old(self)@ is Initialized) && final(self)@ is Error && is_state_error(
                    e,
                    "Initialized"@,
                ),
            },
    {
        let fresh = match &self.state {
            State::Initialized => true,
            _ => false,
        };
        if !fresh {
            self.state = State::Error;
            return Err(ReceiverError::StateError("Initialized".to_owned()));
        }
        Ok(())
    }

    /// Gives the role up, as after a failure of the transport or of the
    /// correlated OT in the middle of an operation: the role and the roles
    /// it owns are in the `Error` state and every further operation fails.
    pub fn abort(&mut self)
        ensures
            final(self)@ is Error,
            final(self).kind() is Error,
            final(self).mpcot().state() is Error,
            final(self).mpcot().spcot()@ is Error,
            final(self).mpcot_uniform().state() is Error,
            final(self).mpcot_uniform().spcot()@ is Error,
            final(self).buffer() == old(self).buffer(),
            final(self).next_id() == old(self).next_id(),
    {
        self.state = State::Error;
        self.kind = MpcotKind::Error;
        self.mpcot.abort();
        self.uniform.abort();
    }

    /// Completes the role and its MPCOT receiver.
    ///
    /// Only a role that performs extensions, with an MPCOT receiver that
    /// does, can be completed. Any other has failed for good.
    pub fn finalize(&mut self) -> (res: Result<(), ReceiverError>)
        ensures
            final(self).buffer() == old(self).buffer(),
            final(self).next_id() == old(self).next_id(),
            final(self).kind() == old(self).kind(),
            match res {
                Ok(_) => {
                    &&& old(self)@ is Extension
                    &&& final(self)@ is Complete
                    &&& match old(self).kind() {
                        MpcotKind::Regular => {
                            &&& old(self).mpcot().state() is Extension
                            &&& old(self).mpcot().spcot()@ is Extension
                            &&& final(self).mpcot().state() is Complete
                            &&& final(self).mpcot().spcot()@ is Complete
                            &&& final(self).mpcot_uniform() == old(self).mpcot_uniform()
                        },
                        MpcotKind::Uniform => {
                            &&& old(self).mpcot_uniform().state() is Extension
                            &&& old(self).mpcot_uniform().spcot()@ is Extension
                            &&& final(self).mpcot_uniform().state() is Complete
                            &&& final(self).mpcot_uniform().spcot()@ is Complete
                            &&& final(self).mpcot() == old(self).mpcot()
                        },
                        _ => false,
                    }
                },
                Err(e) => {
                    &&& final(self)@ is Error
                    &&& if !(old(self)@ is Extension) || old(self).kind() is Initial || old(
                        self,
                    ).kind() is Error {
                        &&& is_state_error(e, "Extension"@)
                        &&& final(self).mpcot() == old(self).mpcot()
                        &&& final(self).mpcot_uniform() == old(self).mpcot_uniform()
                    } else if old(self).kind() is Regular {
                        &&& !(old(self).mpcot().state() is Extension && old(self).mpcot().spcot()@
                            is Extension)
                        &&& final(self).mpcot().state() is Error
                        &&& final(self).mpcot_uniform() == old(self).mpcot_uniform()
                        &&& e is MPCOTReceiverRegularError
                    } else {
                        &&& !(old(self).mpcot_uniform().state() is Extension && old(
                            self,
                        ).mpcot_uniform().spcot()@ is Extension)
                        &&& final(self).mpcot_uniform().state() is Error
                        &&& final(self).mpcot() == old(self).mpcot()
                        &&& e is MPCOTReceiverError
                    }
                },
            },
    {
        let extending = match &self.state {
            State::Extension(_) => true,
            _ => false,
        };
        self.state = State::Error;
        if !extending {
            return Err(ReceiverError::StateError("Extension".to_owned()));
        }
        match self.kind {
            MpcotKind::Regular => {
                match self.mpcot.finalize() {
                    Ok(_) => {},
                    Err(e) => {
                        return Err(ReceiverError::MPCOTReceiverRegularError(e));
                    },
                }
            },
            MpcotKind::Uniform => {
                match self.uniform.finalize() {
                    Ok(_) => {},
                    Err(e) => {
                        return Err(ReceiverError::MPCOTReceiverError(e));
                    },
                }
            },
            _ => {
                return Err(ReceiverError::StateError("Extension".to_owned()));
            },
        }
        self.state = State::Complete;
        Ok(())
    }
}

} // verus!
