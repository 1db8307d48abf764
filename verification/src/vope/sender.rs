//! The VOPE sender.

pub mod state;

use crate::block::{gf_mul, inner_product, Block};
use crate::vope::error::SenderError;
use crate::vope::CSP;
use vstd::prelude::*;

verus! {

/// Marks the types that are states of the sender.
pub trait Sealed {

}

/// The sender's state.
pub trait State: Sealed {

}

/// The sender's initial state.
#[derive(Default)]
pub struct Initialized {}

impl Sealed for Initialized {

}

impl State for Initialized {

}

/// The sender's state after the setup phase, in which it performs
/// extensions.
pub struct Extension {
    /// Sender's global secret.
    delta: Block,
    /// Sender's output blocks, one for each extension.
    bs: Vec<Block>,
    /// Number of evaluations made.
    vope_counter: usize,
    /// Number of extensions performed.
    exec_counter: usize,
}

impl Sealed for Extension {

}

impl State for Extension {

}

/// What the sender holds after setup.
pub struct ExtensionView {
    pub delta: u128,
    pub bs: Seq<Block>,
    pub vope_counter: nat,
    pub exec_counter: nat,
}

impl View for Extension {
    type V = ExtensionView;

    closed spec fn view(&self) -> ExtensionView {
        ExtensionView {
            delta: self.delta@,
            bs: self.bs@,
            vope_counter: self.vope_counter as nat,
            exec_counter: self.exec_counter as nat,
        }
    }
}

/// VOPE sender: the verifier.
pub struct Sender<T: State> {
    state: T,
}

impl View for Sender<Extension> {
    type V = ExtensionView;

    closed spec fn view(&self) -> ExtensionView {
        self.state@
    }
}

/// The monomials `X^127, ..., X, 1`.
pub open spec fn basis() -> Seq<Block> {
    Seq::new(128, |x: int| Block(1u128 << ((127 - x) as u128)))
}

/// The `i`-th of the field elements that the sender packs its blocks
/// into: the inner product of the `i`-th group of 128 blocks with the
/// basis.
pub open spec fn packed(ks: Seq<Block>, i: int) -> u128 {
    inner_product(ks.subrange(128 * i, 128 * i + 128), basis())
}

/// The sender's value after `i` steps of the evaluation of a polynomial
/// of degree `d`: it starts from the first packed element, and each step
/// multiplies by the next element and adds one of the second half.
pub open spec fn evaluation(ks: Seq<Block>, d: nat, i: nat) -> u128
    decreases i,
{
    if i == 0 {
        packed(ks, 0)
    } else {
        gf_mul(evaluation(ks, d, (i - 1) as nat), packed(ks, i as int)) ^ packed(ks, d + i - 1)
    }
}

/// The error of an extension that was given blocks of the wrong number.
pub open spec fn is_length_error(e: SenderError) -> bool {
    e.0@ == "the length of ks should be (2 * d -1) * CSP"@
}

impl Sender<Initialized> {
    /// Creates a new sender.
    pub fn new() -> (s: Self) {
        Sender { state: Initialized {  } }
    }

    /// Completes the setup phase with the sender's global secret.
    pub fn setup(self, delta: Block) -> (s: Sender<Extension>)
        ensures
            s@ == (ExtensionView {
                delta: delta@,
                bs: Seq::empty(),
                vope_counter: 0,
                exec_counter: 0,
            }),
    {
        Sender { state: Extension { delta, bs: Vec::new(), vope_counter: 0, exec_counter: 0 } }
    }
}

impl Sender<Extension> {
    /// The sender's output blocks, one for each extension.
    pub fn outputs(&self) -> (bs: &[Block])
        ensures
            bs@ == self@.bs,
    {
        self.state.bs.as_slice()
    }

    /// Performs an extension for a polynomial of degree `d` with the
    /// `(2 * d - 1) * 128` blocks that the sender received from correlated
    /// OT, and adds the resulting block to the outputs.
    pub fn extend(&mut self, ks: &[Block], d: usize) -> (res: Result<(), SenderError>)
        requires
            d >= 1,
            (2 * d - 1) * CSP <= usize::MAX,
            old(self)@.exec_counter < usize::MAX,
            old(self)@.vope_counter < usize::MAX,
        ensures
            match res {
                Ok(_) => ks@.len() == (2 * d - 1) * CSP && final(self)@ == (ExtensionView {
                    bs: old(self)@.bs.push(Block(evaluation(ks@, d as nat, (d - 1) as nat))),
                    vope_counter: old(self)@.vope_counter + 1,
                    exec_counter: old(self)@.exec_counter + 1,
                    ..old(self)@
                }),
                Err(e) => ks@.len() != (2 * d - 1) * CSP && is_length_error(e) && final(self)@
                    == old(self)@,
            },
    {
        let count = 2 * d - 1;
        if ks.len() != count * CSP {
            return Err(SenderError("the length of ks should be (2 * d -1) * CSP".to_owned()));
        }
        let mut base: Vec<Block> = Vec::new();
        let mut x: u32 = 0;
        while x < 128
            invariant
                x <= 128,
                base@.len() == x,
                forall|j: int| 0 <= j < x ==> (#[trigger] base@[j])@ == 1u128 << ((127 - j) as u128),
            decreases 128 - x,
        {
            base.push(Block(1u128 << (127 - x)));
            x = x + 1;
        }
        assert(base@ =~= basis());
        let mut ki: Vec<Block> = Vec::new();
        let mut i: usize = 0;
        while i < count
            invariant
                i <= count,
                ks@.len() == count * CSP,
                count * CSP <= usize::MAX,
                base@ == basis(),
                ki@.len() == i,
                forall|j: int| 0 <= j < i ==> (#[trigger] ki@[j])@ == packed(ks@, j),
            decreases count - i,
        {
            proof {
                assert(i * 128 + 128 <= count * 128) by (nonlinear_arith)
                    requires
                        i + 1 <= count,
                ;
            }
            let k = vstd::slice::slice_subrange(ks, 128 * i, 128 * i + 128);
            ki.push(Block::inn_prdt_red(k, base.as_slice()));
            i = i + 1;
        }
        let mut b = ki[0];
        let mut i: usize = 0;
        while i < d - 1
            invariant
                i <= d - 1,
                d >= 1,
                count == 2 * d - 1,
                ki@.len() == count,
                forall|j: int| 0 <= j < count ==> (#[trigger] ki@[j])@ == packed(ks@, j),
                b@ == evaluation(ks@, d as nat, i as nat),
            decreases d - 1 - i,
        {
            b = b.gfmul(ki[i + 1]).xor(ki[d + i]);
            i = i + 1;
        }
        self.state.bs.push(b);
        self.state.exec_counter = self.state.exec_counter + 1;
        self.state.vope_counter = self.state.vope_counter + 1;
        Ok(())
    }
}

} // verus!
