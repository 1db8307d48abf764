//! Pseudo-random generator: the ChaCha20 key stream of a seed.

use crate::block::{be_bytes, be_value, Block};
use rand_chacha::ChaCha20Rng;
use rand_core::{RngCore, SeedableRng};
use vstd::prelude::*;

verus! {

/// The `len` bytes that the ChaCha20 generator of `rand_chacha` gives when
/// it is seeded with `seed` and set to the 32-bit word `word_pos` of its
/// stream.
pub uninterp spec fn chacha20_stream(seed: Seq<u8>, word_pos: u128, len: nat) -> Seq<u8>;

/// Reads `len` bytes of the key stream of `seed` from word `word_pos` on:
/// a generator of `rand_chacha` is made from the seed
/// (`ChaCha20Rng::from_seed`), set to the word (`set_word_pos`) and read
/// (`fill_bytes`). The contract names the bytes and states their number.
#[verifier::external_body]
fn chacha20_fill(seed: &[u8; 32], word_pos: u128, len: usize) -> (out: Vec<u8>)
    ensures
        out@ == chacha20_stream(seed@, word_pos, len as nat),
        out@.len() == len,
{
    let mut rng = ChaCha20Rng::from_seed(*seed);
    rng.set_word_pos(word_pos);
    let mut out = vec![0u8; len];
    rng.fill_bytes(&mut out);
    out
}

/// Fills `len` bytes from the thread's generator, which the operating
/// system seeds (`rand::thread_rng`, `fill_bytes`). Only the number of bytes
/// is known of the result; two calls may give different bytes. The first
/// use in a thread stops the program if the operating system gives no seed.
#[verifier::external_body]
pub(crate) fn system_random(len: usize) -> (out: Vec<u8>)
    ensures
        out@.len() == len,
{
    let mut out = vec![0u8; len];
    rand::thread_rng().fill_bytes(&mut out);
    out
}

/// The seed that a block is stretched to: its sixteen bytes, twice.
pub open spec fn stretch(b: u128) -> Seq<u8> {
    be_bytes(b) + be_bytes(b)
}

/// Number of 32-bit words that reading `len` bytes consumes.
pub open spec fn words_for(len: nat) -> nat {
    (len + 3) / 4
}

/// The value of four bytes, most significant byte first.
pub open spec fn be_u32(s: Seq<u8>) -> u32 {
    (s[0] as u32) << 24u32 | (s[1] as u32) << 16u32 | (s[2] as u32) << 8u32 | (s[3] as u32)
}

/// The state of a generator: its seed and the next word of its stream.
pub struct PrgView {
    pub seed: Seq<u8>,
    pub word_pos: u128,
}

impl PrgView {
    /// The state after `len` bytes were read. A read consumes whole
    /// 32-bit words; the position wraps like the generator's own counter.
    pub open spec fn advance(self, len: nat) -> PrgView {
        PrgView {
            seed: self.seed,
            word_pos: self.word_pos.wrapping_add(words_for(len) as u128),
        }
    }

    /// The next `len` bytes of the stream.
    pub open spec fn output(self, len: nat) -> Seq<u8> {
        chacha20_stream(self.seed, self.word_pos, len)
    }

    /// The next block of the stream.
    pub open spec fn block(self) -> u128 {
        be_value(self.output(16))
    }

    /// The state after `n` blocks were read.
    pub open spec fn skip_blocks(self, n: nat) -> PrgView
        decreases n,
    {
        if n == 0 {
            self
        } else {
            self.skip_blocks((n - 1) as nat).advance(16)
        }
    }

    /// The `i`-th block from here on.
    pub open spec fn block_at(self, i: nat) -> u128 {
        self.skip_blocks(i).block()
    }

    /// The next 32-bit number of the stream: four bytes, most significant
    /// first.
    pub open spec fn number(self) -> u32 {
        be_u32(self.output(4))
    }

    /// The state after `n` 32-bit numbers were read.
    pub open spec fn skip_numbers(self, n: nat) -> PrgView
        decreases n,
    {
        if n == 0 {
            self
        } else {
            self.skip_numbers((n - 1) as nat).advance(4)
        }
    }

    /// The `i`-th 32-bit number from here on.
    pub open spec fn number_at(self, i: nat) -> u32 {
        self.skip_numbers(i).number()
    }
}

/// The first `n` blocks of the stream of the generator that the block
/// `seed` starts.
pub open spec fn seeded_blocks(seed: u128, n: nat) -> Seq<Block> {
    Seq::new(n, |j: int| Block((PrgView { seed: stretch(seed), word_pos: 0 }).block_at(j as nat)))
}

/// A seeded pseudo-random generator.
#[derive(Debug, Clone, Copy)]
pub struct Prg {
    seed: [u8; 32],
    word_pos: u128,
}

impl View for Prg {
    type V = PrgView;

    closed spec fn view(&self) -> PrgView {
        PrgView { seed: self.seed@, word_pos: self.word_pos }
    }
}

impl Prg {
    /// A generator at the start of the stream of `seed`.
    pub fn from_seed(seed: [u8; 32]) -> (p: Prg)
        ensures
            p@ == (PrgView { seed: seed@, word_pos: 0 }),
    {
        Prg { seed, word_pos: 0 }
    }

    /// A generator seeded with a block: the seed is the block's sixteen
    /// bytes, most significant first, repeated to fill the 32 bytes.
    pub fn from_block(b: Block) -> (p: Prg)
        ensures
            p@ == (PrgView { seed: stretch(b@), word_pos: 0 }),
    {
        let s = b.to_bytes();
        let seed = [
            s[0], s[1], s[2], s[3], s[4], s[5], s[6], s[7],
            s[8], s[9], s[10], s[11], s[12], s[13], s[14], s[15],
            s[0], s[1], s[2], s[3], s[4], s[5], s[6], s[7],
            s[8], s[9], s[10], s[11], s[12], s[13], s[14], s[15],
        ];
        assert(seed@ =~= stretch(b@));
        Prg { seed, word_pos: 0 }
    }

    /// Reads the next `len` bytes of the stream.
    pub fn fill_bytes(&mut self, len: usize) -> (out: Vec<u8>)
        ensures
            out@ == old(self)@.output(len as nat),
            out@.len() == len,
            final(self)@ == old(self)@.advance(len as nat),
    {
        let out = chacha20_fill(&self.seed, self.word_pos, len);
        let words: u128 = (len / 4) as u128 + (if len % 4 == 0 { 0u128 } else { 1u128 });
        self.word_pos = self.word_pos.wrapping_add(words);
        out
    }

    /// Reads the next block of the stream: sixteen bytes, most significant
    /// first.
    pub fn random_block(&mut self) -> (b: Block)
        ensures
            b@ == old(self)@.block(),
            final(self)@ == old(self)@.advance(16),
    {
        let bytes = self.fill_bytes(16);
        Block::from_slice(bytes.as_slice())
    }

    /// Reads the next 32-bit number of the stream: four bytes, most
    /// significant first.
    pub fn random_u32(&mut self) -> (x: u32)
        ensures
            x == old(self)@.number(),
            final(self)@ == old(self)@.advance(4),
    {
        let b = self.fill_bytes(4);
        (b[0] as u32) << 24 | (b[1] as u32) << 16 | (b[2] as u32) << 8 | (b[3] as u32)
    }

    /// The first `n` blocks of the stream of the generator that the block
    /// `seed` starts.
    pub fn blocks_from_seed(seed: Block, n: usize) -> (out: Vec<Block>)
        ensures
            out@ == seeded_blocks(seed@, n as nat),
    {
        let mut prg = Prg::from_block(seed);
        let out = prg.random_blocks(n);
        assert(out@ =~= seeded_blocks(seed@, n as nat));
        out
    }

    /// Reads the next `n` blocks of the stream.
    pub fn random_blocks(&mut self, n: usize) -> (out: Vec<Block>)
        ensures
            out@.len() == n,
            forall|i: int| 0 <= i < n ==> (#[trigger] out@[i])@ == old(self)@.block_at(i as nat),
            final(self)@ == old(self)@.skip_blocks(n as nat),
    {
        let mut out: Vec<Block> = Vec::new();
        let mut i: usize = 0;
        while i < n
            invariant
                i <= n,
                out@.len() == i,
                forall|j: int| 0 <= j < i ==> (#[trigger] out@[j])@ == old(self)@.block_at(j as nat),
                self@ == old(self)@.skip_blocks(i as nat),
            decreases n - i,
        {
            let b = self.random_block();
            out.push(b);
            i = i + 1;
        }
        out
    }
}

} // verus!
