//! Fixed-key AES and the hashes built on it.

use crate::block::Block;
use ::aes::cipher::generic_array::GenericArray;
use ::aes::cipher::{BlockEncrypt, KeyInit};
use vstd::prelude::*;

verus! {

/// The key of the fixed-key permutation: the bytes 69, 42 repeated eight
/// times.
pub const FIXED_KEY: u128 = 0x452a_452a_452a_452a_452a_452a_452a_452a;

/// The key of the left child in a length-doubling expansion.
pub const LEFT_KEY: u128 = 0;

/// The key of the right child in a length-doubling expansion.
pub const RIGHT_KEY: u128 = 0xffff_ffff_ffff_ffff_ffff_ffff_ffff_ffff;

/// The AES-128 encryption of one block under a key, both read as sixteen
/// bytes with the most significant byte first.
pub uninterp spec fn aes128_encrypt(key: u128, block: u128) -> u128;

/// Encrypts one block with AES-128 (`aes::Aes128`, `encrypt_block`). The
/// contract names the cipher's output; nothing else is claimed of it.
#[verifier::external_body]
fn aes128(key: u128, block: u128) -> (r: u128)
    ensures
        r == aes128_encrypt(key, block),
{
    let cipher = ::aes::Aes128::new(&GenericArray::from(key.to_be_bytes()));
    let mut buf = GenericArray::from(block.to_be_bytes());
    cipher.encrypt_block(&mut buf);
    u128::from_be_bytes(buf.into())
}

/// The fixed-key permutation `pi`.
pub open spec fn pi(x: u128) -> u128 {
    aes128_encrypt(FIXED_KEY, x)
}

/// The tweakable circular correlation-robust hash:
/// `pi(pi(x) ^ tweak) ^ pi(x)`.
pub open spec fn tccr_spec(tweak: u128, x: u128) -> u128 {
    pi(pi(x) ^ tweak) ^ pi(x)
}

/// The left and right child of a seed in a length-doubling expansion:
/// the seed encrypted under one of two keys, masked with the seed.
pub open spec fn expand_spec(seed: u128) -> (u128, u128) {
    (aes128_encrypt(LEFT_KEY, seed) ^ seed, aes128_encrypt(RIGHT_KEY, seed) ^ seed)
}

/// Encrypts a block with AES-128 under the given key.
pub fn encrypt(key: Block, x: Block) -> (r: Block)
    ensures
        r@ == aes128_encrypt(key@, x@),
{
    Block(aes128(key.0, x.0))
}

/// Applies the fixed-key permutation.
pub fn fixed_key_aes(x: Block) -> (r: Block)
    ensures
        r@ == pi(x@),
{
    Block(aes128(FIXED_KEY, x.0))
}

/// Tweakable circular correlation-robust hash of `x` under `tweak`.
pub fn tccr(tweak: Block, x: Block) -> (r: Block)
    ensures
        r@ == tccr_spec(tweak@, x@),
{
    let h = fixed_key_aes(x);
    fixed_key_aes(h.xor(tweak)).xor(h)
}

/// Expands a seed into its left and right child.
pub fn expand(seed: Block) -> (r: (Block, Block))
    ensures
        (r.0@, r.1@) == expand_spec(seed@),
{
    let l = Block(aes128(LEFT_KEY, seed.0)).xor(seed);
    let r = Block(aes128(RIGHT_KEY, seed.0)).xor(seed);
    (l, r)
}

} // verus!
