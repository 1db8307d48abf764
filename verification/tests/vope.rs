use mpz_ot::block::Block;
use mpz_ot::vope::error::SenderError;
use mpz_ot::vope::sender::Sender;
use mpz_ot::vope::CSP;

fn blocks(seed: u128, n: usize) -> Vec<Block> {
    (0..n as u128)
        .map(|i| Block((i + 1).wrapping_mul(seed).wrapping_mul(0x9e37_79b9_7f4a_7c15_f39c_c060_5ced_c835) ^ (i << 64)))
        .collect()
}

/// The field element that 128 blocks pack into: the sum of the blocks,
/// the `x`-th multiplied by `X^(127 - x)`.
fn pack(ks: &[Block]) -> Block {
    let mut acc = Block(0);
    for (x, k) in ks.iter().enumerate() {
        acc = acc.xor(k.gfmul(Block(1u128 << (127 - x))));
    }
    acc
}

#[test]
fn vope_extend_degree_one_packs_the_blocks() {
    let mut sender = Sender::new().setup(Block(42));
    let ks = blocks(3, CSP);
    sender.extend(&ks, 1).unwrap();
    assert_eq!(sender.outputs(), &[pack(&ks)]);
    // the last block is multiplied by one
    let mut ks = vec![Block(0); CSP];
    ks[127] = Block(77);
    sender.extend(&ks, 1).unwrap();
    assert_eq!(sender.outputs()[1], Block(77));
}

#[test]
fn vope_extend_evaluates_the_polynomial() {
    let mut sender = Sender::new().setup(Block(42));
    let d = 3;
    let ks = blocks(5, (2 * d - 1) * CSP);
    sender.extend(&ks, d).unwrap();
    let k: Vec<Block> = (0..2 * d - 1).map(|i| pack(&ks[i * CSP..(i + 1) * CSP])).collect();
    // b = (k0 * k1 + k3) * k2 + k4
    let expected = k[0].gfmul(k[1]).xor(k[3]).gfmul(k[2]).xor(k[4]);
    assert_eq!(sender.outputs(), &[expected]);
}

#[test]
fn vope_extend_rejects_a_wrong_length() {
    let mut sender = Sender::new().setup(Block(42));
    let ks = blocks(5, 3 * CSP - 1);
    assert_eq!(
        sender.extend(&ks, 2),
        Err(SenderError("the length of ks should be (2 * d -1) * CSP".to_string()))
    );
    assert_eq!(sender.outputs().len(), 0);
}
