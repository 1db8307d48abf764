use mpz_ot::block::Block;
use mpz_ot::cipher::{encrypt, expand, fixed_key_aes, tccr, FIXED_KEY, LEFT_KEY, RIGHT_KEY};
use mpz_ot::prg::Prg;
use rand_chacha::ChaCha20Rng;
use rand_core::{RngCore, SeedableRng};

fn mix(i: u64) -> Block {
    let mut x = (i as u128 + 1).wrapping_mul(0x9e37_79b9_7f4a_7c15_f39c_c060_5ced_c835);
    x ^= x >> 59;
    x = x.wrapping_mul(0xd129_0d3b_4a8d_58a9_c2b2_ae3d_27d4_eb4f);
    Block(x ^ (x >> 71))
}

/// Carry-less multiplication, bit by bit, on 256-bit values held in two
/// halves.
fn clmul_reference(a: u128, b: u128) -> (u128, u128) {
    let (mut lo, mut hi) = (0u128, 0u128);
    for i in 0..128 {
        if (b >> i) & 1 == 1 {
            lo ^= a << i;
            if i > 0 {
                hi ^= a >> (128 - i);
            }
        }
    }
    (lo, hi)
}

/// Multiplication in GF(2^128) modulo x^128 + x^7 + x^2 + x + 1 by shift
/// and add.
fn gfmul_reference(a: u128, b: u128) -> u128 {
    let mut acc = 0u128;
    let mut cur = a;
    for i in 0..128 {
        if (b >> i) & 1 == 1 {
            acc ^= cur;
        }
        let carry = cur >> 127;
        cur <<= 1;
        if carry == 1 {
            cur ^= 0x87;
        }
    }
    acc
}

#[test]
fn block_bytes_are_big_endian() {
    let bytes = [1u8, 2, 3, 4, 5, 6, 7, 8, 9, 10, 11, 12, 13, 14, 15, 16];
    let b = Block::new(bytes);
    assert_eq!(b, Block(0x0102_0304_0506_0708_090a_0b0c_0d0e_0f10));
    assert_eq!(b.to_bytes(), bytes);
    assert_eq!(Block::from_slice(&bytes), b);
    assert_eq!(b.byte(0), 1);
    assert_eq!(b.byte(15), 16);
    assert_eq!(Block::zero(), Block(0));
    assert_eq!(Block::ones(), Block(u128::MAX));
}

#[test]
fn block_bits_follow_the_bytes_lsb_first() {
    let mut bytes = [0u8; 16];
    bytes[0] = 0b0000_0101;
    bytes[15] = 0b1000_0000;
    let b = Block::new(bytes);
    for i in 0..128 {
        assert_eq!(b.bit(i), i == 0 || i == 2 || i == 127);
    }
}

#[test]
fn block_xor_and_select() {
    let a = Block(0xff00);
    let b = Block(0x0ff0);
    assert_eq!(a.xor(b), Block(0xf0f0));
    assert_eq!(a.xor(Block::zero()), a);
    assert_eq!(a.xor(a), Block::zero());
    assert_eq!(a.select(true), a);
    assert_eq!(a.select(false), Block::zero());
}

#[test]
fn block_clmul_exact_values() {
    // (x + 1)^2 = x^2 + 1
    assert_eq!(Block(3).clmul(Block(3)), (Block(5), Block(0)));
    // x^127 * x = x^128
    assert_eq!(Block(1 << 127).clmul(Block(2)), (Block(0), Block(1)));
    // squaring spreads the bits out
    let all = Block(u128::MAX);
    let spread = 0x5555_5555_5555_5555_5555_5555_5555_5555;
    assert_eq!(all.clmul(all), (Block(spread), Block(spread)));
    assert_eq!(Block(0).clmul(all), (Block(0), Block(0)));
    for i in 0..50 {
        let (a, b) = (mix(i), mix(i + 1000));
        let (lo, hi) = clmul_reference(a.0, b.0);
        assert_eq!(a.clmul(b), (Block(lo), Block(hi)));
    }
}

#[test]
fn block_reduce_and_gfmul_exact_values() {
    // x^128 = x^7 + x^2 + x + 1
    assert_eq!(Block::reduce(Block(0), Block(1)), Block(0x87));
    assert_eq!(Block(1 << 127).gfmul(Block(2)), Block(0x87));
    // x^255 = x^127 * x^128
    assert_eq!(
        Block::reduce(Block(0), Block(1 << 127)),
        Block(gfmul_reference(1 << 127, gfmul_reference(1 << 127, 2)))
    );
    assert_eq!(Block::reduce(Block(12345), Block(0)), Block(12345));
    for i in 0..50 {
        let (a, b) = (mix(i), mix(i + 2000));
        assert_eq!(a.gfmul(b), Block(gfmul_reference(a.0, b.0)));
        assert_eq!(a.gfmul(Block(1)), a);
        assert_eq!(a.gfmul(Block(0)), Block(0));
    }
}

#[test]
fn block_gfmul_is_commutative_associative_and_distributive() {
    for i in 0..40 {
        let (a, b, c) = (mix(3 * i), mix(3 * i + 1), mix(3 * i + 2));
        assert_eq!(a.gfmul(b), b.gfmul(a));
        assert_eq!(a.gfmul(b).gfmul(c), a.gfmul(b.gfmul(c)));
        assert_eq!(a.xor(b).gfmul(c), a.gfmul(c).xor(b.gfmul(c)));
        assert_eq!(c.gfmul(a.xor(b)), c.gfmul(a).xor(c.gfmul(b)));
    }
}

#[test]
fn block_inner_product() {
    let a = [mix(1), mix(2), mix(3)];
    let b = [mix(4), mix(5), mix(6), mix(7)];
    let expected = a[0].gfmul(b[0]).xor(a[1].gfmul(b[1])).xor(a[2].gfmul(b[2]));
    assert_eq!(Block::inn_prdt_red(&a, &b), expected);
    assert_eq!(Block::inn_prdt_red(&[], &b), Block(0));
    let (lo, hi) = Block::inner_clmul(&a[..1], &b);
    assert_eq!((lo, hi), a[0].clmul(b[0]));
}

#[test]
fn aes_known_answers() {
    // the all-zero key and block
    assert_eq!(
        encrypt(Block(0), Block(0)),
        Block(0x66e9_4bd4_ef8a_2c3b_884c_fa59_ca34_2b2e)
    );
    // FIPS 197, appendix C.1
    assert_eq!(
        encrypt(
            Block(0x0001_0203_0405_0607_0809_0a0b_0c0d_0e0f),
            Block(0x0011_2233_4455_6677_8899_aabb_ccdd_eeff)
        ),
        Block(0x69c4_e0d8_6a7b_0430_d8cd_b780_70b4_c55a)
    );
}

#[test]
fn tccr_is_the_fixed_key_construction() {
    assert_eq!(Block(FIXED_KEY).to_bytes(), [69, 42, 69, 42, 69, 42, 69, 42, 69, 42, 69, 42, 69, 42, 69, 42]);
    for i in 0..20 {
        let (tweak, x) = (mix(i), mix(i + 500));
        assert_eq!(fixed_key_aes(x), encrypt(Block(FIXED_KEY), x));
        let h = fixed_key_aes(x);
        assert_eq!(tccr(tweak, x), fixed_key_aes(h.xor(tweak)).xor(h));
        assert_ne!(tccr(tweak, x), x);
        assert_ne!(tccr(tweak, x), tccr(tweak.xor(Block(1)), x));
    }
}

#[test]
fn tccr_correlation_looks_random() {
    // tccr(j, x) ^ tccr(j, x ^ delta) over many (j, x): every bit is set
    // in about half of the samples, and no value repeats.
    let delta = mix(99);
    let n = 4096;
    let mut ones = [0u32; 128];
    let mut seen = std::collections::HashSet::new();
    for i in 0..n {
        let j = Block(i as u128);
        let x = mix(i as u64 + 10_000);
        let y = tccr(j, x).xor(tccr(j, x.xor(delta)));
        assert!(seen.insert(y));
        for (b, count) in ones.iter_mut().enumerate() {
            *count += ((y.0 >> b) & 1) as u32;
        }
    }
    for count in ones {
        // within six standard deviations of n / 2
        assert!((n / 2 - 192..=n / 2 + 192).contains(&count));
    }
}

#[test]
fn expand_uses_two_keys() {
    let seed = mix(7);
    let (l, r) = expand(seed);
    assert_eq!(l, encrypt(Block(LEFT_KEY), seed).xor(seed));
    assert_eq!(r, encrypt(Block(RIGHT_KEY), seed).xor(seed));
    assert_ne!(l, r);
}

#[test]
fn prg_is_the_chacha20_stream() {
    let seed = [7u8; 32];
    let mut prg = Prg::from_seed(seed);
    let mut reference = ChaCha20Rng::from_seed(seed);
    for len in [5usize, 64, 0, 3, 256, 1, 4, 1000, 2] {
        let mut expected = vec![0u8; len];
        reference.fill_bytes(&mut expected);
        assert_eq!(prg.fill_bytes(len), expected);
    }
    let mut expected = [0u8; 16];
    reference.fill_bytes(&mut expected);
    assert_eq!(prg.random_block(), Block::new(expected));
    let mut expected = [0u8; 4];
    reference.fill_bytes(&mut expected);
    assert_eq!(prg.random_u32(), u32::from_be_bytes(expected));
    let blocks = prg.random_blocks(3);
    for b in blocks {
        let mut expected = [0u8; 16];
        reference.fill_bytes(&mut expected);
        assert_eq!(b, Block::new(expected));
    }
}

#[test]
fn prg_seed_of_a_block_is_its_bytes_twice() {
    let b = Block(0x0102_0304_0506_0708_090a_0b0c_0d0e_0f10);
    let mut seed = [0u8; 32];
    seed[..16].copy_from_slice(&b.to_bytes());
    seed[16..].copy_from_slice(&b.to_bytes());
    let mut from_block = Prg::from_block(b);
    let mut from_seed = Prg::from_seed(seed);
    assert_eq!(from_block.fill_bytes(100), from_seed.fill_bytes(100));
    assert_eq!(Prg::blocks_from_seed(b, 4), Prg::from_seed(seed).random_blocks(4));
}
