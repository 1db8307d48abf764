use mpz_ot::block::Block;
use mpz_ot::ferret::error::ErrorKind;
use mpz_ot::ferret::ggm::{ggm_gen, ggm_reconstruct};
use mpz_ot::ferret::spcot::error::{ReceiverError, SenderError};
use mpz_ot::ferret::spcot::msgs::{CheckFS, MaskBits};
use mpz_ot::ferret::spcot::receiver::Receiver as SpcotReceiver;
use mpz_ot::ferret::spcot::sender::{Sender as SpcotSender, CSP};
use mpz_ot::prg::Prg;

/// An ideal random correlated OT with a fixed delta.
struct IdealCot {
    delta: Block,
    prg: Prg,
}

impl IdealCot {
    fn new(seed: u8) -> Self {
        let mut prg = Prg::from_seed([seed; 32]);
        let delta = prg.random_block();
        IdealCot { delta, prg }
    }

    fn delta(&self) -> Block {
        self.delta
    }

    /// The sender's blocks, and the receiver's choices and blocks.
    fn random_correlated(&mut self, n: usize) -> (Vec<Block>, Vec<bool>, Vec<Block>) {
        let qs = self.prg.random_blocks(n);
        let rs: Vec<bool> = self.prg.fill_bytes(n).iter().map(|b| b & 1 == 1).collect();
        let ts = qs
            .iter()
            .zip(rs.iter())
            .map(|(q, r)| if *r { q.xor(self.delta) } else { *q })
            .collect();
        (qs, rs, ts)
    }
}

fn run_batch(
    cot: &mut IdealCot,
    sender: &mut SpcotSender,
    receiver: &mut SpcotReceiver,
    hs: &[usize],
    alphas: &[u32],
) {
    let h_sum: usize = hs.iter().sum();
    let (qss, rss, tss) = cot.random_correlated(h_sum);
    let maskbits = receiver.extend_mask_bits(hs, alphas, &rss).unwrap();
    let msg_from_sender = sender.extend(hs, &qss, &maskbits).unwrap();
    receiver.extend(hs, alphas, &tss, &msg_from_sender).unwrap();
}

fn run_check(
    cot: &mut IdealCot,
    sender: &mut SpcotSender,
    receiver: &mut SpcotReceiver,
) -> (Vec<Vec<Block>>, Vec<(Vec<Block>, u32)>) {
    let (y_star, x_star, z_star) = cot.random_correlated(CSP);
    let check_from_receiver = receiver.check_pre(&x_star).unwrap();
    let (output_sender, check) = sender.check(&y_star, check_from_receiver).unwrap();
    let output_receiver = receiver.check(&z_star, check).unwrap();
    (output_sender, output_receiver)
}

fn assert_single_point(delta: Block, vs: &mut [Vec<Block>], ws: &[(Vec<Block>, u32)]) {
    assert_eq!(vs.len(), ws.len());
    assert!(vs.iter_mut().zip(ws.iter()).all(|(vs, (ws, alpha))| {
        vs[*alpha as usize] = vs[*alpha as usize].xor(delta);
        vs == ws
    }));
}

#[test]
fn spcot_test() {
    let mut ideal_cot = IdealCot::new(1);
    let mut sender = SpcotSender::new();
    let mut receiver = SpcotReceiver::new();

    let sender_seed = Block(0x0123_4567_89ab_cdef_0011_2233_4455_6677);
    let delta = ideal_cot.delta();

    sender.setup_with_delta(delta, sender_seed).unwrap();
    receiver.setup().unwrap();

    let h1 = 8;
    let alpha1 = 3;

    // Extend once
    run_batch(&mut ideal_cot, &mut sender, &mut receiver, &[h1], &[alpha1]);

    // Extend twice
    let h2 = 4;
    let alpha2 = 2;
    run_batch(&mut ideal_cot, &mut sender, &mut receiver, &[h2], &[alpha2]);

    // Check
    let (mut output_sender, output_receiver) = run_check(&mut ideal_cot, &mut sender, &mut receiver);

    assert_single_point(delta, &mut output_sender, &output_receiver);
}

#[test]
fn mod_spcot_test() {
    let mut ideal_cot = IdealCot::new(2);
    let mut sender = SpcotSender::new();
    let mut receiver = SpcotReceiver::new();

    let delta = ideal_cot.delta();

    sender.setup_with_delta(delta, Block(77)).unwrap();
    receiver.setup().unwrap();

    let hs = [8, 4, 10];
    let alphas = [3, 2, 4];

    // batch extension
    run_batch(&mut ideal_cot, &mut sender, &mut receiver, &hs, &alphas);

    // Check
    let (mut output_sender, output_receiver) = run_check(&mut ideal_cot, &mut sender, &mut receiver);
    assert_single_point(delta, &mut output_sender, &output_receiver);

    // extend twice
    let hs = [6, 9, 8];
    let alphas = [2, 1, 3];
    run_batch(&mut ideal_cot, &mut sender, &mut receiver, &hs, &alphas);

    // Check
    let (mut output_sender, output_receiver) = run_check(&mut ideal_cot, &mut sender, &mut receiver);
    assert_single_point(delta, &mut output_sender, &output_receiver);
}

#[test]
fn test_spcot() {
    let mut cot = IdealCot::new(7);
    let delta = cot.delta();
    let mut sender = SpcotSender::new();
    let mut receiver = SpcotReceiver::new();

    // should set the same delta as in RCOT.
    sender.setup_with_delta(delta, Block(0x77)).unwrap();
    receiver.setup().unwrap();

    let hs = [8, 4];
    let alphas = [4, 2];

    run_batch(&mut cot, &mut sender, &mut receiver, &hs, &alphas);
    let (mut output_sender, output_receiver) = run_check(&mut cot, &mut sender, &mut receiver);

    assert_single_point(delta, &mut output_sender, &output_receiver);
}

#[test]
fn spcot_single_extend_h8_alpha3() {
    let delta = Block(0x0102_0304_0506_0708_090a_0b0c_0d0e_0f10);
    let mut cot = IdealCot { delta, prg: Prg::from_seed([9; 32]) };
    let mut sender = SpcotSender::new();
    let mut receiver = SpcotReceiver::new();
    sender.setup_with_delta(delta, Block(5)).unwrap();
    receiver.setup().unwrap();
    run_batch(&mut cot, &mut sender, &mut receiver, &[8], &[3]);
    let (vs, ws) = run_check(&mut cot, &mut sender, &mut receiver);
    assert_eq!(vs.len(), 1);
    assert_eq!(vs[0].len(), 256);
    assert_eq!(ws[0].0.len(), 256);
    assert_eq!(ws[0].1, 3);
    for i in 0..256 {
        if i == 3 {
            assert_eq!(ws[0].0[i].xor(vs[0][i]), delta);
        } else {
            assert_eq!(ws[0].0[i], vs[0][i]);
        }
    }
}

#[test]
fn spcot_batched_extend_three_trees() {
    let mut cot = IdealCot::new(3);
    let delta = cot.delta();
    let mut sender = SpcotSender::new();
    let mut receiver = SpcotReceiver::new();
    sender.setup_with_delta(delta, Block(6)).unwrap();
    receiver.setup().unwrap();
    let hs = [8, 4, 10];
    let alphas = [3, 2, 4];
    run_batch(&mut cot, &mut sender, &mut receiver, &hs, &alphas);
    let (vs, ws) = run_check(&mut cot, &mut sender, &mut receiver);
    assert_eq!(vs.len(), 3);
    for b in 0..3 {
        assert_eq!(vs[b].len(), 1 << hs[b]);
        assert_eq!(ws[b].1, alphas[b]);
        for i in 0..vs[b].len() {
            let expected = if i as u32 == alphas[b] { vs[b][i].xor(delta) } else { vs[b][i] };
            assert_eq!(ws[b].0[i], expected);
        }
    }
}

#[test]
fn spcot_depth_zero_and_every_position() {
    let mut cot = IdealCot::new(4);
    let delta = cot.delta();
    let mut sender = SpcotSender::new();
    let mut receiver = SpcotReceiver::new();
    sender.setup_with_delta(delta, Block(7)).unwrap();
    receiver.setup().unwrap();
    let hs = [0, 3, 3, 3, 3, 3, 3, 3, 3, 1, 1];
    let alphas = [0, 0, 1, 2, 3, 4, 5, 6, 7, 0, 1];
    run_batch(&mut cot, &mut sender, &mut receiver, &hs, &alphas);
    let (mut vs, ws) = run_check(&mut cot, &mut sender, &mut receiver);
    assert_eq!(vs[0].len(), 1);
    assert_single_point(delta, &mut vs, &ws);
}

#[test]
fn spcot_mask_bits_are_choice_xor_not_path_bit() {
    let mut receiver = SpcotReceiver::new();
    receiver.setup().unwrap();
    // alpha = 0b101 in a tree of depth 3: the path turns right, left, right.
    let rs = [false, false, false, true, true, true, true, false, true, false];
    let m = receiver.extend_mask_bits(&[3, 3, 4], &[5, 5, 9], &rs).unwrap();
    assert_eq!(m.shape, vec![3, 3, 4]);
    assert_eq!(m.bits.len(), 2);
    // mask = r ^ bit ^ 1, most significant bit of alpha first
    let path = [true, false, true, true, false, true, true, false, false, true];
    for k in 0..16 {
        let bit = (m.bits[k / 8] >> (k % 8)) & 1 == 1;
        if k < 10 {
            assert_eq!(bit, rs[k] ^ path[k] ^ true);
        } else {
            assert!(!bit);
        }
    }
}

#[test]
fn spcot_sender_message_formulas() {
    let delta = Block(0xdead_beef);
    let mut sender = SpcotSender::new();
    sender.setup_with_delta(delta, Block(11)).unwrap();
    let hs = [2usize];
    let qs = [Block(100), Block(200)];
    let masks = MaskBits { bits: vec![0b10], shape: vec![2] };
    let msg = sender.extend(&hs, &qs, &masks).unwrap();

    let root = Prg::from_block(Block(11)).random_block();
    let tree = ggm_gen(root, 2);
    assert_eq!(tree.leaves.len(), 4);
    // level 1: mask bit 0 clear: M0 = K0 ^ q, M1 = K1 ^ q ^ delta
    assert_eq!(msg.m0[0], tree.k0[0].xor(qs[0]));
    assert_eq!(msg.m1[0], tree.k1[0].xor(qs[0]).xor(delta));
    // level 2: mask bit 1 set: M0 = K0 ^ q ^ delta, M1 = K1 ^ q
    assert_eq!(msg.m0[1], tree.k0[1].xor(qs[1]).xor(delta));
    assert_eq!(msg.m1[1], tree.k1[1].xor(qs[1]));
    let sum = tree.leaves.iter().fold(Block(0), |a, b| a.xor(*b));
    assert_eq!(msg.c, vec![sum.xor(delta)]);
    // the sums of the levels are those of the children
    assert_eq!(tree.k0[1], tree.leaves[0].xor(tree.leaves[2]));
    assert_eq!(tree.k1[1], tree.leaves[1].xor(tree.leaves[3]));
}

#[test]
fn ggm_reconstruct_recovers_all_but_one_leaf() {
    let root = Block(0x1234);
    let h = 5;
    let tree = ggm_gen(root, h);
    for alpha in 0..32usize {
        let keys: Vec<Block> = (0..h)
            .map(|d| {
                let right = (alpha >> (h - 1 - d)) & 1 == 1;
                if right { tree.k0[d] } else { tree.k1[d] }
            })
            .collect();
        let leaves = ggm_reconstruct(h, alpha, &keys);
        for k in 0..32 {
            let expected = if k == alpha { Block(0) } else { tree.leaves[k] };
            assert_eq!(leaves[k], expected);
        }
    }
}

#[test]
fn spcot_check_rejects_a_cheating_sender() {
    let mut cot = IdealCot::new(5);
    let delta = cot.delta();
    let mut sender = SpcotSender::new();
    let mut receiver = SpcotReceiver::new();
    sender.setup_with_delta(delta, Block(8)).unwrap();
    receiver.setup().unwrap();
    let hs = [4usize];
    let alphas = [6u32];
    let (qss, rss, tss) = cot.random_correlated(4);
    let maskbits = receiver.extend_mask_bits(&hs, &alphas, &rss).unwrap();
    let mut msg = sender.extend(&hs, &qss, &maskbits).unwrap();
    // the sender tampers with the masked sum that the receiver will use
    // at the last level: the path to 6 = 0b0110 turns left there
    msg.m1[3] = msg.m1[3].xor(Block(1));
    receiver.extend(&hs, &alphas, &tss, &msg).unwrap();
    let (y_star, x_star, z_star) = cot.random_correlated(CSP);
    let fr = receiver.check_pre(&x_star).unwrap();
    let (_, fs) = sender.check(&y_star, fr).unwrap();
    assert_eq!(
        receiver.check(&z_star, fs),
        Err(ReceiverError::CoreError(ErrorKind::ConsistencyCheckFailed))
    );
    // the error is latched
    assert_eq!(
        receiver.setup(),
        Err(ReceiverError::StateError("Initialized".to_string()))
    );
    assert_eq!(
        receiver.check_pre(&x_star),
        Err(ReceiverError::StateError("Extension".to_string()))
    );
}

#[test]
fn spcot_check_rejects_a_wrong_digest() {
    let mut cot = IdealCot::new(6);
    let delta = cot.delta();
    let mut sender = SpcotSender::new();
    let mut receiver = SpcotReceiver::new();
    sender.setup_with_delta(delta, Block(8)).unwrap();
    receiver.setup().unwrap();
    run_batch(&mut cot, &mut sender, &mut receiver, &[3], &[1]);
    let (y_star, x_star, z_star) = cot.random_correlated(CSP);
    let fr = receiver.check_pre_with_seed(&x_star, Block(99)).unwrap();
    assert_eq!(fr.chi_seed, Block(99));
    let (_, mut fs) = sender.check(&y_star, fr).unwrap();
    fs.hashed_v[0] ^= 1;
    assert_eq!(
        receiver.check(&z_star, CheckFS { hashed_v: fs.hashed_v }),
        Err(ReceiverError::CoreError(ErrorKind::ConsistencyCheckFailed))
    );
}

#[test]
fn spcot_errors() {
    let mut sender = SpcotSender::new();
    let masks = MaskBits { bits: vec![0], shape: vec![2] };
    // not set up
    assert_eq!(
        sender.extend(&[2], &[Block(0); 2], &masks),
        Err(SenderError::StateError("Extension".to_string()))
    );
    // and the error is latched
    assert_eq!(
        sender.setup_with_delta(Block(1), Block(2)),
        Err(SenderError::StateError("Initialized".to_string()))
    );

    let mut sender = SpcotSender::new();
    sender.setup_with_delta(Block(1), Block(2)).unwrap();
    assert_eq!(
        sender.extend(&[32], &[Block(0); 32], &masks),
        Err(SenderError::CoreError(ErrorKind::InvalidParameters))
    );
    let mut sender = SpcotSender::new();
    sender.setup_with_delta(Block(1), Block(2)).unwrap();
    assert_eq!(
        sender.extend(&[2], &[Block(0); 3], &masks),
        Err(SenderError::CoreError(ErrorKind::CountMismatch(2, 3)))
    );
    let mut sender = SpcotSender::new();
    sender.setup_with_delta(Block(1), Block(2)).unwrap();
    let bad = MaskBits { bits: vec![0], shape: vec![3] };
    assert_eq!(
        sender.extend(&[2], &[Block(0); 2], &bad),
        Err(SenderError::CoreError(ErrorKind::InvalidPayload))
    );
    let mut sender = SpcotSender::new();
    sender.setup_with_delta(Block(1), Block(2)).unwrap();
    let fr = mpz_ot::ferret::spcot::msgs::CheckFR { chi_seed: Block(0), x_prime: Block(0) };
    assert_eq!(
        sender.check(&[Block(0); 127], fr),
        Err(SenderError::CoreError(ErrorKind::CountMismatch(128, 127)))
    );

    let mut receiver = SpcotReceiver::new();
    receiver.setup().unwrap();
    assert_eq!(
        receiver.extend_mask_bits(&[2, 2], &[1], &[false; 4]),
        Err(ReceiverError::CoreError(ErrorKind::CountMismatch(2, 1)))
    );
    let mut receiver = SpcotReceiver::new();
    receiver.setup().unwrap();
    assert_eq!(
        receiver.extend_mask_bits(&[2], &[4], &[false; 2]),
        Err(ReceiverError::CoreError(ErrorKind::InvalidParameters))
    );
    let mut receiver = SpcotReceiver::new();
    receiver.setup().unwrap();
    assert_eq!(
        receiver.extend_mask_bits(&[2], &[3], &[false; 3]),
        Err(ReceiverError::CoreError(ErrorKind::CountMismatch(2, 3)))
    );
    let mut receiver = SpcotReceiver::new();
    receiver.setup().unwrap();
    assert_eq!(
        receiver.check(&[Block(0); 128], CheckFS { hashed_v: [0; 32] }),
        Err(ReceiverError::StateError("Checking".to_string()))
    );
}

#[test]
fn spcot_finalize_completes_the_roles() {
    let mut sender = SpcotSender::new();
    sender.setup_with_delta(Block(1), Block(2)).unwrap();
    sender.finalize().unwrap();
    let masks = MaskBits { bits: vec![], shape: vec![] };
    assert_eq!(
        sender.extend(&[], &[], &masks),
        Err(SenderError::StateError("Extension".to_string()))
    );
    let mut receiver = SpcotReceiver::new();
    receiver.setup().unwrap();
    receiver.finalize().unwrap();
    assert_eq!(receiver.finalize(), Err(ReceiverError::StateError("Extension".to_string())));
}

#[test]
fn spcot_roles_test_their_state_before_an_operation() {
    let mut sender = SpcotSender::new();
    assert_eq!(sender.expect_extension(), Err(SenderError::StateError("Extension".to_string())));
    // the role has failed: it cannot be set up any more
    assert_eq!(
        sender.setup_with_delta(Block(1), Block(2)),
        Err(SenderError::StateError("Initialized".to_string()))
    );
    let mut sender = SpcotSender::new();
    sender.setup_with_delta(Block(1), Block(2)).unwrap();
    assert_eq!(sender.expect_extension(), Ok(()));
    assert_eq!(sender.expect_extension(), Ok(()));
    sender.finalize().unwrap();
    assert_eq!(sender.expect_extension(), Err(SenderError::StateError("Extension".to_string())));

    let mut receiver = SpcotReceiver::new();
    assert_eq!(
        receiver.expect_extension(),
        Err(ReceiverError::StateError("Extension".to_string()))
    );
    let mut receiver = SpcotReceiver::new();
    receiver.setup().unwrap();
    assert_eq!(receiver.expect_extension(), Ok(()));
    receiver.abort();
    assert_eq!(
        receiver.expect_extension(),
        Err(ReceiverError::StateError("Extension".to_string()))
    );
}
