use mpz_ot::block::Block;
use mpz_ot::cipher::tccr;
use mpz_ot::kos::error::{ReceiverError, SenderError};
use mpz_ot::kos::msgs::{Check, Derandomize, Extend, SenderPayload};
use mpz_ot::kos::receiver::state::Extension as ReceiverExtension;
use mpz_ot::kos::receiver::Receiver;
use mpz_ot::kos::sender::state::Extension as SenderExtension;
use mpz_ot::kos::sender::Sender;
use mpz_ot::kos::{ReceiverConfig, SenderConfig, CSP};

fn block(seed: u64, i: u64) -> Block {
    // A fixed mixing function: the tests need distinct, reproducible blocks.
    let mut x = (seed as u128) << 64 | (i as u128 + 1);
    x = x.wrapping_mul(0x9e37_79b9_7f4a_7c15_f39c_c060_5ced_c835);
    x ^= x >> 61;
    x = x.wrapping_mul(0xd129_0d3b_4a8d_58a9_c2b2_ae3d_27d4_eb4f);
    Block(x ^ (x >> 67))
}

fn setup(commit: bool) -> (Sender<SenderExtension>, Receiver<ReceiverExtension>, Block) {
    let delta = block(1, 0);
    let mut pairs = [[Block(0); 2]; CSP];
    let mut seeds = [Block(0); CSP];
    for i in 0..CSP {
        pairs[i] = [block(2, i as u64), block(3, i as u64)];
        seeds[i] = pairs[i][delta.bit(i) as usize];
    }
    let sender = Sender::new(SenderConfig::new(commit)).base_setup(delta, seeds);
    let receiver = Receiver::new(ReceiverConfig::new(commit)).base_setup(pairs);
    (sender, receiver, delta)
}

fn extended(count: usize) -> (Sender<SenderExtension>, Receiver<ReceiverExtension>, Block) {
    let (mut sender, mut receiver, delta) = setup(false);
    let msg = receiver.extend(count).unwrap();
    sender.extend(count, msg).unwrap();
    let chi_seed = block(4, 0);
    let check = receiver.check(chi_seed).unwrap();
    sender.check(chi_seed, check).unwrap();
    (sender, receiver, delta)
}

#[test]
fn kos_derandomize_transfers_the_chosen_messages() {
    let count = 128;
    let (mut sender, mut receiver, _) = extended(count + 256);
    assert_eq!(sender.remaining(), 128);
    assert_eq!(receiver.remaining(), 128);

    // choices = 0x55...: bit j of the byte string, least significant first
    let choices: Vec<bool> = (0..count).map(|j| (0x55u8 >> (j % 8)) & 1 == 1).collect();
    let msgs: Vec<[Block; 2]> = (0..count).map(|_| [Block(0), Block(1)]).collect();

    let derandomize = receiver.derandomize(&choices).unwrap();
    let payload = sender.send(&msgs, derandomize).unwrap();
    assert_eq!(payload.ciphertexts.len(), 2 * count);
    let received = receiver.receive(payload).unwrap();

    let expected: Vec<Block> = choices.iter().map(|c| Block(*c as u128)).collect();
    assert_eq!(received, expected);
    assert_eq!(sender.remaining(), 0);
    assert_eq!(sender.counter(), 128);
    assert_eq!(receiver.remaining(), 0);
}

#[test]
fn kos_check_failure_on_tampered_t1() {
    let (mut sender, mut receiver, _) = setup(false);
    let msg = receiver.extend(384).unwrap();
    sender.extend(384, msg).unwrap();
    let chi_seed = block(9, 9);
    let mut check = receiver.check(chi_seed).unwrap();
    check.t1 = Block(check.t1.0 ^ (1 << 17));
    assert_eq!(sender.check(chi_seed, check), Err(SenderError::ConsistencyCheckFailed));
    assert_eq!(sender.remaining(), 0);

    // The sender has failed for good: it produces no payload, so that the
    // receiver gets no output, and it refuses every later operation.
    assert!(sender.is_failed());
    let refused = Err(SenderError::InvalidState("Extension".to_string()));
    let msgs = vec![[Block(0), Block(1)]];
    assert_eq!(sender.send(&msgs, Derandomize { flip: vec![0u8] }).map(|_| ()), refused);
    assert_eq!(sender.send(&[], Derandomize { flip: vec![] }).map(|_| ()), refused);
    let msg = receiver.extend(64).unwrap();
    assert_eq!(sender.extend(64, msg), refused);
    assert_eq!(sender.check(chi_seed, Check { x: Block(0), t0: Block(0), t1: Block(0) }), refused);
    assert_eq!(receiver.remaining(), 128);
}

#[test]
fn kos_failed_check_refuses_the_rows_checked_before() {
    // A check that fails in a later round also stops the OTs that passed
    // an earlier one.
    let (mut sender, mut receiver, _) = extended(320);
    assert_eq!(sender.remaining(), 64);
    let msg = receiver.extend(256).unwrap();
    sender.extend(256, msg).unwrap();
    let chi_seed = block(9, 11);
    let mut check = receiver.check(chi_seed).unwrap();
    check.t0 = Block(check.t0.0 ^ 2);
    assert_eq!(sender.check(chi_seed, check), Err(SenderError::ConsistencyCheckFailed));
    let msgs = vec![[Block(0), Block(1)]];
    assert_eq!(
        sender.send(&msgs, Derandomize { flip: vec![0u8] }).map(|_| ()),
        Err(SenderError::InvalidState("Extension".to_string()))
    );
    assert_eq!(sender.remaining(), 64);
    assert_eq!(sender.counter(), 0);
}

#[test]
fn kos_check_failure_on_tampered_t0_and_x() {
    for which in 0..2 {
        let (mut sender, mut receiver, _) = setup(false);
        let msg = receiver.extend(320).unwrap();
        sender.extend(320, msg).unwrap();
        let chi_seed = block(9, 10);
        let mut check = receiver.check(chi_seed).unwrap();
        if which == 0 {
            check.t0 = Block(check.t0.0 ^ 1);
        } else {
            check.x = Block(check.x.0 ^ (1 << 100));
        }
        assert_eq!(sender.check(chi_seed, check), Err(SenderError::ConsistencyCheckFailed));
    }
}

#[test]
fn kos_check_fails_with_another_seed() {
    let (mut sender, mut receiver, _) = setup(false);
    let msg = receiver.extend(256).unwrap();
    sender.extend(256, msg).unwrap();
    let check = receiver.check(block(5, 0)).unwrap();
    assert_eq!(sender.check(block(5, 1), check), Err(SenderError::ConsistencyCheckFailed));
}

#[test]
fn kos_extend_zero_is_a_no_op() {
    let (mut sender, mut receiver, _) = setup(false);
    let msg = receiver.extend(0).unwrap();
    assert_eq!(msg, Extend { count: 0, us: vec![] });
    assert_eq!(receiver.counter(), 0);
    sender.extend(0, msg).unwrap();

    // The generators have not moved: the next extension is the one that a
    // fresh pair makes.
    let (mut sender2, mut receiver2, _) = setup(false);
    let choices = vec![0xa5u8; 32];
    let m1 = receiver.extend_with_choices(256, &choices).unwrap();
    let m2 = receiver2.extend_with_choices(256, &choices).unwrap();
    assert_eq!(m1, m2);
    sender.extend(256, m1).unwrap();
    sender2.extend(256, m2).unwrap();
    let c1 = receiver.check(block(6, 0)).unwrap();
    let c2 = receiver2.check(block(6, 0)).unwrap();
    assert_eq!(c1, c2);
    sender.check(block(6, 0), c1).unwrap();
    sender2.check(block(6, 0), c2).unwrap();
}

#[test]
fn kos_extend_rounds_up_to_a_multiple_of_64() {
    let (mut sender, mut receiver, _) = setup(false);
    let msg = receiver.extend(257).unwrap();
    assert_eq!(msg.count, 320);
    assert_eq!(msg.us.len(), 128 * 320 / 8);
    assert_eq!(receiver.counter(), 320);
    sender.extend(257, msg).unwrap();
    let chi_seed = block(7, 0);
    let check = receiver.check(chi_seed).unwrap();
    sender.check(chi_seed, check).unwrap();
    assert_eq!(sender.remaining(), 64);
    assert_eq!(receiver.remaining(), 64);

    let (_, mut receiver, _) = setup(false);
    assert_eq!(receiver.extend(1).unwrap().count, 64);
    assert_eq!(receiver.extend(64).unwrap().count, 64);
    assert_eq!(receiver.extend(65).unwrap().count, 128);
}

#[test]
fn kos_extend_count_mismatch() {
    let (mut sender, mut receiver, _) = setup(false);
    let msg = receiver.extend(128).unwrap();
    assert_eq!(sender.extend(129, msg), Err(SenderError::CountMismatch(128, 192)));
    // a disagreement on the size is fatal
    assert!(sender.is_failed());
    let msg = receiver.extend(128).unwrap();
    assert_eq!(sender.extend(128, msg), Err(SenderError::InvalidState("Extension".to_string())));
}

#[test]
fn kos_extend_invalid_payload() {
    let (mut sender, mut receiver, _) = setup(false);
    let mut msg = receiver.extend(128).unwrap();
    msg.us.pop();
    assert_eq!(sender.extend(128, msg), Err(SenderError::InvalidPayload));
    assert!(sender.is_failed());
}

#[test]
fn kos_streaming_extend_then_one_check() {
    let (mut sender, mut receiver, _) = setup(false);
    for _ in 0..3 {
        let msg = receiver.extend(128).unwrap();
        sender.extend(128, msg).unwrap();
    }
    let chi_seed = block(8, 0);
    let check = receiver.check(chi_seed).unwrap();
    sender.check(chi_seed, check).unwrap();
    assert_eq!(sender.remaining(), 128);
    assert_eq!(receiver.remaining(), 128);
    assert_eq!(receiver.counter(), 384);

    // Random OT: with no correction the receiver gets the message of its
    // random choice.
    let n = 128;
    let choices = receiver.choices().to_vec();
    let msgs: Vec<[Block; 2]> = (0..n).map(|j| [block(30, j as u64), block(31, j as u64)]).collect();
    let flip = Derandomize { flip: vec![0u8; n / 8] };
    let payload = sender.send(&msgs, flip).unwrap();
    let received = receiver.receive(payload).unwrap();
    let expected: Vec<Block> = (0..n).map(|j| msgs[j][choices[j] as usize]).collect();
    assert_eq!(received, expected);

    // A second round of extension and check on the same session.
    let msg = receiver.extend(300).unwrap();
    sender.extend(300, msg).unwrap();
    let chi_seed = block(8, 1);
    let check = receiver.check(chi_seed).unwrap();
    sender.check(chi_seed, check).unwrap();
    assert_eq!(sender.remaining(), 64);
    assert_eq!(receiver.remaining(), 64);
    assert_eq!(receiver.counter(), 384 + 320);

    // The OTs of the second round transfer the chosen messages too: the
    // receiver's keys are made with the tweaks that the sender uses.
    let n = 64;
    let wanted: Vec<bool> = (0..n).map(|j| j % 3 == 1).collect();
    let msgs: Vec<[Block; 2]> = (0..n).map(|j| [block(32, j as u64), block(33, j as u64)]).collect();
    let d = receiver.derandomize(&wanted).unwrap();
    let payload = sender.send(&msgs, d).unwrap();
    let received = receiver.receive(payload).unwrap();
    let expected: Vec<Block> = (0..n).map(|j| msgs[j][wanted[j] as usize]).collect();
    assert_eq!(received, expected);
    assert_eq!(sender.counter(), 192);
}

#[test]
fn kos_transfers_in_many_rounds() {
    // Rounds of extension, check and transfer that leave OTs over from one
    // round to the next: each transfer gives the chosen messages.
    let (mut sender, mut receiver, _) = setup(false);
    let mut sent = 0;
    for round in 0..4u64 {
        let msg = receiver.extend(320 + 64 * round as usize).unwrap();
        sender.extend(320 + 64 * round as usize, msg).unwrap();
        let chi_seed = block(60, round);
        let check = receiver.check(chi_seed).unwrap();
        sender.check(chi_seed, check).unwrap();
        assert_eq!(sender.remaining(), receiver.remaining());
        let n = sender.remaining() - 7;
        let wanted: Vec<bool> = (0..n).map(|j| (j as u64 + round) % 5 < 2).collect();
        let msgs: Vec<[Block; 2]> =
            (0..n).map(|j| [block(61 + round, j as u64), block(71 + round, j as u64)]).collect();
        let d = receiver.derandomize(&wanted).unwrap();
        let payload = sender.send(&msgs, d).unwrap();
        let received = receiver.receive(payload).unwrap();
        let expected: Vec<Block> = (0..n).map(|j| msgs[j][wanted[j] as usize]).collect();
        assert_eq!(received, expected);
        sent += n;
        assert_eq!(sender.counter(), sent);
    }
}

#[test]
fn kos_send_errors() {
    let (mut sender, receiver, _) = extended(320);
    let msgs: Vec<[Block; 2]> = (0..65).map(|_| [Block(0), Block(1)]).collect();
    // more pairs than OTs are ready: the sender can go on
    let d = Derandomize { flip: vec![0u8; 9] };
    assert_eq!(sender.send(&msgs, d), Err(SenderError::InsufficientSetup(65, 64)));
    assert!(!sender.is_failed());
    assert_eq!(sender.remaining(), 64);
    assert_eq!(sender.counter(), 0);
    // corrections for fewer OTs than pairs: fatal
    let d = receiver.derandomize(&vec![false; 64]).unwrap();
    assert_eq!(d.flip.len(), 8);
    assert_eq!(sender.send(&msgs, d), Err(SenderError::CountMismatch(64, 65)));
    assert!(sender.is_failed());
    let d = Derandomize { flip: vec![0u8; 8] };
    assert_eq!(
        sender.send(&msgs[..64], d),
        Err(SenderError::InvalidState("Extension".to_string()))
    );
    assert_eq!(sender.remaining(), 64);
    assert_eq!(sender.counter(), 0);
}

#[test]
fn kos_receive_errors() {
    let (_, mut receiver, _) = extended(320);
    let odd = SenderPayload { ciphertexts: vec![Block(0); 3] };
    assert_eq!(receiver.receive(odd), Err(ReceiverError::InvalidPayload));
    assert!(receiver.is_failed());
    let (_, mut receiver, _) = extended(320);
    let many = SenderPayload { ciphertexts: vec![Block(0); 130] };
    assert_eq!(receiver.receive(many), Err(ReceiverError::CountMismatch(64, 65)));
    assert_eq!(receiver.remaining(), 64);

    // a receiver that has failed refuses every operation
    assert!(receiver.is_failed());
    let refused = ReceiverError::InvalidState("Extension".to_string());
    let good = SenderPayload { ciphertexts: vec![Block(0); 2] };
    assert_eq!(receiver.receive(good), Err(refused.clone()));
    assert_eq!(receiver.extend(64), Err(refused.clone()));
    assert_eq!(receiver.extend_with_choices(64, &[0u8; 8]), Err(refused.clone()));
    assert_eq!(receiver.check(Block(1)), Err(refused.clone()));
    assert_eq!(receiver.derandomize(&[true]), Err(refused));
    assert_eq!(receiver.remaining(), 64);
    assert_eq!(receiver.counter(), 320);
}

#[test]
fn kos_derandomize_packs_flips_lsb_first() {
    let (_, receiver, _) = extended(320);
    let r = receiver.choices().to_vec();
    let wanted: Vec<bool> = (0..10).map(|j| j % 3 == 0).collect();
    let d = receiver.derandomize(&wanted).unwrap();
    assert_eq!(d.flip.len(), 2);
    for j in 0..16 {
        let bit = (d.flip[j / 8] >> (j % 8)) & 1 == 1;
        assert_eq!(bit, j < 10 && (r[j] != wanted[j]));
    }
}

#[test]
fn kos_ciphertexts_are_keyed_with_tccr_of_the_counter() {
    let (mut sender, mut receiver, _) = extended(320);
    let r = receiver.choices().to_vec();
    let msgs: Vec<[Block; 2]> = (0..4).map(|j| [block(20, j), block(21, j)]).collect();
    let wanted = vec![true, false, true, true];
    let payload = sender.send(&msgs[..2], receiver.derandomize(&wanted[..2]).unwrap()).unwrap();
    let got = receiver.receive(payload).unwrap();
    assert_eq!(got, vec![msgs[0][1], msgs[1][0]]);
    // the second batch continues with the next keys and tweaks
    let r2 = receiver.choices().to_vec();
    assert_eq!(&r[2..], &r2[..]);
    let payload = sender.send(&msgs[2..], receiver.derandomize(&wanted[2..]).unwrap()).unwrap();
    let got = receiver.receive(payload).unwrap();
    assert_eq!(got, vec![msgs[2][1], msgs[3][1]]);
    assert_eq!(sender.counter(), 4);
    let _ = tccr(Block(0), Block(0));
}

#[test]
fn kos_check_message_shape() {
    let (_, mut receiver, _) = setup(false);
    receiver.extend_with_choices(256, &[0u8; 32]).unwrap();
    let check: Check = receiver.check(block(1, 1)).unwrap();
    // with all choices zero the weighted sum of choices is zero
    assert_eq!(check.x, Block(0));
}

#[test]
fn kos_choices_are_the_bits_of_the_given_bytes() {
    let (mut sender, mut receiver, _) = setup(false);
    let mut bytes = vec![0u8; 40];
    for (i, b) in bytes.iter_mut().enumerate() {
        *b = (i as u8).wrapping_mul(37).wrapping_add(5);
    }
    let msg = receiver.extend_with_choices(320, &bytes).unwrap();
    sender.extend(320, msg).unwrap();
    let chi_seed = block(40, 0);
    let check = receiver.check(chi_seed).unwrap();
    sender.check(chi_seed, check).unwrap();
    let choices = receiver.choices();
    assert_eq!(choices.len(), 64);
    for (j, c) in choices.iter().enumerate() {
        assert_eq!(*c, (bytes[j / 8] >> (j % 8)) & 1 == 1);
    }
}

#[test]
fn kos_receiver_that_commits_records_the_digest_of_the_ciphertexts() {
    let (mut sender, mut receiver, _) = setup(true);
    let msg = receiver.extend(320).unwrap();
    sender.extend(320, msg).unwrap();
    let chi_seed = block(41, 0);
    let check = receiver.check(chi_seed).unwrap();
    sender.check(chi_seed, check).unwrap();
    assert_eq!(receiver.tape_digests().len(), 0);

    let msgs: Vec<[Block; 2]> = (0..3).map(|j| [block(50, j), block(51, j)]).collect();
    let d = receiver.derandomize(&[false, true, false]).unwrap();
    let payload = sender.send(&msgs, d).unwrap();
    let mut bytes = Vec::new();
    for ct in &payload.ciphertexts {
        bytes.extend_from_slice(&ct.to_bytes());
    }
    receiver.receive(payload).unwrap();
    let expected: [u8; 32] = blake3::hash(&bytes).into();
    assert_eq!(receiver.tape_digests(), &[expected]);

    // a receiver that does not commit records nothing
    let (mut sender, mut receiver, _) = extended(320);
    let d = receiver.derandomize(&[false, true, false]).unwrap();
    let payload = sender.send(&msgs, d).unwrap();
    receiver.receive(payload).unwrap();
    assert_eq!(receiver.tape_digests().len(), 0);
}

#[test]
fn kos_extension_is_correlated() {
    // q_j = t_j ^ r_j * delta: with the receiver's key k_j = tccr(j, t_j),
    // the key is the sender's k0 where r_j is clear and k1 where it is set.
    let (mut sender, mut receiver, delta) = extended(320);
    let n = 64;
    let r = receiver.choices().to_vec();
    let zero: Vec<[Block; 2]> = vec![[Block(0), Block(0)]; n];
    let payload = sender.send(&zero, Derandomize { flip: vec![0; 8] }).unwrap();
    // with zero messages and no correction the ciphertexts are the keys
    let keys = payload.ciphertexts.clone();
    let got = receiver.receive(payload).unwrap();
    assert_eq!(got, vec![Block(0); n]);
    assert!(r.iter().any(|c| *c) && r.iter().any(|c| !*c));
    for j in 0..n {
        assert_ne!(keys[2 * j], keys[2 * j + 1]);
    }
    let _ = delta;
}
