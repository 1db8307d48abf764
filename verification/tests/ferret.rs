use mpz_ot::block::Block;
use mpz_ot::ferret::error::{ErrorKind, ReceiverError, SenderError};
use mpz_ot::ferret::lpn::{LpnParameters, LpnType};
use mpz_ot::ferret::mpcot::error::{
    ReceiverError as MpcotReceiverError, ReceiverRegularError, SenderError as MpcotSenderError,
    SenderRegularError,
};
use mpz_ot::ferret::mpcot::receiver::Receiver as MpcotReceiver;
use mpz_ot::ferret::mpcot::sender::Sender as MpcotSender;
use mpz_ot::ferret::mpcot::receiver_regular::ReceiverRegular;
use mpz_ot::ferret::mpcot::sender_regular::SenderRegular;
use mpz_ot::ferret::receiver::Receiver;
use mpz_ot::ferret::sender::{MpcotKind, Sender};
use mpz_ot::ferret::spcot::sender::CSP;
use mpz_ot::prg::Prg;
use mpz_ot::rcot::{match_ids, RCOTReceiverOutput, RCOTSenderOutput, TransferId};

/// An ideal random correlated OT with a fixed delta.
struct Ideal {
    delta: Block,
    prg: Prg,
}

impl Ideal {
    fn new(seed: u8) -> Self {
        let mut prg = Prg::from_seed([seed; 32]);
        let delta = prg.random_block();
        Ideal { delta, prg }
    }

    fn random_correlated(&mut self, n: usize) -> (Vec<Block>, Vec<bool>, Vec<Block>) {
        let qs = self.prg.random_blocks(n);
        let rs: Vec<bool> = self.prg.fill_bytes(n).iter().map(|b| b & 1 == 1).collect();
        let ts = qs
            .iter()
            .zip(rs.iter())
            .map(|(q, r)| if *r { q.xor(self.delta) } else { *q })
            .collect();
        (qs, rs, ts)
    }
}

fn assert_cot(delta: Block, choices: &[bool], msgs: &[Block], received: &[Block]) {
    assert_eq!(choices.len(), msgs.len());
    assert_eq!(choices.len(), received.len());
    for i in 0..choices.len() {
        let expected = if choices[i] { msgs[i].xor(delta) } else { msgs[i] };
        assert_eq!(received[i], expected);
    }
}

/// Runs one multi-point query of the two MPCOT roles against each other.
fn mpcot_query(
    cot: &mut Ideal,
    sender: &mut SenderRegular,
    receiver: &mut ReceiverRegular,
    alphas: &[u32],
    n: u32,
) -> (Vec<Block>, Vec<Block>) {
    let hs = sender.pre_extend(alphas.len() as u32, n).unwrap();
    let h_and_pos = receiver.pre_extend(alphas, n).unwrap();
    let pos: Vec<u32> = h_and_pos.iter().map(|(_, p)| *p).collect();
    assert_eq!(hs, h_and_pos.iter().map(|(h, _)| *h).collect::<Vec<_>>());

    let (qs, rs, ts) = cot.random_correlated(hs.iter().sum());
    let masks = receiver.spcot_mut().extend_mask_bits(&hs, &pos, &rs).unwrap();
    let fs = sender.spcot_mut().extend(&hs, &qs, &masks).unwrap();
    receiver.spcot_mut().extend(&hs, &pos, &ts, &fs).unwrap();

    let (y_star, x_star, z_star) = cot.random_correlated(CSP);
    let fr = receiver.spcot_mut().check_pre(&x_star).unwrap();
    let (st, check) = sender.spcot_mut().check(&y_star, fr).unwrap();
    let rt = receiver.spcot_mut().check(&z_star, check).unwrap();
    let rt: Vec<Vec<Block>> = rt.into_iter().map(|(elem, _)| elem).collect();

    (sender.extend(&st).unwrap(), receiver.extend(&rt).unwrap())
}

#[test]
fn test_general_mpcot() {
    let mut cot = Ideal::new(11);
    let delta = cot.delta;
    let mut sender = SenderRegular::new();
    let mut receiver = ReceiverRegular::new();

    let alphas = [0, 3, 4, 7, 9];
    let n = 10;

    sender.setup_with_delta(delta, Block(1)).unwrap();
    receiver.setup().unwrap();

    let (mut output_sender, output_receiver) =
        mpcot_query(&mut cot, &mut sender, &mut receiver, &alphas, n);

    for i in alphas {
        output_sender[i as usize] = output_sender[i as usize].xor(delta);
    }

    assert_eq!(output_sender, output_receiver);

    sender.finalize().unwrap();
    receiver.finalize().unwrap();
}

#[test]
fn mpcot_regular_offsets_exactly_at_the_positions() {
    let mut cot = Ideal::new(12);
    let delta = cot.delta;
    let mut sender = SenderRegular::new();
    let mut receiver = ReceiverRegular::new();
    sender.setup_with_delta(delta, Block(2)).unwrap();
    receiver.setup().unwrap();
    let alphas = [0u32, 3, 4, 7, 9];
    let (s, r) = mpcot_query(&mut cot, &mut sender, &mut receiver, &alphas, 10);
    assert_eq!(s.len(), 10);
    assert_eq!(r.len(), 10);
    for i in 0..10u32 {
        if alphas.contains(&i) {
            assert_eq!(r[i as usize], s[i as usize].xor(delta));
        } else {
            assert_eq!(r[i as usize], s[i as usize]);
        }
    }
    // a second query on the same roles, with buckets that are not a power of two
    let alphas = [2u32, 5, 6];
    let (s, r) = mpcot_query(&mut cot, &mut sender, &mut receiver, &alphas, 9);
    assert_eq!(s.len(), 9);
    for i in 0..9u32 {
        let expected = if alphas.contains(&i) { s[i as usize].xor(delta) } else { s[i as usize] };
        assert_eq!(r[i as usize], expected);
    }
}

#[test]
fn mpcot_regular_depths_and_offsets() {
    let mut sender = SenderRegular::new();
    sender.setup_with_delta(Block(1), Block(2)).unwrap();
    assert_eq!(sender.pre_extend(5, 10).unwrap(), vec![1; 5]);
    let mut sender = SenderRegular::new();
    sender.setup_with_delta(Block(1), Block(2)).unwrap();
    assert_eq!(sender.pre_extend(600, 9600).unwrap(), vec![4; 600]);
    let mut sender = SenderRegular::new();
    sender.setup_with_delta(Block(1), Block(2)).unwrap();
    assert_eq!(sender.pre_extend(3, 9).unwrap(), vec![2; 3]);
    let mut sender = SenderRegular::new();
    sender.setup_with_delta(Block(1), Block(2)).unwrap();
    assert_eq!(sender.pre_extend(4, 4).unwrap(), vec![0; 4]);
    let mut sender = SenderRegular::new();
    sender.setup_with_delta(Block(1), Block(2)).unwrap();
    assert_eq!(sender.pre_extend(2, 34).unwrap(), vec![5; 2]);

    let mut receiver = ReceiverRegular::new();
    receiver.setup().unwrap();
    assert_eq!(
        receiver.pre_extend(&[0, 3, 4, 7, 9], 10).unwrap(),
        vec![(1, 0), (1, 1), (1, 0), (1, 1), (1, 1)]
    );
}

#[test]
fn mpcot_regular_rejects_buckets_of_unequal_size() {
    let mut sender = SenderRegular::new();
    sender.setup_with_delta(Block(1), Block(2)).unwrap();
    assert_eq!(
        sender.pre_extend(3, 10),
        Err(SenderRegularError::CoreError(ErrorKind::InvalidParameters))
    );
    // the error is latched
    assert_eq!(
        sender.pre_extend(5, 10),
        Err(SenderRegularError::StateError("Extension".to_string()))
    );

    let mut receiver = ReceiverRegular::new();
    receiver.setup().unwrap();
    assert_eq!(
        receiver.pre_extend(&[0, 4, 8], 10),
        Err(ReceiverRegularError::CoreError(ErrorKind::InvalidParameters))
    );
    let mut sender = SenderRegular::new();
    sender.setup_with_delta(Block(1), Block(2)).unwrap();
    assert_eq!(
        sender.pre_extend(0, 10),
        Err(SenderRegularError::CoreError(ErrorKind::InvalidParameters))
    );
}

#[test]
fn mpcot_regular_rejects_a_position_outside_its_bucket() {
    let mut receiver = ReceiverRegular::new();
    receiver.setup().unwrap();
    // two positions in the first bucket
    assert_eq!(
        receiver.pre_extend(&[0, 1, 3, 4, 2], 10),
        Err(ReceiverRegularError::CoreError(ErrorKind::InvalidParameters))
    );
}

#[test]
fn mpcot_extend_needs_a_query_and_the_right_trees() {
    let mut sender = SenderRegular::new();
    sender.setup_with_delta(Block(1), Block(2)).unwrap();
    assert_eq!(
        sender.extend(&[]),
        Err(SenderRegularError::StateError("PreExtension".to_string()))
    );
    let mut sender = SenderRegular::new();
    sender.setup_with_delta(Block(1), Block(2)).unwrap();
    sender.pre_extend(2, 4).unwrap();
    assert_eq!(
        sender.extend(&[vec![Block(0); 2]]),
        Err(SenderRegularError::CoreError(ErrorKind::CountMismatch(2, 1)))
    );
    let mut sender = SenderRegular::new();
    sender.setup_with_delta(Block(1), Block(2)).unwrap();
    sender.pre_extend(2, 4).unwrap();
    assert_eq!(
        sender.extend(&[vec![Block(0); 2], vec![Block(0); 4]]),
        Err(SenderRegularError::CoreError(ErrorKind::InvalidPayload))
    );
    let mut sender = SenderRegular::new();
    sender.setup_with_delta(Block(1), Block(2)).unwrap();
    sender.pre_extend(2, 6).unwrap();
    let trees = [
        vec![Block(1), Block(2), Block(3), Block(4)],
        vec![Block(5), Block(6), Block(7), Block(8)],
    ];
    assert_eq!(
        sender.extend(&trees).unwrap(),
        vec![Block(1), Block(2), Block(3), Block(5), Block(6), Block(7)]
    );
}

/// Runs one multi-point query of the two MPCOT roles for positions spread
/// anywhere against each other.
fn uniform_query(
    cot: &mut Ideal,
    sender: &mut MpcotSender,
    receiver: &mut MpcotReceiver,
    alphas: &[u32],
    n: u32,
) -> (Vec<Block>, Vec<Block>) {
    let hs = sender.pre_extend(alphas.len() as u32, n).unwrap();
    let h_and_pos = receiver.pre_extend(alphas, n).unwrap();
    let pos: Vec<u32> = h_and_pos.iter().map(|(_, p)| *p).collect();
    assert_eq!(hs, h_and_pos.iter().map(|(h, _)| *h).collect::<Vec<_>>());
    assert_eq!(hs.len(), (3 * alphas.len() + 1) / 2);

    let (qs, rs, ts) = cot.random_correlated(hs.iter().sum());
    let masks = receiver.spcot_mut().extend_mask_bits(&hs, &pos, &rs).unwrap();
    let fs = sender.spcot_mut().extend(&hs, &qs, &masks).unwrap();
    receiver.spcot_mut().extend(&hs, &pos, &ts, &fs).unwrap();

    let (y_star, x_star, z_star) = cot.random_correlated(CSP);
    let fr = receiver.spcot_mut().check_pre(&x_star).unwrap();
    let (st, check) = sender.spcot_mut().check(&y_star, fr).unwrap();
    let rt = receiver.spcot_mut().check(&z_star, check).unwrap();
    let rt: Vec<Vec<Block>> = rt.into_iter().map(|(elem, _)| elem).collect();

    (sender.extend(&st).unwrap(), receiver.extend(&rt).unwrap())
}

fn uniform_setup(cot: &Ideal, hash_seed: u128) -> (MpcotSender, MpcotReceiver) {
    let mut sender = MpcotSender::new();
    let mut receiver = MpcotReceiver::new();
    let seed = receiver.setup(Block(hash_seed)).unwrap();
    sender.setup_with_delta(cot.delta, Block(1), seed).unwrap();
    (sender, receiver)
}

#[test]
fn test_regular_mpcot() {
    let mut cot = Ideal::new(13);
    let delta = cot.delta;
    let (mut sender, mut receiver) = uniform_setup(&cot, 0xabcd);

    let alphas = [0, 1, 3, 4, 2];
    let n = 10;

    let (mut output_sender, output_receiver) =
        uniform_query(&mut cot, &mut sender, &mut receiver, &alphas, n);

    for i in alphas {
        output_sender[i as usize] = output_sender[i as usize].xor(delta);
    }

    assert_eq!(output_sender, output_receiver);

    sender.finalize().unwrap();
    receiver.finalize().unwrap();
}

#[test]
fn mpcot_uniform_offsets_exactly_at_the_positions() {
    let mut cot = Ideal::new(14);
    let delta = cot.delta;
    for (round, hash_seed) in [7u128, 8, 9].into_iter().enumerate() {
        let (mut sender, mut receiver) = uniform_setup(&cot, hash_seed);
        let n = 500u32;
        let alphas: Vec<u32> = (0..40u32).map(|j| (j * 37 + 11 * round as u32) % n).collect();
        let (s, r) = uniform_query(&mut cot, &mut sender, &mut receiver, &alphas, n);
        assert_eq!(s.len(), n as usize);
        assert_eq!(r.len(), n as usize);
        for i in 0..n {
            let expected =
                if alphas.contains(&i) { s[i as usize].xor(delta) } else { s[i as usize] };
            assert_eq!(r[i as usize], expected);
        }
        // a second query on the same roles
        let alphas = [499u32, 0, 250];
        let (s, r) = uniform_query(&mut cot, &mut sender, &mut receiver, &alphas, n);
        for i in 0..n {
            let expected =
                if alphas.contains(&i) { s[i as usize].xor(delta) } else { s[i as usize] };
            assert_eq!(r[i as usize], expected);
        }
    }
}

#[test]
fn mpcot_uniform_errors() {
    let cot = Ideal::new(15);
    let (mut sender, mut receiver) = uniform_setup(&cot, 3);
    // more positions than indices
    assert_eq!(
        sender.pre_extend(11, 10),
        Err(MpcotSenderError::CoreError(ErrorKind::InvalidParameters))
    );
    assert_eq!(
        sender.pre_extend(5, 10),
        Err(MpcotSenderError::StateError("Extension".to_string()))
    );
    // a position that is no index
    assert_eq!(
        receiver.pre_extend(&[1, 10], 10),
        Err(MpcotReceiverError::CoreError(ErrorKind::InvalidParameters))
    );
    // the same position twice finds no place of its own
    let (_, mut receiver) = uniform_setup(&cot, 3);
    assert_eq!(
        receiver.pre_extend(&[4, 4], 10),
        Err(MpcotReceiverError::CoreError(ErrorKind::InvalidParameters))
    );
    let (mut sender, _) = uniform_setup(&cot, 3);
    assert_eq!(
        sender.extend(&[]),
        Err(MpcotSenderError::StateError("PreExtension".to_string()))
    );
    let (mut sender, _) = uniform_setup(&cot, 3);
    let hs = sender.pre_extend(2, 10).unwrap();
    assert_eq!(hs.len(), 3);
    assert_eq!(
        sender.extend(&[vec![Block(0); 4]]),
        Err(MpcotSenderError::CoreError(ErrorKind::CountMismatch(3, 1)))
    );
    let (mut sender, _) = uniform_setup(&cot, 3);
    sender.pre_extend(2, 10).unwrap();
    assert_eq!(
        sender.extend(&[vec![Block(0); 1], vec![Block(0); 1], vec![Block(0); 1]]),
        Err(MpcotSenderError::CoreError(ErrorKind::InvalidPayload))
    );
}

const LPN_PARAMETERS_TEST: LpnParameters = LpnParameters { n: 9600, k: 1220, t: 600 };

fn ferret_setup_with(
    cot: &mut Ideal,
    params: LpnParameters,
    lpn_type: LpnType,
) -> (Sender, Receiver) {
    let mut sender = Sender::new();
    let mut receiver = Receiver::new();
    let (v, u, w) = cot.random_correlated(params.k);
    let (seed, hash_seed) = receiver
        .setup_with_parameters(params, lpn_type, Block(0x5eed), Block(0xcafe), &u, &w)
        .unwrap();
    assert_eq!(hash_seed.is_some(), lpn_type == LpnType::Uniform);
    sender
        .setup_with_parameters(cot.delta, params, lpn_type, Block(3), hash_seed, seed, &v)
        .unwrap();
    (sender, receiver)
}

fn ferret_setup(cot: &mut Ideal, params: LpnParameters) -> (Sender, Receiver) {
    ferret_setup_with(cot, params, LpnType::Regular)
}

/// Runs one iteration of the two Ferret roles against each other.
fn ferret_iteration(cot: &mut Ideal, sender: &mut Sender, receiver: &mut Receiver) {
    let (t, n) = sender.get_mpcot_query().unwrap();
    let (alphas, n_r) = receiver.get_mpcot_query().unwrap();
    assert_eq!(t as usize, alphas.len());
    assert_eq!(n, n_r);
    assert_eq!(sender.mpcot_kind(), receiver.mpcot_kind());
    let (s, r) = match sender.mpcot_kind() {
        MpcotKind::Uniform => uniform_query(
            cot,
            sender.mpcot_uniform_mut(),
            receiver.mpcot_uniform_mut(),
            &alphas,
            n,
        ),
        _ => mpcot_query(cot, sender.mpcot_mut(), receiver.mpcot_mut(), &alphas, n),
    };
    sender.extend_buffered(&s).unwrap();
    receiver.extend_buffered(&r).unwrap();
}

/// What `send_random_correlated` and `receive_random_correlated` do
/// together with the transport: iterate until enough OTs are at hand, then
/// hand them out. Gives the number of iterations.
fn transfer(
    cot: &mut Ideal,
    sender: &mut Sender,
    receiver: &mut Receiver,
    count: usize,
) -> (RCOTSenderOutput, RCOTReceiverOutput, usize) {
    let mut iterations = 0;
    while sender.needs_extension(count) {
        assert!(receiver.needs_extension(count));
        ferret_iteration(cot, sender, receiver);
        iterations += 1;
    }
    assert!(!receiver.needs_extension(count));
    (
        sender.send_random_correlated(count).unwrap(),
        receiver.receive_random_correlated(count).unwrap(),
        iterations,
    )
}

#[test]
fn test_ferret() {
    let mut cot = Ideal::new(21);
    let delta = cot.delta;
    let (mut sender, mut receiver) = ferret_setup(&mut cot, LPN_PARAMETERS_TEST);

    // extend once.
    let count = 8000;
    let (
        RCOTSenderOutput { id: sender_id, msgs: u },
        RCOTReceiverOutput { id: receiver_id, choices: b, msgs: w },
        _,
    ) = transfer(&mut cot, &mut sender, &mut receiver, count);

    assert_eq!(sender_id, receiver_id);
    assert_eq!(u.len(), count);
    assert_cot(delta, &b, &u, &w);

    // extend twice
    let count = 9000;
    let (
        RCOTSenderOutput { id: sender_id, msgs: u },
        RCOTReceiverOutput { id: receiver_id, choices: b, msgs: w },
        _,
    ) = transfer(&mut cot, &mut sender, &mut receiver, count);

    assert_eq!(sender_id, receiver_id);
    assert_eq!(u.len(), count);
    assert_cot(delta, &b, &u, &w);

    sender.finalize().unwrap();
    receiver.finalize().unwrap();
}

#[test]
fn ferret_streaming_iterations_and_leftover() {
    let params = LpnParameters { n: 160, k: 40, t: 10 };
    let l = 120;
    let mut cot = Ideal::new(22);
    let delta = cot.delta;
    let (mut sender, mut receiver) = ferret_setup(&mut cot, params);

    // count > l: ceil(count / l) iterations
    let (s, r, iterations) = transfer(&mut cot, &mut sender, &mut receiver, 250);
    assert_eq!(iterations, 3);
    assert_eq!(s.id, r.id);
    assert_eq!(s.id.0, 0);
    assert_cot(delta, &r.choices, &s.msgs, &r.msgs);
    assert!(r.choices.iter().any(|c| *c) && r.choices.iter().any(|c| !*c));

    // 3 * 120 - 250 = 110 are left: the next 100 need no iteration
    let (s, r, iterations) = transfer(&mut cot, &mut sender, &mut receiver, 100);
    assert_eq!(iterations, 0);
    assert_eq!((s.id.0, r.id.0), (1, 1));
    assert_cot(delta, &r.choices, &s.msgs, &r.msgs);

    // 10 are left: 130 more need one iteration, and leave none
    let (s, r, iterations) = transfer(&mut cot, &mut sender, &mut receiver, 130);
    assert_eq!(iterations, 1);
    assert_eq!((s.id.0, r.id.0), (2, 2));
    assert_cot(delta, &r.choices, &s.msgs, &r.msgs);
    assert!(sender.needs_extension(1));

    // an exact multiple of l
    let (_, _, iterations) = transfer(&mut cot, &mut sender, &mut receiver, 240);
    assert_eq!(iterations, 2);

    // asking for more than is at hand changes nothing
    assert_eq!(
        sender.send_random_correlated(1),
        Err(SenderError::CoreError(ErrorKind::InsufficientSetup(1, 0)))
    );
    assert_eq!(
        receiver.receive_random_correlated(5),
        Err(ReceiverError::CoreError(ErrorKind::InsufficientSetup(5, 0)))
    );
    let (s, r, iterations) = transfer(&mut cot, &mut sender, &mut receiver, 5);
    assert_eq!(iterations, 1);
    assert_cot(delta, &r.choices, &s.msgs, &r.msgs);
}

#[test]
fn transfer_ids_must_match() {
    assert_eq!(match_ids(TransferId(3), TransferId(3)), Ok(()));
    assert_eq!(match_ids(TransferId(3), TransferId(4)), Err(ErrorKind::IdMismatch));
    let params = LpnParameters { n: 160, k: 40, t: 10 };
    let mut cot = Ideal::new(28);
    let (mut sender, mut receiver) = ferret_setup(&mut cot, params);
    let (s, _, _) = transfer(&mut cot, &mut sender, &mut receiver, 10);
    let (_, r, _) = transfer(&mut cot, &mut sender, &mut receiver, 10);
    assert_eq!(match_ids(s.id, r.id), Err(ErrorKind::IdMismatch));
}

#[test]
fn ferret_setup_errors() {
    let mut cot = Ideal::new(23);
    let good = LpnParameters { n: 160, k: 40, t: 10 };
    let (v, u, w) = cot.random_correlated(40);

    // t does not divide n
    let mut sender = Sender::new();
    let bad = LpnParameters { n: 160, k: 40, t: 9 };
    assert_eq!(
        sender.setup_with_parameters(
            cot.delta,
            bad,
            LpnType::Regular,
            Block(1),
            None,
            mpz_ot::ferret::msgs::LpnSeed { seed: Block(2) },
            &v
        ),
        Err(SenderError::CoreError(ErrorKind::InvalidParameters))
    );
    // latched
    assert_eq!(
        sender.get_mpcot_query(),
        Err(SenderError::StateError("Extension".to_string()))
    );

    // k > n
    let mut receiver = Receiver::new();
    let bad = LpnParameters { n: 30, k: 40, t: 10 };
    assert_eq!(
        receiver.setup_with_parameters(bad, LpnType::Regular, Block(1), Block(9), &u, &w),
        Err(ReceiverError::CoreError(ErrorKind::InvalidParameters))
    );

    // wrong number of base OTs
    let mut receiver = Receiver::new();
    assert_eq!(
        receiver.setup_with_parameters(good, LpnType::Regular, Block(1), Block(9), &u[..39], &w[..39]),
        Err(ReceiverError::CoreError(ErrorKind::CountMismatch(40, 39)))
    );

    // set up twice
    let mut receiver = Receiver::new();
    receiver.setup_with_parameters(good, LpnType::Regular, Block(1), Block(9), &u, &w).unwrap();
    assert_eq!(
        receiver.setup_with_parameters(good, LpnType::Regular, Block(1), Block(9), &u, &w),
        Err(ReceiverError::StateError("Initialized".to_string()))
    );
}

#[test]
fn ferret_noisy_positions_are_one_per_bucket() {
    let mut cot = Ideal::new(24);
    let params = LpnParameters { n: 160, k: 40, t: 10 };
    let (_, mut receiver) = ferret_setup(&mut cot, params);
    let (alphas, n) = receiver.get_mpcot_query().unwrap();
    assert_eq!(n, 160);
    assert_eq!(alphas.len(), 10);
    for (j, a) in alphas.iter().enumerate() {
        assert_eq!(*a as usize / 16, j);
    }
    // the positions are a function of the seed: the same seed gives them again
    let mut cot = Ideal::new(25);
    let (_, mut receiver2) = ferret_setup(&mut cot, params);
    assert_eq!(receiver2.get_mpcot_query().unwrap().0, alphas);
}

#[test]
fn ferret_with_positions_spread_anywhere() {
    let params = LpnParameters { n: 600, k: 100, t: 37 };
    let mut cot = Ideal::new(26);
    let delta = cot.delta;
    let (mut sender, mut receiver) = ferret_setup_with(&mut cot, params, LpnType::Uniform);
    assert_eq!(sender.mpcot_kind(), MpcotKind::Uniform);

    // the noisy positions are distinct indices
    let (alphas, n) = receiver.get_mpcot_query().unwrap();
    assert_eq!(n, 600);
    assert_eq!(alphas.len(), 37);
    let mut sorted = alphas.clone();
    sorted.sort();
    sorted.dedup();
    assert_eq!(sorted.len(), 37);
    assert!(alphas.iter().all(|a| *a < 600));

    let (mut sender, mut receiver) = ferret_setup_with(&mut cot, params, LpnType::Uniform);
    let (s, r, iterations) = transfer(&mut cot, &mut sender, &mut receiver, 1200);
    assert_eq!(iterations, 3);
    assert_eq!(s.id, r.id);
    assert_cot(delta, &r.choices, &s.msgs, &r.msgs);
    let (s, r, iterations) = transfer(&mut cot, &mut sender, &mut receiver, 300);
    assert_eq!(iterations, 0);
    assert_cot(delta, &r.choices, &s.msgs, &r.msgs);
    sender.finalize().unwrap();
    receiver.finalize().unwrap();

    // the sender needs the seed of the hash functions
    let mut sender = Sender::new();
    let (v, _, _) = cot.random_correlated(params.k);
    assert_eq!(
        sender.setup_with_parameters(
            delta,
            params,
            LpnType::Uniform,
            Block(1),
            None,
            mpz_ot::ferret::msgs::LpnSeed { seed: Block(2) },
            &v
        ),
        Err(SenderError::CoreError(ErrorKind::InvalidPayload))
    );
}

#[test]
fn ferret_roles_fail_after_abort_and_hand_on_the_errors_of_their_parts() {
    let params = LpnParameters { n: 160, k: 40, t: 10 };
    let mut cot = Ideal::new(27);
    let (mut sender, mut receiver) = ferret_setup(&mut cot, params);
    sender.abort();
    assert_eq!(sender.get_mpcot_query(), Err(SenderError::StateError("Extension".to_string())));
    assert_eq!(
        sender.mpcot_mut().pre_extend(10, 160),
        Err(SenderRegularError::StateError("Extension".to_string()))
    );
    // the MPCOT receiver has failed: the role cannot complete it
    receiver.mpcot_mut().abort();
    assert!(matches!(
        receiver.finalize(),
        Err(ReceiverError::MPCOTReceiverRegularError(ReceiverRegularError::StateError(_)))
    ));

    // a role whose MPCOT part was used before the setup cannot be set up
    let mut sender = Sender::new();
    sender.mpcot_mut().abort();
    let (v, _, _) = cot.random_correlated(params.k);
    assert!(matches!(
        sender.setup_with_parameters(
            cot.delta,
            params,
            LpnType::Regular,
            Block(1),
            None,
            mpz_ot::ferret::msgs::LpnSeed { seed: Block(2) },
            &v
        ),
        Err(SenderError::MPCOTSenderRegularError(SenderRegularError::StateError(_)))
    ));

    // the SPCOT part of an MPCOT role has failed: the role cannot complete it
    let mut mpcot = SenderRegular::new();
    mpcot.setup_with_delta(Block(1), Block(2)).unwrap();
    mpcot.spcot_mut().abort();
    assert!(matches!(mpcot.finalize(), Err(SenderRegularError::SPCOTSenderError(_))));
}

#[test]
fn ferret_finalize_needs_a_role_that_performs_extensions() {
    let params = LpnParameters { n: 160, k: 40, t: 10 };
    let mut cot = Ideal::new(28);
    let refused_s = Err(SenderError::StateError("Extension".to_string()));
    let refused_r = Err(ReceiverError::StateError("Extension".to_string()));

    // a role that has failed stays failed: it is not completed
    let (mut sender, mut receiver) = ferret_setup(&mut cot, params);
    sender.abort();
    receiver.abort();
    assert_eq!(sender.finalize(), refused_s);
    assert_eq!(receiver.finalize(), refused_r);
    assert_eq!(sender.counter(), None);
    assert_eq!(receiver.counter(), None);
    assert_eq!(sender.get_mpcot_query(), Err(SenderError::StateError("Extension".to_string())));
    assert_eq!(sender.finalize(), refused_s);
    assert_eq!(receiver.finalize(), refused_r);

    // a role that was not set up cannot be completed, and has failed
    let mut sender = Sender::new();
    let mut receiver = Receiver::new();
    assert_eq!(sender.finalize(), refused_s);
    assert_eq!(receiver.finalize(), refused_r);
    let (v, u, w) = cot.random_correlated(params.k);
    assert_eq!(
        receiver
            .setup_with_parameters(params, LpnType::Regular, Block(1), Block(2), &u, &w)
            .map(|_| ()),
        Err(ReceiverError::StateError("Initialized".to_string()))
    );
    assert_eq!(
        sender.setup_with_parameters(
            cot.delta,
            params,
            LpnType::Regular,
            Block(3),
            None,
            mpz_ot::ferret::msgs::LpnSeed { seed: Block(4) },
            &v
        ),
        Err(SenderError::StateError("Initialized".to_string()))
    );

    // a role that performs extensions is completed, once
    let (mut sender, mut receiver) = ferret_setup(&mut cot, params);
    assert_eq!(sender.finalize(), Ok(()));
    assert_eq!(receiver.finalize(), Ok(()));
    assert_eq!(sender.finalize(), refused_s);
    assert_eq!(receiver.finalize(), refused_r);
}

#[test]
fn ferret_roles_test_their_state_before_the_setup() {
    let params = LpnParameters { n: 160, k: 40, t: 10 };
    let mut cot = Ideal::new(29);
    let mut sender = Sender::new();
    let mut receiver = Receiver::new();
    assert_eq!(sender.expect_initialized(), Ok(()));
    assert_eq!(receiver.expect_initialized(), Ok(()));
    // the test changes nothing: the setup goes through
    let (v, u, w) = cot.random_correlated(params.k);
    let (seed, _) = receiver
        .setup_with_parameters(params, LpnType::Regular, Block(1), Block(2), &u, &w)
        .unwrap();
    sender
        .setup_with_parameters(cot.delta, params, LpnType::Regular, Block(3), None, seed, &v)
        .unwrap();
    // a role that is set up does not await its setup: it has failed
    assert_eq!(
        sender.expect_initialized(),
        Err(SenderError::StateError("Initialized".to_string()))
    );
    assert_eq!(
        receiver.expect_initialized(),
        Err(ReceiverError::StateError("Initialized".to_string()))
    );
    assert_eq!(sender.get_mpcot_query(), Err(SenderError::StateError("Extension".to_string())));
    assert_eq!(
        receiver.get_mpcot_query().map(|_| ()),
        Err(ReceiverError::StateError("Extension".to_string()))
    );

    let mut mpcot = MpcotSender::new();
    assert_eq!(mpcot.expect_initialized(), Ok(()));
    mpcot.abort();
    assert_eq!(
        mpcot.expect_initialized(),
        Err(MpcotSenderError::StateError("Initialized".to_string()))
    );
}
