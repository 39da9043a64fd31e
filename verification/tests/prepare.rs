use melwalletd::coins::{CoinData, CoinDataHeight, Denom, Tx, TxKind};
use melwalletd::database::{Database, Wallet};
use melwalletd::hashes::{Address, CoinId, TxHash};
use melwalletd::prepare::{
    apply_policy, build_unsigned, gen_transaction, is_well_formed, prepare_job, sign_all,
    Candidate, PrepareError, PrepareJob, SigningPolicy, MAX_COINVAL,
};
use melwalletd::signer::{Ed25519SK, Signer};

const MEL: u128 = 1_000_000;

fn prepare_policy() -> SigningPolicy {
    SigningPolicy { kind: None, data: None, covenants: vec![] }
}

fn prepare_wallet(db: &mut Database, sk: &Ed25519SK) -> Wallet {
    db.create_wallet("alice", sk.covenant()).unwrap();
    db.get_wallet("alice").unwrap()
}

fn prepare_fund(db: &mut Database, wallet: &Wallet, coins: &[(u8, u128, Denom)]) {
    let reported: Vec<(CoinId, CoinDataHeight)> = coins
        .iter()
        .map(|(seed, value, denom)| {
            (
                CoinId::new(TxHash([*seed; 32]), 0),
                CoinDataHeight {
                    coin_data: CoinData {
                        covhash: wallet.address(),
                        value: *value,
                        denom: *denom,
                        additional_data: vec![],
                    },
                    height: 5,
                },
            )
        })
        .collect();
    wallet.full_sync(db, &reported, 10);
}

fn prepare_pay(value: u128, denom: Denom) -> CoinData {
    CoinData { covhash: Address([0xee; 32]), value, denom, additional_data: vec![] }
}

fn prepare_job_with(
    wallet: &Wallet,
    unspent: Vec<(CoinId, CoinData)>,
    outputs: Vec<CoinData>,
    nobalance: Vec<Denom>,
) -> PrepareJob {
    let mut nobalance = nobalance;
    nobalance.push(Denom::NewCustom);
    PrepareJob {
        address: wallet.address(),
        covenant: wallet.covenant(),
        mandatory: vec![],
        unspent,
        outputs,
        fee_multiplier: 1000,
        nobalance,
        fee_ballast: 0,
    }
}

fn prepare_sum(tx: &Tx, denom: Denom) -> u128 {
    tx.outputs.iter().filter(|o| o.denom == denom).map(|o| o.value).sum()
}

#[test]
fn fee_search_converges() {
    let sk = Ed25519SK::generate().unwrap();
    let mut db = Database::open();
    let wallet = prepare_wallet(&mut db, &sk);
    prepare_fund(&mut db, &wallet, &[(1, 100 * MEL, Denom::Mel)]);
    let tx = wallet
        .prepare(
            &db,
            &vec![],
            vec![prepare_pay(10 * MEL, Denom::Mel)],
            1000,
            &prepare_policy(),
            &mut sk.signer(),
            vec![],
            0,
            &vec![],
        )
        .unwrap();
    let base_fee = tx.base_fee(1000, 0);
    assert!(base_fee > 0);
    assert!(tx.fee <= base_fee * 21 / 20);
    assert!(tx.fee > 0);
    assert_eq!(tx.kind, TxKind::Normal);
    assert_eq!(tx.inputs, vec![CoinId::new(TxHash([1; 32]), 0)]);
    assert_eq!(tx.covenants, vec![wallet.covenant()]);
    // the requested output, and two halves of the change
    assert_eq!(tx.outputs.len(), 3);
    assert_eq!(tx.outputs[0], prepare_pay(10 * MEL, Denom::Mel));
    assert_eq!(tx.outputs[1].covhash, wallet.address());
    assert_eq!(tx.outputs[2].covhash, wallet.address());
    let change = 100 * MEL - 10 * MEL - tx.fee;
    assert_eq!(tx.outputs[1].value, change / 2);
    assert_eq!(tx.outputs[2].value, change - change / 2);
    assert_eq!(prepare_sum(&tx, Denom::Mel) + tx.fee, 100 * MEL);
    // the one input is signed
    assert_eq!(tx.sigs.len(), 1);
    assert!(tmelcrypt::Ed25519PK(sk.to_public()).verify(&tx.hash_nosigs().0, &tx.sigs[0]));
}

#[test]
fn prepared_fee_is_the_last_low_fee() {
    let sk = Ed25519SK::generate().unwrap();
    let mut db = Database::open();
    let wallet = prepare_wallet(&mut db, &sk);
    prepare_fund(&mut db, &wallet, &[(1, 100 * MEL, Denom::Mel)]);
    let job = prepare_job_with(
        &wallet,
        wallet.get_coin_mapping(&db, true, false),
        vec![prepare_pay(10 * MEL, Denom::Mel)],
        vec![],
    );
    let tx = prepare_job(&job, &prepare_policy(), &mut sk.signer()).unwrap();
    match gen_transaction(&job, &prepare_policy(), &mut sk.signer(), tx.fee) {
        Candidate::Low(Ok(again)) => assert_eq!(again, tx),
        _ => panic!("the fee of the prepared transaction is low"),
    }
    match gen_transaction(&job, &prepare_policy(), &mut sk.signer(), tx.fee + 1) {
        Candidate::High(Ok(dearer)) => assert_eq!(dearer.fee, tx.fee + 1),
        _ => panic!("one more is too much"),
    }
}

#[test]
fn fee_search_is_the_binary_search() {
    let sk = Ed25519SK::generate().unwrap();
    let mut db = Database::open();
    let wallet = prepare_wallet(&mut db, &sk);
    prepare_fund(&mut db, &wallet, &[(1, 100 * MEL, Denom::Mel), (2, 3 * MEL, Denom::Mel)]);
    for ballast in [0u128, 100, 5000] {
        let mut job = prepare_job_with(
            &wallet,
            wallet.get_coin_mapping(&db, true, false),
            vec![prepare_pay(101 * MEL, Denom::Mel)],
            vec![],
        );
        job.fee_ballast = ballast;
        let ours = prepare_job(&job, &prepare_policy(), &mut sk.signer());
        let max_fee = match gen_transaction(&job, &prepare_policy(), &mut sk.signer(), 0) {
            Candidate::Low(Ok(t)) | Candidate::High(Ok(t)) => {
                t.base_fee(job.fee_multiplier, job.fee_ballast) * 3 + 100
            }
            _ => panic!("fee 0 gives a candidate"),
        };
        let ((their_fee, theirs), (high_fee, high)) = binary_search::binary_search(
            (0u128, Err(PrepareError::InsufficientFunds(Denom::Mel))),
            (max_fee, Err(PrepareError::InsufficientFunds(Denom::Mel))),
            |fee| match gen_transaction(&job, &prepare_policy(), &mut sk.signer(), fee) {
                Candidate::Low(a) => binary_search::Direction::Low(a),
                Candidate::High(a) => binary_search::Direction::High(a),
            },
        );
        assert_eq!(ours, theirs);
        assert_eq!(ours.as_ref().unwrap().fee, their_fee);
        assert_eq!(high_fee, their_fee + 1);
        assert_eq!(high.unwrap().fee, high_fee);
        assert!(ours.is_ok());
    }
}

#[test]
fn insufficient_funds() {
    let sk = Ed25519SK::generate().unwrap();
    let mut db = Database::open();
    let wallet = prepare_wallet(&mut db, &sk);
    prepare_fund(&mut db, &wallet, &[(1, MEL, Denom::Mel)]);
    let r = wallet.prepare(
        &db,
        &vec![],
        vec![prepare_pay(10 * MEL, Denom::Mel)],
        1000,
        &prepare_policy(),
        &mut sk.signer(),
        vec![],
        0,
        &vec![],
    );
    assert_eq!(r, Err(PrepareError::InsufficientFunds(Denom::Mel)));
}

#[test]
fn wallet_without_mel_for_a_fee_gets_what_fee_0_gave() {
    let sk = Ed25519SK::generate().unwrap();
    let mut db = Database::open();
    let wallet = prepare_wallet(&mut db, &sk);
    prepare_fund(&mut db, &wallet, &[(1, 10 * MEL, Denom::Mel)]);
    let job = prepare_job_with(
        &wallet,
        wallet.get_coin_mapping(&db, true, false),
        vec![prepare_pay(10 * MEL, Denom::Mel)],
        vec![],
    );
    // fee 0 is low, and no fee above it can be paid
    let free = match gen_transaction(&job, &prepare_policy(), &mut sk.signer(), 0) {
        Candidate::Low(Ok(t)) => t,
        _ => panic!("fee 0 is low"),
    };
    assert!(free.base_fee(1000, 0) > 0);
    match gen_transaction(&job, &prepare_policy(), &mut sk.signer(), 1) {
        Candidate::High(Err(e)) => assert_eq!(e, PrepareError::InsufficientFunds(Denom::Mel)),
        _ => panic!("a fee of 1 cannot be paid"),
    }
    let tx = prepare_job(&job, &prepare_policy(), &mut sk.signer()).unwrap();
    assert_eq!(tx, free);
    assert_eq!(tx.fee, 0);
    assert_eq!(tx.inputs.len(), 1);
    assert_eq!(prepare_sum(&tx, Denom::Mel), 10 * MEL);

    // a wallet without coins and a request without outputs
    let mut empty = Database::open();
    let nobody = prepare_wallet(&mut empty, &sk);
    let r = nobody.prepare(
        &empty,
        &vec![],
        vec![],
        1000,
        &prepare_policy(),
        &mut sk.signer(),
        vec![],
        0,
        &vec![],
    );
    let tx = r.unwrap();
    assert_eq!(tx.fee, 0);
    assert!(tx.inputs.is_empty());
    assert_eq!(tx.outputs.len(), 1);
    assert_eq!(tx.outputs[0].value, 0);
    assert_eq!(tx.outputs[0].covhash, nobody.address());
}

#[test]
fn shortfall_names_the_denomination() {
    let sk = Ed25519SK::generate().unwrap();
    let mut db = Database::open();
    let wallet = prepare_wallet(&mut db, &sk);
    prepare_fund(&mut db, &wallet, &[(1, 100, Denom::Mel), (2, 5, Denom::Sym)]);
    let job = prepare_job_with(
        &wallet,
        wallet.get_coin_mapping(&db, true, false),
        vec![prepare_pay(6, Denom::Sym), prepare_pay(10, Denom::Mel)],
        vec![],
    );
    assert_eq!(build_unsigned(&job, 0), Err(PrepareError::InsufficientFunds(Denom::Sym)));
    match gen_transaction(&job, &prepare_policy(), &mut sk.signer(), 0) {
        Candidate::High(Err(e)) => assert_eq!(e, PrepareError::InsufficientFunds(Denom::Sym)),
        _ => panic!("a shortfall is high"),
    }
}

#[test]
fn change_comes_in_two_halves() {
    let sk = Ed25519SK([1u8; 64]);
    let mut db = Database::open();
    let wallet = prepare_wallet(&mut db, &sk);
    prepare_fund(&mut db, &wallet, &[(1, 100, Denom::Mel), (2, 50, Denom::Sym)]);
    let job = prepare_job_with(
        &wallet,
        wallet.get_coin_mapping(&db, true, false),
        vec![prepare_pay(40, Denom::Sym), prepare_pay(10, Denom::Mel)],
        vec![],
    );
    let tx = build_unsigned(&job, 7).unwrap();
    assert_eq!(tx.fee, 7);
    assert_eq!(tx.inputs, vec![CoinId::new(TxHash([1; 32]), 0), CoinId::new(TxHash([2; 32]), 0)]);
    let own = |value: u128, denom: Denom| CoinData {
        covhash: wallet.address(),
        value,
        denom,
        additional_data: vec![],
    };
    assert_eq!(
        tx.outputs,
        vec![
            prepare_pay(40, Denom::Sym),
            prepare_pay(10, Denom::Mel),
            own(5, Denom::Sym),
            own(5, Denom::Sym),
            own(41, Denom::Mel),
            own(42, Denom::Mel),
        ]
    );
    assert!(tx.sigs.is_empty());
    assert!(tx.data.is_empty());
}

#[test]
fn change_of_one_and_of_nothing() {
    let sk = Ed25519SK([1u8; 64]);
    let mut db = Database::open();
    let wallet = prepare_wallet(&mut db, &sk);
    prepare_fund(&mut db, &wallet, &[(1, 100, Denom::Mel), (2, 50, Denom::Sym), (3, 9, Denom::Erg)]);
    let own = |value: u128, denom: Denom| CoinData {
        covhash: wallet.address(),
        value,
        denom,
        additional_data: vec![],
    };
    // a surplus of 1 in Sym, none in Erg, none in Mel: Mel alone gets an empty change output
    let job = prepare_job_with(
        &wallet,
        wallet.get_coin_mapping(&db, true, false),
        vec![prepare_pay(49, Denom::Sym), prepare_pay(9, Denom::Erg), prepare_pay(90, Denom::Mel)],
        vec![],
    );
    let tx = build_unsigned(&job, 10).unwrap();
    assert_eq!(tx.inputs.len(), 3);
    assert_eq!(
        tx.outputs[3..].to_vec(),
        vec![own(1, Denom::Sym), own(0, Denom::Mel)]
    );
}

#[test]
fn coins_are_taken_only_while_needed() {
    let sk = Ed25519SK([1u8; 64]);
    let mut db = Database::open();
    let wallet = prepare_wallet(&mut db, &sk);
    prepare_fund(
        &mut db,
        &wallet,
        &[(1, 10, Denom::Mel), (2, 10, Denom::Mel), (3, 10, Denom::Mel), (4, 5, Denom::Sym)],
    );
    let job = prepare_job_with(
        &wallet,
        wallet.get_coin_mapping(&db, true, false),
        vec![prepare_pay(12, Denom::Mel)],
        vec![],
    );
    let tx = build_unsigned(&job, 3).unwrap();
    assert_eq!(tx.inputs, vec![CoinId::new(TxHash([1; 32]), 0), CoinId::new(TxHash([2; 32]), 0)]);
    assert_eq!(prepare_sum(&tx, Denom::Mel) + 3, 20);
    assert_eq!(prepare_sum(&tx, Denom::Sym), 0);
}

#[test]
fn unbalanced_denominations_need_no_inputs() {
    let sk = Ed25519SK([1u8; 64]);
    let mut db = Database::open();
    let wallet = prepare_wallet(&mut db, &sk);
    prepare_fund(&mut db, &wallet, &[(1, 10, Denom::Mel), (2, 5, Denom::Sym)]);
    let job = prepare_job_with(
        &wallet,
        wallet.get_coin_mapping(&db, true, false),
        vec![prepare_pay(1000, Denom::Sym), prepare_pay(77, Denom::NewCustom)],
        vec![Denom::Sym],
    );
    let tx = build_unsigned(&job, 4).unwrap();
    assert_eq!(tx.inputs, vec![CoinId::new(TxHash([1; 32]), 0)]);
    assert_eq!(tx.outputs.len(), 4);
    assert_eq!(prepare_sum(&tx, Denom::Mel) + 4, 10);
    assert_eq!(prepare_sum(&tx, Denom::Sym), 1000);
}

#[test]
fn coins_of_others_and_mandatory_coins_are_skipped() {
    let sk = Ed25519SK([1u8; 64]);
    let mut db = Database::open();
    let wallet = prepare_wallet(&mut db, &sk);
    let foreign = CoinData {
        covhash: Address([0x77; 32]),
        value: 1000,
        denom: Denom::Mel,
        additional_data: vec![],
    };
    let mine = CoinData { covhash: wallet.address(), ..foreign.clone() };
    let unspent = vec![
        (CoinId::new(TxHash([1; 32]), 0), foreign),
        (CoinId::new(TxHash([2; 32]), 0), mine.clone()),
        (CoinId::new(TxHash([3; 32]), 0), mine.clone()),
    ];
    let mut job = prepare_job_with(&wallet, unspent, vec![prepare_pay(1500, Denom::Mel)], vec![]);
    job.mandatory = vec![(
        CoinId::new(TxHash([2; 32]), 0),
        CoinDataHeight { coin_data: mine, height: 1 },
    )];
    let tx = build_unsigned(&job, 0).unwrap();
    assert_eq!(tx.inputs, vec![CoinId::new(TxHash([2; 32]), 0), CoinId::new(TxHash([3; 32]), 0)]);
    assert_eq!(prepare_sum(&tx, Denom::Mel), 2000);
}

#[test]
fn too_many_inputs() {
    let sk = Ed25519SK([1u8; 64]);
    let mut db = Database::open();
    let wallet = prepare_wallet(&mut db, &sk);
    let mut unspent = Vec::new();
    for i in 0..5001u32 {
        let mut h = [0u8; 32];
        h[..4].copy_from_slice(&i.to_be_bytes());
        unspent.push((
            CoinId::new(TxHash(h), 0),
            CoinData {
                covhash: wallet.address(),
                value: 1,
                denom: Denom::Mel,
                additional_data: vec![],
            },
        ));
    }
    let job = prepare_job_with(&wallet, unspent.clone(), vec![prepare_pay(5001, Denom::Mel)], vec![]);
    assert_eq!(build_unsigned(&job, 0), Err(PrepareError::TooManyInputs));
    let job = prepare_job_with(&wallet, unspent, vec![prepare_pay(5000, Denom::Mel)], vec![]);
    assert_eq!(build_unsigned(&job, 0).unwrap().inputs.len(), 5000);
}

#[test]
fn candidates_keep_the_chains_bounds() {
    let sk = Ed25519SK([1u8; 64]);
    let mut db = Database::open();
    let wallet = prepare_wallet(&mut db, &sk);
    let unspent = vec![(
        CoinId::new(TxHash([1; 32]), 0),
        CoinData {
            covhash: wallet.address(),
            value: u128::MAX,
            denom: Denom::Mel,
            additional_data: vec![],
        },
    )];
    // the largest value is allowed
    let job = prepare_job_with(
        &wallet,
        unspent.clone(),
        vec![prepare_pay(MAX_COINVAL, Denom::Mel)],
        vec![Denom::Mel],
    );
    assert!(build_unsigned(&job, MAX_COINVAL).is_ok());
    // one more is not
    let job = prepare_job_with(
        &wallet,
        unspent.clone(),
        vec![prepare_pay(MAX_COINVAL + 1, Denom::Mel)],
        vec![Denom::Mel],
    );
    assert_eq!(build_unsigned(&job, 0), Err(PrepareError::NotWellFormed));
    let job = prepare_job_with(&wallet, unspent.clone(), vec![], vec![Denom::Mel]);
    assert_eq!(build_unsigned(&job, MAX_COINVAL + 1), Err(PrepareError::NotWellFormed));
    // 255 outputs are allowed, 256 are not
    let job = prepare_job_with(
        &wallet,
        unspent.clone(),
        vec![prepare_pay(1, Denom::Mel); 255],
        vec![Denom::Mel],
    );
    assert_eq!(build_unsigned(&job, 0).unwrap().outputs.len(), 255);
    let job = prepare_job_with(
        &wallet,
        unspent.clone(),
        vec![prepare_pay(1, Denom::Mel); 256],
        vec![Denom::Mel],
    );
    assert_eq!(build_unsigned(&job, 0), Err(PrepareError::NotWellFormed));
    // sums that do not fit in 128 bits
    let job = prepare_job_with(
        &wallet,
        unspent,
        vec![prepare_pay(u128::MAX, Denom::Sym), prepare_pay(1, Denom::Sym)],
        vec![],
    );
    assert_eq!(build_unsigned(&job, 0), Err(PrepareError::NotWellFormed));
}

#[test]
fn well_formedness_is_the_chains() {
    let tx = Tx {
        kind: TxKind::Normal,
        inputs: vec![],
        outputs: vec![prepare_pay(MAX_COINVAL, Denom::Mel); 255],
        fee: MAX_COINVAL,
        covenants: vec![],
        data: vec![],
        sigs: vec![],
    };
    assert_eq!(MAX_COINVAL, 1u128 << 120);
    assert!(is_well_formed(&tx));
    let mut dear = tx.clone();
    dear.fee += 1;
    assert!(!is_well_formed(&dear));
    let mut big = tx.clone();
    big.outputs[254].value += 1;
    assert!(!is_well_formed(&big));
    let mut many = tx.clone();
    many.outputs.push(prepare_pay(0, Denom::Mel));
    assert!(!is_well_formed(&many));
}

#[test]
fn mandatory_inputs_are_resolved() {
    let sk = Ed25519SK::generate().unwrap();
    let mut db = Database::open();
    let wallet = prepare_wallet(&mut db, &sk);
    prepare_fund(&mut db, &wallet, &[(1, 100 * MEL, Denom::Mel), (2, 50 * MEL, Denom::Mel)]);
    let known = CoinId::new(TxHash([2; 32]), 0);
    let outside = CoinId::new(TxHash([9; 32]), 3);
    let unknown = CoinId::new(TxHash([8; 32]), 0);
    let node = vec![(
        outside,
        CoinDataHeight {
            coin_data: CoinData {
                covhash: Address([5; 32]),
                value: 7 * MEL,
                denom: Denom::Mel,
                additional_data: vec![],
            },
            height: 3,
        },
    )];
    assert_eq!(wallet.unresolved_inputs(&db, &vec![known, outside, unknown, outside]), vec![outside, unknown]);
    let r = wallet.resolve_inputs(&db, &vec![known, unknown], &node);
    assert_eq!(r, Err(PrepareError::InputNotFound(unknown)));
    let resolved = wallet.resolve_inputs(&db, &vec![outside, known, outside], &node).unwrap();
    assert_eq!(resolved.len(), 2);
    assert_eq!(resolved[0].0, outside);
    assert_eq!(resolved[0].1.height, 3);
    assert_eq!(resolved[1].0, known);
    assert_eq!(resolved[1].1.coin_data.value, 50 * MEL);
    let r = wallet.prepare(
        &db,
        &vec![unknown],
        vec![],
        1000,
        &prepare_policy(),
        &mut sk.signer(),
        vec![],
        0,
        &node,
    );
    assert_eq!(r, Err(PrepareError::InputNotFound(unknown)));
    let tx = wallet
        .prepare(
            &db,
            &vec![outside, known],
            vec![prepare_pay(MEL, Denom::Mel)],
            1000,
            &prepare_policy(),
            &mut sk.signer(),
            vec![],
            0,
            &node,
        )
        .unwrap();
    assert_eq!(tx.inputs, vec![outside, known]);
    assert_eq!(tx.sigs.len(), 2);
    assert_eq!(tx.sigs[0], tx.sigs[1]);
    assert_eq!(prepare_sum(&tx, Denom::Mel) + tx.fee, 57 * MEL);
}

#[test]
fn policy_is_applied_before_signing() {
    let sk = Ed25519SK::generate().unwrap();
    let mut db = Database::open();
    let wallet = prepare_wallet(&mut db, &sk);
    prepare_fund(&mut db, &wallet, &[(1, 100 * MEL, Denom::Mel)]);
    let policy = SigningPolicy {
        kind: Some(TxKind::Swap),
        data: Some(vec![1, 2, 3]),
        covenants: vec![vec![9], vec![]],
    };
    let job = prepare_job_with(
        &wallet,
        wallet.get_coin_mapping(&db, true, false),
        vec![prepare_pay(MEL, Denom::Mel)],
        vec![],
    );
    let unsigned = build_unsigned(&job, 5).unwrap();
    let shaped = apply_policy(&policy, unsigned.clone());
    assert_eq!(shaped.kind, TxKind::Swap);
    assert_eq!(shaped.data, vec![1, 2, 3]);
    assert_eq!(shaped.covenants, vec![wallet.covenant(), vec![9], vec![]]);
    assert_eq!(shaped.inputs, unsigned.inputs);
    assert_eq!(shaped.outputs, unsigned.outputs);
    assert_eq!(apply_policy(&prepare_policy(), unsigned.clone()), unsigned);
    let signed = sign_all(&mut sk.signer(), shaped.clone()).unwrap();
    assert_eq!(signed.hash_nosigs(), shaped.hash_nosigs());
    assert_ne!(signed.hash_nosigs(), unsigned.hash_nosigs());
    assert!(tmelcrypt::Ed25519PK(sk.to_public()).verify(&shaped.hash_nosigs().0, &signed.sigs[0]));
    let tx = prepare_job(&job, &policy, &mut sk.signer()).unwrap();
    assert_eq!(tx.kind, TxKind::Swap);
    assert_eq!(tx.data, vec![1, 2, 3]);
    assert!(tx.fee <= tx.base_fee(1000, 0) * 21 / 20);
}

#[test]
fn signing_is_deterministic() {
    let sk = Ed25519SK::generate().unwrap();
    let tx = Tx {
        kind: TxKind::Normal,
        inputs: vec![CoinId::new(TxHash([1; 32]), 0); 3],
        outputs: vec![prepare_pay(1, Denom::Mel)],
        fee: 1,
        covenants: vec![],
        data: vec![],
        sigs: vec![],
    };
    let mut signer = sk.signer();
    let once = signer.sign_tx(tx.clone(), 2).unwrap();
    // from the cache
    let again = signer.sign_tx(tx.clone(), 2).unwrap();
    assert_eq!(once, again);
    // from another signer of the same key
    assert_eq!(sk.signer().sign_tx(tx.clone(), 2).unwrap(), once);
    assert_eq!(once.sigs.len(), 3);
    assert!(once.sigs[0].is_empty());
    assert!(once.sigs[1].is_empty());
    assert_eq!(once.sigs[2].len(), 64);
    assert_eq!(once.sigs[2], tmelcrypt::Ed25519SK(sk.0).sign(&tx.hash_nosigs().0));
    // signing a signed transaction again changes nothing
    assert_eq!(signer.sign_tx(once.clone(), 2).unwrap(), once);
    // an earlier slot is filled without touching the later ones
    let both = signer.sign_tx(once.clone(), 0).unwrap();
    assert_eq!(both.sigs[0], once.sigs[2]);
    assert_eq!(both.sigs[2], once.sigs[2]);
    assert!(both.sigs[1].is_empty());
    let other = Ed25519SK::generate().unwrap();
    assert_ne!(other.signer().sign_tx(tx, 2).unwrap(), once);
}

#[test]
fn signer_remembers_more_hashes_than_its_cache_holds() {
    let sk = Ed25519SK::generate().unwrap();
    let mut signer = sk.signer();
    let mut txs = Vec::new();
    for fee in 0..600u128 {
        txs.push(Tx {
            kind: TxKind::Normal,
            inputs: vec![CoinId::new(TxHash([1; 32]), 0)],
            outputs: vec![],
            fee,
            covenants: vec![],
            data: vec![],
            sigs: vec![],
        });
    }
    let first: Vec<Tx> = txs.iter().map(|t| signer.sign_tx(t.clone(), 0).unwrap()).collect();
    // the oldest were evicted by now; they are signed anew, alike
    for (t, signed) in txs.iter().zip(first.iter()) {
        assert_eq!(&signer.sign_tx(t.clone(), 0).unwrap(), signed);
        assert_eq!(signed.sigs[0], tmelcrypt::Ed25519SK(sk.0).sign(&t.hash_nosigs().0));
    }
}

#[test]
fn covenants_too_heavy_are_not_well_formed() {
    let sk = Ed25519SK::generate().unwrap();
    let mut db = Database::open();
    let wallet = prepare_wallet(&mut db, &sk);
    prepare_fund(&mut db, &wallet, &[(1, 100 * MEL, Denom::Mel)]);
    let mut ops = vec![melvm::opcode::OpCode::Loop(65535, 65535); 9];
    ops.push(melvm::opcode::OpCode::Noop);
    let heavy = melvm::Covenant::from_ops(&ops).to_bytes().to_vec();
    let job = prepare_job_with(
        &wallet,
        wallet.get_coin_mapping(&db, true, false),
        vec![prepare_pay(MEL, Denom::Mel)],
        vec![],
    );
    let policy = SigningPolicy { kind: None, data: None, covenants: vec![heavy.clone(), heavy] };
    match gen_transaction(&job, &policy, &mut sk.signer(), 5) {
        Candidate::High(Err(e)) => assert_eq!(e, PrepareError::NotWellFormed),
        _ => panic!("no candidate weighs that much"),
    }
    assert_eq!(prepare_job(&job, &policy, &mut sk.signer()), Err(PrepareError::NotWellFormed));
}

#[test]
fn covenants_with_many_loops_are_not_well_formed() {
    let sk = Ed25519SK::from_seed(&[7u8; 32]);
    let mut db = Database::open();
    let wallet = prepare_wallet(&mut db, &sk);
    prepare_fund(&mut db, &wallet, &[(1, 100 * MEL, Denom::Mel)]);
    let job = prepare_job_with(
        &wallet,
        wallet.get_coin_mapping(&db, true, false),
        vec![prepare_pay(MEL, Denom::Mel)],
        vec![],
    );
    let policy = SigningPolicy { kind: None, data: None, covenants: vec![vec![0xb0; 400]] };
    match gen_transaction(&job, &policy, &mut sk.signer(), 5) {
        Candidate::High(Err(e)) => assert_eq!(e, PrepareError::NotWellFormed),
        _ => panic!("a covenant of eighty loops is not weighed"),
    }
    assert_eq!(prepare_job(&job, &policy, &mut sk.signer()), Err(PrepareError::NotWellFormed));
}

#[test]
fn a_transaction_that_needs_no_fee_is_prepared_at_fee_0() {
    let sk = Ed25519SK::from_seed(&[8u8; 32]);
    let mut db = Database::open();
    let wallet = prepare_wallet(&mut db, &sk);
    prepare_fund(&mut db, &wallet, &[(1, 100 * MEL, Denom::Mel)]);
    let mut job = prepare_job_with(
        &wallet,
        wallet.get_coin_mapping(&db, true, false),
        vec![prepare_pay(10 * MEL, Denom::Mel)],
        vec![],
    );
    job.fee_multiplier = 0;
    // every fee above 0 is more than the candidate needs
    match gen_transaction(&job, &prepare_policy(), &mut sk.signer(), 1) {
        Candidate::High(Ok(t)) => assert_eq!(t.base_fee(0, 0), 0),
        _ => panic!("a fee of 1 is too much"),
    }
    let free = match gen_transaction(&job, &prepare_policy(), &mut sk.signer(), 0) {
        Candidate::Low(Ok(t)) => t,
        _ => panic!("fee 0 is low"),
    };
    let tx = prepare_job(&job, &prepare_policy(), &mut sk.signer()).unwrap();
    assert_eq!(tx.fee, 0);
    assert_eq!(tx, free);
    assert_eq!(prepare_sum(&tx, Denom::Mel), 100 * MEL);
    let prepared = wallet.prepare(
        &db,
        &vec![],
        vec![prepare_pay(10 * MEL, Denom::Mel)],
        0,
        &prepare_policy(),
        &mut sk.signer(),
        vec![],
        0,
        &vec![],
    );
    assert_eq!(prepared, Ok(tx));
}
