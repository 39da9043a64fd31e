use melwalletd::chain::{address_of_covenant, is_weighable, proposer_reward, LOOP_LIMIT, LOOP_OPCODE};
use melwalletd::coins::{CoinData, Denom, Tx, TxKind};
use melwalletd::hashes::{Address, CoinId, TxHash};
use melwalletd::signer::{Ed25519SK, Signer};

fn chain_sample_tx() -> Tx {
    Tx {
        kind: TxKind::Normal,
        inputs: vec![CoinId::new(TxHash([7u8; 32]), 3), CoinId::new(TxHash([9u8; 32]), 0)],
        outputs: vec![
            CoinData {
                covhash: Address([1u8; 32]),
                value: 12345,
                denom: Denom::Mel,
                additional_data: vec![1, 2, 3],
            },
            CoinData {
                covhash: Address([2u8; 32]),
                value: 7,
                denom: Denom::Custom(TxHash([5u8; 32])),
                additional_data: vec![],
            },
            CoinData {
                covhash: Address([2u8; 32]),
                value: 1,
                denom: Denom::NewCustom,
                additional_data: vec![],
            },
        ],
        fee: 99,
        covenants: vec![vec![0xf2, 0x00, 0x01], vec![]],
        data: vec![4, 5],
        sigs: vec![vec![1u8; 64]],
    }
}

fn chain_outside_denom(d: &Denom) -> melstructs::Denom {
    match d {
        Denom::Mel => melstructs::Denom::Mel,
        Denom::Sym => melstructs::Denom::Sym,
        Denom::Erg => melstructs::Denom::Erg,
        Denom::NewCustom => melstructs::Denom::NewCustom,
        Denom::Custom(h) => melstructs::Denom::Custom(melstructs::TxHash(tmelcrypt::HashVal(h.0))),
    }
}

fn chain_outside_kind(k: &TxKind) -> melstructs::TxKind {
    match k {
        TxKind::DoscMint => melstructs::TxKind::DoscMint,
        TxKind::Faucet => melstructs::TxKind::Faucet,
        TxKind::LiqDeposit => melstructs::TxKind::LiqDeposit,
        TxKind::LiqWithdraw => melstructs::TxKind::LiqWithdraw,
        TxKind::Normal => melstructs::TxKind::Normal,
        TxKind::Stake => melstructs::TxKind::Stake,
        TxKind::Swap => melstructs::TxKind::Swap,
    }
}

fn chain_outside_tx(tx: &Tx) -> melstructs::Transaction {
    let mut t = melstructs::Transaction::new(chain_outside_kind(&tx.kind));
    for c in tx.inputs.iter() {
        t.inputs.push(melstructs::CoinID {
            txhash: melstructs::TxHash(tmelcrypt::HashVal(c.txhash.0)),
            index: c.index,
        });
    }
    for o in tx.outputs.iter() {
        t.outputs.push(melstructs::CoinData {
            covhash: melstructs::Address(tmelcrypt::HashVal(o.covhash.0)),
            value: melstructs::CoinValue(o.value),
            denom: chain_outside_denom(&o.denom),
            additional_data: o.additional_data.clone().into(),
        });
    }
    t.fee = melstructs::CoinValue(tx.fee);
    for c in tx.covenants.iter() {
        t.covenants.push(c.clone().into());
    }
    t.data = tx.data.clone().into();
    for s in tx.sigs.iter() {
        t.sigs.push(s.clone().into());
    }
    t
}

#[test]
fn hash_nosigs_is_the_chains_hash() {
    let tx = chain_sample_tx();
    let outside = chain_outside_tx(&tx);
    assert_eq!(tx.hash_nosigs().0, outside.hash_nosigs().0 .0);
}

#[test]
fn hash_nosigs_ignores_signatures_only() {
    let tx = chain_sample_tx();
    let mut resigned = tx.clone();
    resigned.sigs = vec![vec![9u8; 64], vec![]];
    assert_eq!(tx.hash_nosigs(), resigned.hash_nosigs());
    let mut dearer = tx.clone();
    dearer.fee = 100;
    assert_ne!(tx.hash_nosigs(), dearer.hash_nosigs());
    let mut other_kind = tx.clone();
    other_kind.kind = TxKind::Swap;
    assert_ne!(tx.hash_nosigs(), other_kind.hash_nosigs());
}

#[test]
fn hash_of_every_kind_is_the_chains_hash() {
    let kinds = [
        TxKind::DoscMint,
        TxKind::Faucet,
        TxKind::LiqDeposit,
        TxKind::LiqWithdraw,
        TxKind::Normal,
        TxKind::Stake,
        TxKind::Swap,
    ];
    for k in kinds.iter() {
        let mut tx = chain_sample_tx();
        tx.kind = *k;
        assert_eq!(tx.hash_nosigs().0, chain_outside_tx(&tx).hash_nosigs().0 .0);
    }
}

#[test]
fn output_coinid_names_the_output() {
    let tx = chain_sample_tx();
    let id = tx.output_coinid(2);
    assert_eq!(id.txhash, tx.hash_nosigs());
    assert_eq!(id.index, 2);
}

#[test]
fn base_fee_is_the_chains_base_fee() {
    let tx = chain_sample_tx();
    let outside = chain_outside_tx(&tx);
    for (mult, ballast) in [(0u128, 0u128), (1000, 0), (1000, 50), (65536, 7), (u128::MAX, 3)] {
        assert_eq!(
            tx.base_fee(mult, ballast),
            outside.base_fee(mult, ballast, melvm::covenant_weight_from_bytes).0
        );
    }
}

#[test]
fn base_fee_follows_the_weight() {
    let tx = chain_sample_tx();
    let outside = chain_outside_tx(&tx);
    let weight = outside.weight(melvm::covenant_weight_from_bytes);
    assert_eq!(tx.base_fee(65536, 0), weight);
    assert_eq!(tx.base_fee(65536, 10), weight + 10);
    assert_eq!(tx.base_fee(1000, 0), (weight * 1000) >> 16);
    assert_eq!(tx.base_fee(u128::MAX, 0), u128::MAX >> 16);
}

#[test]
fn address_is_the_blake3_hash_of_the_covenant() {
    let empty = address_of_covenant(&vec![]);
    assert_eq!(
        hex::encode(empty.0),
        "af1349b9f5f9a1a6a0404dea36dcc9499bcb25c9adc112b7cc9a93cae41f3262"
    );
    let bytes = vec![1u8, 2, 3];
    assert_eq!(address_of_covenant(&bytes).0, tmelcrypt::hash_single(&bytes).0);
}

#[test]
fn proposer_reward_is_the_chains_pseudo_coin() {
    for h in [0u64, 1, 5000, u64::MAX] {
        let ours = proposer_reward(h);
        let theirs = melstructs::CoinID::proposer_reward(melstructs::BlockHeight(h));
        assert_eq!(ours.txhash.0, theirs.txhash.0 .0);
        assert_eq!(ours.index, 0);
    }
    assert_ne!(proposer_reward(1), proposer_reward(2));
}

#[test]
fn signature_verifies_under_the_public_key() {
    let sk = Ed25519SK::generate().unwrap();
    let tx = chain_sample_tx();
    let h = tx.hash_nosigs();
    let mut signer = sk.signer();
    let signed = signer.sign_tx(tx, 1).unwrap();
    assert_eq!(signed.sigs.len(), 2);
    assert_eq!(signed.sigs[0], vec![1u8; 64]);
    assert_eq!(signed.sigs[1].len(), 64);
    let pk = tmelcrypt::Ed25519PK(sk.to_public());
    assert!(pk.verify(&h.0, &signed.sigs[1]));
}

#[test]
fn covenant_is_the_standard_ed25519_covenant() {
    let sk = Ed25519SK::generate().unwrap();
    let theirs = melvm::Covenant::std_ed25519_pk_new(tmelcrypt::Ed25519PK(sk.to_public()));
    assert_eq!(sk.covenant(), theirs.to_bytes().to_vec());
    assert_eq!(sk.signer().covenant(), sk.covenant());
    assert_eq!(sk.signer().secret_key(), sk);
    assert_eq!(address_of_covenant(&sk.covenant()).0, theirs.hash().0 .0);
}

#[test]
fn public_half_is_the_second_half() {
    let mut bytes = [0u8; 64];
    for i in 0..64 {
        bytes[i] = i as u8;
    }
    let sk = Ed25519SK(bytes);
    let pk = sk.to_public();
    for i in 0..32 {
        assert_eq!(pk[i], 32 + i as u8);
    }
}

#[test]
fn well_formedness_is_the_chains_check() {
    let base = chain_sample_tx();
    let mut cases = vec![base.clone()];
    let mut dear = base.clone();
    dear.fee = (1u128 << 120) + 1;
    cases.push(dear);
    let mut at_limit = base.clone();
    at_limit.fee = 1u128 << 120;
    at_limit.outputs[0].value = 1u128 << 120;
    cases.push(at_limit);
    let mut big = base.clone();
    big.outputs[1].value = u128::MAX;
    cases.push(big);
    let mut many = base.clone();
    many.outputs = vec![base.outputs[0].clone(); 255];
    cases.push(many.clone());
    many.outputs.push(base.outputs[0].clone());
    cases.push(many);
    for tx in cases {
        assert_eq!(
            melwalletd::prepare::is_well_formed(&tx),
            chain_outside_tx(&tx).is_well_formed()
        );
    }
}

#[test]
fn coin_identifiers_read_as_the_chains() {
    let mut db = melwalletd::database::Database::open();
    db.create_wallet("a", vec![1]).unwrap();
    let wallet = db.get_wallet("a").unwrap();
    let mut tx = chain_sample_tx();
    tx.outputs[0].covhash = wallet.address();
    wallet.commit_sent(&mut db, tx.clone(), 5);
    let state = melwalletd::state::AppState::new(
        db,
        melwalletd::state::NetID::Testnet,
        melwalletd::secrets::SecretStore::open(),
    );
    let status = state.tx_status("a", tx.hash_nosigs()).unwrap();
    for (i, o) in status.outputs.iter().enumerate() {
        let theirs = chain_outside_tx(&tx).output_coinid(i as u8);
        assert_eq!(o.coin_id, theirs.to_string());
        assert_eq!(o.coin_id.parse::<melstructs::CoinID>().unwrap(), theirs);
    }
}

#[test]
fn generated_key_pairs_a_seed_with_its_public_key() {
    let a = Ed25519SK::generate().unwrap();
    let b = Ed25519SK::generate().unwrap();
    assert_ne!(a, b);
    for key in [a, b] {
        let secret = ed25519_dalek::SecretKey::from_bytes(&key.0[..32]).unwrap();
        assert_eq!(key.to_public(), ed25519_dalek::PublicKey::from(&secret).to_bytes());
        let signature = tmelcrypt::Ed25519SK(key.0).sign(b"message");
        assert!(tmelcrypt::Ed25519PK(key.to_public()).verify(b"message", &signature));
    }
}

fn chain_heavy_covenant() -> Vec<u8> {
    let mut ops = vec![melvm::opcode::OpCode::Loop(65535, 65535); 9];
    ops.push(melvm::opcode::OpCode::Noop);
    let bytes = melvm::Covenant::from_ops(&ops).to_bytes().to_vec();
    assert_eq!(melvm::covenant_weight_from_bytes(&bytes), u128::MAX);
    bytes
}

#[test]
fn covenants_weigh_what_the_chain_says() {
    let mut tx = chain_sample_tx();
    let standard =
        melvm::Covenant::std_ed25519_pk_new(tmelcrypt::Ed25519PK([3u8; 32])).to_bytes().to_vec();
    tx.covenants = vec![standard.clone(), vec![], standard.clone()];
    let one = melvm::covenant_weight_from_bytes(&standard);
    assert!(one > 0);
    assert_eq!(tx.covenants_weight(), Some(2 * one));
    assert_eq!(
        tx.checked_base_fee(1000, 5),
        Some(chain_outside_tx(&tx).base_fee(1000, 5, melvm::covenant_weight_from_bytes).0)
    );
    tx.covenants = vec![];
    assert_eq!(tx.covenants_weight(), Some(0));
}

#[test]
fn covenants_too_heavy_have_no_base_fee() {
    let mut tx = chain_sample_tx();
    tx.covenants = vec![chain_heavy_covenant()];
    assert_eq!(tx.covenants_weight(), Some(u128::MAX));
    assert_eq!(tx.checked_base_fee(65536, 0), Some(u128::MAX >> 16));
    tx.covenants = vec![chain_heavy_covenant(), vec![]];
    assert_eq!(tx.covenants_weight(), Some(u128::MAX));
    tx.covenants = vec![chain_heavy_covenant(), chain_heavy_covenant()];
    assert_eq!(tx.covenants_weight(), None);
    assert_eq!(tx.checked_base_fee(1000, 0), None);
}

#[test]
fn generated_keys_are_keys_of_their_seeds() {
    let key = Ed25519SK::generate().unwrap();
    let mut seed = [0u8; 32];
    seed.copy_from_slice(&key.0[..32]);
    assert_eq!(Ed25519SK::from_seed(&seed), key);
    let text = base32::encode(base32::Alphabet::Crockford, &seed);
    assert_eq!(melwalletd::state::AppState::key_from_secret(&text), Some(key));
}

fn chain_looping_covenant(loops: usize) -> Vec<u8> {
    let mut ops = vec![melvm::opcode::OpCode::Loop(2, 65535); loops];
    ops.push(melvm::opcode::OpCode::Noop);
    melvm::Covenant::from_ops(&ops).to_bytes().to_vec()
}

#[test]
fn covenants_with_many_loops_are_not_weighed() {
    assert_eq!(LOOP_LIMIT, 16);
    let at_limit = chain_looping_covenant(16);
    assert_eq!(at_limit.iter().filter(|b| **b == LOOP_OPCODE).count(), 16);
    assert!(is_weighable(&at_limit));
    let beyond = chain_looping_covenant(17);
    assert!(!is_weighable(&beyond));
    assert!(is_weighable(&vec![]));
    // a byte of that value counts wherever it stands
    assert!(is_weighable(&vec![LOOP_OPCODE; 16]));
    assert!(!is_weighable(&vec![LOOP_OPCODE; 17]));
    assert!(!is_weighable(&vec![LOOP_OPCODE; 400]));

    let mut tx = chain_sample_tx();
    tx.covenants = vec![at_limit.clone()];
    assert_eq!(tx.covenants_weight(), Some(melvm::covenant_weight_from_bytes(&at_limit)));
    assert_eq!(
        tx.checked_base_fee(1000, 0),
        Some(chain_outside_tx(&tx).base_fee(1000, 0, melvm::covenant_weight_from_bytes).0)
    );
    tx.covenants = vec![at_limit, beyond];
    assert_eq!(tx.covenants_weight(), None);
    assert_eq!(tx.checked_base_fee(1000, 0), None);
    tx.covenants = vec![vec![LOOP_OPCODE; 400]];
    assert_eq!(tx.covenants_weight(), None);
    assert_eq!(tx.checked_base_fee(1000, 0), None);
}

#[test]
fn standard_covenant_is_the_key_between_two_constants() {
    for seed in [[0u8; 32], [0xb0u8; 32], [7u8; 32]] {
        let sk = Ed25519SK::from_seed(&seed);
        let mut expected: Vec<u8> = vec![0x42, 0x00, 0x09, 0xf1];
        expected.extend_from_slice(&[0u8; 31]);
        expected.extend_from_slice(&[0x06, 0x42, 0x00, 0x00, 0x50, 0x50, 0xf0, 0x20]);
        expected.extend_from_slice(&sk.to_public());
        expected.extend_from_slice(&[0x42, 0x00, 0x01, 0x32, 0x00, 0x20]);
        assert_eq!(sk.covenant(), expected);
        assert_eq!(sk.covenant().len(), 81);
        assert!(is_weighable(&sk.covenant()));
    }
    // the same of a key that was not derived
    let mut bytes = [0u8; 64];
    for i in 0..64 {
        bytes[i] = 0xff - i as u8;
    }
    let covenant = Ed25519SK(bytes).covenant();
    assert_eq!(&covenant[43..75], &bytes[32..]);
    assert_eq!(&covenant[..4], &[0x42, 0x00, 0x09, 0xf1]);
    assert_eq!(&covenant[75..], &[0x42, 0x00, 0x01, 0x32, 0x00, 0x20]);
}
