use minimint_ln::contracts::{
    AccountContract, Contract, IncomingContract, IncomingContractOffer, OutgoingContract,
};
use minimint_ln::contracts::DecryptedPreimage;
use minimint_ln::db::{OutputOutcome, RoundConsensus};
use minimint_ln::module::{
    ContractInput, ContractOrOfferOutput, ContractOutput, DecryptionShareCI, LightningModule,
    LightningModuleConfig, LightningModuleError,
};
use minimint_ln::{Amount, OutPoint};
use threshold_crypto::serde_impl::SerdeSecret;
use threshold_crypto::SecretKeySet;

struct TestCrypto {
    sk_set: SecretKeySet,
    pub_keys_bytes: Vec<u8>,
}

fn test_crypto(poly_degree: usize) -> TestCrypto {
    let mut rng = rand::thread_rng();
    let sk_set = SecretKeySet::random(poly_degree, &mut rng);
    let pub_keys_bytes = bincode::serialize(&sk_set.public_keys()).unwrap();
    TestCrypto {
        sk_set,
        pub_keys_bytes,
    }
}

fn module_for_peer(crypto: &TestCrypto, peer: usize, threshold: usize) -> LightningModule {
    let sk = crypto.sk_set.secret_key_share(peer);
    let sk_bytes = bincode::serialize(&SerdeSecret(&sk)).unwrap();
    LightningModule::new(LightningModuleConfig {
        threshold,
        threshold_pub_keys: crypto.pub_keys_bytes.clone(),
        threshold_sec_key: sk_bytes,
    })
}

fn encrypt(crypto: &TestCrypto, plaintext: &[u8]) -> Vec<u8> {
    let ct = crypto.sk_set.public_keys().public_key().encrypt(plaintext);
    bincode::serialize(&ct).unwrap()
}

fn share_of(crypto: &TestCrypto, peer: usize, enc: &[u8]) -> Vec<u8> {
    let ct: threshold_crypto::Ciphertext = bincode::deserialize(enc).unwrap();
    let share = crypto
        .sk_set
        .secret_key_share(peer)
        .decrypt_share(&ct)
        .unwrap();
    bincode::serialize(&share).unwrap()
}

fn sha256(data: &[u8]) -> Vec<u8> {
    bitcoin_hashes::sha256::Hash::hash(data).to_byte_array().to_vec()
}

fn amount(msat: u64) -> Amount {
    Amount { msat }
}

fn out_point(n: u64) -> OutPoint {
    OutPoint {
        txid: vec![n as u8; 32],
        out_idx: n,
    }
}

fn set_block_height(module: &mut LightningModule, height: u32) {
    module.db.round_consensus = Some(RoundConsensus {
        block_height: height,
        fee_rate: 0,
        randomness_beacon: vec![0u8; 32],
    });
}

/// A 32-byte value that is also a valid Schnorr (x-only) public key.
fn schnorr_key_bytes(seed: u8) -> Vec<u8> {
    let sk = secp256k1::SecretKey::from_secret_bytes([seed; 32]).unwrap();
    let (xonly, _) = secp256k1::PublicKey::from_secret_key(&sk).x_only_public_key();
    xonly.serialize().to_vec()
}

fn outgoing_contract(preimage: &[u8], timelock: u32) -> Contract {
    Contract::Outgoing(OutgoingContract {
        hash: sha256(preimage),
        timelock,
        gateway_key: vec![0x11; 32],
        user_key: vec![0x22; 32],
    })
}

fn contract_output(amount_msat: u64, contract: Contract) -> ContractOrOfferOutput {
    ContractOrOfferOutput::Contract(ContractOutput {
        amount: amount(amount_msat),
        contract,
    })
}

fn offer_output(amount_msat: u64, hash: Vec<u8>, enc: Vec<u8>) -> ContractOrOfferOutput {
    ContractOrOfferOutput::Offer(IncomingContractOffer {
        amount: amount(amount_msat),
        hash,
        encrypted_preimage: enc,
    })
}

fn incoming_output(amount_msat: u64, hash: Vec<u8>, enc: Vec<u8>) -> ContractOrOfferOutput {
    contract_output(
        amount_msat,
        Contract::Incoming(IncomingContract {
            hash,
            encrypted_preimage: enc,
            decrypted_preimage: DecryptedPreimage::Pending,
            gateway_key: vec![0x33; 32],
        }),
    )
}

fn spend(id: Vec<u8>, msat: u64, witness: Option<Vec<u8>>) -> ContractInput {
    ContractInput {
        contract_id: id,
        amount: amount(msat),
        witness,
    }
}

/// Registers an offer for `plaintext`, funds the matching incoming
/// contract, gathers shares from `peers`, and runs one full epoch.
fn fund_and_decrypt(
    crypto: &TestCrypto,
    module: &mut LightningModule,
    plaintext: &[u8],
    hash: Vec<u8>,
    peers: &[usize],
    op: OutPoint,
) -> Vec<u8> {
    let enc = encrypt(crypto, plaintext);
    module
        .apply_output(&offer_output(1000, hash.clone(), enc.clone()), &out_point(90))
        .unwrap();
    let output = incoming_output(1000, hash, enc.clone());
    let id = match &output {
        ContractOrOfferOutput::Contract(c) => c.contract.contract_id(),
        _ => unreachable!(),
    };
    module.apply_output(&output, &op).unwrap();
    let items: Vec<(u64, DecryptionShareCI)> = peers
        .iter()
        .map(|&p| {
            (
                p as u64,
                DecryptionShareCI {
                    contract_id: id.clone(),
                    share: share_of(crypto, p, &enc),
                },
            )
        })
        .collect();
    module.begin_consensus_epoch(&items).unwrap();
    module.end_consensus_epoch().unwrap();
    id
}

#[test]
fn zero_amount_contract_output_is_rejected() {
    let module = module_for_peer(&test_crypto(1), 0, 2);
    let output = contract_output(0, outgoing_contract(b"preimage", 100));
    assert_eq!(
        module.validate_output(&output),
        Err(LightningModuleError::ZeroOutput)
    );
}

#[test]
fn zero_amount_offer_output_is_allowed() {
    let crypto = test_crypto(1);
    let mut module = module_for_peer(&crypto, 0, 2);
    let enc = encrypt(&crypto, b"12345678901234567890123456789012");
    let output = offer_output(0, sha256(b"x"), enc);
    assert_eq!(module.validate_output(&output), Ok(amount(0)));
    assert_eq!(module.apply_output(&output, &out_point(1)), Ok(amount(0)));
    assert_eq!(module.get_offers().len(), 1);
}

#[test]
fn malformed_ciphertext_is_rejected() {
    let module = module_for_peer(&test_crypto(1), 0, 2);
    let output = offer_output(10, sha256(b"x"), vec![1, 2, 3]);
    assert_eq!(
        module.validate_output(&output),
        Err(LightningModuleError::InvalidEncryptedPreimage)
    );
}

#[test]
fn underfunded_incoming_contract_is_rejected() {
    let crypto = test_crypto(1);
    let mut module = module_for_peer(&crypto, 0, 2);
    let plaintext = b"12345678901234567890123456789012";
    let enc = encrypt(&crypto, plaintext);
    let hash = sha256(plaintext);
    module
        .apply_output(&offer_output(1000, hash.clone(), enc.clone()), &out_point(1))
        .unwrap();
    let output = incoming_output(999, hash, enc);
    assert_eq!(
        module.validate_output(&output),
        Err(LightningModuleError::InsufficientIncomingFunding(
            amount(1000),
            amount(999)
        ))
    );
}

#[test]
fn incoming_contract_without_offer_is_rejected() {
    let crypto = test_crypto(1);
    let module = module_for_peer(&crypto, 0, 2);
    let plaintext = b"12345678901234567890123456789012";
    let enc = encrypt(&crypto, plaintext);
    let hash = sha256(plaintext);
    let output = incoming_output(1000, hash.clone(), enc);
    assert_eq!(
        module.validate_output(&output),
        Err(LightningModuleError::NoOffer(hash))
    );
}

#[test]
fn duplicate_offer_registration_fails() {
    let crypto = test_crypto(1);
    let mut module = module_for_peer(&crypto, 0, 2);
    let enc = encrypt(&crypto, b"12345678901234567890123456789012");
    let hash = sha256(b"x");
    let output = offer_output(10, hash.clone(), enc);
    assert!(module.apply_output(&output, &out_point(1)).is_ok());
    assert_eq!(
        module.apply_output(&output, &out_point(2)),
        Err(LightningModuleError::DuplicateOffer(hash))
    );
}

#[test]
fn outgoing_spend_with_preimage_before_timelock() {
    let mut module = module_for_peer(&test_crypto(1), 0, 2);
    set_block_height(&mut module, 50);
    let output = contract_output(1000, outgoing_contract(b"secret", 100));
    let id = match &output {
        ContractOrOfferOutput::Contract(c) => c.contract.contract_id(),
        _ => unreachable!(),
    };
    module.apply_output(&output, &out_point(1)).unwrap();
    let meta = module
        .validate_input(&spend(id.clone(), 1000, Some(b"secret".to_vec())))
        .unwrap();
    assert_eq!(meta.amount, amount(1000));
    assert_eq!(meta.keys, vec![vec![0x11u8; 32]]);
}

#[test]
fn outgoing_spend_with_wrong_preimage_is_rejected() {
    let mut module = module_for_peer(&test_crypto(1), 0, 2);
    set_block_height(&mut module, 50);
    let output = contract_output(1000, outgoing_contract(b"secret", 100));
    let id = match &output {
        ContractOrOfferOutput::Contract(c) => c.contract.contract_id(),
        _ => unreachable!(),
    };
    module.apply_output(&output, &out_point(1)).unwrap();
    assert_eq!(
        module.validate_input(&spend(id.clone(), 1000, Some(b"wrong".to_vec()))),
        Err(LightningModuleError::InvalidPreimage)
    );
    assert_eq!(
        module.validate_input(&spend(id, 1000, None)),
        Err(LightningModuleError::MissingPreimage)
    );
}

#[test]
fn outgoing_spend_after_timelock_uses_user_key() {
    let mut module = module_for_peer(&test_crypto(1), 0, 2);
    set_block_height(&mut module, 101);
    let output = contract_output(1000, outgoing_contract(b"secret", 100));
    let id = match &output {
        ContractOrOfferOutput::Contract(c) => c.contract.contract_id(),
        _ => unreachable!(),
    };
    module.apply_output(&output, &out_point(1)).unwrap();
    let meta = module.validate_input(&spend(id, 1000, None)).unwrap();
    assert_eq!(meta.keys, vec![vec![0x22u8; 32]]);
}

#[test]
fn outgoing_contract_at_exact_timelock_still_needs_gateway() {
    let mut module = module_for_peer(&test_crypto(1), 0, 2);
    set_block_height(&mut module, 100);
    let output = contract_output(1000, outgoing_contract(b"secret", 100));
    let id = match &output {
        ContractOrOfferOutput::Contract(c) => c.contract.contract_id(),
        _ => unreachable!(),
    };
    module.apply_output(&output, &out_point(1)).unwrap();
    assert_eq!(
        module.validate_input(&spend(id.clone(), 1000, None)),
        Err(LightningModuleError::MissingPreimage)
    );
    let meta = module
        .validate_input(&spend(id, 1000, Some(b"secret".to_vec())))
        .unwrap();
    assert_eq!(meta.keys, vec![vec![0x11u8; 32]]);
}

#[test]
fn unknown_contract_is_rejected() {
    let module = module_for_peer(&test_crypto(1), 0, 2);
    let id = vec![9u8; 32];
    assert_eq!(
        module.validate_input(&spend(id.clone(), 1, None)),
        Err(LightningModuleError::UnknownContract(id))
    );
}

#[test]
fn overspending_an_account_is_rejected() {
    let mut module = module_for_peer(&test_crypto(1), 0, 2);
    let output = contract_output(
        500,
        Contract::Account(AccountContract { key: vec![0x44; 32] }),
    );
    let id = match &output {
        ContractOrOfferOutput::Contract(c) => c.contract.contract_id(),
        _ => unreachable!(),
    };
    module.apply_output(&output, &out_point(1)).unwrap();
    assert_eq!(
        module.validate_input(&spend(id, 600, None)),
        Err(LightningModuleError::InsufficientFunds(
            amount(500),
            amount(600)
        ))
    );
}

#[test]
fn applying_an_input_debits_the_account() {
    let mut module = module_for_peer(&test_crypto(1), 0, 2);
    let output = contract_output(
        1000,
        Contract::Account(AccountContract { key: vec![0x44; 32] }),
    );
    let id = match &output {
        ContractOrOfferOutput::Contract(c) => c.contract.contract_id(),
        _ => unreachable!(),
    };
    module.apply_output(&output, &out_point(1)).unwrap();
    let meta = module.apply_input(&spend(id.clone(), 400, None)).unwrap();
    assert_eq!(meta.amount, amount(400));
    assert_eq!(meta.keys, vec![vec![0x44u8; 32]]);
    assert_eq!(module.db.get_contract(&id).unwrap().amount, amount(600));
}

#[test]
fn repeated_funding_credits_the_same_account() {
    let mut module = module_for_peer(&test_crypto(1), 0, 2);
    let make = || {
        contract_output(
            700,
            Contract::Account(AccountContract { key: vec![0x44; 32] }),
        )
    };
    let id = match &make() {
        ContractOrOfferOutput::Contract(c) => c.contract.contract_id(),
        _ => unreachable!(),
    };
    module.apply_output(&make(), &out_point(1)).unwrap();
    module.apply_output(&make(), &out_point(2)).unwrap();
    assert_eq!(module.db.get_contract(&id).unwrap().amount, amount(1400));
}

#[test]
fn offer_is_consumed_by_funding() {
    let crypto = test_crypto(1);
    let mut module = module_for_peer(&crypto, 0, 2);
    let plaintext = schnorr_key_bytes(7);
    let hash = sha256(&plaintext);
    let enc = encrypt(&crypto, &plaintext);
    module
        .apply_output(&offer_output(1000, hash.clone(), enc.clone()), &out_point(1))
        .unwrap();
    assert_eq!(module.get_offers().len(), 1);
    let output = incoming_output(1000, hash.clone(), enc.clone());
    module.apply_output(&output, &out_point(2)).unwrap();
    assert_eq!(module.get_offers().len(), 0);
    // A second funding attempt finds no offer anymore.
    assert_eq!(
        module.validate_output(&incoming_output(1000, hash.clone(), enc)),
        Err(LightningModuleError::NoOffer(hash))
    );
}

#[test]
fn funding_an_incoming_contract_proposes_a_share() {
    let crypto = test_crypto(1);
    let mut module = module_for_peer(&crypto, 0, 2);
    let plaintext = schnorr_key_bytes(9);
    let hash = sha256(&plaintext);
    let enc = encrypt(&crypto, &plaintext);
    assert_eq!(module.consensus_proposal().len(), 0);
    module
        .apply_output(&offer_output(1000, hash.clone(), enc.clone()), &out_point(1))
        .unwrap();
    let output = incoming_output(1000, hash, enc);
    let id = match &output {
        ContractOrOfferOutput::Contract(c) => c.contract.contract_id(),
        _ => unreachable!(),
    };
    module.apply_output(&output, &out_point(2)).unwrap();
    let proposal = module.consensus_proposal();
    assert_eq!(proposal.len(), 1);
    assert_eq!(proposal[0].contract_id, id);
}

#[test]
fn incoming_contract_not_ready_before_decryption() {
    let crypto = test_crypto(1);
    let mut module = module_for_peer(&crypto, 0, 2);
    let plaintext = schnorr_key_bytes(11);
    let hash = sha256(&plaintext);
    let enc = encrypt(&crypto, &plaintext);
    module
        .apply_output(&offer_output(1000, hash.clone(), enc.clone()), &out_point(1))
        .unwrap();
    let output = incoming_output(1000, hash, enc);
    let id = match &output {
        ContractOrOfferOutput::Contract(c) => c.contract.contract_id(),
        _ => unreachable!(),
    };
    module.apply_output(&output, &out_point(2)).unwrap();
    assert_eq!(
        module.validate_input(&spend(id, 1000, None)),
        Err(LightningModuleError::ContractNotReady)
    );
}

#[test]
fn offer_fund_decrypt_happy_path() {
    let crypto = test_crypto(1);
    let mut module = module_for_peer(&crypto, 0, 2);
    let plaintext = schnorr_key_bytes(13);
    let hash = sha256(&plaintext);
    let op = out_point(2);
    let id = fund_and_decrypt(
        &crypto,
        &mut module,
        &plaintext,
        hash.clone(),
        &[0, 1],
        op.clone(),
    );
    match module.output_status(&op) {
        Some(OutputOutcome::Contract { id: out_id, outcome }) => {
            assert_eq!(out_id, id);
            match outcome {
                minimint_ln::contracts::ContractOutcome::Incoming(
                    DecryptedPreimage::Valid(p),
                ) => {
                    assert_eq!(p.key, plaintext);
                    // The revealed preimage hashes to the advertised hash.
                    assert_eq!(sha256(&p.key), hash);
                }
                other => panic!("unexpected outcome: {:?}", other),
            }
        }
        other => panic!("unexpected status: {:?}", other),
    }
    // The preimage's buyer can now spend the contract.
    let meta = module.validate_input(&spend(id, 1000, None)).unwrap();
    assert_eq!(meta.keys, vec![plaintext]);
}

#[test]
fn too_few_shares_leave_the_contract_pending() {
    let crypto = test_crypto(1);
    let mut module = module_for_peer(&crypto, 0, 2);
    let plaintext = schnorr_key_bytes(17);
    let hash = sha256(&plaintext);
    let enc = encrypt(&crypto, &plaintext);
    module
        .apply_output(&offer_output(1000, hash.clone(), enc.clone()), &out_point(1))
        .unwrap();
    let op = out_point(2);
    let output = incoming_output(1000, hash, enc.clone());
    let id = match &output {
        ContractOrOfferOutput::Contract(c) => c.contract.contract_id(),
        _ => unreachable!(),
    };
    module.apply_output(&output, &op).unwrap();
    let share0 = (
        0u64,
        DecryptionShareCI {
            contract_id: id.clone(),
            share: share_of(&crypto, 0, &enc),
        },
    );
    module.begin_consensus_epoch(&vec![share0.clone()]).unwrap();
    module.end_consensus_epoch().unwrap();
    match module.output_status(&op) {
        Some(OutputOutcome::Contract { outcome, .. }) => {
            assert!(matches!(
                outcome,
                minimint_ln::contracts::ContractOutcome::Incoming(DecryptedPreimage::Pending)
            ));
        }
        other => panic!("unexpected status: {:?}", other),
    }
    // Next epoch: peer 0 re-proposes, and a second peer's share arrives.
    let share1 = (
        1u64,
        DecryptionShareCI {
            contract_id: id.clone(),
            share: share_of(&crypto, 1, &enc),
        },
    );
    module.begin_consensus_epoch(&vec![share0, share1]).unwrap();
    module.end_consensus_epoch().unwrap();
    match module.output_status(&op) {
        Some(OutputOutcome::Contract { outcome, .. }) => match outcome {
            minimint_ln::contracts::ContractOutcome::Incoming(DecryptedPreimage::Valid(p)) => {
                assert_eq!(p.key, plaintext);
            }
            other => panic!("unexpected outcome: {:?}", other),
        },
        other => panic!("unexpected status: {:?}", other),
    }
}

#[test]
fn short_plaintext_decrypts_to_invalid() {
    let crypto = test_crypto(1);
    let mut module = module_for_peer(&crypto, 0, 2);
    let plaintext = b"only-31-bytes-long-plaintext-xx".to_vec();
    assert_eq!(plaintext.len(), 31);
    let hash = sha256(&plaintext);
    let op = out_point(2);
    let id = fund_and_decrypt(&crypto, &mut module, &plaintext, hash, &[0, 1], op.clone());
    match module.output_status(&op) {
        Some(OutputOutcome::Contract { outcome, .. }) => {
            assert!(matches!(
                outcome,
                minimint_ln::contracts::ContractOutcome::Incoming(DecryptedPreimage::Invalid)
            ));
        }
        other => panic!("unexpected status: {:?}", other),
    }
    // With an invalid preimage the gateway may claim the funds back.
    let meta = module.validate_input(&spend(id, 1000, None)).unwrap();
    assert_eq!(meta.keys, vec![vec![0x33u8; 32]]);
}

#[test]
fn non_key_plaintext_decrypts_to_invalid() {
    let crypto = test_crypto(1);
    let mut module = module_for_peer(&crypto, 0, 2);
    // 32 bytes, but not a valid x-only public key (x is above the field order).
    let plaintext = vec![0xFFu8; 32];
    let hash = sha256(&plaintext);
    let op = out_point(2);
    fund_and_decrypt(&crypto, &mut module, &plaintext, hash, &[0, 1], op.clone());
    match module.output_status(&op) {
        Some(OutputOutcome::Contract { outcome, .. }) => {
            assert!(matches!(
                outcome,
                minimint_ln::contracts::ContractOutcome::Incoming(DecryptedPreimage::Invalid)
            ));
        }
        other => panic!("unexpected status: {:?}", other),
    }
}

#[test]
fn hash_mismatch_decrypts_to_invalid() {
    let crypto = test_crypto(1);
    let mut module = module_for_peer(&crypto, 0, 2);
    let plaintext = schnorr_key_bytes(19);
    // The offer advertises a hash of something else.
    let hash = sha256(b"a different preimage");
    let op = out_point(2);
    fund_and_decrypt(&crypto, &mut module, &plaintext, hash, &[0, 1], op.clone());
    match module.output_status(&op) {
        Some(OutputOutcome::Contract { outcome, .. }) => {
            assert!(matches!(
                outcome,
                minimint_ln::contracts::ContractOutcome::Incoming(DecryptedPreimage::Invalid)
            ));
        }
        other => panic!("unexpected status: {:?}", other),
    }
}

#[test]
fn invalid_share_is_dropped() {
    let crypto = test_crypto(1);
    let mut module = module_for_peer(&crypto, 0, 2);
    let plaintext = schnorr_key_bytes(23);
    let hash = sha256(&plaintext);
    let enc = encrypt(&crypto, &plaintext);
    module
        .apply_output(&offer_output(1000, hash.clone(), enc.clone()), &out_point(1))
        .unwrap();
    let op = out_point(2);
    let output = incoming_output(1000, hash, enc.clone());
    let id = match &output {
        ContractOrOfferOutput::Contract(c) => c.contract.contract_id(),
        _ => unreachable!(),
    };
    module.apply_output(&output, &op).unwrap();
    // Peer 1 submits peer 2's share under its own name: it does not
    // verify against peer 1's key share and must be dropped.
    let bogus = (
        1u64,
        DecryptionShareCI {
            contract_id: id.clone(),
            share: share_of(&crypto, 2, &enc),
        },
    );
    let good = (
        0u64,
        DecryptionShareCI {
            contract_id: id,
            share: share_of(&crypto, 0, &enc),
        },
    );
    module.begin_consensus_epoch(&vec![good, bogus]).unwrap();
    module.end_consensus_epoch().unwrap();
    match module.output_status(&op) {
        Some(OutputOutcome::Contract { outcome, .. }) => {
            assert!(matches!(
                outcome,
                minimint_ln::contracts::ContractOutcome::Incoming(DecryptedPreimage::Pending)
            ));
        }
        other => panic!("unexpected status: {:?}", other),
    }
}

#[test]
fn share_for_unknown_contract_is_dropped() {
    let crypto = test_crypto(1);
    let mut module = module_for_peer(&crypto, 0, 2);
    let enc = encrypt(&crypto, b"12345678901234567890123456789012");
    let item = (
        0u64,
        DecryptionShareCI {
            contract_id: vec![5u8; 32],
            share: share_of(&crypto, 0, &enc),
        },
    );
    module.begin_consensus_epoch(&vec![item]).unwrap();
    assert_eq!(module.db.agreed_shares.len(), 0);
}

#[test]
fn output_status_of_unknown_out_point_is_none() {
    let module = module_for_peer(&test_crypto(1), 0, 2);
    assert!(module.output_status(&out_point(9)).is_none());
}

#[test]
fn block_height_defaults_to_zero() {
    let mut module = module_for_peer(&test_crypto(1), 0, 2);
    assert_eq!(module.block_height(), 0);
    set_block_height(&mut module, 42);
    assert_eq!(module.block_height(), 42);
}

#[test]
fn own_proposed_share_decrypts_with_a_peer() {
    let crypto = test_crypto(1);
    let mut module = module_for_peer(&crypto, 0, 2);
    let plaintext = schnorr_key_bytes(29);
    let hash = sha256(&plaintext);
    let enc = encrypt(&crypto, &plaintext);
    module
        .apply_output(&offer_output(1000, hash.clone(), enc.clone()), &out_point(1))
        .unwrap();
    let op = out_point(2);
    module
        .apply_output(&incoming_output(1000, hash, enc.clone()), &op)
        .unwrap();
    // This peer contributes the share it computed itself when funding
    // the contract; only the second peer's share is built externally.
    let own = module.consensus_proposal().remove(0);
    let other = DecryptionShareCI {
        contract_id: own.contract_id.clone(),
        share: share_of(&crypto, 1, &enc),
    };
    module.begin_consensus_epoch(&vec![(0u64, own), (1u64, other)]).unwrap();
    module.end_consensus_epoch().unwrap();
    match module.output_status(&op) {
        Some(OutputOutcome::Contract { outcome, .. }) => match outcome {
            minimint_ln::contracts::ContractOutcome::Incoming(DecryptedPreimage::Valid(p)) => {
                assert_eq!(p.key, plaintext);
            }
            other => panic!("unexpected outcome: {:?}", other),
        },
        other => panic!("unexpected status: {:?}", other),
    }
}

#[test]
fn corrupted_agreed_shares_surface_a_fatal_fault() {
    let crypto = test_crypto(1);
    let mut module = module_for_peer(&crypto, 0, 2);
    let plaintext = schnorr_key_bytes(31);
    let hash = sha256(&plaintext);
    let enc = encrypt(&crypto, &plaintext);
    module
        .apply_output(&offer_output(1000, hash.clone(), enc.clone()), &out_point(1))
        .unwrap();
    let output = incoming_output(1000, hash, enc);
    let id = match &output {
        ContractOrOfferOutput::Contract(c) => c.contract.contract_id(),
        _ => unreachable!(),
    };
    module.apply_output(&output, &out_point(2)).unwrap();
    // Corrupted replicated state: a threshold of share rows that are
    // not decryption shares at all. Combining fails, and the fault is
    // surfaced instead of being masked.
    module.db.agreed_shares.push(((id.clone(), 0), vec![1, 2, 3]));
    module.db.agreed_shares.push(((id.clone(), 1), vec![4, 5, 6]));
    assert_eq!(
        module.end_consensus_epoch(),
        Err(LightningModuleError::DecryptionFailed(id))
    );
}

#[test]
fn duplicate_share_in_one_epoch_fails_and_undoes_the_batch() {
    let crypto = test_crypto(1);
    let mut module = module_for_peer(&crypto, 0, 2);
    let plaintext = schnorr_key_bytes(37);
    let hash = sha256(&plaintext);
    let enc = encrypt(&crypto, &plaintext);
    module
        .apply_output(&offer_output(1000, hash.clone(), enc.clone()), &out_point(1))
        .unwrap();
    let output = incoming_output(1000, hash, enc.clone());
    let id = match &output {
        ContractOrOfferOutput::Contract(c) => c.contract.contract_id(),
        _ => unreachable!(),
    };
    module.apply_output(&output, &out_point(2)).unwrap();
    // Peer 0 submits two valid shares for the same contract in one
    // epoch: a protocol error, and the whole batch is undone.
    let item = |share: Vec<u8>| {
        (
            0u64,
            DecryptionShareCI {
                contract_id: id.clone(),
                share,
            },
        )
    };
    let first = item(share_of(&crypto, 0, &enc));
    let second = item(share_of(&crypto, 0, &enc));
    assert_eq!(
        module.begin_consensus_epoch(&vec![first, second]),
        Err(LightningModuleError::DuplicateDecryptionShare(
            id.clone(),
            0
        ))
    );
    assert_eq!(module.db.agreed_shares.len(), 0);
}

#[test]
fn funding_resets_a_submitted_preimage_state() {
    let crypto = test_crypto(1);
    let mut module = module_for_peer(&crypto, 0, 2);
    let plaintext = schnorr_key_bytes(41);
    let hash = sha256(&plaintext);
    let enc = encrypt(&crypto, &plaintext);
    module
        .apply_output(&offer_output(1000, hash.clone(), enc.clone()), &out_point(1))
        .unwrap();
    // The funder claims the preimage is already revealed; the module
    // discards that and stores the contract as pending.
    let output = contract_output(
        1000,
        Contract::Incoming(IncomingContract {
            hash,
            encrypted_preimage: enc,
            decrypted_preimage: DecryptedPreimage::Valid(minimint_ln::contracts::Preimage {
                key: plaintext,
            }),
            gateway_key: vec![0x33; 32],
        }),
    );
    let id = match &output {
        ContractOrOfferOutput::Contract(c) => c.contract.contract_id(),
        _ => unreachable!(),
    };
    let op = out_point(2);
    module.apply_output(&output, &op).unwrap();
    match &module.db.get_contract(&id).unwrap().contract {
        minimint_ln::contracts::FundedContract::Incoming(f) => {
            assert!(matches!(
                f.contract.decrypted_preimage,
                DecryptedPreimage::Pending
            ));
        }
        other => panic!("unexpected contract: {:?}", other),
    }
    match module.output_status(&op) {
        Some(OutputOutcome::Contract { outcome, .. }) => {
            assert!(matches!(
                outcome,
                minimint_ln::contracts::ContractOutcome::Incoming(DecryptedPreimage::Pending)
            ));
        }
        other => panic!("unexpected status: {:?}", other),
    }
    assert_eq!(
        module.validate_input(&spend(id, 1000, None)),
        Err(LightningModuleError::ContractNotReady)
    );
}

#[test]
fn funding_with_a_malformed_ciphertext_fails_at_apply() {
    let crypto = test_crypto(1);
    let mut module = module_for_peer(&crypto, 0, 2);
    let plaintext = schnorr_key_bytes(43);
    let hash = sha256(&plaintext);
    let enc = encrypt(&crypto, &plaintext);
    module
        .apply_output(&offer_output(1000, hash.clone(), enc), &out_point(1))
        .unwrap();
    // The funding contract reuses the offer's hash but carries garbage
    // instead of a ciphertext. Validation only checks the offer match,
    // so it passes; the applier then cannot compute a decryption share
    // and surfaces the fault with the state untouched.
    let output = incoming_output(1000, hash, vec![9, 9, 9]);
    let id = match &output {
        ContractOrOfferOutput::Contract(c) => c.contract.contract_id(),
        _ => unreachable!(),
    };
    assert_eq!(module.validate_output(&output), Ok(amount(1000)));
    assert_eq!(
        module.apply_output(&output, &out_point(2)),
        Err(LightningModuleError::DecryptionFailed(id.clone()))
    );
    assert!(module.db.get_contract(&id).is_none());
    assert_eq!(module.get_offers().len(), 1);
}
