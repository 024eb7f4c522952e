use std::collections::BTreeMap;

use minimint::amount::Amount;
use minimint::config::{MintConfig, MintGenParams, MintInit};
use minimint::db::{DbTransaction, MetricKind, MintAuditItemKey, OutPoint};
use minimint::mint::{
    Audit, FeeConsensus, Mint, MintInput, MintInputError, MintOutput, MintOutputError, Note,
    SignedBackupRequest,
};
use minimint::peers::PeerId;
use bls12_381::{G2Affine, G2Projective, Scalar};

const MINTS: usize = 5;

fn fee_free() -> FeeConsensus {
    FeeConsensus {
        note_issuance_abs: Amount::from_msats(0),
        note_spend_abs: Amount::from_msats(0),
    }
}

fn build_configs() -> Vec<(PeerId, MintConfig)> {
    let peers: Vec<PeerId> = (0..MINTS as u16).map(PeerId).collect();
    let params = MintGenParams {
        denominations: vec![1, 1024],
        fee_consensus: fee_free(),
        max_notes_per_denomination: 255,
    };
    MintInit.trusted_dealer_gen(&peers, &params)
}

fn secret_share(cfg: &MintConfig, denomination: u64) -> tbs::SecretKeyShare {
    let bytes = cfg
        .private
        .tbs_sks
        .iter()
        .find(|(tier, _)| *tier == denomination)
        .expect("the tier was generated")
        .1
        .clone();
    let arr: [u8; 32] = bytes.as_slice().try_into().unwrap();
    tbs::SecretKeyShare(bls12_381::Scalar::from_bytes(&arr).unwrap())
}

/// Issue a note for `denomination` the way a client would: blind a nonce,
/// gather a threshold of signature shares, aggregate and unblind.
fn issue_note(configs: &[(PeerId, MintConfig)], denomination: u64, nonce: &[u8]) -> Note {
    let blinding_key = tbs::BlindingKey::random();
    let blinded = tbs::blind_message(tbs::Message::from_bytes(nonce), blinding_key);
    let threshold = configs.len() - (configs.len() - 1) / 3;
    let shares: BTreeMap<u64, tbs::BlindedSignatureShare> = (1u64..)
        .zip(configs.iter().map(|(_, cfg)| {
            tbs::sign_blinded_msg(blinded, secret_share(cfg, denomination))
        }))
        .take(threshold)
        .collect();
    let blind_signature = tbs::aggregate_signature_shares(&shares);
    let signature = tbs::unblind_signature(blinding_key, blind_signature);
    Note {
        nonce: nonce.to_vec(),
        signature: bincode::serialize(&signature).unwrap(),
    }
}

#[test]
fn test_detect_double_spends() {
    let configs = build_configs();
    let even_denomination_amount = Amount::from_msats(1024);
    let mint = Mint::new(take_config(&configs, 0)).unwrap();
    let note = issue_note(&configs, 1024, b"unique-note-nonce");
    let input = MintInput {
        amount: even_denomination_amount,
        note,
    };

    let mut dbtx = DbTransaction::new();
    mint.process_input(&mut dbtx, &input)
        .expect("Spend of valid e-cash works");
    assert!(matches!(mint.process_input(&mut dbtx, &input), Err(_)));
}

fn take_config(configs: &[(PeerId, MintConfig)], index: usize) -> MintConfig {
    // Configurations hold only plain data; rebuild the one asked for.
    let (_, cfg) = &configs[index];
    MintConfig {
        consensus: minimint::config::MintConfigConsensus {
            peer_tbs_pks: cfg
                .consensus
                .peer_tbs_pks
                .iter()
                .map(|(p, table)| (*p, table.clone()))
                .collect(),
            fee_consensus: cfg.consensus.fee_consensus,
            max_notes_per_denomination: cfg.consensus.max_notes_per_denomination,
        },
        private: minimint::config::MintConfigPrivate {
            tbs_sks: cfg.private.tbs_sks.clone(),
        },
    }
}

#[test]
fn rejects_unknown_tier_and_bad_signature() {
    let configs = build_configs();
    let mint = Mint::new(take_config(&configs, 0)).unwrap();
    let note = issue_note(&configs, 1024, b"tier-test-nonce");
    let mut dbtx = DbTransaction::new();

    // Unknown denomination tier.
    let wrong_tier = MintInput {
        amount: Amount::from_msats(512),
        note: note.clone(),
    };
    assert!(matches!(
        mint.process_input(&mut dbtx, &wrong_tier),
        Err(MintInputError::InvalidAmountTier(a)) if a == Amount::from_msats(512)
    ));

    // A signature over another nonce does not verify.
    let forged = MintInput {
        amount: Amount::from_msats(1024),
        note: Note {
            nonce: b"a-different-nonce".to_vec(),
            signature: note.signature.clone(),
        },
    };
    assert!(matches!(
        mint.process_input(&mut dbtx, &forged),
        Err(MintInputError::InvalidSignature)
    ));
}

#[test]
fn issuance_signs_blinded_nonce_and_records_outcome() {
    let configs = build_configs();
    // One mint per peer; every peer signs the same blinded nonce through
    // the module, and the shares aggregate into a valid note.
    let mints: Vec<Mint> = (0..MINTS)
        .map(|i| Mint::new(take_config(&configs, i)).unwrap())
        .collect();
    let nonce = b"issued-through-module";
    let blinding_key = tbs::BlindingKey::random();
    let blinded = tbs::blind_message(tbs::Message::from_bytes(nonce), blinding_key);
    let blind_nonce = bincode::serialize(&blinded).unwrap();
    let threshold = MINTS - (MINTS - 1) / 3;

    let mut shares: BTreeMap<u64, tbs::BlindedSignatureShare> = BTreeMap::new();
    for (i, mint) in mints.iter().enumerate().take(threshold) {
        let mut dbtx = DbTransaction::new();
        let out_point = OutPoint {
            txid: vec![9; 32],
            out_idx: 0,
        };
        let output = MintOutput {
            amount: Amount::from_msats(1024),
            blind_nonce: blind_nonce.clone(),
        };
        mint.process_output(&mut dbtx, &output, out_point)
            .expect("issuance of a known tier works");
        let recorded = mint
            .output_status(
                &dbtx,
                &OutPoint {
                    txid: vec![9; 32],
                    out_idx: 0,
                },
            )
            .expect("the outcome was recorded");
        let share: tbs::BlindedSignatureShare = bincode::deserialize(&recorded).unwrap();
        shares.insert(i as u64 + 1, share);
    }
    let signature =
        tbs::unblind_signature(blinding_key, tbs::aggregate_signature_shares(&shares));

    // The aggregated note passes the very check `process_input` runs.
    let mint = &mints[0];
    let mut dbtx = DbTransaction::new();
    let input = MintInput {
        amount: Amount::from_msats(1024),
        note: Note {
            nonce: nonce.to_vec(),
            signature: bincode::serialize(&signature).unwrap(),
        },
    };
    mint.process_input(&mut dbtx, &input)
        .expect("a note issued through the module is spendable");
}

#[test]
fn duplicate_issuance_has_no_second_outcome() {
    let configs = build_configs();
    let mint = Mint::new(take_config(&configs, 0)).unwrap();
    let mut dbtx = DbTransaction::new();
    let output = MintOutput {
        amount: Amount::from_msats(1024),
        blind_nonce: vec![1, 2, 3],
    };
    let out_point = OutPoint {
        txid: vec![7; 32],
        out_idx: 3,
    };
    mint.process_output(&mut dbtx, &output, out_point).unwrap();
    // The outcome is recorded under the out point; issuing against an
    // unknown tier changes nothing.
    assert!(mint
        .output_status(
            &dbtx,
            &OutPoint {
                txid: vec![7; 32],
                out_idx: 3,
            },
        )
        .is_some());
    assert_eq!(
        mint.process_output(
            &mut dbtx,
            &MintOutput {
                amount: Amount::from_msats(77),
                blind_nonce: vec![4, 5, 6],
            },
            OutPoint {
                txid: vec![8; 32],
                out_idx: 0,
            },
        ),
        Err(MintOutputError::InvalidAmountTier(Amount::from_msats(77)))
    );
}

#[test]
fn audit_rolls_items_up_and_conserves_totals() {
    let configs = build_configs();
    let mint = Mint::new(take_config(&configs, 0)).unwrap();
    let mut dbtx = DbTransaction::new();

    let output = MintOutput {
        amount: Amount::from_msats(1024),
        blind_nonce: vec![1, 1, 2],
    };
    mint.process_output(
        &mut dbtx,
        &output,
        OutPoint {
            txid: vec![3; 32],
            out_idx: 1,
        },
    )
    .unwrap();
    let note = issue_note(&configs, 1024, b"note-for-audit");
    mint.process_input(
        &mut dbtx,
        &MintInput {
            amount: Amount::from_msats(1024),
            note,
        },
    )
    .unwrap();

    let mut audit = Audit::new();
    mint.audit(&mut dbtx, &mut audit);
    assert_eq!(audit.balances, vec![-1024, 1024]);

    // A second roll-up conserves the totals exactly.
    let mut audit2 = Audit::new();
    mint.audit(&mut dbtx, &mut audit2);
    assert_eq!(audit2.balances, vec![-1024, 1024]);

    // Two metric observations were scheduled for after the commit.
    let events = dbtx.metric_events();
    assert_eq!(events.len(), 2);
    assert_eq!(events[0].kind, MetricKind::IssuedEcash);
    assert_eq!(events[1].kind, MetricKind::RedeemedEcash);
}

#[test]
fn consensus_items_are_rejected() {
    let configs = build_configs();
    let mint = Mint::new(take_config(&configs, 0)).unwrap();
    let mut dbtx = DbTransaction::new();
    assert_eq!(mint.consensus_proposal(&dbtx).len(), 0);
    assert!(mint
        .process_consensus_item(&mut dbtx, minimint::mint::MintConsensusItem, PeerId(1))
        .is_err());
}

#[test]
fn validate_config_accepts_generated_and_rejects_foreign_keys() {
    let configs = build_configs();
    for i in 0..MINTS {
        let cfg = take_config(&configs, i);
        assert!(MintInit
            .validate_config(&PeerId(i as u16), &cfg)
            .is_ok());
        // The wrong identity holds another peer's public shares.
        let other = PeerId(((i + 1) % MINTS) as u16);
        assert!(MintInit.validate_config(&other, &cfg).is_err());
    }
}

#[test]
fn mint_creation_needs_own_key_among_pub_shares() {
    // Mix the private keys of one federation with the public shares of
    // another: no peer's shares match, and the mint cannot be built.
    let configs1 = build_configs();
    let configs2 = build_configs();
    let mixed = MintConfig {
        consensus: take_config(&configs2, 0).consensus,
        private: take_config(&configs1, 0).private,
    };
    assert!(matches!(
        Mint::new(mixed),
        Err(minimint::config::MintCreationError::OwnKeyNotFound)
    ));
}

#[test]
fn client_config_carries_the_aggregate_keys() {
    let configs = build_configs();
    let client_cfg = MintInit.get_client_config(&take_config(&configs, 0).consensus);
    let mint = Mint::new(take_config(&configs, 0)).unwrap();
    assert_eq!(client_cfg.tbs_pks, *mint.pub_key());
    assert_eq!(client_cfg.fee_consensus, fee_free());
}

fn signed_backup(seckey: &[u8; 32], timestamp: u64, payload: Vec<u8>) -> SignedBackupRequest {
    let keypair = secp256k1::Keypair::from_seckey_slice(secp256k1::SECP256K1, seckey).unwrap();
    let (xonly, _) = keypair.x_only_public_key();
    let id = xonly.serialize().to_vec();
    let mut bytes = id.clone();
    bytes.extend_from_slice(&timestamp.to_be_bytes());
    bytes.extend_from_slice(&payload);
    let digest = <bitcoin_hashes::sha256::Hash as bitcoin_hashes::Hash>::hash(&bytes);
    let msg = secp256k1::Message::from_digest_slice(
        &<bitcoin_hashes::sha256::Hash as bitcoin_hashes::Hash>::to_byte_array(digest),
    )
    .unwrap();
    let signature = secp256k1::SECP256K1.sign_schnorr_no_aux_rand(&msg, &keypair);
    SignedBackupRequest {
        id,
        timestamp,
        payload,
        signature: signature.as_ref().to_vec(),
    }
}

#[test]
fn backup_and_recover_round_trip() {
    let configs = build_configs();
    let mint = Mint::new(take_config(&configs, 0)).unwrap();
    let mut dbtx = DbTransaction::new();
    let seckey = [11u8; 32];

    let request = signed_backup(&seckey, 100, vec![1, 2, 3]);
    let id = request.id.clone();
    mint.handle_backup_request(&mut dbtx, request).unwrap();

    let snapshot = mint.handle_recover_request(&dbtx, &id).unwrap();
    assert_eq!(snapshot.timestamp, 100);
    assert_eq!(snapshot.data, vec![1, 2, 3]);

    // An equal or older timestamp is refused.
    let stale = signed_backup(&seckey, 100, vec![9]);
    assert_eq!(
        mint.handle_backup_request(&mut dbtx, stale),
        Err(minimint::mint::ApiRequestError::TimestampTooSmall)
    );

    // A newer snapshot overwrites.
    let fresh = signed_backup(&seckey, 101, vec![4]);
    mint.handle_backup_request(&mut dbtx, fresh).unwrap();
    assert_eq!(mint.handle_recover_request(&dbtx, &id).unwrap().data, vec![4]);

    // A broken signature never stores anything.
    let mut forged = signed_backup(&seckey, 102, vec![5]);
    forged.payload = vec![6];
    assert_eq!(
        mint.handle_backup_request(&mut dbtx, forged),
        Err(minimint::mint::ApiRequestError::InvalidRequest)
    );
}

#[test]
fn distributed_gen_agrees_with_validation() {
    // Simulate one finished key-generation instance for the single tier: a
    // degree-one polynomial whose commitments every peer sees, each peer
    // keeping the polynomial's value at its own point.
    let peers: Vec<PeerId> = (0..4u16).map(PeerId).collect();
    let params = MintGenParams {
        denominations: vec![1],
        fee_consensus: fee_free(),
        max_notes_per_denomination: 255,
    };
    let a0 = Scalar::from(5u64);
    let a1 = Scalar::from(7u64);
    let commitments: Vec<Vec<u8>> = vec![
        G2Affine::from(G2Projective::generator() * a0).to_compressed().to_vec(),
        G2Affine::from(G2Projective::generator() * a1).to_compressed().to_vec(),
    ];
    for (j, peer) in peers.iter().enumerate() {
        let x = Scalar::from(j as u64 + 1);
        let secret = a0 + a1 * x;
        let dkg = vec![minimint::config::DkgTierKeys {
            commitments: commitments.clone(),
            secret_share: secret.to_bytes().to_vec(),
        }];
        let cfg = MintInit.distributed_gen(&peers, &params, dkg);
        assert!(MintInit.validate_config(peer, &cfg).is_ok());
        assert!(Mint::new(cfg).is_ok());
    }
}

#[test]
fn audit_requires_no_open_items_to_change_totals() {
    // Rolling up an empty table writes zero totals and reports them.
    let configs = build_configs();
    let mint = Mint::new(take_config(&configs, 0)).unwrap();
    let mut dbtx = DbTransaction::new();
    let mut audit = Audit::new();
    mint.audit(&mut dbtx, &mut audit);
    assert_eq!(audit.balances, vec![0, 0]);
    let _ = MintAuditItemKey::IssuanceTotal;
}

#[test]
fn mint_creation_rejects_empty_and_inconsistent_tiers() {
    let configs = build_configs();
    let mut no_tiers = take_config(&configs, 0);
    no_tiers.private.tbs_sks.clear();
    assert!(matches!(
        Mint::new(no_tiers),
        Err(minimint::config::MintCreationError::NoTiers)
    ));

    let mut inconsistent = take_config(&configs, 0);
    inconsistent.consensus.peer_tbs_pks[1].1.pop();
    assert!(matches!(
        Mint::new(inconsistent),
        Err(minimint::config::MintCreationError::InconsistentTiers)
    ));
}

#[test]
fn validate_config_names_each_failure() {
    let configs = build_configs();
    let cfg = take_config(&configs, 0);
    assert!(matches!(
        MintInit.validate_config(&PeerId(99), &cfg),
        Err(minimint::config::MintConfigError::UnknownIdentity)
    ));
    assert!(matches!(
        MintInit.validate_config(&PeerId(1), &cfg),
        Err(minimint::config::MintConfigError::KeyMismatch)
    ));

    // A federation without the one-millisatoshi tier fails validation.
    let peers: Vec<PeerId> = (0..MINTS as u16).map(PeerId).collect();
    let params = MintGenParams {
        denominations: vec![1024],
        fee_consensus: fee_free(),
        max_notes_per_denomination: 255,
    };
    let no_msat = MintInit.trusted_dealer_gen(&peers, &params);
    assert!(matches!(
        MintInit.validate_config(&PeerId(0), &take_config(&no_msat, 0)),
        Err(minimint::config::MintConfigError::MissingMsatDenomination)
    ));
}

#[test]
fn module_versions_are_fixed() {
    let versions = MintInit.versions();
    assert_eq!(versions.len(), 1);
    assert_eq!(versions[0].major, 0);
    assert_eq!(versions[0].minor, 0);
    let api = MintInit.supported_api_versions();
    assert_eq!(api.module_consensus.major, 0);
}
