use bitcoin::secp256k1::{PublicKey as SecpKey, Secp256k1, SecretKey};
use channel_audit::channel::Htlc;
use channel_audit::funding::{check_transaction, funding_details, funding_txid};
use channel_audit::keys::{CommitmentKeys, CounterpartyKeys, HolderKeys, PublicKey};
use channel_audit::report::{feerate_sat_per_vb_ceil, pending_outgoing_sat, script_address, Chain};
use channel_audit::script::{htlc_output_script_of, to_local_script_of, to_remote_script_of};
use lightning::ln::chan_utils::{
    get_countersigner_payment_script, get_htlc_redeemscript, get_revokeable_redeemscript,
    HTLCOutputInCommitment, TxCreationKeys,
};
use lightning::ln::channel_keys::{DelayedPaymentBasepoint, HtlcBasepoint, RevocationBasepoint};
use lightning::types::features::ChannelTypeFeatures;
use lightning::types::payment::PaymentHash;

fn secp_key(seed: u8) -> SecpKey {
    let secret = SecretKey::from_slice(&[seed; 32]).unwrap();
    SecpKey::from_secret_key(&Secp256k1::new(), &secret)
}

fn key(seed: u8) -> PublicKey {
    PublicKey::from_bytes(secp_key(seed).serialize()).unwrap()
}

fn outside_keys() -> TxCreationKeys {
    TxCreationKeys::derive_new(
        &Secp256k1::new(),
        &secp_key(3),
        &DelayedPaymentBasepoint(secp_key(1)),
        &HtlcBasepoint(secp_key(2)),
        &RevocationBasepoint(secp_key(4)),
        &HtlcBasepoint(secp_key(5)),
    )
}

fn library_keys() -> CommitmentKeys {
    let holder = HolderKeys { delayed_payment_basepoint: key(1), htlc_basepoint: key(2) };
    let counterparty = CounterpartyKeys {
        revocation_basepoint: key(4),
        htlc_basepoint: key(5),
        payment_point: key(6),
    };
    CommitmentKeys::derive(&key(3), &holder, &counterparty)
}

fn sample_tx() -> bitcoin::Transaction {
    bitcoin::Transaction {
        version: bitcoin::transaction::Version::TWO,
        lock_time: bitcoin::absolute::LockTime::ZERO,
        input: vec![bitcoin::TxIn {
            previous_output: bitcoin::OutPoint { txid: bitcoin::Txid::from_raw_hash(bitcoin::hashes::Hash::from_byte_array([0x42; 32])), vout: 5 },
            script_sig: bitcoin::ScriptBuf::new(),
            sequence: bitcoin::Sequence::MAX,
            witness: bitcoin::Witness::new(),
        }],
        output: vec![
            bitcoin::TxOut {
                value: bitcoin::Amount::from_sat(1_000_000),
                script_pubkey: bitcoin::ScriptBuf::from_bytes(vec![0x00, 0x14, 1, 2, 3, 4, 5, 6, 7, 8, 9, 10, 11, 12, 13, 14, 15, 16, 17, 18, 19, 20]),
            },
            bitcoin::TxOut {
                value: bitcoin::Amount::from_sat(77),
                script_pubkey: bitcoin::ScriptBuf::from_bytes(vec![0x6a]),
            },
        ],
    }
}

#[test]
fn public_key_must_be_on_the_curve() {
    let bytes = secp_key(1).serialize();
    let k = PublicKey::from_bytes(bytes).unwrap();
    assert_eq!(k.to_bytes(), bytes);
    assert_eq!(PublicKey::from_bytes([0; 33]), None);
    let mut beyond_the_field = [0xffu8; 33];
    beyond_the_field[0] = 2;
    assert_eq!(PublicKey::from_bytes(beyond_the_field), None);
    let mut wrong_prefix = bytes;
    wrong_prefix[0] = 0x04;
    assert_eq!(PublicKey::from_bytes(wrong_prefix), None);
    let mut other_parity = bytes;
    other_parity[0] ^= 0x01;
    assert!(PublicKey::from_bytes(other_parity).is_some());
}

#[test]
fn derived_keys_are_those_of_the_protocol() {
    let outside = outside_keys();
    let keys = library_keys();
    assert_eq!(keys.per_commitment_point.to_bytes(), secp_key(3).serialize());
    assert_eq!(keys.revocation_key.to_bytes(), outside.revocation_key.0.serialize());
    assert_eq!(keys.broadcaster_htlc_key.to_bytes(), outside.broadcaster_htlc_key.0.serialize());
    assert_eq!(
        keys.countersignatory_htlc_key.to_bytes(),
        outside.countersignatory_htlc_key.0.serialize()
    );
    assert_eq!(
        keys.broadcaster_delayed_payment_key.to_bytes(),
        outside.broadcaster_delayed_payment_key.0.serialize()
    );
    assert_ne!(keys.revocation_key.to_bytes(), secp_key(4).serialize());
    assert_ne!(keys.broadcaster_htlc_key.to_bytes(), secp_key(2).serialize());
    assert_ne!(keys.broadcaster_htlc_key, keys.countersignatory_htlc_key);
}

#[test]
fn htlc_script_is_that_of_the_protocol() {
    let keys = library_keys();
    for anchors in [false, true] {
        for offered in [false, true] {
            let features = if anchors {
                ChannelTypeFeatures::anchors_zero_htlc_fee_and_dependencies()
            } else {
                ChannelTypeFeatures::only_static_remote_key()
            };
            let htlc = HTLCOutputInCommitment {
                offered,
                amount_msat: 2_000_000,
                cltv_expiry: 800_000,
                payment_hash: PaymentHash([0xaa; 32]),
                transaction_output_index: None,
            };
            let expected = get_htlc_redeemscript(&htlc, &features, &outside_keys()).to_p2wsh();
            let script =
                htlc_output_script_of(offered, 2_000_000, 800_000, &[0xaa; 32], anchors, &keys);
            assert_eq!(script, expected.into_bytes());
            assert_eq!(script.len(), 34);
            assert_eq!(&script[0..2], &[0x00, 0x20]);
        }
    }
    let a = htlc_output_script_of(true, 2_000_000, 800_000, &[0xaa; 32], false, &keys);
    let b = htlc_output_script_of(true, 2_000_000, 800_000, &[0xab; 32], false, &keys);
    let c = htlc_output_script_of(false, 2_000_000, 800_001, &[0xaa; 32], false, &keys);
    let d = htlc_output_script_of(false, 2_000_000, 800_000, &[0xaa; 32], false, &keys);
    assert_ne!(a, b);
    assert_ne!(c, d);
}

#[test]
fn balance_scripts_are_those_of_the_protocol() {
    let keys = library_keys();
    let outside = outside_keys();
    let expected = get_revokeable_redeemscript(
        &outside.revocation_key,
        144,
        &outside.broadcaster_delayed_payment_key,
    )
    .to_p2wsh();
    assert_eq!(to_local_script_of(&keys, 144), expected.into_bytes());
    assert_ne!(to_local_script_of(&keys, 144), to_local_script_of(&keys, 145));
    let plain = get_countersigner_payment_script(
        &ChannelTypeFeatures::only_static_remote_key(),
        &secp_key(6),
    );
    let anchored = get_countersigner_payment_script(
        &ChannelTypeFeatures::anchors_zero_htlc_fee_and_dependencies(),
        &secp_key(6),
    );
    assert_eq!(to_remote_script_of(false, &key(6)), plain.into_bytes());
    assert_eq!(to_remote_script_of(true, &key(6)), anchored.into_bytes());
    assert_eq!(to_remote_script_of(false, &key(6)).len(), 22);
    assert_ne!(to_remote_script_of(false, &key(6)), to_remote_script_of(false, &key(7)));
}

#[test]
fn funding_transaction_is_read_by_the_consensus_rules() {
    let tx = sample_tx();
    let bytes = bitcoin::consensus::encode::serialize(&tx);
    assert!(check_transaction(&bytes));
    let details = funding_details(&bytes).unwrap();
    assert_eq!(funding_txid(&bytes), Some(tx.compute_txid().to_string()));
    assert_eq!(funding_txid(&bytes).unwrap().len(), 64);
    assert_eq!(details.inputs.len(), 1);
    assert_eq!(details.inputs[0].vout, 5);
    assert_eq!(details.inputs[0].txid, tx.input[0].previous_output.txid.to_string());
    assert_eq!(details.outputs.len(), 2);
    assert_eq!(details.outputs[0].value_sat, 1_000_000);
    assert_eq!(details.outputs[0].script.len(), 22);
    assert_eq!(details.outputs[1].value_sat, 77);
    assert_eq!(details.outputs[1].script, vec![0x6a]);

    let mut longer = bytes.clone();
    longer.push(0);
    assert!(!check_transaction(&longer));
    assert_eq!(funding_details(&longer), None);
    assert_eq!(funding_txid(&longer), None);
    assert!(!check_transaction(&bytes[..bytes.len() - 1].to_vec()));
    assert!(!check_transaction(&vec![]));
    assert!(!check_transaction(&vec![1, 2, 3]));
}

#[test]
fn address_is_rendered_for_the_chain() {
    let script = sample_tx().output[0].script_pubkey.clone();
    let expected =
        bitcoin::Address::from_script(&script, bitcoin::Network::Regtest).unwrap().to_string();
    let rendered = script_address(Chain::Regtest, &script.to_bytes()).unwrap();
    assert_eq!(rendered, expected);
    assert!(rendered.starts_with("bcrt1q"));
    assert!(script_address(Chain::Bitcoin, &script.to_bytes()).unwrap().starts_with("bc1q"));
    assert!(script_address(Chain::Testnet, &script.to_bytes()).unwrap().starts_with("tb1q"));
    assert!(script_address(Chain::Signet, &script.to_bytes()).unwrap().starts_with("tb1q"));
    assert_eq!(script_address(Chain::Regtest, &vec![0x6a]), None);
    assert_eq!(script_address(Chain::Regtest, &vec![]), None);
    let to_local = to_local_script_of(&library_keys(), 144);
    assert_eq!(script_address(Chain::Regtest, &to_local).unwrap().len(), 64);
}

#[test]
fn feerate_is_rounded_up_per_virtual_byte() {
    assert_eq!(feerate_sat_per_vb_ceil(0), 0);
    assert_eq!(feerate_sat_per_vb_ceil(1), 1);
    assert_eq!(feerate_sat_per_vb_ceil(250), 1);
    assert_eq!(feerate_sat_per_vb_ceil(251), 2);
    assert_eq!(feerate_sat_per_vb_ceil(253), 2);
    assert_eq!(feerate_sat_per_vb_ceil(2_500), 10);
    assert_eq!(feerate_sat_per_vb_ceil(u32::MAX), 17_179_870);
    for kw in [0u32, 7, 249, 250, 251, 999, 1_000, 123_456] {
        assert_eq!(
            feerate_sat_per_vb_ceil(kw),
            bitcoin::FeeRate::from_sat_per_kwu(kw.into()).to_sat_per_vb_ceil()
        );
    }
}

#[test]
fn pending_outgoing_counts_offered_payments() {
    let htlc = |amount_msat, offered| Htlc {
        amount_msat,
        offered,
        expiry: 1,
        payment_hash: [0; 32],
        output_index: None,
    };
    assert_eq!(pending_outgoing_sat(&vec![]), 0);
    let htlcs = vec![htlc(1_999, true), htlc(5_000_000, false), htlc(2_000, true), htlc(999, true)];
    assert_eq!(pending_outgoing_sat(&htlcs), 3);
    let big = vec![htlc(u64::MAX, true); 3];
    assert_eq!(pending_outgoing_sat(&big), 3 * (u64::MAX / 1000) as u128);
}
