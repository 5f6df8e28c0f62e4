use bitcoin::secp256k1::{PublicKey as SecpKey, Secp256k1, SecretKey};
use channel_audit::canonical::CommitmentOutput;
use channel_audit::channel::{ChannelFeatures, ChannelRecord, ChannelTypeConfig, Htlc};
use channel_audit::commitment::{
    build_commitment, commitment_fee, htlc_is_trimmed, htlc_tx_fee, settle_balances, Balances,
    BuiltCommitment,
};
use channel_audit::error::Error;
use channel_audit::keys::{CounterpartyKeys, HolderKeys, PublicKey};

fn key(seed: u8) -> PublicKey {
    let secret = SecretKey::from_slice(&[seed; 32]).unwrap();
    let point = SecpKey::from_secret_key(&Secp256k1::new(), &secret);
    PublicKey::from_bytes(point.serialize()).unwrap()
}

fn funding_tx_bytes() -> Vec<u8> {
    let tx = bitcoin::Transaction {
        version: bitcoin::transaction::Version::TWO,
        lock_time: bitcoin::absolute::LockTime::ZERO,
        input: vec![bitcoin::TxIn::default()],
        output: vec![bitcoin::TxOut {
            value: bitcoin::Amount::from_sat(1_000_000),
            script_pubkey: bitcoin::ScriptBuf::new(),
        }],
    };
    bitcoin::consensus::encode::serialize(&tx)
}

fn holder_keys() -> HolderKeys {
    HolderKeys { delayed_payment_basepoint: key(1), htlc_basepoint: key(2) }
}

fn record(value_to_self_msat: u64, htlcs: Vec<Htlc>) -> ChannelRecord {
    ChannelRecord {
        channel_id: [7; 32],
        channel_keys_id: [8; 32],
        features: ChannelFeatures { static_remote_key: true, anchors_zero_fee_htlc_tx: false },
        is_outbound: false,
        funding_sat: 1_000_000,
        value_to_self_msat,
        funding_tx: Some(funding_tx_bytes()),
        commitment_number: 42,
        commitment_point: key(3),
        counterparty: CounterpartyKeys {
            revocation_basepoint: key(4),
            htlc_basepoint: key(5),
            payment_point: key(6),
        },
        contest_delay: 144,
        holder_reserve_sat: None,
        counterparty_reserve_sat: None,
        htlcs,
    }
}

fn config(feerate_per_kw: u32) -> ChannelTypeConfig {
    ChannelTypeConfig { anchors_zero_fee_htlc_tx: false, feerate_per_kw, dust_limit_sat: 354 }
}

fn htlc(amount_msat: u64, offered: bool, hash: u8) -> Htlc {
    Htlc { amount_msat, offered, expiry: 800_000, payment_hash: [hash; 32], output_index: None }
}

fn pairs(built: &BuiltCommitment) -> Vec<(u64, Vec<u8>)> {
    built.outputs.iter().map(|o| (o.value_sat, o.script.clone())).collect()
}

fn conserved(built: &BuiltCommitment, funding_sat: u64) -> bool {
    let htlc_total: u64 =
        built.outputs.iter().filter(|o| o.htlc.is_some()).map(|o| o.value_sat).sum();
    built.to_local_sat + built.to_remote_sat + htlc_total + built.total_fee_sat == funding_sat
}

#[test]
fn two_outputs_without_htlcs() {
    let rec = record(600_000_000, vec![]);
    let built = build_commitment(&rec, &holder_keys(), &config(691), false, true).unwrap();
    assert_eq!(built.outputs.len(), 2);
    assert_eq!(built.outputs.iter().map(|o| o.value_sat).sum::<u64>(), 999_500);
    assert_eq!(built.total_fee_sat, 500);
    assert_eq!(built.to_local_sat, 600_000);
    assert_eq!(built.to_remote_sat, 399_500);
    assert_eq!(built.feerate_per_kw, 691);
    assert_eq!(built.outputs[0].value_sat, 399_500);
    assert_eq!(built.outputs[1].value_sat, 600_000);
    assert!(built.outputs.iter().all(|o| o.htlc.is_none()));
    assert!(built.htlcs.is_empty());
    assert_eq!(built.outbound_capacity_sat, 600_000);
    assert_eq!(built.inbound_capacity_sat, 399_500);
}

#[test]
fn funder_pays_the_fee() {
    let rec = record(600_500_000, vec![]);
    let built = build_commitment(&rec, &holder_keys(), &config(691), true, true).unwrap();
    assert_eq!(built.to_local_sat, 600_000);
    assert_eq!(built.to_remote_sat, 399_500);
    assert_eq!(built.total_fee_sat, 500);
    let other = build_commitment(&rec, &holder_keys(), &config(691), false, true).unwrap();
    assert_eq!(other.to_local_sat, 600_500);
    assert_eq!(other.to_remote_sat, 399_000);
    assert_eq!(other.total_fee_sat, 500);
}

#[test]
fn offered_htlc_gets_an_output() {
    let rec = record(600_000_000, vec![htlc(2_000_000, true, 0xaa)]);
    let built = build_commitment(&rec, &holder_keys(), &config(253), false, true).unwrap();
    assert_eq!(built.outputs.len(), 3);
    assert_eq!(built.htlcs.len(), 1);
    let index = built.htlcs[0].output_index.unwrap() as usize;
    assert_eq!(index, 0);
    assert_eq!(built.outputs[index].htlc, Some(0));
    assert_eq!(built.outputs[index].value_sat, 2_000);
    // fee: 253 * (724 + 172) / 1000 = 226, paid by the other party
    assert_eq!(built.to_local_sat, 598_000);
    assert_eq!(built.to_remote_sat, 400_000 - 226);
    assert_eq!(built.total_fee_sat, 226);
    assert!(conserved(&built, 1_000_000));
    assert_eq!(built.outputs[1].value_sat, 399_774);
    assert_eq!(built.outputs[2].value_sat, 598_000);
}

#[test]
fn dust_htlc_is_trimmed_but_netted() {
    let rec = record(600_000_000, vec![htlc(100_999, true, 1), htlc(520_999, false, 2)]);
    for verbose in [true, false] {
        let built = build_commitment(&rec, &holder_keys(), &config(253), true, verbose).unwrap();
        assert_eq!(built.outputs.len(), 2);
        // fee: 253 * 724 / 1000 = 183
        assert_eq!(built.to_local_sat, 599_899 - 183);
        assert_eq!(built.to_remote_sat, 399_479);
        assert_eq!(built.total_fee_sat, 1_000_000 - 599_716 - 399_479);
        assert!(conserved(&built, 1_000_000));
        if verbose {
            assert_eq!(built.htlcs.len(), 2);
            assert!(built.htlcs.iter().all(|h| h.output_index.is_none()));
            assert_eq!(built.htlcs[0].amount_msat, 100_999);
        } else {
            assert!(built.htlcs.is_empty());
        }
    }
}

#[test]
fn dust_threshold_depends_on_direction_and_feerate() {
    let cfg = config(1000);
    // offered: 354 + 1000 * 663 / 1000 = 1017; received: 354 + 703 = 1057
    assert_eq!(htlc_tx_fee(1000, false, true), 663);
    assert_eq!(htlc_tx_fee(1000, false, false), 703);
    assert_eq!(htlc_tx_fee(1000, true, true), 0);
    assert_eq!(htlc_tx_fee(999, false, true), 662);
    assert!(htlc_is_trimmed(&htlc(1_016_999, true, 0), &cfg, false));
    assert!(!htlc_is_trimmed(&htlc(1_017_000, true, 0), &cfg, false));
    assert!(htlc_is_trimmed(&htlc(1_056_999, false, 0), &cfg, false));
    assert!(!htlc_is_trimmed(&htlc(1_057_000, false, 0), &cfg, false));
    assert!(htlc_is_trimmed(&htlc(353_999, false, 0), &cfg, true));
    assert!(!htlc_is_trimmed(&htlc(354_000, false, 0), &cfg, true));
}

#[test]
fn commitment_fee_follows_the_weight() {
    assert_eq!(commitment_fee(1000, false, 0), 724);
    assert_eq!(commitment_fee(1000, false, 2), 1068);
    assert_eq!(commitment_fee(1000, true, 0), 1124);
    assert_eq!(commitment_fee(253, false, 3), 253 * (724 + 3 * 172) / 1000);
    assert_eq!(commitment_fee(0, true, 7), 0);
    assert_eq!(
        commitment_fee(u32::MAX, true, usize::MAX),
        u32::MAX as u128 * (1124 + 172 * usize::MAX as u128) / 1000
    );
}

#[test]
fn every_output_is_above_its_dust_threshold() {
    let htlcs = vec![
        htlc(400_000, true, 1),
        htlc(1_016_000, true, 2),
        htlc(1_017_000, true, 3),
        htlc(1_056_000, false, 4),
        htlc(1_057_000, false, 5),
        htlc(50_000_000, false, 6),
    ];
    let rec = record(600_000_000, htlcs.clone());
    let cfg = config(1000);
    let built = build_commitment(&rec, &holder_keys(), &cfg, true, true).unwrap();
    assert_eq!(built.htlcs.len(), 6);
    for output in &built.outputs {
        let threshold = match output.htlc {
            Some(i) => 354 + htlc_tx_fee(1000, false, htlcs[i].offered),
            None => 354,
        };
        assert!(output.value_sat >= threshold);
    }
    let placed: Vec<bool> = built.htlcs.iter().map(|h| h.output_index.is_some()).collect();
    assert_eq!(placed, vec![false, false, true, false, true, true]);
    for (i, h) in built.htlcs.iter().enumerate() {
        if let Some(p) = h.output_index {
            assert_eq!(built.outputs[p as usize].htlc, Some(i));
            assert_eq!(built.outputs[p as usize].value_sat, h.amount_msat / 1000);
        }
    }
    assert_eq!(built.outputs.len(), 5);
    assert!(conserved(&built, 1_000_000));
    let quiet = build_commitment(&rec, &holder_keys(), &cfg, true, false).unwrap();
    assert_eq!(quiet.htlcs.len(), 3);
    assert_eq!(quiet.outputs, built.outputs);
}

#[test]
fn outputs_are_ordered_by_value_then_script() {
    let htlcs = vec![
        htlc(5_000_000, true, 9),
        htlc(5_000_000, false, 3),
        htlc(5_000_000, true, 1),
        htlc(3_000_000, false, 7),
    ];
    let rec = record(600_000_000, htlcs);
    let built = build_commitment(&rec, &holder_keys(), &config(253), true, true).unwrap();
    let listed = pairs(&built);
    assert_eq!(listed.len(), 6);
    let mut sorted = listed.clone();
    sorted.sort();
    assert_eq!(listed, sorted);
    assert_eq!(listed[0].0, 3_000);
    assert_eq!(listed[1].0, 5_000);
    assert_eq!(listed[3].0, 5_000);
}

#[test]
fn reordering_htlcs_keeps_the_outputs() {
    let a = htlc(5_000_000, true, 9);
    let b = htlc(5_000_000, false, 3);
    let c = htlc(100_000, true, 1);
    let d = htlc(3_000_000, false, 7);
    let first = record(600_000_000, vec![a, b, c, d]);
    let second = record(600_000_000, vec![d, c, b, a]);
    let x = build_commitment(&first, &holder_keys(), &config(500), false, true).unwrap();
    let y = build_commitment(&second, &holder_keys(), &config(500), false, true).unwrap();
    assert_eq!(pairs(&x), pairs(&y));
    assert_eq!(x.to_local_sat, y.to_local_sat);
    assert_eq!(x.to_remote_sat, y.to_remote_sat);
    assert_eq!(x.total_fee_sat, y.total_fee_sat);
    assert_eq!(x.outputs.len(), 5);
}

#[test]
fn balance_below_dust_has_no_output() {
    let rec = record(999_700_000, vec![]);
    let built = build_commitment(&rec, &holder_keys(), &config(0), true, true).unwrap();
    assert_eq!(built.to_remote_sat, 0);
    assert_eq!(built.to_local_sat, 999_700);
    assert_eq!(built.outputs.len(), 1);
    assert_eq!(built.total_fee_sat, 300);
    assert!(conserved(&built, 1_000_000));
}

#[test]
fn underflow_is_reported() {
    let cfg = config(691);
    let keys = holder_keys();
    let too_much = record(1_000_000_001, vec![]);
    assert_eq!(build_commitment(&too_much, &keys, &cfg, true, true), Err(Error::BalanceUnderflow));
    let offered = record(1_000_000, vec![htlc(1_000_001, true, 1)]);
    assert_eq!(build_commitment(&offered, &keys, &cfg, false, true), Err(Error::BalanceUnderflow));
    let received = record(999_000_000, vec![htlc(1_000_001, false, 1)]);
    assert_eq!(build_commitment(&received, &keys, &cfg, true, true), Err(Error::BalanceUnderflow));
    let no_fee = record(499_000, vec![]);
    assert_eq!(build_commitment(&no_fee, &keys, &cfg, true, true), Err(Error::BalanceUnderflow));
    assert!(build_commitment(&no_fee, &keys, &cfg, false, true).is_ok());
    assert_eq!(settle_balances(&no_fee, &cfg, true), Err(Error::BalanceUnderflow));
    assert_eq!(
        settle_balances(&no_fee, &cfg, false),
        Ok(Balances { to_local_sat: 499, to_remote_sat: 999_001, total_fee_sat: 500 })
    );
}

#[test]
fn reserve_reduces_capacity_only() {
    let mut rec = record(600_000_000, vec![]);
    rec.holder_reserve_sat = Some(10_000);
    rec.counterparty_reserve_sat = Some(399_500);
    let built = build_commitment(&rec, &holder_keys(), &config(691), false, true).unwrap();
    assert_eq!(built.to_local_sat, 600_000);
    assert_eq!(built.outbound_capacity_sat, 590_000);
    assert_eq!(built.inbound_capacity_sat, 0);
    assert_eq!(built.outputs[1].value_sat, 600_000);
    rec.counterparty_reserve_sat = Some(399_501);
    assert_eq!(
        build_commitment(&rec, &holder_keys(), &config(691), false, true),
        Err(Error::BalanceUnderflow)
    );
    rec.counterparty_reserve_sat = None;
    rec.holder_reserve_sat = Some(600_001);
    assert_eq!(
        build_commitment(&rec, &holder_keys(), &config(691), false, true),
        Err(Error::BalanceUnderflow)
    );
}

#[test]
fn missing_funding_transaction_is_reported() {
    let mut rec = record(1_000_000_001, vec![]);
    rec.funding_tx = None;
    assert_eq!(
        build_commitment(&rec, &holder_keys(), &config(691), true, true),
        Err(Error::NoFundingTransaction)
    );
}

#[test]
fn anchors_change_fee_and_scripts() {
    let mut rec = record(600_000_000, vec![htlc(400_000, true, 1)]);
    let mut cfg = config(1000);
    let plain = build_commitment(&rec, &holder_keys(), &cfg, true, true).unwrap();
    assert_eq!(plain.outputs.len(), 2);
    assert_eq!(plain.total_fee_sat, 724 + 400);
    rec.features.anchors_zero_fee_htlc_tx = true;
    cfg.anchors_zero_fee_htlc_tx = true;
    let anchored = build_commitment(&rec, &holder_keys(), &cfg, true, true).unwrap();
    assert_eq!(anchored.outputs.len(), 3);
    assert_eq!(anchored.total_fee_sat, 1124 + 172);
    assert_eq!(anchored.outputs[0], CommitmentOutput {
        value_sat: 400,
        script: anchored.outputs[0].script.clone(),
        htlc: Some(0),
    });
    let plain_remote = plain.outputs.iter().find(|o| o.value_sat == 400_000).unwrap();
    let anchored_remote = anchored.outputs.iter().find(|o| o.value_sat == 400_000).unwrap();
    assert_eq!(plain_remote.script.len(), 22);
    assert_eq!(anchored_remote.script.len(), 34);
}
