use bitcoin::secp256k1::{PublicKey as SecpKey, Secp256k1, SecretKey};
use channel_audit::channel::{
    decode_channel, read_features, read_funding_tx, read_public_key, ChannelFeatures,
    ChannelRecord, ChannelTypeConfig, Htlc,
};
use channel_audit::envelope::{parse_snapshot, Snapshot, SnapshotHeader};
use channel_audit::error::{DecodeError, Error};
use channel_audit::keys::{CounterpartyKeys, PublicKey};
use channel_audit::wire::{put_u64, Reader, WireElement};

fn key(seed: u8) -> PublicKey {
    let secret = SecretKey::from_slice(&[seed; 32]).unwrap();
    let point = SecpKey::from_secret_key(&Secp256k1::new(), &secret);
    PublicKey::from_bytes(point.serialize()).unwrap()
}

fn funding_tx_bytes() -> Vec<u8> {
    let tx = bitcoin::Transaction {
        version: bitcoin::transaction::Version::TWO,
        lock_time: bitcoin::absolute::LockTime::ZERO,
        input: vec![bitcoin::TxIn::default()],
        output: vec![bitcoin::TxOut {
            value: bitcoin::Amount::from_sat(1_000_000),
            script_pubkey: bitcoin::ScriptBuf::new(),
        }],
    };
    bitcoin::consensus::encode::serialize(&tx)
}

fn plain_config() -> ChannelTypeConfig {
    ChannelTypeConfig { anchors_zero_fee_htlc_tx: false, feerate_per_kw: 253, dust_limit_sat: 354 }
}

fn anchor_config() -> ChannelTypeConfig {
    ChannelTypeConfig { anchors_zero_fee_htlc_tx: true, feerate_per_kw: 253, dust_limit_sat: 354 }
}

fn record(seed: u8) -> ChannelRecord {
    ChannelRecord {
        channel_id: [seed; 32],
        channel_keys_id: [seed.wrapping_add(1); 32],
        features: ChannelFeatures { static_remote_key: true, anchors_zero_fee_htlc_tx: false },
        is_outbound: seed % 2 == 0,
        funding_sat: 1_000_000,
        value_to_self_msat: 600_000_123,
        funding_tx: Some(funding_tx_bytes()),
        commitment_number: 0xffff_ffff_fffe,
        commitment_point: key(3),
        counterparty: CounterpartyKeys {
            revocation_basepoint: key(4),
            htlc_basepoint: key(5),
            payment_point: key(6),
        },
        contest_delay: 144,
        holder_reserve_sat: Some(10_000),
        counterparty_reserve_sat: None,
        htlcs: vec![
            Htlc {
                amount_msat: 2_000_000,
                offered: true,
                expiry: 800_000,
                payment_hash: [0xaa; 32],
                output_index: None,
            },
            Htlc {
                amount_msat: u64::MAX,
                offered: false,
                expiry: u32::MAX,
                payment_hash: [0x55; 32],
                output_index: Some(7),
            },
        ],
    }
}

fn header() -> SnapshotHeader {
    SnapshotHeader {
        version: 1,
        min_version: 1,
        chain_hash: [0x11; 32],
        best_block_height: 123_456,
        best_block_hash: [0x22; 32],
    }
}

fn snapshot_bytes(channels: Vec<ChannelRecord>) -> Vec<u8> {
    let mut out = Vec::new();
    Snapshot { header: header(), channels }.encode(&mut out);
    out
}

#[test]
fn channel_record_round_trip() {
    let written = record(9);
    let mut bytes = Vec::new();
    written.encode(&mut bytes);
    let mut r = Reader::new(&bytes);
    let decoded = decode_channel(&mut r, &plain_config()).unwrap();
    assert_eq!(decoded, written);
    assert_eq!(r.position(), bytes.len());
    assert_eq!(r.remaining(), 0);
}

#[test]
fn channel_record_round_trip_without_optional_fields() {
    let mut written = record(2);
    written.funding_tx = None;
    written.holder_reserve_sat = None;
    written.counterparty_reserve_sat = Some(u64::MAX);
    written.htlcs = vec![];
    written.features.anchors_zero_fee_htlc_tx = true;
    let mut bytes = vec![0xee, 0xee];
    written.encode(&mut bytes);
    assert_eq!(bytes.len(), 2 + 82 + 1 + 142 + 1 + 9 + 8);
    bytes.push(0x99);
    let mut r = Reader::new(&bytes);
    assert_eq!(r.read_u16(), Ok(0xeeee));
    let decoded = decode_channel(&mut r, &anchor_config()).unwrap();
    assert_eq!(decoded, written);
    assert_eq!(r.remaining(), 1);
}

#[test]
fn record_layout_is_fixed() {
    let mut bytes = Vec::new();
    record(9).encode(&mut bytes);
    assert_eq!(&bytes[0..32], &[9u8; 32]);
    assert_eq!(&bytes[32..64], &[10u8; 32]);
    assert_eq!(bytes[64], 1);
    assert_eq!(bytes[65], 0);
    assert_eq!(&bytes[66..74], &1_000_000u64.to_be_bytes());
    assert_eq!(&bytes[74..82], &600_000_123u64.to_be_bytes());
    assert_eq!(bytes[82], 1);
    let tx = funding_tx_bytes();
    assert_eq!(&bytes[83..91], &(tx.len() as u64).to_be_bytes());
    assert_eq!(&bytes[91..91 + tx.len()], &tx[..]);
    let material = 91 + tx.len();
    assert_eq!(&bytes[material..material + 8], &0xffff_ffff_fffeu64.to_be_bytes());
    assert_eq!(&bytes[material + 8..material + 41], &key(3).to_bytes());
    assert_eq!(&bytes[material + 140..material + 142], &144u16.to_be_bytes());
    let htlcs = material + 142 + 9 + 1;
    assert_eq!(&bytes[htlcs..htlcs + 8], &2u64.to_be_bytes());
    assert_eq!(bytes.len(), htlcs + 8 + 46 + 54);
}

#[test]
fn htlc_round_trip() {
    let h = Htlc {
        amount_msat: 0x0102_0304_0506_0708,
        offered: true,
        expiry: 0x0a0b_0c0d,
        payment_hash: [0x77; 32],
        output_index: Some(3),
    };
    let mut bytes = Vec::new();
    h.encode(&mut bytes);
    assert_eq!(bytes.len(), 54);
    assert_eq!(&bytes[0..13], &[1, 2, 3, 4, 5, 6, 7, 8, 1, 0x0a, 0x0b, 0x0c, 0x0d]);
    let mut r = Reader::new(&bytes);
    assert_eq!(Htlc::decode(&mut r), Ok(h));
    let mut r = Reader::new(&bytes[..53]);
    assert_eq!(Htlc::decode(&mut r), Err(DecodeError::UnexpectedEndOfData));
}

#[test]
fn empty_snapshot_has_no_channels() {
    let bytes = snapshot_bytes(vec![]);
    assert_eq!(bytes.len(), 78);
    let snapshot = parse_snapshot(&bytes, &plain_config()).unwrap();
    assert!(snapshot.channels.is_empty());
    assert_eq!(snapshot.header, header());
}

#[test]
fn snapshot_round_trip() {
    let mut second = record(4);
    second.funding_tx = None;
    let channels = vec![record(1), second, record(7)];
    let mut bytes = snapshot_bytes(channels.clone());
    let parsed = parse_snapshot(&bytes, &plain_config()).unwrap();
    assert_eq!(parsed.header, header());
    assert_eq!(parsed.channels, channels);
    bytes.extend_from_slice(&[0xde, 0xad, 0xbe, 0xef]);
    assert_eq!(parse_snapshot(&bytes, &plain_config()).unwrap().channels, channels);
}

#[test]
fn unsupported_version_fails_first() {
    let cfg = plain_config();
    assert_eq!(parse_snapshot(&[0, 1], &cfg), Err(Error::UnsupportedFormatVersion));
    assert_eq!(parse_snapshot(&[1, 2], &cfg), Err(Error::UnsupportedFormatVersion));
    assert_eq!(parse_snapshot(&[9, 9], &cfg), Err(Error::UnsupportedFormatVersion));
    let mut bytes = snapshot_bytes(vec![record(1)]);
    bytes[1] = 2;
    assert_eq!(parse_snapshot(&bytes, &cfg), Err(Error::UnsupportedFormatVersion));
    bytes[1] = 0;
    bytes[0] = 200;
    assert!(parse_snapshot(&bytes, &cfg).is_ok());
    assert_eq!(parse_snapshot(&[1], &cfg), Err(Error::UnexpectedEndOfData));
    assert_eq!(parse_snapshot(&[], &cfg), Err(Error::UnexpectedEndOfData));
    assert_eq!(parse_snapshot(&[1, 1], &cfg), Err(Error::UnexpectedEndOfData));
}

#[test]
fn truncated_snapshot_is_an_error() {
    let bytes = snapshot_bytes(vec![record(1), record(2)]);
    let first_len = {
        let mut one = Vec::new();
        record(1).encode(&mut one);
        one.len()
    };
    assert!(parse_snapshot(&bytes, &plain_config()).is_ok());
    for k in 0..bytes.len() {
        let result = parse_snapshot(&bytes[..k], &plain_config());
        let expected_index = if k < 78 + first_len { 0 } else { 1 };
        match result {
            Err(Error::UnexpectedEndOfData) => assert!(k < 78),
            Err(Error::MalformedChannelRecord { index, cause }) => {
                assert!(k >= 78);
                assert_eq!(index, expected_index);
                assert!(
                    cause == DecodeError::UnexpectedEndOfData || cause == DecodeError::InvalidLength
                );
            }
            other => panic!("prefix of {} bytes gave {:?}", k, other),
        }
    }
}

#[test]
fn declared_count_must_be_met() {
    let mut bytes = snapshot_bytes(vec![record(1)]);
    bytes[77] = 2;
    assert_eq!(
        parse_snapshot(&bytes, &plain_config()),
        Err(Error::MalformedChannelRecord { index: 1, cause: DecodeError::UnexpectedEndOfData })
    );
    let mut huge = snapshot_bytes(vec![]);
    for b in &mut huge[70..78] {
        *b = 0xff;
    }
    assert_eq!(
        parse_snapshot(&huge, &plain_config()),
        Err(Error::MalformedChannelRecord { index: 0, cause: DecodeError::UnexpectedEndOfData })
    );
}

#[test]
fn malformed_record_names_its_index_and_cause() {
    let cfg = plain_config();
    let good = snapshot_bytes(vec![record(1), record(2)]);
    let mut one = Vec::new();
    record(1).encode(&mut one);
    let second = 78 + one.len();
    let tx_len = funding_tx_bytes().len();

    let mut bytes = good.clone();
    bytes[second + 64] = 3;
    assert_eq!(
        parse_snapshot(&bytes, &cfg),
        Err(Error::MalformedChannelRecord { index: 1, cause: DecodeError::UnsupportedChannelType })
    );
    assert!(parse_snapshot(&bytes, &anchor_config()).is_ok());
    for flags in [0u8, 2, 4, 255] {
        bytes[second + 64] = flags;
        assert_eq!(
            parse_snapshot(&bytes, &anchor_config()),
            Err(Error::MalformedChannelRecord {
                index: 1,
                cause: DecodeError::UnsupportedChannelType
            })
        );
    }

    let mut bytes = good.clone();
    bytes[78 + 65] = 2;
    assert_eq!(
        parse_snapshot(&bytes, &cfg),
        Err(Error::MalformedChannelRecord { index: 0, cause: DecodeError::InvalidValue })
    );

    let mut bytes = good.clone();
    bytes[78 + 83] = 0x01;
    assert_eq!(
        parse_snapshot(&bytes, &cfg),
        Err(Error::MalformedChannelRecord { index: 0, cause: DecodeError::InvalidLength })
    );

    let mut bytes = good.clone();
    bytes[78 + 91] ^= 0xff;
    bytes[78 + 95] = 0xfd;
    assert_eq!(
        parse_snapshot(&bytes, &cfg),
        Err(Error::MalformedChannelRecord { index: 0, cause: DecodeError::InvalidTransaction })
    );

    let mut bytes = good.clone();
    bytes[second + 91 + tx_len + 8] = 0x05;
    assert_eq!(
        parse_snapshot(&bytes, &cfg),
        Err(Error::MalformedChannelRecord { index: 1, cause: DecodeError::InvalidPublicKey })
    );
}

#[test]
fn sequence_count_must_fit_the_rest() {
    let mut bytes = Vec::new();
    put_u64(&mut bytes, 3);
    bytes.extend_from_slice(&[0, 0]);
    let mut r = Reader::new(&bytes);
    assert_eq!(r.read_seq::<Htlc>(), Err(DecodeError::InvalidLength));
    let mut bytes = Vec::new();
    put_u64(&mut bytes, 1);
    bytes.extend_from_slice(&[0; 20]);
    let mut r = Reader::new(&bytes);
    assert_eq!(r.read_seq::<Htlc>(), Err(DecodeError::UnexpectedEndOfData));
    let mut bytes = Vec::new();
    put_u64(&mut bytes, 0);
    let mut r = Reader::new(&bytes);
    assert_eq!(r.read_seq::<Htlc>(), Ok(vec![]));
}

#[test]
fn fields_are_read_one_by_one() {
    let mut r = Reader::new(&[3, 1, 0]);
    assert_eq!(
        read_features(&mut r, &anchor_config()),
        Ok(ChannelFeatures { static_remote_key: true, anchors_zero_fee_htlc_tx: true })
    );
    assert_eq!(
        read_features(&mut r, &anchor_config()),
        Ok(ChannelFeatures { static_remote_key: true, anchors_zero_fee_htlc_tx: false })
    );
    assert_eq!(read_funding_tx(&mut r), Ok(None));
    assert_eq!(read_funding_tx(&mut r), Err(DecodeError::UnexpectedEndOfData));
    let bytes = key(8).to_bytes();
    let mut r = Reader::new(&bytes);
    assert_eq!(read_public_key(&mut r), Ok(key(8)));
    let mut beyond_the_field = [0xffu8; 33];
    beyond_the_field[0] = 2;
    let mut r = Reader::new(&beyond_the_field);
    assert_eq!(read_public_key(&mut r), Err(DecodeError::InvalidPublicKey));
    let mut r = Reader::new(&bytes[..32]);
    assert_eq!(read_public_key(&mut r), Err(DecodeError::UnexpectedEndOfData));
}
