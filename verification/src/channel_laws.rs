//! Laws of the binary form of a channel record.
use vstd::prelude::*;
use crate::channel::{
    features_at, features_bytes, funding_tx_at, funding_tx_bytes, identity_at, identity_bytes,
    material_at, material_bytes, public_key_at, record_at, record_bytes, reserves_at,
    reserves_bytes, ChannelFeatures, ChannelRecordView, ChannelTypeConfig, Htlc, HtlcView,
};
use crate::error::DecodeError;
use crate::keys::{is_curve_point, CounterpartyKeysView};
use crate::funding::is_transaction;
use crate::wire::{
    bool_bytes, encoded_at, option_u64_bytes, prefixed_bytes, prefixed_seq, seq_at, u16_bytes,
    u64_bytes, WireElement,
};
use crate::wire_laws::{
    lemma_array_roundtrip, lemma_array_truncated, lemma_bool_roundtrip, lemma_bool_truncated,
    lemma_bytes_roundtrip, lemma_bytes_truncated, lemma_encoded_split, lemma_encoded_whole,
    lemma_option_u64_roundtrip, lemma_option_u64_truncated, lemma_seq_roundtrip,
    lemma_seq_truncated, lemma_u16_roundtrip, lemma_u16_truncated, lemma_u64_roundtrip,
    lemma_u64_truncated, lemma_u8_roundtrip, lemma_u8_truncated, truncates_well,
};

verus! {

/// 33 bytes that are a point of the curve.
pub open spec fn is_public_key(k: Seq<u8>) -> bool {
    k.len() == 33 && is_curve_point(k)
}

/// What makes the view of a record one that is read back from its bytes by a node
/// with the given configuration: the identifiers have 32 bytes, the feature flags
/// are supported, the funding transaction is well-formed, the keys are points of
/// the curve, and the hash of each payment has 32 bytes.
#[verifier::opaque]
pub open spec fn record_well_formed(v: ChannelRecordView, config: ChannelTypeConfig) -> bool {
    &&& v.channel_id.len() == 32
    &&& v.channel_keys_id.len() == 32
    &&& v.features.supported_by(config)
    &&& v.funding_tx matches Some(tx) ==> is_transaction(tx) && tx.len() <= u64::MAX
    &&& is_public_key(v.commitment_point)
    &&& is_public_key(v.counterparty.revocation_basepoint)
    &&& is_public_key(v.counterparty.htlc_basepoint)
    &&& is_public_key(v.counterparty.payment_point)
    &&& v.htlcs.len() <= u64::MAX
    &&& forall|i: int| 0 <= i < v.htlcs.len() ==> Htlc::well_formed(#[trigger] v.htlcs[i])
}

/// Feature flags that are supported are read back from their byte.
pub proof fn lemma_features_roundtrip(
    s: Seq<u8>,
    pos: int,
    f: ChannelFeatures,
    config: ChannelTypeConfig,
)
    requires
        f.supported_by(config),
        encoded_at(s, pos, features_bytes(f)),
    ensures
        features_at(s, pos, config) == Ok::<(ChannelFeatures, int), DecodeError>((f, pos + 1)),
{
    let b = if f.anchors_zero_fee_htlc_tx { 3u8 } else { 1u8 };
    lemma_u8_roundtrip(s, pos, b);
}

/// A public key is read back from its bytes.
pub proof fn lemma_public_key_roundtrip(s: Seq<u8>, pos: int, k: Seq<u8>)
    requires
        is_public_key(k),
        encoded_at(s, pos, k),
    ensures
        public_key_at(s, pos) == Ok::<(Seq<u8>, int), DecodeError>((k, pos + 33)),
{
    lemma_array_roundtrip(s, pos, k);
}

/// A well-formed funding transaction, or its absence, is read back from its bytes.
pub proof fn lemma_funding_tx_roundtrip(s: Seq<u8>, pos: int, tx: Option<Seq<u8>>)
    requires
        tx matches Some(t) ==> is_transaction(t) && t.len() <= u64::MAX,
        encoded_at(s, pos, funding_tx_bytes(tx)),
    ensures
        funding_tx_at(s, pos) == Ok::<(Option<Seq<u8>>, int), DecodeError>(
            (tx, pos + funding_tx_bytes(tx).len()),
        ),
{
    match tx {
        None => {
            lemma_bool_roundtrip(s, pos, false);
        },
        Some(t) => {
            lemma_encoded_split(s, pos, bool_bytes(true), prefixed_bytes(t));
            lemma_bool_roundtrip(s, pos, true);
            lemma_bytes_roundtrip(s, pos + 1, t);
        },
    }
}

/// The identifiers and amounts of a channel are read back from their bytes.
#[verifier::rlimit(50)]
pub proof fn lemma_identity_roundtrip(
    s: Seq<u8>,
    pos: int,
    v: ChannelRecordView,
    config: ChannelTypeConfig,
)
    requires
        v.channel_id.len() == 32,
        v.channel_keys_id.len() == 32,
        v.features.supported_by(config),
        encoded_at(s, pos, identity_bytes(v)),
    ensures
        identity_at(s, pos, config) == Ok::<
            ((Seq<u8>, Seq<u8>, ChannelFeatures, bool, u64, u64), int),
            DecodeError,
        >(
            (
                (
                    v.channel_id,
                    v.channel_keys_id,
                    v.features,
                    v.is_outbound,
                    v.funding_sat,
                    v.value_to_self_msat,
                ),
                pos + 82,
            ),
        ),
        identity_bytes(v).len() == 82,
{
    let a = v.channel_id;
    let b = v.channel_keys_id;
    let c = features_bytes(v.features);
    let d = bool_bytes(v.is_outbound);
    let e = u64_bytes(v.funding_sat);
    let f = u64_bytes(v.value_to_self_msat);
    lemma_encoded_split(s, pos, a + b + c + d + e, f);
    lemma_encoded_split(s, pos, a + b + c + d, e);
    lemma_encoded_split(s, pos, a + b + c, d);
    lemma_encoded_split(s, pos, a + b, c);
    lemma_encoded_split(s, pos, a, b);
    lemma_array_roundtrip(s, pos, a);
    lemma_array_roundtrip(s, pos + 32, b);
    lemma_features_roundtrip(s, pos + 64, v.features, config);
    lemma_bool_roundtrip(s, pos + 65, v.is_outbound);
    lemma_u64_roundtrip(s, pos + 66, v.funding_sat);
    lemma_u64_roundtrip(s, pos + 74, v.value_to_self_msat);
}

/// The material of the current commitment is read back from its bytes.
#[verifier::rlimit(50)]
pub proof fn lemma_material_roundtrip(s: Seq<u8>, pos: int, v: ChannelRecordView)
    requires
        is_public_key(v.commitment_point),
        is_public_key(v.counterparty.revocation_basepoint),
        is_public_key(v.counterparty.htlc_basepoint),
        is_public_key(v.counterparty.payment_point),
        encoded_at(s, pos, material_bytes(v)),
    ensures
        material_at(s, pos) == Ok::<((u64, Seq<u8>, CounterpartyKeysView, u16), int), DecodeError>(
            ((v.commitment_number, v.commitment_point, v.counterparty, v.contest_delay), pos + 142),
        ),
        material_bytes(v).len() == 142,
{
    let a = u64_bytes(v.commitment_number);
    let b = v.commitment_point;
    let c = v.counterparty.revocation_basepoint;
    let d = v.counterparty.htlc_basepoint;
    let e = v.counterparty.payment_point;
    let f = u16_bytes(v.contest_delay);
    lemma_encoded_split(s, pos, a + b + c + d + e, f);
    lemma_encoded_split(s, pos, a + b + c + d, e);
    lemma_encoded_split(s, pos, a + b + c, d);
    lemma_encoded_split(s, pos, a + b, c);
    lemma_encoded_split(s, pos, a, b);
    lemma_u64_roundtrip(s, pos, v.commitment_number);
    lemma_public_key_roundtrip(s, pos + 8, b);
    lemma_public_key_roundtrip(s, pos + 41, c);
    lemma_public_key_roundtrip(s, pos + 74, d);
    lemma_public_key_roundtrip(s, pos + 107, e);
    lemma_u16_roundtrip(s, pos + 140, v.contest_delay);
}

/// The reserves of the two parties are read back from their bytes.
pub proof fn lemma_reserves_roundtrip(s: Seq<u8>, pos: int, v: ChannelRecordView)
    requires
        encoded_at(s, pos, reserves_bytes(v)),
    ensures
        reserves_at(s, pos) == Ok::<((Option<u64>, Option<u64>), int), DecodeError>(
            ((v.holder_reserve_sat, v.counterparty_reserve_sat), pos + reserves_bytes(v).len()),
        ),
{
    let a = option_u64_bytes(v.holder_reserve_sat);
    let b = option_u64_bytes(v.counterparty_reserve_sat);
    lemma_encoded_split(s, pos, a, b);
    lemma_option_u64_roundtrip(s, pos, v.holder_reserve_sat);
    lemma_option_u64_roundtrip(s, pos + a.len(), v.counterparty_reserve_sat);
}

/// Where the bytes of a well-formed record stand in a buffer, the decoder reads the
/// record back, every field as it was, and ends behind its bytes.
#[verifier::rlimit(50)]
pub proof fn lemma_record_roundtrip(
    s: Seq<u8>,
    pos: int,
    v: ChannelRecordView,
    config: ChannelTypeConfig,
)
    requires
        record_well_formed(v, config),
        encoded_at(s, pos, record_bytes(v)),
    ensures
        record_at(s, pos, config) == Ok::<(ChannelRecordView, int), DecodeError>(
            (v, pos + record_bytes(v).len()),
        ),
{
    let a = identity_bytes(v);
    let b = funding_tx_bytes(v.funding_tx);
    let c = material_bytes(v);
    let d = reserves_bytes(v);
    let e = prefixed_seq::<Htlc>(v.htlcs);
    let at1 = pos + a.len();
    let at2 = at1 + b.len();
    let at3 = at2 + c.len();
    let at4 = at3 + d.len();
    lemma_record_parts(s, pos, v);
    assert(v.channel_id.len() == 32 && v.channel_keys_id.len() == 32 && v.features.supported_by(
        config,
    )) by {
        reveal(record_well_formed);
    }
    lemma_identity_roundtrip(s, pos, v, config);
    assert(v.funding_tx matches Some(tx) ==> is_transaction(tx) && tx.len() <= u64::MAX) by {
        reveal(record_well_formed);
    }
    lemma_funding_tx_roundtrip(s, at1, v.funding_tx);
    assert(is_public_key(v.commitment_point) && is_public_key(v.counterparty.revocation_basepoint)
        && is_public_key(v.counterparty.htlc_basepoint) && is_public_key(
        v.counterparty.payment_point,
    )) by {
        reveal(record_well_formed);
    }
    lemma_material_roundtrip(s, at2, v);
    lemma_reserves_roundtrip(s, at3, v);
    assert(v.htlcs.len() <= u64::MAX && forall|i: int|
        0 <= i < v.htlcs.len() ==> Htlc::well_formed(#[trigger] v.htlcs[i])) by {
        reveal(record_well_formed);
    }
    lemma_seq_roundtrip::<Htlc>(s, at4, v.htlcs);
    lemma_record_assembled(s, pos, v, config, at1, at2, at3, at4, at4 + e.len());
    assert(record_bytes(v).len() == a.len() + b.len() + c.len() + d.len() + e.len()) by {
        reveal(record_bytes);
    }
}

/// The bytes of a record are the bytes of its five parts, one behind the other.
proof fn lemma_record_parts(s: Seq<u8>, pos: int, v: ChannelRecordView)
    requires
        encoded_at(s, pos, record_bytes(v)),
    ensures
        encoded_at(s, pos, identity_bytes(v)),
        encoded_at(s, pos + identity_bytes(v).len(), funding_tx_bytes(v.funding_tx)),
        encoded_at(
            s,
            pos + identity_bytes(v).len() + funding_tx_bytes(v.funding_tx).len(),
            material_bytes(v),
        ),
        encoded_at(
            s,
            pos + identity_bytes(v).len() + funding_tx_bytes(v.funding_tx).len() + material_bytes(
                v,
            ).len(),
            reserves_bytes(v),
        ),
        encoded_at(
            s,
            pos + identity_bytes(v).len() + funding_tx_bytes(v.funding_tx).len() + material_bytes(
                v,
            ).len() + reserves_bytes(v).len(),
            prefixed_seq::<Htlc>(v.htlcs),
        ),
{
    reveal(record_bytes);
    let a = identity_bytes(v);
    let b = funding_tx_bytes(v.funding_tx);
    let c = material_bytes(v);
    let d = reserves_bytes(v);
    let e = prefixed_seq::<Htlc>(v.htlcs);
    lemma_encoded_split(s, pos, a + b + c + d, e);
    lemma_encoded_split(s, pos, a + b + c, d);
    lemma_encoded_split(s, pos, a + b, c);
    lemma_encoded_split(s, pos, a, b);
}

/// A record is what its five parts hold, one behind the other.
proof fn lemma_record_assembled(
    s: Seq<u8>,
    pos: int,
    v: ChannelRecordView,
    config: ChannelTypeConfig,
    at1: int,
    at2: int,
    at3: int,
    at4: int,
    at5: int,
)
    requires
        identity_at(s, pos, config) == Ok::<
            ((Seq<u8>, Seq<u8>, ChannelFeatures, bool, u64, u64), int),
            DecodeError,
        >(
            (
                (
                    v.channel_id,
                    v.channel_keys_id,
                    v.features,
                    v.is_outbound,
                    v.funding_sat,
                    v.value_to_self_msat,
                ),
                at1,
            ),
        ),
        funding_tx_at(s, at1) == Ok::<(Option<Seq<u8>>, int), DecodeError>((v.funding_tx, at2)),
        material_at(s, at2) == Ok::<((u64, Seq<u8>, CounterpartyKeysView, u16), int), DecodeError>(
            ((v.commitment_number, v.commitment_point, v.counterparty, v.contest_delay), at3),
        ),
        reserves_at(s, at3) == Ok::<((Option<u64>, Option<u64>), int), DecodeError>(
            ((v.holder_reserve_sat, v.counterparty_reserve_sat), at4),
        ),
        seq_at::<Htlc>(s, at4) == Ok::<(Seq<HtlcView>, int), DecodeError>((v.htlcs, at5)),
    ensures
        record_at(s, pos, config) == Ok::<(ChannelRecordView, int), DecodeError>((v, at5)),
{
    reveal(record_at);
}

/// Decoding the bytes of a well-formed record yields the record, every field as it was.
pub proof fn lemma_decode_encoded_record(v: ChannelRecordView, config: ChannelTypeConfig)
    requires
        record_well_formed(v, config),
    ensures
        record_at(record_bytes(v), 0, config) == Ok::<(ChannelRecordView, int), DecodeError>(
            (v, record_bytes(v).len() as int),
        ),
{
    lemma_encoded_whole(record_bytes(v));
    lemma_record_roundtrip(record_bytes(v), 0, v, config);
}

/// Feature flags are read from a prefix of the buffer as far as it reaches.
pub proof fn lemma_features_truncated(s: Seq<u8>, pos: int, k: int, config: ChannelTypeConfig)
    requires
        0 <= k <= s.len(),
    ensures
        truncates_well(features_at(s, pos, config), features_at(s.take(k), pos, config), k),
{
    lemma_u8_truncated(s, pos, k);
}

/// A public key is read from a prefix of the buffer as far as it reaches.
pub proof fn lemma_public_key_truncated(s: Seq<u8>, pos: int, k: int)
    requires
        0 <= k <= s.len(),
    ensures
        truncates_well(public_key_at(s, pos), public_key_at(s.take(k), pos), k),
{
    lemma_array_truncated(s, pos, 33, k);
}

/// A funding transaction is read from a prefix of the buffer as far as it reaches.
pub proof fn lemma_funding_tx_truncated(s: Seq<u8>, pos: int, k: int)
    requires
        0 <= k <= s.len(),
    ensures
        truncates_well(funding_tx_at(s, pos), funding_tx_at(s.take(k), pos), k),
{
    lemma_bool_truncated(s, pos, k);
    lemma_bytes_truncated(s, pos + 1, k);
}

/// The identifiers and amounts are read from a prefix of the buffer as far as it reaches.
pub proof fn lemma_identity_truncated(s: Seq<u8>, pos: int, k: int, config: ChannelTypeConfig)
    requires
        0 <= k <= s.len(),
    ensures
        truncates_well(identity_at(s, pos, config), identity_at(s.take(k), pos, config), k),
        identity_at(s, pos, config) matches Ok((_, end)) ==> 0 <= pos < end <= s.len(),
{
    lemma_array_truncated(s, pos, 32, k);
    lemma_array_truncated(s, pos + 32, 32, k);
    lemma_features_truncated(s, pos + 64, k, config);
    lemma_bool_truncated(s, pos + 65, k);
    lemma_u64_truncated(s, pos + 66, k);
    lemma_u64_truncated(s, pos + 74, k);
}

/// The material of the commitment is read from a prefix of the buffer as far as it reaches.
pub proof fn lemma_material_truncated(s: Seq<u8>, pos: int, k: int)
    requires
        0 <= k <= s.len(),
    ensures
        truncates_well(material_at(s, pos), material_at(s.take(k), pos), k),
        material_at(s, pos) matches Ok((_, end)) ==> 0 <= pos < end <= s.len(),
{
    lemma_u64_truncated(s, pos, k);
    lemma_public_key_truncated(s, pos + 8, k);
    lemma_public_key_truncated(s, pos + 41, k);
    lemma_public_key_truncated(s, pos + 74, k);
    lemma_public_key_truncated(s, pos + 107, k);
    lemma_u16_truncated(s, pos + 140, k);
}

/// The reserves are read from a prefix of the buffer as far as it reaches.
pub proof fn lemma_reserves_truncated(s: Seq<u8>, pos: int, k: int)
    requires
        0 <= k <= s.len(),
    ensures
        truncates_well(reserves_at(s, pos), reserves_at(s.take(k), pos), k),
        reserves_at(s, pos) matches Ok((_, end)) ==> 0 <= pos < end <= s.len(),
{
    lemma_option_u64_truncated(s, pos, k);
    lemma_option_u64_truncated(s, pos + 1, k);
    lemma_option_u64_truncated(s, pos + 9, k);
}

/// A record that was decoded lies inside the buffer. It is decoded again from every
/// prefix of the buffer that holds all of it; from a shorter prefix the decoder
/// reports that the data ended or that a length cannot be satisfied.
#[verifier::rlimit(50)]
pub proof fn lemma_record_truncated(s: Seq<u8>, pos: int, k: int, config: ChannelTypeConfig)
    requires
        0 <= k <= s.len(),
    ensures
        truncates_well(record_at(s, pos, config), record_at(s.take(k), pos, config), k),
        record_at(s, pos, config) matches Ok((_, end)) ==> 0 <= pos < end <= s.len(),
{
    reveal(record_at);
    lemma_identity_truncated(s, pos, k, config);
    if let Ok((id, at1)) = identity_at(s, pos, config) {
        lemma_funding_tx_truncated(s, at1, k);
        if let Ok((tx, at2)) = funding_tx_at(s, at1) {
            lemma_material_truncated(s, at2, k);
            if let Ok((material, at3)) = material_at(s, at2) {
                lemma_reserves_truncated(s, at3, k);
                if let Ok((reserves, at4)) = reserves_at(s, at3) {
                    lemma_seq_truncated::<Htlc>(s, at4, k);
                }
            }
        }
    }
}

} // verus!
