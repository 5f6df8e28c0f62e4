//! The record of one channel: its fields, their binary form and its decoder.
//!
//! A record is written in this order: the identifiers and amounts of the channel,
//! the funding transaction, the material of the current commitment, the reserves
//! of the two parties, and the list of the pending conditional payments.
use vstd::prelude::*;
use crate::error::DecodeError;
use crate::keys::{is_curve_point, CounterpartyKeys, CounterpartyKeysView, PublicKey};
use crate::funding::{check_transaction, is_transaction};
use crate::wire::{
    array_at, bool_at, bool_bytes, bytes_at, option_u64_at, option_u64_bytes,
    prefixed_bytes, prefixed_seq, put_bool, put_bytes, put_option_u64, put_seq, put_slice,
    put_u16, put_u32, put_u64, put_u8, seq_at, u16_at, u16_bytes, u32_at, u32_bytes, u64_at,
    u64_bytes, u8_at, u8_bytes, views_of, Decoded, Reader, WireElement,
};
use crate::wire_laws::{
    lemma_array_roundtrip, lemma_array_truncated, lemma_bool_roundtrip, lemma_bool_truncated,
    lemma_encoded_split, lemma_option_u64_roundtrip, lemma_option_u64_truncated,
    lemma_u32_roundtrip, lemma_u32_truncated, lemma_u64_roundtrip, lemma_u64_truncated,
};

verus! {

/// The channel-type configuration of the node: whether it negotiates anchor outputs
/// with zero-fee transactions for conditional payments, the fee per 1000 weight
/// units of a settlement transaction, and the value below which an output is dust.
#[derive(Clone, Copy, Debug, PartialEq, Eq)]
pub struct ChannelTypeConfig {
    pub anchors_zero_fee_htlc_tx: bool,
    pub feerate_per_kw: u32,
    pub dust_limit_sat: u64,
}

/// The feature flags that the two parties negotiated for a channel.
#[derive(Clone, Copy, Debug, PartialEq, Eq)]
pub struct ChannelFeatures {
    /// The balance of the other party is paid to a key that does not change.
    pub static_remote_key: bool,
    /// Anchor outputs, and transactions for conditional payments that pay no fee.
    pub anchors_zero_fee_htlc_tx: bool,
}

impl ChannelFeatures {
    /// The flags that a node with this configuration can handle.
    pub open spec fn supported_by(self, config: ChannelTypeConfig) -> bool {
        self.static_remote_key && (self.anchors_zero_fee_htlc_tx ==> config.anchors_zero_fee_htlc_tx)
    }
}

/// A pending conditional payment.
#[derive(Clone, Copy, Debug, PartialEq, Eq)]
pub struct Htlc {
    pub amount_msat: u64,
    /// Whether this node pays.
    pub offered: bool,
    /// The block height at which the payment expires.
    pub expiry: u32,
    pub payment_hash: [u8; 32],
    /// The position of the output of the payment in a built settlement transaction;
    /// none where the payment has no output.
    pub output_index: Option<u64>,
}

/// The mathematical model of a pending payment.
pub struct HtlcView {
    pub amount_msat: u64,
    pub offered: bool,
    pub expiry: u32,
    pub payment_hash: Seq<u8>,
    pub output_index: Option<u64>,
}

impl View for Htlc {
    type V = HtlcView;

    open spec fn view(&self) -> HtlcView {
        HtlcView {
            amount_msat: self.amount_msat,
            offered: self.offered,
            expiry: self.expiry,
            payment_hash: self.payment_hash@,
            output_index: self.output_index,
        }
    }
}

/// The state of one channel as the node persisted it.
#[derive(Clone, Debug, PartialEq, Eq)]
pub struct ChannelRecord {
    pub channel_id: [u8; 32],
    /// The identifier from which the node derives its own keys of the channel.
    pub channel_keys_id: [u8; 32],
    pub features: ChannelFeatures,
    /// Whether this node funded the channel.
    pub is_outbound: bool,
    pub funding_sat: u64,
    /// The part of the funding amount that belongs to this node in the last signed
    /// state, pending payments not yet subtracted.
    pub value_to_self_msat: u64,
    /// The funding transaction in its consensus encoding.
    pub funding_tx: Option<Vec<u8>>,
    pub commitment_number: u64,
    /// The commitment point of the node's current settlement transaction.
    pub commitment_point: PublicKey,
    pub counterparty: CounterpartyKeys,
    /// The number of blocks for which this node has to wait for its own balance.
    pub contest_delay: u16,
    /// The balance that this node has to keep.
    pub holder_reserve_sat: Option<u64>,
    /// The balance that the other party has to keep.
    pub counterparty_reserve_sat: Option<u64>,
    pub htlcs: Vec<Htlc>,
}

/// The mathematical model of a channel record.
pub struct ChannelRecordView {
    pub channel_id: Seq<u8>,
    pub channel_keys_id: Seq<u8>,
    pub features: ChannelFeatures,
    pub is_outbound: bool,
    pub funding_sat: u64,
    pub value_to_self_msat: u64,
    pub funding_tx: Option<Seq<u8>>,
    pub commitment_number: u64,
    pub commitment_point: Seq<u8>,
    pub counterparty: CounterpartyKeysView,
    pub contest_delay: u16,
    pub holder_reserve_sat: Option<u64>,
    pub counterparty_reserve_sat: Option<u64>,
    pub htlcs: Seq<HtlcView>,
}

impl View for ChannelRecord {
    type V = ChannelRecordView;

    open spec fn view(&self) -> ChannelRecordView {
        ChannelRecordView {
            channel_id: self.channel_id@,
            channel_keys_id: self.channel_keys_id@,
            features: self.features,
            is_outbound: self.is_outbound,
            funding_sat: self.funding_sat,
            value_to_self_msat: self.value_to_self_msat,
            funding_tx: match self.funding_tx {
                Some(tx) => Some(tx@),
                None => None,
            },
            commitment_number: self.commitment_number,
            commitment_point: self.commitment_point@,
            counterparty: self.counterparty@,
            contest_delay: self.contest_delay,
            holder_reserve_sat: self.holder_reserve_sat,
            counterparty_reserve_sat: self.counterparty_reserve_sat,
            htlcs: views_of(self.htlcs@),
        }
    }
}

/// A payment: its amount, its direction, its expiry, its hash and its output index.
pub open spec fn htlc_at(s: Seq<u8>, pos: int) -> Decoded<HtlcView> {
    match u64_at(s, pos) {
        Err(e) => Err(e),
        Ok((amount_msat, at1)) => match bool_at(s, at1) {
            Err(e) => Err(e),
            Ok((offered, at2)) => match u32_at(s, at2) {
                Err(e) => Err(e),
                Ok((expiry, at3)) => match array_at(s, at3, 32) {
                    Err(e) => Err(e),
                    Ok((payment_hash, at4)) => match option_u64_at(s, at4) {
                        Err(e) => Err(e),
                        Ok((output_index, at5)) => Ok(
                            (
                                HtlcView {
                                    amount_msat,
                                    offered,
                                    expiry,
                                    payment_hash,
                                    output_index,
                                },
                                at5,
                            ),
                        ),
                    },
                },
            },
        },
    }
}

/// The bytes of a payment.
pub open spec fn htlc_bytes(v: HtlcView) -> Seq<u8> {
    u64_bytes(v.amount_msat) + bool_bytes(v.offered) + u32_bytes(v.expiry) + v.payment_hash
        + option_u64_bytes(v.output_index)
}

impl WireElement for Htlc {
    open spec fn decode_at(s: Seq<u8>, pos: int) -> Decoded<HtlcView> {
        htlc_at(s, pos)
    }

    open spec fn encoding(v: HtlcView) -> Seq<u8> {
        htlc_bytes(v)
    }

    open spec fn well_formed(v: HtlcView) -> bool {
        v.payment_hash.len() == 32
    }

    proof fn lemma_encoding_nonempty(v: HtlcView) {
    }

    proof fn lemma_decode_encoding(s: Seq<u8>, pos: int, v: HtlcView) {
        let a = u64_bytes(v.amount_msat);
        let b = bool_bytes(v.offered);
        let c = u32_bytes(v.expiry);
        let d = v.payment_hash;
        let e = option_u64_bytes(v.output_index);
        lemma_encoded_split(s, pos, a + b + c + d, e);
        lemma_encoded_split(s, pos, a + b + c, d);
        lemma_encoded_split(s, pos, a + b, c);
        lemma_encoded_split(s, pos, a, b);
        lemma_u64_roundtrip(s, pos, v.amount_msat);
        lemma_bool_roundtrip(s, pos + 8, v.offered);
        lemma_u32_roundtrip(s, pos + 9, v.expiry);
        lemma_array_roundtrip(s, pos + 13, d);
        lemma_option_u64_roundtrip(s, pos + 45, v.output_index);
    }

    proof fn lemma_decode_truncated(s: Seq<u8>, pos: int, k: int) {
        lemma_u64_truncated(s, pos, k);
        lemma_bool_truncated(s, pos + 8, k);
        lemma_u32_truncated(s, pos + 9, k);
        lemma_array_truncated(s, pos + 13, 32, k);
        lemma_option_u64_truncated(s, pos + 45, k);
    }

    fn decode(r: &mut Reader) -> (res: Result<Htlc, DecodeError>) {
        let amount_msat = r.read_u64()?;
        let offered = r.read_bool()?;
        let expiry = r.read_u32()?;
        let payment_hash = r.read_array::<32>()?;
        let output_index = r.read_option_u64()?;
        Ok(Htlc { amount_msat, offered, expiry, payment_hash, output_index })
    }

    fn encode(&self, out: &mut Vec<u8>) {
        put_u64(out, self.amount_msat);
        put_bool(out, self.offered);
        put_u32(out, self.expiry);
        put_slice(out, self.payment_hash.as_slice());
        put_option_u64(out, self.output_index);
        assert(out@ =~= old(out)@ + htlc_bytes(self@));
    }
}

/// The feature flags of a channel: one byte, 1 for a static key of the other party
/// alone, 3 for anchor outputs as well. Anchor outputs are accepted only where the
/// configuration enables them.
pub open spec fn features_at(s: Seq<u8>, pos: int, config: ChannelTypeConfig) -> Decoded<
    ChannelFeatures,
> {
    match u8_at(s, pos) {
        Err(e) => Err(e),
        Ok((b, p)) => if b == 1 {
            Ok((ChannelFeatures { static_remote_key: true, anchors_zero_fee_htlc_tx: false }, p))
        } else if b == 3 && config.anchors_zero_fee_htlc_tx {
            Ok((ChannelFeatures { static_remote_key: true, anchors_zero_fee_htlc_tx: true }, p))
        } else {
            Err(DecodeError::UnsupportedChannelType)
        },
    }
}

/// The byte of the feature flags.
pub open spec fn features_bytes(f: ChannelFeatures) -> Seq<u8> {
    u8_bytes(
        if f.anchors_zero_fee_htlc_tx {
            if f.static_remote_key { 3u8 } else { 2u8 }
        } else {
            if f.static_remote_key { 1u8 } else { 0u8 }
        },
    )
}

/// A public key: 33 bytes that are a point of the curve.
pub open spec fn public_key_at(s: Seq<u8>, pos: int) -> Decoded<Seq<u8>> {
    match array_at(s, pos, 33) {
        Err(e) => Err(e),
        Ok((bytes, p)) => if is_curve_point(bytes) {
            Ok((bytes, p))
        } else {
            Err(DecodeError::InvalidPublicKey)
        },
    }
}

/// The funding transaction: a flag, and where it is set a byte string that is a
/// well-formed transaction.
pub open spec fn funding_tx_at(s: Seq<u8>, pos: int) -> Decoded<Option<Seq<u8>>> {
    match bool_at(s, pos) {
        Err(e) => Err(e),
        Ok((false, p)) => Ok((None, p)),
        Ok((true, p)) => match bytes_at(s, p) {
            Err(e) => Err(e),
            Ok((tx, q)) => if is_transaction(tx) {
                Ok((Some(tx), q))
            } else {
                Err(DecodeError::InvalidTransaction)
            },
        },
    }
}

/// The bytes of the funding transaction behind its flag.
pub open spec fn funding_tx_bytes(tx: Option<Seq<u8>>) -> Seq<u8> {
    match tx {
        None => bool_bytes(false),
        Some(tx) => bool_bytes(true) + prefixed_bytes(tx),
    }
}

/// The identifiers and amounts of a channel: its identifier, the identifier of its
/// keys, its feature flags, whether this node funded it, the funding amount and the
/// part of it that belongs to this node.
pub open spec fn identity_at(s: Seq<u8>, pos: int, config: ChannelTypeConfig) -> Decoded<
    (Seq<u8>, Seq<u8>, ChannelFeatures, bool, u64, u64),
> {
    match array_at(s, pos, 32) {
        Err(e) => Err(e),
        Ok((channel_id, at1)) => match array_at(s, at1, 32) {
            Err(e) => Err(e),
            Ok((channel_keys_id, at2)) => match features_at(s, at2, config) {
                Err(e) => Err(e),
                Ok((features, at3)) => match bool_at(s, at3) {
                    Err(e) => Err(e),
                    Ok((is_outbound, at4)) => match u64_at(s, at4) {
                        Err(e) => Err(e),
                        Ok((funding_sat, at5)) => match u64_at(s, at5) {
                            Err(e) => Err(e),
                            Ok((value_to_self_msat, at6)) => Ok(
                                (
                                    (
                                        channel_id,
                                        channel_keys_id,
                                        features,
                                        is_outbound,
                                        funding_sat,
                                        value_to_self_msat,
                                    ),
                                    at6,
                                ),
                            ),
                        },
                    },
                },
            },
        },
    }
}

/// The material of the current commitment: its number, its commitment point, the
/// three base points of the other party and the delay of this node's own balance.
pub open spec fn material_at(s: Seq<u8>, pos: int) -> Decoded<
    (u64, Seq<u8>, CounterpartyKeysView, u16),
> {
    match u64_at(s, pos) {
        Err(e) => Err(e),
        Ok((commitment_number, at1)) => match public_key_at(s, at1) {
            Err(e) => Err(e),
            Ok((commitment_point, at2)) => match public_key_at(s, at2) {
                Err(e) => Err(e),
                Ok((revocation_basepoint, at3)) => match public_key_at(s, at3) {
                    Err(e) => Err(e),
                    Ok((htlc_basepoint, at4)) => match public_key_at(s, at4) {
                        Err(e) => Err(e),
                        Ok((payment_point, at5)) => match u16_at(s, at5) {
                            Err(e) => Err(e),
                            Ok((contest_delay, at6)) => Ok(
                                (
                                    (
                                        commitment_number,
                                        commitment_point,
                                        CounterpartyKeysView {
                                            revocation_basepoint,
                                            htlc_basepoint,
                                            payment_point,
                                        },
                                        contest_delay,
                                    ),
                                    at6,
                                ),
                            ),
                        },
                    },
                },
            },
        },
    }
}

/// The reserves of the two parties: that of this node, then that of the other.
pub open spec fn reserves_at(s: Seq<u8>, pos: int) -> Decoded<(Option<u64>, Option<u64>)> {
    match option_u64_at(s, pos) {
        Err(e) => Err(e),
        Ok((holder, at1)) => match option_u64_at(s, at1) {
            Err(e) => Err(e),
            Ok((counterparty, at2)) => Ok(((holder, counterparty), at2)),
        },
    }
}

/// The record of a channel at `pos` of `s`, for a node with the given configuration.
#[verifier::opaque]
pub open spec fn record_at(s: Seq<u8>, pos: int, config: ChannelTypeConfig) -> Decoded<
    ChannelRecordView,
> {
    match identity_at(s, pos, config) {
        Err(e) => Err(e),
        Ok((id, at1)) => match funding_tx_at(s, at1) {
            Err(e) => Err(e),
            Ok((funding_tx, at2)) => match material_at(s, at2) {
                Err(e) => Err(e),
                Ok((material, at3)) => match reserves_at(s, at3) {
                    Err(e) => Err(e),
                    Ok((reserves, at4)) => match seq_at::<Htlc>(s, at4) {
                        Err(e) => Err(e),
                        Ok((htlcs, at5)) => Ok(
                            (
                                ChannelRecordView {
                                    channel_id: id.0,
                                    channel_keys_id: id.1,
                                    features: id.2,
                                    is_outbound: id.3,
                                    funding_sat: id.4,
                                    value_to_self_msat: id.5,
                                    funding_tx,
                                    commitment_number: material.0,
                                    commitment_point: material.1,
                                    counterparty: material.2,
                                    contest_delay: material.3,
                                    holder_reserve_sat: reserves.0,
                                    counterparty_reserve_sat: reserves.1,
                                    htlcs,
                                },
                                at5,
                            ),
                        ),
                    },
                },
            },
        },
    }
}

/// The bytes of the identifiers and amounts of a channel.
pub open spec fn identity_bytes(v: ChannelRecordView) -> Seq<u8> {
    v.channel_id + v.channel_keys_id + features_bytes(v.features) + bool_bytes(v.is_outbound)
        + u64_bytes(v.funding_sat) + u64_bytes(v.value_to_self_msat)
}

/// The bytes of the material of the current commitment.
pub open spec fn material_bytes(v: ChannelRecordView) -> Seq<u8> {
    u64_bytes(v.commitment_number) + v.commitment_point + v.counterparty.revocation_basepoint
        + v.counterparty.htlc_basepoint + v.counterparty.payment_point + u16_bytes(
        v.contest_delay,
    )
}

/// The bytes of the reserves of the two parties.
pub open spec fn reserves_bytes(v: ChannelRecordView) -> Seq<u8> {
    option_u64_bytes(v.holder_reserve_sat) + option_u64_bytes(v.counterparty_reserve_sat)
}

/// The bytes of the record of a channel.
#[verifier::opaque]
pub open spec fn record_bytes(v: ChannelRecordView) -> Seq<u8> {
    identity_bytes(v) + funding_tx_bytes(v.funding_tx) + material_bytes(v) + reserves_bytes(v)
        + prefixed_seq::<Htlc>(v.htlcs)
}

/// Reads the feature flags of a channel.
pub fn read_features(r: &mut Reader, config: &ChannelTypeConfig) -> (res: Result<
    ChannelFeatures,
    DecodeError,
>)
    ensures
        final(r).buffer() == old(r).buffer(),
        match res {
            Ok(v) => features_at(old(r).buffer(), old(r).cursor(), *config) == Ok::<
                (ChannelFeatures, int),
                DecodeError,
            >((v, final(r).cursor())),
            Err(e) => features_at(old(r).buffer(), old(r).cursor(), *config) == Err::<
                (ChannelFeatures, int),
                DecodeError,
            >(e),
        },
{
    let b = r.read_u8()?;
    if b == 1 {
        Ok(ChannelFeatures { static_remote_key: true, anchors_zero_fee_htlc_tx: false })
    } else if b == 3 && config.anchors_zero_fee_htlc_tx {
        Ok(ChannelFeatures { static_remote_key: true, anchors_zero_fee_htlc_tx: true })
    } else {
        Err(DecodeError::UnsupportedChannelType)
    }
}

/// Reads a public key.
pub fn read_public_key(r: &mut Reader) -> (res: Result<PublicKey, DecodeError>)
    ensures
        final(r).buffer() == old(r).buffer(),
        match res {
            Ok(v) => public_key_at(old(r).buffer(), old(r).cursor()) == Ok::<
                (Seq<u8>, int),
                DecodeError,
            >((v@, final(r).cursor())),
            Err(e) => public_key_at(old(r).buffer(), old(r).cursor()) == Err::<
                (Seq<u8>, int),
                DecodeError,
            >(e),
        },
{
    let bytes = r.read_array::<33>()?;
    match PublicKey::from_bytes(bytes) {
        Some(key) => Ok(key),
        None => Err(DecodeError::InvalidPublicKey),
    }
}

/// Reads the funding transaction.
pub fn read_funding_tx(r: &mut Reader) -> (res: Result<Option<Vec<u8>>, DecodeError>)
    ensures
        final(r).buffer() == old(r).buffer(),
        match res {
            Ok(Some(tx)) => funding_tx_at(old(r).buffer(), old(r).cursor()) == Ok::<
                (Option<Seq<u8>>, int),
                DecodeError,
            >((Some(tx@), final(r).cursor())),
            Ok(None) => funding_tx_at(old(r).buffer(), old(r).cursor()) == Ok::<
                (Option<Seq<u8>>, int),
                DecodeError,
            >((None, final(r).cursor())),
            Err(e) => funding_tx_at(old(r).buffer(), old(r).cursor()) == Err::<
                (Option<Seq<u8>>, int),
                DecodeError,
            >(e),
        },
{
    let present = r.read_bool()?;
    if !present {
        return Ok(None);
    }
    let tx = r.read_bytes()?;
    if check_transaction(&tx) {
        Ok(Some(tx))
    } else {
        Err(DecodeError::InvalidTransaction)
    }
}

/// Decodes the record of one channel at the cursor. The record is read field by
/// field; nothing in it is interpreted.
#[verifier::rlimit(50)]
pub fn decode_channel(r: &mut Reader, config: &ChannelTypeConfig) -> (res: Result<
    ChannelRecord,
    DecodeError,
>)
    ensures
        final(r).buffer() == old(r).buffer(),
        match res {
            Ok(v) => record_at(old(r).buffer(), old(r).cursor(), *config) == Ok::<
                (ChannelRecordView, int),
                DecodeError,
            >((v@, final(r).cursor())),
            Err(e) => record_at(old(r).buffer(), old(r).cursor(), *config) == Err::<
                (ChannelRecordView, int),
                DecodeError,
            >(e),
        },
{
    proof {
        reveal(record_at);
    }
    let channel_id = r.read_array::<32>()?;
    let channel_keys_id = r.read_array::<32>()?;
    let features = read_features(r, config)?;
    let is_outbound = r.read_bool()?;
    let funding_sat = r.read_u64()?;
    let value_to_self_msat = r.read_u64()?;
    let funding_tx = read_funding_tx(r)?;
    let commitment_number = r.read_u64()?;
    let commitment_point = read_public_key(r)?;
    let revocation_basepoint = read_public_key(r)?;
    let htlc_basepoint = read_public_key(r)?;
    let payment_point = read_public_key(r)?;
    let contest_delay = r.read_u16()?;
    let holder_reserve_sat = r.read_option_u64()?;
    let counterparty_reserve_sat = r.read_option_u64()?;
    let htlcs = r.read_seq::<Htlc>()?;
    Ok(
        ChannelRecord {
            channel_id,
            channel_keys_id,
            features,
            is_outbound,
            funding_sat,
            value_to_self_msat,
            funding_tx,
            commitment_number,
            commitment_point,
            counterparty: CounterpartyKeys { revocation_basepoint, htlc_basepoint, payment_point },
            contest_delay,
            holder_reserve_sat,
            counterparty_reserve_sat,
            htlcs,
        },
    )
}

impl ChannelRecord {
    #[verifier::rlimit(50)]
    fn encode_identity(&self, out: &mut Vec<u8>)
        ensures
            final(out)@ == old(out)@ + identity_bytes(self@),
    {
        put_slice(out, self.channel_id.as_slice());
        put_slice(out, self.channel_keys_id.as_slice());
        let flags: u8 = if self.features.anchors_zero_fee_htlc_tx {
            if self.features.static_remote_key { 3 } else { 2 }
        } else {
            if self.features.static_remote_key { 1 } else { 0 }
        };
        put_u8(out, flags);
        let ghost head = out@;
        assert(head =~= old(out)@ + (self@.channel_id + self@.channel_keys_id + features_bytes(
            self.features,
        )));
        put_bool(out, self.is_outbound);
        put_u64(out, self.funding_sat);
        put_u64(out, self.value_to_self_msat);
        assert(out@ =~= head + (bool_bytes(self.is_outbound) + u64_bytes(self.funding_sat)
            + u64_bytes(self.value_to_self_msat)));
        assert(out@ =~= old(out)@ + identity_bytes(self@));
    }

    fn encode_funding_tx(&self, out: &mut Vec<u8>)
        ensures
            final(out)@ == old(out)@ + funding_tx_bytes(self@.funding_tx),
    {
        match &self.funding_tx {
            None => {
                put_bool(out, false);
            },
            Some(tx) => {
                put_bool(out, true);
                put_bytes(out, tx.as_slice());
                assert(out@ =~= old(out)@ + (bool_bytes(true) + prefixed_bytes(tx@)));
            },
        }
    }

    #[verifier::rlimit(50)]
    fn encode_material(&self, out: &mut Vec<u8>)
        ensures
            final(out)@ == old(out)@ + material_bytes(self@),
    {
        put_u64(out, self.commitment_number);
        put_slice(out, self.commitment_point.to_bytes().as_slice());
        put_slice(out, self.counterparty.revocation_basepoint.to_bytes().as_slice());
        let ghost head = out@;
        assert(head =~= old(out)@ + (u64_bytes(self.commitment_number) + self@.commitment_point
            + self@.counterparty.revocation_basepoint));
        put_slice(out, self.counterparty.htlc_basepoint.to_bytes().as_slice());
        put_slice(out, self.counterparty.payment_point.to_bytes().as_slice());
        put_u16(out, self.contest_delay);
        assert(out@ =~= head + (self@.counterparty.htlc_basepoint
            + self@.counterparty.payment_point + u16_bytes(self.contest_delay)));
        assert(out@ =~= old(out)@ + material_bytes(self@));
    }

    fn encode_reserves(&self, out: &mut Vec<u8>)
        ensures
            final(out)@ == old(out)@ + reserves_bytes(self@),
    {
        put_option_u64(out, self.holder_reserve_sat);
        put_option_u64(out, self.counterparty_reserve_sat);
        assert(out@ =~= old(out)@ + reserves_bytes(self@));
    }

    /// Appends the bytes of the record.
    pub fn encode(&self, out: &mut Vec<u8>)
        ensures
            final(out)@ == old(out)@ + record_bytes(self@),
    {
        proof {
            reveal(record_bytes);
        }
        self.encode_identity(out);
        self.encode_funding_tx(out);
        self.encode_material(out);
        self.encode_reserves(out);
        put_seq::<Htlc>(out, &self.htlcs);
        assert(out@ =~= old(out)@ + record_bytes(self@));
    }
}

} // verus!
