//! Public keys of a channel, and the keys of one settlement transaction that are
//! derived from them.
use vstd::prelude::*;
use bitcoin::secp256k1::PublicKey as SecpKey;
use bitcoin::secp256k1::Secp256k1;
use lightning::ln::chan_utils::TxCreationKeys;
use lightning::ln::channel_keys::{DelayedPaymentBasepoint, HtlcBasepoint, RevocationBasepoint};

verus! {

/// Whether 33 bytes are the compressed form of a point of the secp256k1 curve:
/// whether `secp256k1::PublicKey::from_slice` accepts them.
pub uninterp spec fn is_curve_point(bytes: Seq<u8>) -> bool;

/// The keys that `lightning::ln::chan_utils::TxCreationKeys::derive_new` derives for
/// one settlement transaction from its commitment point and the base points of the
/// two parties.
pub uninterp spec fn derived_keys(
    commitment_point: Seq<u8>,
    broadcaster_delayed_payment_base: Seq<u8>,
    broadcaster_htlc_base: Seq<u8>,
    countersignatory_revocation_base: Seq<u8>,
    countersignatory_htlc_base: Seq<u8>,
) -> CommitmentKeysView;

/// A public key in its compressed form. Every value is a point of the curve.
#[derive(Clone, Copy, Debug, PartialEq, Eq)]
pub struct PublicKey {
    pub(crate) bytes: [u8; 33],
}

impl View for PublicKey {
    type V = Seq<u8>;

    closed spec fn view(&self) -> Seq<u8> {
        self.bytes@
    }
}

impl PublicKey {
    /// The bytes of the key are a point of the curve.
    #[verifier::type_invariant]
    pub open spec fn on_curve(self) -> bool {
        is_curve_point(self@)
    }

    /// The key that the bytes stand for, if they stand for one.
    pub fn from_bytes(bytes: [u8; 33]) -> (res: Option<PublicKey>)
        ensures
            res is Some <==> is_curve_point(bytes@),
            res matches Some(k) ==> k@ == bytes@,
    {
        if point_on_curve(&bytes) {
            Some(PublicKey { bytes })
        } else {
            None
        }
    }

    /// The compressed form of the key.
    pub fn to_bytes(&self) -> (bytes: [u8; 33])
        ensures
            bytes@ == self@,
            bytes@.len() == 33,
            is_curve_point(self@),
    {
        proof {
            use_type_invariant(self);
        }
        self.bytes
    }
}

/// The base points of the node itself, from which the keys of its own settlement
/// transactions are derived.
#[derive(Clone, Copy, Debug, PartialEq, Eq)]
pub struct HolderKeys {
    pub delayed_payment_basepoint: PublicKey,
    pub htlc_basepoint: PublicKey,
}

/// The mathematical model of the node's own base points.
pub struct HolderKeysView {
    pub delayed_payment_basepoint: Seq<u8>,
    pub htlc_basepoint: Seq<u8>,
}

impl View for HolderKeys {
    type V = HolderKeysView;

    open spec fn view(&self) -> HolderKeysView {
        HolderKeysView {
            delayed_payment_basepoint: self.delayed_payment_basepoint@,
            htlc_basepoint: self.htlc_basepoint@,
        }
    }
}

/// The base points of the other party of a channel.
#[derive(Clone, Copy, Debug, PartialEq, Eq)]
pub struct CounterpartyKeys {
    pub revocation_basepoint: PublicKey,
    pub htlc_basepoint: PublicKey,
    pub payment_point: PublicKey,
}

/// The mathematical model of the other party's base points.
pub struct CounterpartyKeysView {
    pub revocation_basepoint: Seq<u8>,
    pub htlc_basepoint: Seq<u8>,
    pub payment_point: Seq<u8>,
}

impl View for CounterpartyKeys {
    type V = CounterpartyKeysView;

    open spec fn view(&self) -> CounterpartyKeysView {
        CounterpartyKeysView {
            revocation_basepoint: self.revocation_basepoint@,
            htlc_basepoint: self.htlc_basepoint@,
            payment_point: self.payment_point@,
        }
    }
}

/// The keys of one settlement transaction.
#[derive(Clone, Copy, Debug, PartialEq, Eq)]
pub struct CommitmentKeys {
    pub per_commitment_point: PublicKey,
    pub revocation_key: PublicKey,
    pub broadcaster_htlc_key: PublicKey,
    pub countersignatory_htlc_key: PublicKey,
    pub broadcaster_delayed_payment_key: PublicKey,
}

/// The mathematical model of the keys of one settlement transaction.
pub struct CommitmentKeysView {
    pub per_commitment_point: Seq<u8>,
    pub revocation_key: Seq<u8>,
    pub broadcaster_htlc_key: Seq<u8>,
    pub countersignatory_htlc_key: Seq<u8>,
    pub broadcaster_delayed_payment_key: Seq<u8>,
}

impl View for CommitmentKeys {
    type V = CommitmentKeysView;

    open spec fn view(&self) -> CommitmentKeysView {
        CommitmentKeysView {
            per_commitment_point: self.per_commitment_point@,
            revocation_key: self.revocation_key@,
            broadcaster_htlc_key: self.broadcaster_htlc_key@,
            countersignatory_htlc_key: self.countersignatory_htlc_key@,
            broadcaster_delayed_payment_key: self.broadcaster_delayed_payment_key@,
        }
    }
}

impl CommitmentKeys {
    /// The keys of the node's own settlement transaction with the given commitment point.
    pub fn derive(
        commitment_point: &PublicKey,
        holder: &HolderKeys,
        counterparty: &CounterpartyKeys,
    ) -> (keys: CommitmentKeys)
        ensures
            keys@ == derived_keys(
                commitment_point@,
                holder.delayed_payment_basepoint@,
                holder.htlc_basepoint@,
                counterparty.revocation_basepoint@,
                counterparty.htlc_basepoint@,
            ),
    {
        proof {
            use_type_invariant(commitment_point);
            use_type_invariant(&holder.delayed_payment_basepoint);
            use_type_invariant(&holder.htlc_basepoint);
            use_type_invariant(&counterparty.revocation_basepoint);
            use_type_invariant(&counterparty.htlc_basepoint);
        }
        derive_commitment_keys(
            commitment_point,
            &holder.delayed_payment_basepoint,
            &holder.htlc_basepoint,
            &counterparty.revocation_basepoint,
            &counterparty.htlc_basepoint,
        )
    }
}

/// Calls `secp256k1::PublicKey::from_slice`, which parses the bytes of a public key,
/// and says whether it accepted them.
#[verifier::external_body]
fn point_on_curve(bytes: &[u8; 33]) -> (ok: bool)
    ensures
        ok == is_curve_point(bytes@),
{
    SecpKey::from_slice(bytes).is_ok()
}

/// Calls `lightning::ln::chan_utils::TxCreationKeys::derive_new`, which tweaks each
/// base point by a hash of the commitment point, and hands the five keys of its
/// result back in their compressed form. Each of them is a point of the curve.
#[verifier::external_body]
fn derive_commitment_keys(
    commitment_point: &PublicKey,
    delayed_payment_base: &PublicKey,
    htlc_base: &PublicKey,
    revocation_base: &PublicKey,
    countersignatory_htlc_base: &PublicKey,
) -> (keys: CommitmentKeys)
    requires
        is_curve_point(commitment_point@),
        is_curve_point(delayed_payment_base@),
        is_curve_point(htlc_base@),
        is_curve_point(revocation_base@),
        is_curve_point(countersignatory_htlc_base@),
    ensures
        keys@ == derived_keys(
            commitment_point@,
            delayed_payment_base@,
            htlc_base@,
            revocation_base@,
            countersignatory_htlc_base@,
        ),
{
    let key = |k: &PublicKey| SecpKey::from_slice(&k.bytes).unwrap();
    let (delayed, htlc) = (DelayedPaymentBasepoint(key(delayed_payment_base)), HtlcBasepoint(key(htlc_base)));
    let (revocation, other) = (RevocationBasepoint(key(revocation_base)), HtlcBasepoint(key(countersignatory_htlc_base)));
    let keys = TxCreationKeys::derive_new(&Secp256k1::new(), &key(commitment_point), &delayed, &htlc, &revocation, &other);
    CommitmentKeys {
        per_commitment_point: PublicKey { bytes: keys.per_commitment_point.serialize() },
        revocation_key: PublicKey { bytes: keys.revocation_key.0.serialize() },
        broadcaster_htlc_key: PublicKey { bytes: keys.broadcaster_htlc_key.0.serialize() },
        countersignatory_htlc_key: PublicKey { bytes: keys.countersignatory_htlc_key.0.serialize() },
        broadcaster_delayed_payment_key: PublicKey { bytes: keys.broadcaster_delayed_payment_key.0.serialize() },
    }
}

} // verus!
