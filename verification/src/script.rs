//! Scripts of the outputs of a settlement transaction.
use vstd::prelude::*;
use bitcoin::secp256k1::PublicKey as SecpKey;
use bitcoin::ScriptBuf;
use lightning::ln::chan_utils::{HTLCOutputInCommitment, TxCreationKeys};
use lightning::ln::channel_keys::{DelayedPaymentKey, HtlcKey, RevocationKey};
use lightning::types::features::ChannelTypeFeatures;
use lightning::types::payment::PaymentHash;
use crate::keys::{is_curve_point, CommitmentKeys, CommitmentKeysView, PublicKey};

verus! {

/// The witness script that `lightning::ln::chan_utils::get_htlc_redeemscript` builds
/// for a conditional payment.
pub uninterp spec fn htlc_redeemscript(
    offered: bool,
    amount_msat: u64,
    expiry: u32,
    payment_hash: Seq<u8>,
    anchors: bool,
    keys: CommitmentKeysView,
) -> Seq<u8>;

/// The witness script that `lightning::ln::chan_utils::get_revokeable_redeemscript`
/// builds for the delayed balance of the party that publishes the transaction.
pub uninterp spec fn revokeable_redeemscript(
    revocation_key: Seq<u8>,
    contest_delay: u16,
    delayed_payment_key: Seq<u8>,
) -> Seq<u8>;

/// The output script that `lightning::ln::chan_utils::get_countersigner_payment_script`
/// builds for the balance of the other party.
pub uninterp spec fn countersigner_script(anchors: bool, payment_point: Seq<u8>) -> Seq<u8>;

/// The output script by which `bitcoin::Script::to_p2wsh` pays to a witness script.
pub uninterp spec fn p2wsh_script(witness_script: Seq<u8>) -> Seq<u8>;

/// The output script of a conditional payment.
pub open spec fn htlc_output_script(
    offered: bool,
    amount_msat: u64,
    expiry: u32,
    payment_hash: Seq<u8>,
    anchors: bool,
    keys: CommitmentKeysView,
) -> Seq<u8> {
    p2wsh_script(htlc_redeemscript(offered, amount_msat, expiry, payment_hash, anchors, keys))
}

/// The output script of the balance of the party that publishes the transaction.
pub open spec fn to_local_script(keys: CommitmentKeysView, contest_delay: u16) -> Seq<u8> {
    p2wsh_script(
        revokeable_redeemscript(
            keys.revocation_key,
            contest_delay,
            keys.broadcaster_delayed_payment_key,
        ),
    )
}

/// Computes the output script of a conditional payment.
pub fn htlc_output_script_of(
    offered: bool,
    amount_msat: u64,
    expiry: u32,
    payment_hash: &[u8; 32],
    anchors: bool,
    keys: &CommitmentKeys,
) -> (script: Vec<u8>)
    ensures
        script@ == htlc_output_script(offered, amount_msat, expiry, payment_hash@, anchors, keys@),
{
    proof {
        use_type_invariant(&keys.per_commitment_point);
        use_type_invariant(&keys.revocation_key);
        use_type_invariant(&keys.broadcaster_htlc_key);
        use_type_invariant(&keys.countersignatory_htlc_key);
        use_type_invariant(&keys.broadcaster_delayed_payment_key);
    }
    let witness_script = htlc_witness_script(
        offered,
        amount_msat,
        expiry,
        payment_hash,
        anchors,
        keys,
    );
    pay_to_witness_script(witness_script)
}

/// Computes the output script of the balance of the party that publishes the transaction.
pub fn to_local_script_of(keys: &CommitmentKeys, contest_delay: u16) -> (script: Vec<u8>)
    ensures
        script@ == to_local_script(keys@, contest_delay),
{
    proof {
        use_type_invariant(&keys.revocation_key);
        use_type_invariant(&keys.broadcaster_delayed_payment_key);
    }
    let witness_script = revokeable_witness_script(
        &keys.revocation_key,
        contest_delay,
        &keys.broadcaster_delayed_payment_key,
    );
    pay_to_witness_script(witness_script)
}

/// Computes the output script of the balance of the other party.
pub fn to_remote_script_of(anchors: bool, payment_point: &PublicKey) -> (script: Vec<u8>)
    ensures
        script@ == countersigner_script(anchors, payment_point@),
{
    proof {
        use_type_invariant(payment_point);
    }
    countersigner_payment_script(anchors, payment_point)
}

/// Calls `lightning::ln::chan_utils::get_htlc_redeemscript` on the payment, the
/// channel type and the keys, each in its outside form, and hands back the bytes of
/// the script. The script is a function of these arguments alone.
#[verifier::external_body]
fn htlc_witness_script(
    offered: bool,
    amount_msat: u64,
    expiry: u32,
    payment_hash: &[u8; 32],
    anchors: bool,
    keys: &CommitmentKeys,
) -> (script: Vec<u8>)
    requires
        is_curve_point(keys.per_commitment_point@),
        is_curve_point(keys.revocation_key@),
        is_curve_point(keys.broadcaster_htlc_key@),
        is_curve_point(keys.countersignatory_htlc_key@),
        is_curve_point(keys.broadcaster_delayed_payment_key@),
    ensures
        script@ == htlc_redeemscript(offered, amount_msat, expiry, payment_hash@, anchors, keys@),
{
    let key = |k: &PublicKey| SecpKey::from_slice(&k.bytes).unwrap();
    let payment_hash = PaymentHash(*payment_hash);
    let htlc = HTLCOutputInCommitment { offered, amount_msat, cltv_expiry: expiry, payment_hash, transaction_output_index: None };
    let tx_keys = TxCreationKeys {
        per_commitment_point: key(&keys.per_commitment_point),
        revocation_key: RevocationKey(key(&keys.revocation_key)),
        broadcaster_htlc_key: HtlcKey(key(&keys.broadcaster_htlc_key)),
        countersignatory_htlc_key: HtlcKey(key(&keys.countersignatory_htlc_key)),
        broadcaster_delayed_payment_key: DelayedPaymentKey(key(&keys.broadcaster_delayed_payment_key)),
    };
    let anchor_type = ChannelTypeFeatures::anchors_zero_htlc_fee_and_dependencies();
    let channel_type = if anchors { anchor_type } else { ChannelTypeFeatures::only_static_remote_key() };
    lightning::ln::chan_utils::get_htlc_redeemscript(&htlc, &channel_type, &tx_keys).into_bytes()
}

/// Calls `lightning::ln::chan_utils::get_revokeable_redeemscript` on the two keys
/// and the delay, and hands back the bytes of the script.
#[verifier::external_body]
fn revokeable_witness_script(
    revocation_key: &PublicKey,
    contest_delay: u16,
    delayed_payment_key: &PublicKey,
) -> (script: Vec<u8>)
    requires
        is_curve_point(revocation_key@),
        is_curve_point(delayed_payment_key@),
    ensures
        script@ == revokeable_redeemscript(revocation_key@, contest_delay, delayed_payment_key@),
{
    lightning::ln::chan_utils::get_revokeable_redeemscript(
        &RevocationKey(SecpKey::from_slice(&revocation_key.bytes).unwrap()),
        contest_delay,
        &DelayedPaymentKey(SecpKey::from_slice(&delayed_payment_key.bytes).unwrap()),
    ).into_bytes()
}

/// Calls `lightning::ln::chan_utils::get_countersigner_payment_script` on the channel
/// type and the payment point, and hands back the bytes of the script.
#[verifier::external_body]
fn countersigner_payment_script(anchors: bool, payment_point: &PublicKey) -> (script: Vec<u8>)
    requires
        is_curve_point(payment_point@),
    ensures
        script@ == countersigner_script(anchors, payment_point@),
{
    let channel_type = if anchors {
        ChannelTypeFeatures::anchors_zero_htlc_fee_and_dependencies()
    } else {
        ChannelTypeFeatures::only_static_remote_key()
    };
    lightning::ln::chan_utils::get_countersigner_payment_script(
        &channel_type,
        &SecpKey::from_slice(&payment_point.bytes).unwrap(),
    ).into_bytes()
}

/// Calls `bitcoin::Script::to_p2wsh` on a witness script, and hands back the bytes of
/// the output script that pays to it.
#[verifier::external_body]
fn pay_to_witness_script(witness_script: Vec<u8>) -> (script: Vec<u8>)
    ensures
        script@ == p2wsh_script(witness_script@),
{
    ScriptBuf::from_bytes(witness_script).to_p2wsh().into_bytes()
}

} // verus!
