//! The settlement transaction of a channel: the balances of the two parties, the
//! outputs of the pending payments, the fee, and the outputs in canonical order.
use vstd::prelude::*;
use crate::canonical::{canonical_order, sort_outputs, CommitmentOutput, OutputView};
use crate::channel::{ChannelRecord, ChannelRecordView, ChannelTypeConfig, Htlc, HtlcView};
use crate::commitment_laws::{
    htlc_output_value, lemma_balance_conservation, lemma_outputs_above_dust, output_threshold,
};
use crate::error::Error;
use crate::keys::{derived_keys, CommitmentKeys, CommitmentKeysView, HolderKeys, HolderKeysView};
use crate::script::{
    countersigner_script, htlc_output_script, htlc_output_script_of, to_local_script,
    to_local_script_of, to_remote_script_of,
};
use crate::sums::{lemma_sum_by_take, sum_by};
use crate::wire::views_of;

verus! {

/// The weight of a settlement transaction without outputs for pending payments.
pub const COMMITMENT_BASE_WEIGHT: u64 = 724;

/// The same weight where the channel has anchor outputs.
pub const COMMITMENT_ANCHOR_BASE_WEIGHT: u64 = 1124;

/// The weight that each output of a pending payment adds.
pub const COMMITMENT_WEIGHT_PER_HTLC: u64 = 172;

/// The weight of the transaction that takes back an offered payment after its expiry.
pub const HTLC_TIMEOUT_WEIGHT: u64 = 663;

/// The weight of the transaction that claims a received payment.
pub const HTLC_SUCCESS_WEIGHT: u64 = 703;

/// The weight of a settlement transaction with the given number of outputs for
/// pending payments.
pub open spec fn commitment_weight(anchors: bool, htlc_outputs: nat) -> int {
    (if anchors {
        COMMITMENT_ANCHOR_BASE_WEIGHT as int
    } else {
        COMMITMENT_BASE_WEIGHT as int
    }) + COMMITMENT_WEIGHT_PER_HTLC * htlc_outputs
}

/// The fee of a settlement transaction at a fee rate per 1000 weight units, rounded down.
pub open spec fn commitment_fee_sat(feerate_per_kw: u32, anchors: bool, htlc_outputs: nat) -> int {
    feerate_per_kw * commitment_weight(anchors, htlc_outputs) / 1000
}

/// The fee of the transaction that spends the output of a pending payment, rounded
/// down. With anchor outputs that transaction pays no fee.
pub open spec fn htlc_tx_fee_sat(feerate_per_kw: u32, anchors: bool, offered: bool) -> int {
    if anchors {
        0
    } else if offered {
        feerate_per_kw * HTLC_TIMEOUT_WEIGHT / 1000
    } else {
        feerate_per_kw * HTLC_SUCCESS_WEIGHT / 1000
    }
}

/// The value below which the output of a pending payment is dust: the dust limit and
/// the fee of the transaction that spends the output.
pub open spec fn htlc_dust_threshold(config: ChannelTypeConfig, anchors: bool, offered: bool) -> int {
    config.dust_limit_sat + htlc_tx_fee_sat(config.feerate_per_kw, anchors, offered)
}

/// Whether a pending payment gets no output because its value is dust. This depends
/// on the fee rate and not on the fee of the settlement transaction, so the fee that
/// follows from the number of payments with an output changes none of them.
pub open spec fn is_trimmed(h: HtlcView, config: ChannelTypeConfig, anchors: bool) -> bool {
    h.amount_msat / 1000 < htlc_dust_threshold(config, anchors, h.offered)
}

/// The amount of a payment where this node pays it.
pub open spec fn offered_amount() -> spec_fn(HtlcView) -> int {
    |h: HtlcView| if h.offered { h.amount_msat as int } else { 0 }
}

/// The amount of a payment where the other party pays it.
pub open spec fn received_amount() -> spec_fn(HtlcView) -> int {
    |h: HtlcView| if h.offered { 0 } else { h.amount_msat as int }
}

/// One for a payment that gets an output.
pub open spec fn included_one(config: ChannelTypeConfig, anchors: bool) -> spec_fn(HtlcView) -> int {
    |h: HtlcView| if is_trimmed(h, config, anchors) { 0 } else { 1 }
}

/// The value of the output of a payment that gets one.
pub open spec fn included_value(config: ChannelTypeConfig, anchors: bool) -> spec_fn(
    HtlcView,
) -> int {
    |h: HtlcView| if is_trimmed(h, config, anchors) { 0 } else { h.amount_msat as int / 1000 }
}

/// The amounts of the pending payments that this node pays, trimmed or not.
pub open spec fn offered_msat(htlcs: Seq<HtlcView>) -> int {
    sum_by(htlcs, offered_amount())
}

/// The amounts of the pending payments that the other party pays, trimmed or not.
pub open spec fn received_msat(htlcs: Seq<HtlcView>) -> int {
    sum_by(htlcs, received_amount())
}

/// The number of pending payments that get an output.
pub open spec fn included_count(htlcs: Seq<HtlcView>, config: ChannelTypeConfig, anchors: bool) -> int {
    sum_by(htlcs, included_one(config, anchors))
}

/// The values of the outputs of the pending payments.
pub open spec fn htlc_value_sat(htlcs: Seq<HtlcView>, config: ChannelTypeConfig, anchors: bool) -> int {
    sum_by(htlcs, included_value(config, anchors))
}

/// The balances of the two parties in a settlement transaction, and its fee.
#[derive(Clone, Copy, Debug, PartialEq, Eq)]
pub struct Balances {
    /// The value of the output of this node; 0 where it has none.
    pub to_local_sat: u64,
    /// The value of the output of the other party; 0 where it has none.
    pub to_remote_sat: u64,
    /// The funding amount that no output holds.
    pub total_fee_sat: u64,
}

/// The value of the output of a balance: the balance where it is not dust, else 0.
pub open spec fn output_value(balance_sat: int, config: ChannelTypeConfig) -> int {
    if balance_sat >= config.dust_limit_sat {
        balance_sat
    } else {
        0
    }
}

/// The balances of the two parties. Each party has its part of the funding amount
/// less the pending payments that it pays, trimmed or not, in whole satoshi; the
/// party that funded the channel pays the fee of the transaction, which depends on
/// the number of payments that get an output. A balance below the dust limit gets
/// no output. What no output holds is the total fee. A part of the funding amount
/// that does not cover the payments, or a balance that does not cover the fee, is an
/// underflow.
pub open spec fn settled_balances(
    rec: ChannelRecordView,
    config: ChannelTypeConfig,
    outbound: bool,
) -> Result<Balances, Error> {
    let anchors = rec.features.anchors_zero_fee_htlc_tx;
    let local_msat = rec.value_to_self_msat - offered_msat(rec.htlcs);
    let remote_msat = rec.funding_sat * 1000 - rec.value_to_self_msat - received_msat(rec.htlcs);
    let fee = commitment_fee_sat(
        config.feerate_per_kw,
        anchors,
        included_count(rec.htlcs, config, anchors) as nat,
    );
    let local_sat = local_msat / 1000 - if outbound { fee } else { 0 };
    let remote_sat = remote_msat / 1000 - if outbound { 0 } else { fee };
    if local_msat < 0 || remote_msat < 0 || local_sat < 0 || remote_sat < 0 {
        Err(Error::BalanceUnderflow)
    } else {
        let to_local = output_value(local_sat, config);
        let to_remote = output_value(remote_sat, config);
        Ok(
            Balances {
                to_local_sat: to_local as u64,
                to_remote_sat: to_remote as u64,
                total_fee_sat: (rec.funding_sat - to_local - to_remote - htlc_value_sat(
                    rec.htlcs,
                    config,
                    anchors,
                )) as u64,
            },
        )
    }
}

/// The outputs of the pending payments that get one, in the order of the payments.
/// Each refers to its payment by the index of the payment.
pub open spec fn htlc_outputs(
    htlcs: Seq<HtlcView>,
    keys: CommitmentKeysView,
    config: ChannelTypeConfig,
    anchors: bool,
) -> Seq<OutputView>
    decreases htlcs.len(),
{
    if htlcs.len() == 0 {
        Seq::empty()
    } else {
        let front = htlc_outputs(htlcs.drop_last(), keys, config, anchors);
        let h = htlcs.last();
        if is_trimmed(h, config, anchors) {
            front
        } else {
            front.push(
                OutputView {
                    value_sat: (h.amount_msat / 1000) as u64,
                    script: htlc_output_script(
                        h.offered,
                        h.amount_msat,
                        h.expiry,
                        h.payment_hash,
                        anchors,
                        keys,
                    ),
                    htlc: Some((htlcs.len() - 1) as usize),
                },
            )
        }
    }
}

/// The outputs of the two balances behind `outputs`: that of this node, then that
/// of the other party, each where its value is above 0.
pub open spec fn with_balance_outputs(
    outputs: Seq<OutputView>,
    rec: ChannelRecordView,
    keys: CommitmentKeysView,
    balances: Balances,
) -> Seq<OutputView> {
    let with_local = if balances.to_local_sat > 0 {
        outputs.push(
            OutputView {
                value_sat: balances.to_local_sat,
                script: to_local_script(keys, rec.contest_delay),
                htlc: None,
            },
        )
    } else {
        outputs
    };
    if balances.to_remote_sat > 0 {
        with_local.push(
            OutputView {
                value_sat: balances.to_remote_sat,
                script: countersigner_script(
                    rec.features.anchors_zero_fee_htlc_tx,
                    rec.counterparty.payment_point,
                ),
                htlc: None,
            },
        )
    } else {
        with_local
    }
}

/// The outputs of a settlement transaction before they are put in order.
pub open spec fn candidate_outputs(
    rec: ChannelRecordView,
    keys: CommitmentKeysView,
    config: ChannelTypeConfig,
    balances: Balances,
) -> Seq<OutputView> {
    with_balance_outputs(
        htlc_outputs(rec.htlcs, keys, config, rec.features.anchors_zero_fee_htlc_tx),
        rec,
        keys,
        balances,
    )
}

/// The first position among `outputs` whose output belongs to the payment with
/// index `tag`.
pub open spec fn tag_position(outputs: Seq<OutputView>, tag: usize) -> Option<u64>
    decreases outputs.len(),
{
    if outputs.len() == 0 {
        None
    } else {
        match tag_position(outputs.drop_last(), tag) {
            Some(p) => Some(p),
            None => if outputs.last().htlc == Some(tag) {
                Some((outputs.len() - 1) as u64)
            } else {
                None
            },
        }
    }
}

/// The payments, each with the position of its output among `outputs`.
pub open spec fn resolved_htlcs(htlcs: Seq<HtlcView>, outputs: Seq<OutputView>) -> Seq<HtlcView> {
    Seq::new(
        htlcs.len(),
        |i: int|
            HtlcView {
                amount_msat: htlcs[i].amount_msat,
                offered: htlcs[i].offered,
                expiry: htlcs[i].expiry,
                payment_hash: htlcs[i].payment_hash,
                output_index: tag_position(outputs, i as usize),
            },
    )
}

/// The payments that have an output, in their order.
pub open spec fn placed_htlcs(htlcs: Seq<HtlcView>) -> Seq<HtlcView>
    decreases htlcs.len(),
{
    if htlcs.len() == 0 {
        Seq::empty()
    } else if htlcs.last().output_index is Some {
        placed_htlcs(htlcs.drop_last()).push(htlcs.last())
    } else {
        placed_htlcs(htlcs.drop_last())
    }
}

/// The payments that a built settlement transaction lists: all of them where
/// `verbose` is set, else those that have an output.
pub open spec fn listed_htlcs(htlcs: Seq<HtlcView>, verbose: bool) -> Seq<HtlcView> {
    if verbose {
        htlcs
    } else {
        placed_htlcs(htlcs)
    }
}

/// A settlement transaction as it was rebuilt from a channel record.
#[derive(Clone, Debug, PartialEq, Eq)]
pub struct BuiltCommitment {
    /// The outputs in canonical order.
    pub outputs: Vec<CommitmentOutput>,
    /// The pending payments, each with the position of its output.
    pub htlcs: Vec<Htlc>,
    pub to_local_sat: u64,
    pub to_remote_sat: u64,
    pub feerate_per_kw: u32,
    /// The funding amount less the values of all outputs.
    pub total_fee_sat: u64,
    /// The balance of this node less its reserve.
    pub outbound_capacity_sat: u64,
    /// The balance of the other party less its reserve.
    pub inbound_capacity_sat: u64,
}

/// The mathematical model of a rebuilt settlement transaction.
pub struct BuiltCommitmentView {
    pub outputs: Seq<OutputView>,
    pub htlcs: Seq<HtlcView>,
    pub to_local_sat: u64,
    pub to_remote_sat: u64,
    pub feerate_per_kw: u32,
    pub total_fee_sat: u64,
    pub outbound_capacity_sat: u64,
    pub inbound_capacity_sat: u64,
}

impl View for BuiltCommitment {
    type V = BuiltCommitmentView;

    open spec fn view(&self) -> BuiltCommitmentView {
        BuiltCommitmentView {
            outputs: views_of(self.outputs@),
            htlcs: views_of(self.htlcs@),
            to_local_sat: self.to_local_sat,
            to_remote_sat: self.to_remote_sat,
            feerate_per_kw: self.feerate_per_kw,
            total_fee_sat: self.total_fee_sat,
            outbound_capacity_sat: self.outbound_capacity_sat,
            inbound_capacity_sat: self.inbound_capacity_sat,
        }
    }
}

/// The reserve that a party has to keep; 0 where none was negotiated.
pub open spec fn reserve_of(reserve_sat: Option<u64>) -> u64 {
    match reserve_sat {
        Some(r) => r,
        None => 0,
    }
}

/// The settlement transaction of a channel.
///
/// `outbound` says whether this node is taken to have funded the channel, and so to
/// pay the fee. `verbose` says whether the result lists the payments that have no
/// output too. A record without a funding transaction has no settlement
/// transaction. A reserve is not taken out of an output; it is what a balance
/// holds beyond the capacity, and a reserve that the balance does not cover is an
/// underflow.
pub open spec fn commitment_of(
    rec: ChannelRecordView,
    holder: HolderKeysView,
    config: ChannelTypeConfig,
    outbound: bool,
    verbose: bool,
) -> Result<BuiltCommitmentView, Error> {
    if rec.funding_tx is None {
        Err(Error::NoFundingTransaction)
    } else {
        match settled_balances(rec, config, outbound) {
            Err(e) => Err(e),
            Ok(balances) => if reserve_of(rec.holder_reserve_sat) > balances.to_local_sat
                || reserve_of(rec.counterparty_reserve_sat) > balances.to_remote_sat {
                Err(Error::BalanceUnderflow)
            } else {
                let keys = derived_keys(
                    rec.commitment_point,
                    holder.delayed_payment_basepoint,
                    holder.htlc_basepoint,
                    rec.counterparty.revocation_basepoint,
                    rec.counterparty.htlc_basepoint,
                );
                let outputs = canonical_order(candidate_outputs(rec, keys, config, balances));
                Ok(
                    BuiltCommitmentView {
                        outputs,
                        htlcs: listed_htlcs(resolved_htlcs(rec.htlcs, outputs), verbose),
                        to_local_sat: balances.to_local_sat,
                        to_remote_sat: balances.to_remote_sat,
                        feerate_per_kw: config.feerate_per_kw,
                        total_fee_sat: balances.total_fee_sat,
                        outbound_capacity_sat: (balances.to_local_sat - reserve_of(
                            rec.holder_reserve_sat,
                        )) as u64,
                        inbound_capacity_sat: (balances.to_remote_sat - reserve_of(
                            rec.counterparty_reserve_sat,
                        )) as u64,
                    },
                )
            },
        }
    }
}

/// The sums over the pending payments are not negative, at most as many payments
/// get an output as there are, and the outputs hold no more than the payments.
pub proof fn lemma_htlc_sums(htlcs: Seq<HtlcView>, config: ChannelTypeConfig, anchors: bool)
    ensures
        0 <= offered_msat(htlcs),
        0 <= received_msat(htlcs),
        0 <= included_count(htlcs, config, anchors) <= htlcs.len(),
        0 <= htlc_value_sat(htlcs, config, anchors),
        htlc_value_sat(htlcs, config, anchors) * 1000 <= offered_msat(htlcs) + received_msat(htlcs),
    decreases htlcs.len(),
{
    if htlcs.len() > 0 {
        lemma_htlc_sums(htlcs.drop_last(), config, anchors);
    }
}

/// The fee of the transaction that spends the output of a pending payment.
pub fn htlc_tx_fee(feerate_per_kw: u32, anchors: bool, offered: bool) -> (fee: u64)
    ensures
        fee == htlc_tx_fee_sat(feerate_per_kw, anchors, offered),
{
    if anchors {
        0
    } else if offered {
        feerate_per_kw as u64 * HTLC_TIMEOUT_WEIGHT / 1000
    } else {
        feerate_per_kw as u64 * HTLC_SUCCESS_WEIGHT / 1000
    }
}

/// Says whether a pending payment gets no output because its value is dust.
pub fn htlc_is_trimmed(htlc: &Htlc, config: &ChannelTypeConfig, anchors: bool) -> (trimmed: bool)
    ensures
        trimmed == is_trimmed(htlc@, *config, anchors),
{
    let threshold: u128 = config.dust_limit_sat as u128 + htlc_tx_fee(
        config.feerate_per_kw,
        anchors,
        htlc.offered,
    ) as u128;
    ((htlc.amount_msat / 1000) as u128) < threshold
}

/// The fee of a settlement transaction with the given number of outputs for pending
/// payments.
pub fn commitment_fee(feerate_per_kw: u32, anchors: bool, htlc_outputs: usize) -> (fee: u128)
    ensures
        fee == commitment_fee_sat(feerate_per_kw, anchors, htlc_outputs as nat),
{
    let base: u128 = if anchors {
        COMMITMENT_ANCHOR_BASE_WEIGHT as u128
    } else {
        COMMITMENT_BASE_WEIGHT as u128
    };
    let weight: u128 = base + COMMITMENT_WEIGHT_PER_HTLC as u128 * (htlc_outputs as u128);
    assert(feerate_per_kw as int * weight as int <= 0xffff_ffff * 0x1_0000_0000_0000_0000_0000)
        by (nonlinear_arith)
        requires
            0 <= feerate_per_kw as int <= 0xffff_ffff,
            0 <= weight as int <= 0x1_0000_0000_0000_0000_0000,
    ;
    feerate_per_kw as u128 * weight / 1000
}

struct HtlcTotals {
    offered_msat: u128,
    received_msat: u128,
    included: usize,
    value_sat: u128,
}

fn htlc_totals(htlcs: &Vec<Htlc>, config: &ChannelTypeConfig, anchors: bool) -> (t: HtlcTotals)
    ensures
        t.offered_msat == offered_msat(views_of(htlcs@)),
        t.received_msat == received_msat(views_of(htlcs@)),
        t.included == included_count(views_of(htlcs@), *config, anchors),
        t.value_sat == htlc_value_sat(views_of(htlcs@), *config, anchors),
{
    let ghost views = views_of(htlcs@);
    let mut offered: u128 = 0;
    let mut received: u128 = 0;
    let mut included: usize = 0;
    let mut value: u128 = 0;
    let mut i: usize = 0;
    assert(views.take(0) =~= Seq::<HtlcView>::empty());
    while i < htlcs.len()
        invariant
            i <= htlcs@.len(),
            views == views_of(htlcs@),
            offered == offered_msat(views.take(i as int)),
            received == received_msat(views.take(i as int)),
            included == included_count(views.take(i as int), *config, anchors),
            value == htlc_value_sat(views.take(i as int), *config, anchors),
            offered <= i * 0xffff_ffff_ffff_ffff,
            received <= i * 0xffff_ffff_ffff_ffff,
            value <= i * 0xffff_ffff_ffff_ffff,
            included <= i,
        decreases htlcs@.len() - i,
    {
        let h = &htlcs[i];
        proof {
            assert(views[i as int] == h@);
            lemma_sum_by_take(views, offered_amount(), i as int);
            lemma_sum_by_take(views, received_amount(), i as int);
            lemma_sum_by_take(views, included_one(*config, anchors), i as int);
            lemma_sum_by_take(views, included_value(*config, anchors), i as int);
        }
        if h.offered {
            offered = offered + h.amount_msat as u128;
        } else {
            received = received + h.amount_msat as u128;
        }
        if !htlc_is_trimmed(h, config, anchors) {
            included = included + 1;
            value = value + (h.amount_msat / 1000) as u128;
        }
        i = i + 1;
    }
    assert(views.take(i as int) =~= views);
    HtlcTotals { offered_msat: offered, received_msat: received, included, value_sat: value }
}

/// Computes the balances of the two parties in the settlement transaction of a
/// channel, and its fee.
#[verifier::rlimit(50)]
pub fn settle_balances(record: &ChannelRecord, config: &ChannelTypeConfig, outbound: bool) -> (res:
    Result<Balances, Error>)
    ensures
        res == settled_balances(record@, *config, outbound),
{
    let anchors = record.features.anchors_zero_fee_htlc_tx;
    let totals = htlc_totals(&record.htlcs, config, anchors);
    proof {
        lemma_htlc_sums(record@.htlcs, *config, anchors);
    }
    let funding_msat: u128 = record.funding_sat as u128 * 1000;
    let to_self: u128 = record.value_to_self_msat as u128;
    if totals.offered_msat > to_self || to_self > funding_msat || totals.received_msat
        > funding_msat - to_self {
        return Err(Error::BalanceUnderflow);
    }
    let local: u128 = (to_self - totals.offered_msat) / 1000;
    let remote: u128 = (funding_msat - to_self - totals.received_msat) / 1000;
    let fee = commitment_fee(config.feerate_per_kw, anchors, totals.included);
    if fee > (if outbound { local } else { remote }) {
        return Err(Error::BalanceUnderflow);
    }
    let local: u128 = if outbound { local - fee } else { local };
    let remote: u128 = if outbound { remote } else { remote - fee };
    let dust: u128 = config.dust_limit_sat as u128;
    let to_local_sat: u64 = if local >= dust { local as u64 } else { 0 };
    let to_remote_sat: u64 = if remote >= dust { remote as u64 } else { 0 };
    let held: u128 = to_local_sat as u128 + to_remote_sat as u128 + totals.value_sat;
    let total_fee_sat: u64 = (record.funding_sat as u128 - held) as u64;
    Ok(Balances { to_local_sat, to_remote_sat, total_fee_sat })
}

/// Once an output of a payment stands among the first outputs, its position is
/// that among all of them.
pub proof fn lemma_tag_position_stable(outputs: Seq<OutputView>, tag: usize, m: int, n: int)
    requires
        0 <= m <= n <= outputs.len(),
        tag_position(outputs.take(m), tag) is Some,
    ensures
        tag_position(outputs.take(n), tag) == tag_position(outputs.take(m), tag),
    decreases n - m,
{
    if m < n {
        lemma_tag_position_stable(outputs, tag, m, n - 1);
        assert(outputs.take(n).drop_last() =~= outputs.take(n - 1));
    }
}

/// Computes the outputs of the pending payments that get one.
pub fn htlc_candidates(record: &ChannelRecord, keys: &CommitmentKeys, config: &ChannelTypeConfig) -> (outs:
    Vec<CommitmentOutput>)
    ensures
        views_of(outs@) == htlc_outputs(
            record@.htlcs,
            keys@,
            *config,
            record.features.anchors_zero_fee_htlc_tx,
        ),
{
    let anchors = record.features.anchors_zero_fee_htlc_tx;
    let ghost views = views_of(record.htlcs@);
    let mut outs: Vec<CommitmentOutput> = Vec::new();
    let mut i: usize = 0;
    assert(views.take(0) =~= Seq::<HtlcView>::empty());
    assert(views_of(outs@) =~= Seq::<OutputView>::empty());
    while i < record.htlcs.len()
        invariant
            i <= record.htlcs@.len(),
            views == views_of(record.htlcs@),
            anchors == record.features.anchors_zero_fee_htlc_tx,
            views_of(outs@) == htlc_outputs(views.take(i as int), keys@, *config, anchors),
        decreases record.htlcs@.len() - i,
    {
        let h = &record.htlcs[i];
        let ghost before = views_of(outs@);
        proof {
            assert(views[i as int] == h@);
            assert(views.take(i + 1).drop_last() =~= views.take(i as int));
            assert(views.take(i + 1).last() == h@);
        }
        if !htlc_is_trimmed(h, config, anchors) {
            let script = htlc_output_script_of(
                h.offered,
                h.amount_msat,
                h.expiry,
                &h.payment_hash,
                anchors,
                keys,
            );
            let output = CommitmentOutput { value_sat: h.amount_msat / 1000, script, htlc: Some(i) };
            outs.push(output);
            assert(views_of(outs@) =~= before.push(output@));
        }
        i = i + 1;
    }
    assert(views.take(i as int) =~= views);
    outs
}

/// Finds the first position among `outputs` whose output belongs to the payment
/// with index `tag`.
pub fn output_position(outputs: &Vec<CommitmentOutput>, tag: usize) -> (position: Option<u64>)
    ensures
        position == tag_position(views_of(outputs@), tag),
{
    let ghost views = views_of(outputs@);
    let mut p: usize = 0;
    assert(views.take(0) =~= Seq::<OutputView>::empty());
    while p < outputs.len()
        invariant
            p <= outputs@.len(),
            views == views_of(outputs@),
            tag_position(views.take(p as int), tag) is None,
        decreases outputs@.len() - p,
    {
        proof {
            assert(views.take(p + 1).drop_last() =~= views.take(p as int));
            assert(views.take(p + 1).last() == outputs@[p as int]@);
        }
        let here = match outputs[p].htlc {
            Some(t) => t == tag,
            None => false,
        };
        if here {
            proof {
                lemma_tag_position_stable(views, tag, p + 1, views.len() as int);
                assert(views.take(views.len() as int) =~= views);
            }
            return Some(p as u64);
        }
        p = p + 1;
    }
    assert(views.take(p as int) =~= views);
    None
}

/// Computes the payments that a built settlement transaction lists, each with the
/// position of its output among `outputs`.
pub fn resolve_htlcs(htlcs: &Vec<Htlc>, outputs: &Vec<CommitmentOutput>, verbose: bool) -> (listed:
    Vec<Htlc>)
    ensures
        views_of(listed@) == listed_htlcs(
            resolved_htlcs(views_of(htlcs@), views_of(outputs@)),
            verbose,
        ),
{
    let ghost resolved = resolved_htlcs(views_of(htlcs@), views_of(outputs@));
    let mut listed: Vec<Htlc> = Vec::new();
    let mut i: usize = 0;
    assert(resolved.take(0) =~= Seq::<HtlcView>::empty());
    assert(views_of(listed@) =~= Seq::<HtlcView>::empty());
    while i < htlcs.len()
        invariant
            i <= htlcs@.len(),
            resolved == resolved_htlcs(views_of(htlcs@), views_of(outputs@)),
            views_of(listed@) == listed_htlcs(resolved.take(i as int), verbose),
        decreases htlcs@.len() - i,
    {
        let h = &htlcs[i];
        let ghost before = views_of(listed@);
        let output_index = output_position(outputs, i);
        let placed = Htlc {
            amount_msat: h.amount_msat,
            offered: h.offered,
            expiry: h.expiry,
            payment_hash: h.payment_hash,
            output_index,
        };
        proof {
            assert(views_of(htlcs@)[i as int] == h@);
            assert(resolved[i as int] == placed@);
            assert(resolved.take(i + 1).drop_last() =~= resolved.take(i as int));
            assert(resolved.take(i + 1).last() == placed@);
            assert(resolved.take(i + 1) =~= resolved.take(i as int).push(placed@));
        }
        if verbose || output_index.is_some() {
            listed.push(placed);
            assert(views_of(listed@) =~= before.push(placed@));
        }
        i = i + 1;
    }
    assert(resolved.take(i as int) =~= resolved);
    listed
}

/// Rebuilds the settlement transaction of a channel from its record.
///
/// `holder` holds the base points of this node for the channel. `outbound` says
/// whether this node is taken to have funded the channel, and so to pay the fee;
/// `verbose` says whether the result lists the payments that have no output too.
#[verifier::rlimit(50)]
pub fn build_commitment(
    record: &ChannelRecord,
    holder: &HolderKeys,
    config: &ChannelTypeConfig,
    outbound: bool,
    verbose: bool,
) -> (res: Result<BuiltCommitment, Error>)
    ensures
        match res {
            Ok(built) => commitment_of(record@, holder@, *config, outbound, verbose) == Ok::<
                BuiltCommitmentView,
                Error,
            >(built@),
            Err(e) => commitment_of(record@, holder@, *config, outbound, verbose) == Err::<
                BuiltCommitmentView,
                Error,
            >(e),
        },
        res matches Ok(built) ==> built.to_local_sat + built.to_remote_sat + htlc_output_value(
            built@.outputs,
        ) + built.total_fee_sat == record.funding_sat,
        res matches Ok(built) ==> forall|p: int|
            0 <= p < built@.outputs.len() ==> (#[trigger] built@.outputs[p]).value_sat
                >= output_threshold(built@.outputs[p], record@, *config),
{
    if record.funding_tx.is_none() {
        return Err(Error::NoFundingTransaction);
    }
    let balances = settle_balances(record, config, outbound)?;
    let holder_reserve: u64 = match record.holder_reserve_sat {
        Some(r) => r,
        None => 0,
    };
    let counterparty_reserve: u64 = match record.counterparty_reserve_sat {
        Some(r) => r,
        None => 0,
    };
    if holder_reserve > balances.to_local_sat || counterparty_reserve > balances.to_remote_sat {
        return Err(Error::BalanceUnderflow);
    }
    let anchors = record.features.anchors_zero_fee_htlc_tx;
    let keys = CommitmentKeys::derive(&record.commitment_point, holder, &record.counterparty);
    let mut candidates = htlc_candidates(record, &keys, config);
    let ghost htlc_part = views_of(candidates@);
    if balances.to_local_sat > 0 {
        let output = CommitmentOutput {
            value_sat: balances.to_local_sat,
            script: to_local_script_of(&keys, record.contest_delay),
            htlc: None,
        };
        candidates.push(output);
        assert(views_of(candidates@) =~= htlc_part.push(output@));
    }
    let ghost local_part = views_of(candidates@);
    if balances.to_remote_sat > 0 {
        let output = CommitmentOutput {
            value_sat: balances.to_remote_sat,
            script: to_remote_script_of(anchors, &record.counterparty.payment_point),
            htlc: None,
        };
        candidates.push(output);
        assert(views_of(candidates@) =~= local_part.push(output@));
    }
    assert(views_of(candidates@) == candidate_outputs(record@, keys@, *config, balances));
    let outputs = sort_outputs(candidates);
    let htlcs = resolve_htlcs(&record.htlcs, &outputs, verbose);
    let output_count = outputs.len();
    let htlc_count = record.htlcs.len();
    proof {
        lemma_balance_conservation(record@, holder@, *config, outbound, verbose);
        lemma_outputs_above_dust(record@, holder@, *config, outbound, verbose);
    }
    Ok(
        BuiltCommitment {
            outputs,
            htlcs,
            to_local_sat: balances.to_local_sat,
            to_remote_sat: balances.to_remote_sat,
            feerate_per_kw: config.feerate_per_kw,
            total_fee_sat: balances.total_fee_sat,
            outbound_capacity_sat: balances.to_local_sat - holder_reserve,
            inbound_capacity_sat: balances.to_remote_sat - counterparty_reserve,
        },
    )
}

} // verus!
