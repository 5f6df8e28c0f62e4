//! The outputs of a settlement transaction do not depend on the order in which the
//! channel record lists the pending payments.
use vstd::prelude::*;
use vstd::multiset::Multiset;
use vstd::relations::{sorted_by, total_ordering};
use vstd::seq_lib::{group_to_multiset_ensures, lemma_sorted_unique, to_multiset_build};
use crate::canonical::{
    bytes_le, canonical_order, lemma_bytes_le_antisymmetric, lemma_bytes_le_connected,
    lemma_bytes_le_reflexive, lemma_bytes_le_transitive, output_order, OutputView,
};
use crate::channel::{ChannelRecordView, ChannelTypeConfig, HtlcView};
use crate::commitment::{
    candidate_outputs, commitment_of, htlc_outputs, included_one, included_value, is_trimmed,
    offered_amount, received_amount, settled_balances, with_balance_outputs, Balances,
};
use crate::commitment_laws::lemma_canonical_order_keeps;
use crate::keys::{derived_keys, CommitmentKeysView, HolderKeysView};
use crate::script::{countersigner_script, htlc_output_script, to_local_script};
use crate::sums::{
    bag_by, lemma_bag_by_permutation, lemma_images_permutation, lemma_sum_by_permutation,
};

verus! {

/// The value and the script of an output.
pub open spec fn pair_of() -> spec_fn(OutputView) -> (u64, Seq<u8>) {
    |o: OutputView| (o.value_sat, o.script)
}

/// The values and scripts of some outputs, in their order.
pub open spec fn output_pairs(outputs: Seq<OutputView>) -> Seq<(u64, Seq<u8>)> {
    outputs.map_values(pair_of())
}

/// The order by value, then by the bytes of the script.
pub open spec fn pair_le(a: (u64, Seq<u8>), b: (u64, Seq<u8>)) -> bool {
    if a.0 != b.0 {
        a.0 < b.0
    } else {
        bytes_le(a.1, b.1)
    }
}

/// The order by value, then by the bytes of the script, as a relation.
pub open spec fn pair_order() -> spec_fn((u64, Seq<u8>), (u64, Seq<u8>)) -> bool {
    |a: (u64, Seq<u8>), b: (u64, Seq<u8>)| pair_le(a, b)
}

/// The record with its pending payments replaced.
pub open spec fn with_htlcs(rec: ChannelRecordView, htlcs: Seq<HtlcView>) -> ChannelRecordView {
    ChannelRecordView {
        channel_id: rec.channel_id,
        channel_keys_id: rec.channel_keys_id,
        features: rec.features,
        is_outbound: rec.is_outbound,
        funding_sat: rec.funding_sat,
        value_to_self_msat: rec.value_to_self_msat,
        funding_tx: rec.funding_tx,
        commitment_number: rec.commitment_number,
        commitment_point: rec.commitment_point,
        counterparty: rec.counterparty,
        contest_delay: rec.contest_delay,
        holder_reserve_sat: rec.holder_reserve_sat,
        counterparty_reserve_sat: rec.counterparty_reserve_sat,
        htlcs,
    }
}

/// The value and script of the output of a payment that gets one; nothing for a
/// payment that is dust.
pub open spec fn htlc_pair_bag(
    keys: CommitmentKeysView,
    config: ChannelTypeConfig,
    anchors: bool,
) -> spec_fn(HtlcView) -> Multiset<(u64, Seq<u8>)> {
    |h: HtlcView|
        if is_trimmed(h, config, anchors) {
            Multiset::empty()
        } else {
            Multiset::singleton(
                (
                    (h.amount_msat / 1000) as u64,
                    htlc_output_script(
                        h.offered,
                        h.amount_msat,
                        h.expiry,
                        h.payment_hash,
                        anchors,
                        keys,
                    ),
                ),
            )
        }
}

/// The values and scripts of the outputs of the two balances.
pub open spec fn balance_pair_bag(
    rec: ChannelRecordView,
    keys: CommitmentKeysView,
    balances: Balances,
) -> Multiset<(u64, Seq<u8>)> {
    (if balances.to_local_sat > 0 {
        Multiset::singleton((balances.to_local_sat, to_local_script(keys, rec.contest_delay)))
    } else {
        Multiset::empty()
    }).add(
        if balances.to_remote_sat > 0 {
            Multiset::singleton(
                (
                    balances.to_remote_sat,
                    countersigner_script(
                        rec.features.anchors_zero_fee_htlc_tx,
                        rec.counterparty.payment_point,
                    ),
                ),
            )
        } else {
            Multiset::empty()
        },
    )
}

/// The order by value and script is a total order.
pub proof fn lemma_pair_order_total()
    ensures
        total_ordering(pair_order()),
{
    let r = pair_order();
    assert forall|x: (u64, Seq<u8>)| #[trigger] r(x, x) by {
        lemma_bytes_le_reflexive(x.1, 0);
    }
    assert forall|x: (u64, Seq<u8>), y: (u64, Seq<u8>)| #[trigger]
        r(x, y) && #[trigger] r(y, x) implies x == y by {
        lemma_bytes_le_antisymmetric(x.1, y.1, 0);
    }
    assert forall|x: (u64, Seq<u8>), y: (u64, Seq<u8>), z: (u64, Seq<u8>)| #[trigger]
        r(x, y) && #[trigger] r(y, z) implies r(x, z) by {
        if x.0 == y.0 && y.0 == z.0 {
            lemma_bytes_le_transitive(x.1, y.1, z.1, 0);
        }
    }
    assert forall|x: (u64, Seq<u8>), y: (u64, Seq<u8>)| #[trigger] r(x, y) || #[trigger] r(y, x) by {
        lemma_bytes_le_connected(x.1, y.1, 0);
    }
}

/// Outputs in canonical order are in order by value and script.
pub proof fn lemma_pairs_sorted(outputs: Seq<OutputView>)
    requires
        sorted_by(outputs, output_order()),
    ensures
        sorted_by(output_pairs(outputs), pair_order()),
{
    let pairs = output_pairs(outputs);
    assert forall|i: int, j: int| 0 <= i < j < pairs.len() implies #[trigger] pair_order()(
        pairs[i],
        pairs[j],
    ) by {
        assert(output_order()(outputs[i], outputs[j]));
        lemma_bytes_le_reflexive(outputs[i].script, 0);
    }
}

/// The values and scripts of the outputs of the pending payments are those of the
/// payments that are not dust.
pub proof fn lemma_htlc_pairs(
    htlcs: Seq<HtlcView>,
    keys: CommitmentKeysView,
    config: ChannelTypeConfig,
    anchors: bool,
)
    ensures
        output_pairs(htlc_outputs(htlcs, keys, config, anchors)).to_multiset() == bag_by(
            htlcs,
            htlc_pair_bag(keys, config, anchors),
        ),
    decreases htlcs.len(),
{
    broadcast use {group_to_multiset_ensures, vstd::multiset::group_multiset_axioms};

    let outs = htlc_outputs(htlcs, keys, config, anchors);
    let f = htlc_pair_bag(keys, config, anchors);
    if htlcs.len() == 0 {
        assert(output_pairs(outs) =~= Seq::<(u64, Seq<u8>)>::empty());
        assert(output_pairs(outs).to_multiset() =~= Multiset::<(u64, Seq<u8>)>::empty());
    } else {
        let front = htlc_outputs(htlcs.drop_last(), keys, config, anchors);
        lemma_htlc_pairs(htlcs.drop_last(), keys, config, anchors);
        if !is_trimmed(htlcs.last(), config, anchors) {
            let own = outs[outs.len() - 1];
            assert(outs == front.push(own));
            assert(output_pairs(outs) =~= output_pairs(front).push(pair_of()(own)));
            to_multiset_build(output_pairs(front), pair_of()(own));
        }
        assert(output_pairs(outs).to_multiset() =~= bag_by(htlcs, f));
    }
}

/// The values and scripts of the outputs before they are put in order are those of
/// the outputs of the payments and those of the two balances.
pub proof fn lemma_candidate_pairs(
    base: Seq<OutputView>,
    rec: ChannelRecordView,
    keys: CommitmentKeysView,
    balances: Balances,
)
    ensures
        output_pairs(with_balance_outputs(base, rec, keys, balances)).to_multiset() == output_pairs(
            base,
        ).to_multiset().add(balance_pair_bag(rec, keys, balances)),
{
    broadcast use {group_to_multiset_ensures, vstd::multiset::group_multiset_axioms};

    let all = with_balance_outputs(base, rec, keys, balances);
    let with_local = if balances.to_local_sat > 0 {
        base.push(all[base.len() as int])
    } else {
        base
    };
    if balances.to_local_sat > 0 {
        let o = all[base.len() as int];
        assert(output_pairs(with_local) =~= output_pairs(base).push(pair_of()(o)));
        to_multiset_build(output_pairs(base), pair_of()(o));
    }
    if balances.to_remote_sat > 0 {
        let o = all[with_local.len() as int];
        assert(all == with_local.push(o));
        assert(output_pairs(all) =~= output_pairs(with_local).push(pair_of()(o)));
        to_multiset_build(output_pairs(with_local), pair_of()(o));
    }
    assert(output_pairs(all).to_multiset() =~= output_pairs(base).to_multiset().add(
        balance_pair_bag(rec, keys, balances),
    ));
}

/// The balances do not depend on the order of the pending payments.
pub proof fn lemma_settled_balances_reordered(
    rec: ChannelRecordView,
    reordered: Seq<HtlcView>,
    config: ChannelTypeConfig,
    outbound: bool,
)
    requires
        rec.htlcs.to_multiset() == reordered.to_multiset(),
    ensures
        settled_balances(with_htlcs(rec, reordered), config, outbound) == settled_balances(
            rec,
            config,
            outbound,
        ),
{
    let anchors = rec.features.anchors_zero_fee_htlc_tx;
    lemma_sum_by_permutation(rec.htlcs, reordered, offered_amount());
    lemma_sum_by_permutation(rec.htlcs, reordered, received_amount());
    lemma_sum_by_permutation(rec.htlcs, reordered, included_one(config, anchors));
    lemma_sum_by_permutation(rec.htlcs, reordered, included_value(config, anchors));
}

/// The outputs are a function of their values and scripts alone: a record that
/// lists the same pending payments in another order has a settlement transaction
/// if and only if the first has one, with the same values and scripts at the same
/// positions, the same balances, the same fee and the same capacities; and where
/// it has none, for the same reason.
#[verifier::rlimit(50)]
pub proof fn lemma_reordering_htlcs(
    rec: ChannelRecordView,
    reordered: Seq<HtlcView>,
    holder: HolderKeysView,
    config: ChannelTypeConfig,
    outbound: bool,
    verbose: bool,
)
    requires
        rec.htlcs.to_multiset() == reordered.to_multiset(),
    ensures
        match (
            commitment_of(rec, holder, config, outbound, verbose),
            commitment_of(with_htlcs(rec, reordered), holder, config, outbound, verbose),
        ) {
            (Ok(a), Ok(b)) => {
                &&& output_pairs(a.outputs) == output_pairs(b.outputs)
                &&& a.to_local_sat == b.to_local_sat
                &&& a.to_remote_sat == b.to_remote_sat
                &&& a.total_fee_sat == b.total_fee_sat
                &&& a.feerate_per_kw == b.feerate_per_kw
                &&& a.outbound_capacity_sat == b.outbound_capacity_sat
                &&& a.inbound_capacity_sat == b.inbound_capacity_sat
            },
            (Err(e), Err(f)) => e == f,
            _ => false,
        },
{
    let other = with_htlcs(rec, reordered);
    lemma_settled_balances_reordered(rec, reordered, config, outbound);
    if commitment_of(rec, holder, config, outbound, verbose) is Ok {
        let anchors = rec.features.anchors_zero_fee_htlc_tx;
        let balances = settled_balances(rec, config, outbound)->Ok_0;
        let keys = derived_keys(
            rec.commitment_point,
            holder.delayed_payment_basepoint,
            holder.htlc_basepoint,
            rec.counterparty.revocation_basepoint,
            rec.counterparty.htlc_basepoint,
        );
        let cands_a = candidate_outputs(rec, keys, config, balances);
        let cands_b = candidate_outputs(other, keys, config, balances);
        let outs_a = canonical_order(cands_a);
        let outs_b = canonical_order(cands_b);
        lemma_htlc_pairs(rec.htlcs, keys, config, anchors);
        lemma_htlc_pairs(reordered, keys, config, anchors);
        lemma_bag_by_permutation(rec.htlcs, reordered, htlc_pair_bag(keys, config, anchors));
        lemma_candidate_pairs(htlc_outputs(rec.htlcs, keys, config, anchors), rec, keys, balances);
        lemma_candidate_pairs(htlc_outputs(reordered, keys, config, anchors), other, keys, balances);
        assert(balance_pair_bag(rec, keys, balances) == balance_pair_bag(other, keys, balances));
        assert(output_pairs(cands_a).to_multiset() == output_pairs(cands_b).to_multiset());
        lemma_canonical_order_keeps(cands_a);
        lemma_canonical_order_keeps(cands_b);
        lemma_images_permutation(outs_a, cands_a, pair_of());
        lemma_images_permutation(outs_b, cands_b, pair_of());
        lemma_pairs_sorted(outs_a);
        lemma_pairs_sorted(outs_b);
        lemma_pair_order_total();
        lemma_sorted_unique(output_pairs(outs_a), output_pairs(outs_b), pair_order());
    }
}

} // verus!
