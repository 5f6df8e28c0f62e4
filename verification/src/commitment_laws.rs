//! Laws of the settlement transaction: the funding amount is conserved, no output
//! is dust, and every payment that is not dust has its output.
use vstd::prelude::*;
use vstd::relations::sorted_by;
use vstd::seq_lib::{group_to_multiset_ensures, to_multiset_contains, to_multiset_len};
use crate::canonical::{canonical_order, lemma_output_order_total, output_order, OutputView};
use crate::channel::{ChannelRecordView, ChannelTypeConfig, HtlcView};
use crate::commitment::{
    candidate_outputs, commitment_of, htlc_dust_threshold, htlc_outputs, htlc_value_sat,
    included_count, is_trimmed, lemma_htlc_sums, settled_balances, tag_position, Balances, };
use crate::keys::{derived_keys, CommitmentKeysView, HolderKeysView};
use crate::script::htlc_output_script;
use crate::sums::{lemma_sum_by_permutation, lemma_sum_by_push, sum_by};

verus! {

/// The value of an output.
pub open spec fn value_of() -> spec_fn(OutputView) -> int {
    |o: OutputView| o.value_sat as int
}

/// The value of an output of a pending payment; 0 for another output.
pub open spec fn htlc_value_of() -> spec_fn(OutputView) -> int {
    |o: OutputView| if o.htlc is Some { o.value_sat as int } else { 0 }
}

/// The values of all outputs.
pub open spec fn total_output_value(outputs: Seq<OutputView>) -> int {
    sum_by(outputs, value_of())
}

/// The values of the outputs of pending payments.
pub open spec fn htlc_output_value(outputs: Seq<OutputView>) -> int {
    sum_by(outputs, htlc_value_of())
}

/// The output of the payment with index `i`.
pub open spec fn htlc_output_at(
    htlcs: Seq<HtlcView>,
    i: int,
    keys: CommitmentKeysView,
    anchors: bool,
) -> OutputView {
    OutputView {
        value_sat: (htlcs[i].amount_msat / 1000) as u64,
        script: htlc_output_script(
            htlcs[i].offered,
            htlcs[i].amount_msat,
            htlcs[i].expiry,
            htlcs[i].payment_hash,
            anchors,
            keys,
        ),
        htlc: Some(i as usize),
    }
}

/// `o` is the output of a payment that is not dust.
pub open spec fn is_htlc_output(
    o: OutputView,
    htlcs: Seq<HtlcView>,
    keys: CommitmentKeysView,
    config: ChannelTypeConfig,
    anchors: bool,
) -> bool {
    exists|i: int|
        0 <= i < htlcs.len() && !is_trimmed(htlcs[i], config, anchors) && o == #[trigger] htlc_output_at(
            htlcs,
            i,
            keys,
            anchors,
        )
}

/// `o` is the output of one of the two balances.
pub open spec fn is_balance_output(o: OutputView, balances: Balances) -> bool {
    o.htlc is None && o.value_sat > 0 && (o.value_sat == balances.to_local_sat || o.value_sat
        == balances.to_remote_sat)
}

/// The outputs of the pending payments are those of the payments that are not dust,
/// one for each, and hold their values.
#[verifier::rlimit(50)]
pub proof fn lemma_htlc_outputs_structure(
    htlcs: Seq<HtlcView>,
    keys: CommitmentKeysView,
    config: ChannelTypeConfig,
    anchors: bool,
)
    ensures
        forall|q: int|
            0 <= q < htlc_outputs(htlcs, keys, config, anchors).len() ==> is_htlc_output(
                #[trigger] htlc_outputs(htlcs, keys, config, anchors)[q],
                htlcs,
                keys,
                config,
                anchors,
            ),
        forall|i: int|
            0 <= i < htlcs.len() && !is_trimmed(htlcs[i], config, anchors) ==> htlc_outputs(
                htlcs,
                keys,
                config,
                anchors,
            ).contains(#[trigger] htlc_output_at(htlcs, i, keys, anchors)),
        total_output_value(htlc_outputs(htlcs, keys, config, anchors)) == htlc_value_sat(
            htlcs,
            config,
            anchors,
        ),
        htlc_output_value(htlc_outputs(htlcs, keys, config, anchors)) == htlc_value_sat(
            htlcs,
            config,
            anchors,
        ),
        htlc_outputs(htlcs, keys, config, anchors).len() == included_count(htlcs, config, anchors),
    decreases htlcs.len(),
{
    let outs = htlc_outputs(htlcs, keys, config, anchors);
    if htlcs.len() > 0 {
        let front_htlcs = htlcs.drop_last();
        let front = htlc_outputs(front_htlcs, keys, config, anchors);
        let last = htlcs.len() - 1;
        lemma_htlc_outputs_structure(front_htlcs, keys, config, anchors);
        let own = htlc_output_at(htlcs, last, keys, anchors);
        if !is_trimmed(htlcs.last(), config, anchors) {
            assert(outs == front.push(own));
            lemma_sum_by_push(front, value_of(), own);
            lemma_sum_by_push(front, htlc_value_of(), own);
        }
        assert forall|q: int| 0 <= q < outs.len() implies is_htlc_output(
            #[trigger] outs[q],
            htlcs,
            keys,
            config,
            anchors,
        ) by {
            if q < front.len() {
                assert(outs[q] == front[q]);
                assert(is_htlc_output(front[q], front_htlcs, keys, config, anchors));
                let i = choose|i: int|
                    0 <= i < front_htlcs.len() && !is_trimmed(front_htlcs[i], config, anchors)
                        && front[q] == #[trigger] htlc_output_at(front_htlcs, i, keys, anchors);
                assert(htlc_output_at(htlcs, i, keys, anchors) == htlc_output_at(
                    front_htlcs,
                    i,
                    keys,
                    anchors,
                ));
            } else {
                assert(outs[q] == own);
            }
        }
        assert forall|i: int|
            0 <= i < htlcs.len() && !is_trimmed(htlcs[i], config, anchors) implies outs.contains(
            #[trigger] htlc_output_at(htlcs, i, keys, anchors),
        ) by {
            if i < last {
                let o = htlc_output_at(front_htlcs, i, keys, anchors);
                assert(htlc_output_at(htlcs, i, keys, anchors) == o);
                assert(front.contains(o));
                let q = choose|q: int| 0 <= q < front.len() && front[q] == o;
                assert(outs[q] == o);
            } else {
                assert(outs[outs.len() - 1] == own);
            }
        }
    }
}

/// The outputs before they are put in order are those of the payments that are not
/// dust and those of the two balances, and hold their values.
#[verifier::rlimit(50)]
pub proof fn lemma_candidates_structure(
    rec: ChannelRecordView,
    keys: CommitmentKeysView,
    config: ChannelTypeConfig,
    balances: Balances,
)
    ensures
        forall|q: int|
            0 <= q < candidate_outputs(rec, keys, config, balances).len() ==> {
                let o = #[trigger] candidate_outputs(rec, keys, config, balances)[q];
                is_htlc_output(o, rec.htlcs, keys, config, rec.features.anchors_zero_fee_htlc_tx)
                    || is_balance_output(o, balances)
            },
        forall|i: int|
            0 <= i < rec.htlcs.len() && !is_trimmed(
                rec.htlcs[i],
                config,
                rec.features.anchors_zero_fee_htlc_tx,
            ) ==> candidate_outputs(rec, keys, config, balances).contains(
                #[trigger] htlc_output_at(rec.htlcs, i, keys, rec.features.anchors_zero_fee_htlc_tx),
            ),
        total_output_value(candidate_outputs(rec, keys, config, balances)) == htlc_value_sat(
            rec.htlcs,
            config,
            rec.features.anchors_zero_fee_htlc_tx,
        ) + balances.to_local_sat + balances.to_remote_sat,
        htlc_output_value(candidate_outputs(rec, keys, config, balances)) == htlc_value_sat(
            rec.htlcs,
            config,
            rec.features.anchors_zero_fee_htlc_tx,
        ),
{
    let anchors = rec.features.anchors_zero_fee_htlc_tx;
    let base = htlc_outputs(rec.htlcs, keys, config, anchors);
    let all = candidate_outputs(rec, keys, config, balances);
    lemma_htlc_outputs_structure(rec.htlcs, keys, config, anchors);
    let with_local = if balances.to_local_sat > 0 {
        base.push(all[base.len() as int])
    } else {
        base
    };
    if balances.to_local_sat > 0 {
        lemma_sum_by_push(base, value_of(), all[base.len() as int]);
        lemma_sum_by_push(base, htlc_value_of(), all[base.len() as int]);
    }
    if balances.to_remote_sat > 0 {
        lemma_sum_by_push(with_local, value_of(), all[with_local.len() as int]);
        lemma_sum_by_push(with_local, htlc_value_of(), all[with_local.len() as int]);
    }
    assert forall|q: int| 0 <= q < all.len() implies {
        let o = #[trigger] all[q];
        is_htlc_output(o, rec.htlcs, keys, config, anchors) || is_balance_output(o, balances)
    } by {
        if q < base.len() {
            assert(all[q] == base[q]);
        }
    }
    assert forall|i: int|
        0 <= i < rec.htlcs.len() && !is_trimmed(rec.htlcs[i], config, anchors) implies all.contains(
        #[trigger] htlc_output_at(rec.htlcs, i, keys, anchors),
    ) by {
        let o = htlc_output_at(rec.htlcs, i, keys, anchors);
        assert(base.contains(o));
        let q = choose|q: int| 0 <= q < base.len() && base[q] == o;
        assert(all[q] == o);
    }
}

/// The outputs in canonical order are the same outputs: each stands among them as
/// often as before.
pub proof fn lemma_canonical_order_keeps(outputs: Seq<OutputView>)
    ensures
        canonical_order(outputs).to_multiset() == outputs.to_multiset(),
        canonical_order(outputs).len() == outputs.len(),
        sorted_by(canonical_order(outputs), output_order()),
        forall|x: OutputView| outputs.contains(x) <==> canonical_order(outputs).contains(x),
        total_output_value(canonical_order(outputs)) == total_output_value(outputs),
        htlc_output_value(canonical_order(outputs)) == htlc_output_value(outputs),
{
    broadcast use group_to_multiset_ensures;

    lemma_output_order_total();
    outputs.lemma_sort_by_ensures(output_order());
    let sorted = canonical_order(outputs);
    to_multiset_len(outputs);
    to_multiset_len(sorted);
    assert forall|x: OutputView| outputs.contains(x) <==> sorted.contains(x) by {
        to_multiset_contains(outputs, x);
        to_multiset_contains(sorted, x);
    }
    lemma_sum_by_permutation(sorted, outputs, value_of());
    lemma_sum_by_permutation(sorted, outputs, htlc_value_of());
}

/// The balances that were settled and the values of the outputs of the payments
/// make up the funding amount together with the fee.
pub proof fn lemma_settled_balances_conserve(
    rec: ChannelRecordView,
    config: ChannelTypeConfig,
    outbound: bool,
)
    requires
        settled_balances(rec, config, outbound) is Ok,
    ensures
        ({
            let b = settled_balances(rec, config, outbound)->Ok_0;
            &&& b.to_local_sat + b.to_remote_sat + htlc_value_sat(
                rec.htlcs,
                config,
                rec.features.anchors_zero_fee_htlc_tx,
            ) + b.total_fee_sat == rec.funding_sat
            &&& b.to_local_sat > 0 ==> b.to_local_sat >= config.dust_limit_sat
            &&& b.to_remote_sat > 0 ==> b.to_remote_sat >= config.dust_limit_sat
        }),
{
    lemma_htlc_sums(rec.htlcs, config, rec.features.anchors_zero_fee_htlc_tx);
}

/// The funding amount is conserved: the two balances, the values of the outputs of
/// the pending payments and the fee make up the funding amount, and so do the values
/// of all outputs and the fee.
pub proof fn lemma_balance_conservation(
    rec: ChannelRecordView,
    holder: HolderKeysView,
    config: ChannelTypeConfig,
    outbound: bool,
    verbose: bool,
)
    requires
        commitment_of(rec, holder, config, outbound, verbose) is Ok,
    ensures
        ({
            let built = commitment_of(rec, holder, config, outbound, verbose)->Ok_0;
            &&& built.to_local_sat + built.to_remote_sat + htlc_output_value(built.outputs)
                + built.total_fee_sat == rec.funding_sat
            &&& total_output_value(built.outputs) + built.total_fee_sat == rec.funding_sat
        }),
{
    let balances = settled_balances(rec, config, outbound)->Ok_0;
    let keys = derived_keys(
        rec.commitment_point,
        holder.delayed_payment_basepoint,
        holder.htlc_basepoint,
        rec.counterparty.revocation_basepoint,
        rec.counterparty.htlc_basepoint,
    );
    lemma_settled_balances_conserve(rec, config, outbound);
    lemma_candidates_structure(rec, keys, config, balances);
    lemma_canonical_order_keeps(candidate_outputs(rec, keys, config, balances));
}

/// The value below which an output is dust: for the output of a pending payment
/// the threshold of its direction, for the output of a balance the dust limit.
pub open spec fn output_threshold(
    o: OutputView,
    rec: ChannelRecordView,
    config: ChannelTypeConfig,
) -> int {
    match o.htlc {
        Some(i) => htlc_dust_threshold(
            config,
            rec.features.anchors_zero_fee_htlc_tx,
            rec.htlcs[i as int].offered,
        ),
        None => config.dust_limit_sat as int,
    }
}

/// The position that is found for a payment holds an output of the payment, and no
/// position before it does; where none is found, no output belongs to the payment.
pub proof fn lemma_tag_position_found(outputs: Seq<OutputView>, tag: usize)
    requires
        outputs.len() <= usize::MAX,
    ensures
        match tag_position(outputs, tag) {
            Some(p) => p < outputs.len() && outputs[p as int].htlc == Some(tag),
            None => forall|q: int| 0 <= q < outputs.len() ==> (#[trigger] outputs[q]).htlc != Some(tag),
        },
    decreases outputs.len(),
{
    if outputs.len() > 0 {
        let front = outputs.drop_last();
        lemma_tag_position_found(front, tag);
        match tag_position(front, tag) {
            Some(p) => {
                assert(outputs[p as int] == front[p as int]);
            },
            None => {
                if outputs.last().htlc != Some(tag) {
                    assert forall|q: int| 0 <= q < outputs.len() implies (#[trigger] outputs[q]).htlc
                        != Some(tag) by {
                        if q < front.len() {
                            assert(outputs[q] == front[q]);
                        }
                    }
                }
            },
        }
    }
}

/// No output is dust, and the payments that are dust are those without an output.
///
/// The value of every output is at or above the threshold of its kind. A pending
/// payment has an output if and only if its value is not below the threshold of its
/// direction; the output stands at the position that the payment records, belongs
/// to the payment and holds its amount in whole satoshi. The balances are settled
/// from all payments, whether they have an output or not.
#[verifier::rlimit(50)]
pub proof fn lemma_outputs_above_dust(
    rec: ChannelRecordView,
    holder: HolderKeysView,
    config: ChannelTypeConfig,
    outbound: bool,
    verbose: bool,
)
    requires
        rec.htlcs.len() <= usize::MAX,
        commitment_of(rec, holder, config, outbound, verbose) is Ok,
        commitment_of(rec, holder, config, outbound, verbose)->Ok_0.outputs.len() <= usize::MAX,
    ensures
        ({
            let built = commitment_of(rec, holder, config, outbound, verbose)->Ok_0;
            let anchors = rec.features.anchors_zero_fee_htlc_tx;
            &&& forall|p: int|
                0 <= p < built.outputs.len() ==> {
                    let o = #[trigger] built.outputs[p];
                    &&& o.value_sat >= output_threshold(o, rec, config)
                    &&& o.htlc matches Some(i) ==> i < rec.htlcs.len()
                }
            &&& forall|i: int|
                0 <= i < rec.htlcs.len() ==> (is_trimmed(rec.htlcs[i], config, anchors) <==> (
                #[trigger] tag_position(built.outputs, i as usize)) is None)
            &&& forall|i: int|
                0 <= i < rec.htlcs.len() ==> ((#[trigger] tag_position(
                    built.outputs,
                    i as usize,
                )) matches Some(p) ==> p < built.outputs.len() && built.outputs[p as int].htlc
                    == Some(i as usize) && built.outputs[p as int].value_sat
                    == rec.htlcs[i].amount_msat / 1000)
        }),
{
    let built = commitment_of(rec, holder, config, outbound, verbose)->Ok_0;
    let anchors = rec.features.anchors_zero_fee_htlc_tx;
    let balances = settled_balances(rec, config, outbound)->Ok_0;
    let keys = derived_keys(
        rec.commitment_point,
        holder.delayed_payment_basepoint,
        holder.htlc_basepoint,
        rec.counterparty.revocation_basepoint,
        rec.counterparty.htlc_basepoint,
    );
    let cands = candidate_outputs(rec, keys, config, balances);
    let outputs = built.outputs;
    lemma_settled_balances_conserve(rec, config, outbound);
    lemma_candidates_structure(rec, keys, config, balances);
    lemma_canonical_order_keeps(cands);
    assert(outputs == canonical_order(cands));
    assert forall|p: int| 0 <= p < outputs.len() implies {
        let o = #[trigger] outputs[p];
        &&& o.value_sat >= output_threshold(o, rec, config)
        &&& o.htlc matches Some(i) ==> i < rec.htlcs.len()
    } by {
        let o = outputs[p];
        assert(outputs.contains(o));
        assert(cands.contains(o));
        let q = choose|q: int| 0 <= q < cands.len() && cands[q] == o;
        assert(is_htlc_output(cands[q], rec.htlcs, keys, config, anchors) || is_balance_output(
            cands[q],
            balances,
        ));
        if is_htlc_output(o, rec.htlcs, keys, config, anchors) {
            let i = choose|i: int|
                0 <= i < rec.htlcs.len() && !is_trimmed(rec.htlcs[i], config, anchors) && o
                    == #[trigger] htlc_output_at(rec.htlcs, i, keys, anchors);
            assert((i as usize) as int == i);
        }
    }
    assert forall|i: int| 0 <= i < rec.htlcs.len() implies (is_trimmed(
        rec.htlcs[i],
        config,
        anchors,
    ) <==> (#[trigger] tag_position(outputs, i as usize)) is None) && (tag_position(
        outputs,
        i as usize,
    ) matches Some(p) ==> p < outputs.len() && outputs[p as int].htlc == Some(i as usize)
        && outputs[p as int].value_sat == rec.htlcs[i].amount_msat / 1000) by {
        let tag = i as usize;
        lemma_tag_position_found(outputs, tag);
        if !is_trimmed(rec.htlcs[i], config, anchors) {
            let own = htlc_output_at(rec.htlcs, i, keys, anchors);
            assert(cands.contains(own));
            assert(outputs.contains(own));
            let p = choose|p: int| 0 <= p < outputs.len() && outputs[p] == own;
            assert(outputs[p].htlc == Some(tag));
        }
        if let Some(p) = tag_position(outputs, tag) {
            let o = outputs[p as int];
            assert(outputs.contains(o));
            assert(cands.contains(o));
            let q = choose|q: int| 0 <= q < cands.len() && cands[q] == o;
            assert(is_htlc_output(cands[q], rec.htlcs, keys, config, anchors) || is_balance_output(
                cands[q],
                balances,
            ));
            let j = choose|j: int|
                0 <= j < rec.htlcs.len() && !is_trimmed(rec.htlcs[j], config, anchors) && o
                    == #[trigger] htlc_output_at(rec.htlcs, j, keys, anchors);
            assert((j as usize) as int == j);
            assert((i as usize) as int == i);
            assert(j == i);
        }
    }
}

} // verus!
