//! The canonical order of the outputs of a settlement transaction: by value, then
//! by the bytes of the script, then by the payment that the output belongs to.
use vstd::prelude::*;
use vstd::relations::{sorted_by, total_ordering};
use vstd::seq_lib::{
    group_to_multiset_ensures, lemma_sorted_unique, to_multiset_build, to_multiset_insert,
};
use crate::wire::views_of;

verus! {

/// An output of a settlement transaction.
#[derive(Clone, Debug, PartialEq, Eq)]
pub struct CommitmentOutput {
    pub value_sat: u64,
    pub script: Vec<u8>,
    /// For the output of a pending payment, the index of the payment in the list of
    /// the channel record.
    pub htlc: Option<usize>,
}

/// The mathematical model of an output.
pub struct OutputView {
    pub value_sat: u64,
    pub script: Seq<u8>,
    pub htlc: Option<usize>,
}

impl View for CommitmentOutput {
    type V = OutputView;

    open spec fn view(&self) -> OutputView {
        OutputView { value_sat: self.value_sat, script: self.script@, htlc: self.htlc }
    }
}

/// `a` and `b` hold the same bytes before position `i`.
pub open spec fn agree_before(a: Seq<u8>, b: Seq<u8>, i: nat) -> bool {
    i <= a.len() && i <= b.len() && forall|j: int| 0 <= j < i ==> a[j] == b[j]
}

/// From position `i` on, `a` comes before `b` or is equal to it, byte by byte; a
/// string comes before those that it is a proper prefix of.
pub open spec fn bytes_le_from(a: Seq<u8>, b: Seq<u8>, i: nat) -> bool
    decreases a.len() - i,
{
    if i >= a.len() {
        true
    } else if i >= b.len() {
        false
    } else if a[i as int] != b[i as int] {
        a[i as int] < b[i as int]
    } else {
        bytes_le_from(a, b, i + 1)
    }
}

/// The lexicographic order of byte strings.
pub open spec fn bytes_le(a: Seq<u8>, b: Seq<u8>) -> bool {
    bytes_le_from(a, b, 0)
}

/// The order of the payments that two outputs belong to: an output of no payment
/// comes first.
pub open spec fn tag_le(a: Option<usize>, b: Option<usize>) -> bool {
    match (a, b) {
        (None, _) => true,
        (Some(_), None) => false,
        (Some(i), Some(j)) => i <= j,
    }
}

/// The canonical order of outputs.
pub open spec fn output_le(a: OutputView, b: OutputView) -> bool {
    if a.value_sat != b.value_sat {
        a.value_sat < b.value_sat
    } else if a.script != b.script {
        bytes_le(a.script, b.script)
    } else {
        tag_le(a.htlc, b.htlc)
    }
}

/// The canonical order of outputs as a relation.
pub open spec fn output_order() -> spec_fn(OutputView, OutputView) -> bool {
    |a: OutputView, b: OutputView| output_le(a, b)
}

/// The outputs in canonical order.
pub open spec fn canonical_order(outputs: Seq<OutputView>) -> Seq<OutputView> {
    outputs.sort_by(output_order())
}

/// A byte string comes before itself or is equal to it.
pub proof fn lemma_bytes_le_reflexive(a: Seq<u8>, i: nat)
    requires
        i <= a.len(),
    ensures
        bytes_le_from(a, a, i),
    decreases a.len() - i,
{
    if i < a.len() {
        lemma_bytes_le_reflexive(a, i + 1);
    }
}

/// Two byte strings that come before each other are equal.
pub proof fn lemma_bytes_le_antisymmetric(a: Seq<u8>, b: Seq<u8>, i: nat)
    requires
        agree_before(a, b, i),
        bytes_le_from(a, b, i),
        bytes_le_from(b, a, i),
    ensures
        a == b,
    decreases a.len() - i,
{
    if i < a.len() {
        lemma_bytes_le_antisymmetric(a, b, i + 1);
    } else {
        assert(a =~= b);
    }
}

/// Of two byte strings one comes before the other or is equal to it.
pub proof fn lemma_bytes_le_connected(a: Seq<u8>, b: Seq<u8>, i: nat)
    requires
        agree_before(a, b, i),
    ensures
        bytes_le_from(a, b, i) || bytes_le_from(b, a, i),
    decreases a.len() - i,
{
    if i < a.len() && i < b.len() && a[i as int] == b[i as int] {
        lemma_bytes_le_connected(a, b, i + 1);
    }
}

/// The lexicographic order of byte strings is transitive.
pub proof fn lemma_bytes_le_transitive(a: Seq<u8>, b: Seq<u8>, c: Seq<u8>, i: nat)
    requires
        agree_before(a, b, i),
        agree_before(b, c, i),
        bytes_le_from(a, b, i),
        bytes_le_from(b, c, i),
    ensures
        bytes_le_from(a, c, i),
    decreases a.len() - i,
{
    if i < a.len() && a[i as int] == b[i as int] && b[i as int] == c[i as int] {
        lemma_bytes_le_transitive(a, b, c, i + 1);
    }
}

/// An output comes before itself or is equal to it.
pub proof fn lemma_output_le_reflexive(a: OutputView)
    ensures
        output_le(a, a),
{
}

/// Two outputs that come before each other are equal.
pub proof fn lemma_output_le_antisymmetric(a: OutputView, b: OutputView)
    requires
        output_le(a, b),
        output_le(b, a),
    ensures
        a == b,
{
    if a.value_sat == b.value_sat && a.script != b.script {
        lemma_bytes_le_antisymmetric(a.script, b.script, 0);
    }
}

/// Of two outputs one comes before the other or is equal to it.
pub proof fn lemma_output_le_connected(a: OutputView, b: OutputView)
    ensures
        output_le(a, b) || output_le(b, a),
{
    lemma_bytes_le_connected(a.script, b.script, 0);
}

/// The canonical order of outputs is transitive.
pub proof fn lemma_output_le_transitive(a: OutputView, b: OutputView, c: OutputView)
    requires
        output_le(a, b),
        output_le(b, c),
    ensures
        output_le(a, c),
{
    if a.value_sat == b.value_sat && b.value_sat == c.value_sat {
        if a.script != b.script && b.script != c.script {
            lemma_bytes_le_transitive(a.script, b.script, c.script, 0);
            if a.script == c.script {
                lemma_bytes_le_antisymmetric(a.script, b.script, 0);
            }
        }
    }
}

/// The canonical order is a total order: of two outputs one comes first, and only
/// equal outputs come before each other.
pub proof fn lemma_output_order_total()
    ensures
        total_ordering(output_order()),
{
    let r = output_order();
    assert forall|x: OutputView| #[trigger] r(x, x) by {
        lemma_output_le_reflexive(x);
    }
    assert forall|x: OutputView, y: OutputView| #[trigger] r(x, y) && #[trigger] r(y, x) implies x
        == y by {
        lemma_output_le_antisymmetric(x, y);
    }
    assert forall|x: OutputView, y: OutputView, z: OutputView| #[trigger]
        r(x, y) && #[trigger] r(y, z) implies r(x, z) by {
        lemma_output_le_transitive(x, y, z);
    }
    assert forall|x: OutputView, y: OutputView| #[trigger] r(x, y) || #[trigger] r(y, x) by {
        lemma_output_le_connected(x, y);
    }
}

/// Outputs in canonical order that are made of the given outputs are the given
/// outputs in canonical order: the order leaves no choice.
pub proof fn lemma_canonical_order_unique(sorted: Seq<OutputView>, outputs: Seq<OutputView>)
    requires
        sorted_by(sorted, output_order()),
        sorted.to_multiset() == outputs.to_multiset(),
    ensures
        sorted == canonical_order(outputs),
{
    lemma_output_order_total();
    outputs.lemma_sort_by_ensures(output_order());
    lemma_sorted_unique(sorted, canonical_order(outputs), output_order());
}

/// Says whether two byte strings are equal.
pub fn bytes_equal(a: &Vec<u8>, b: &Vec<u8>) -> (r: bool)
    ensures
        r == (a@ == b@),
{
    if a.len() != b.len() {
        return false;
    }
    let mut i: usize = 0;
    while i < a.len()
        invariant
            a@.len() == b@.len(),
            agree_before(a@, b@, i as nat),
        decreases a@.len() - i,
    {
        if a[i] != b[i] {
            return false;
        }
        i = i + 1;
    }
    assert(a@ =~= b@);
    true
}

/// Says whether `a` comes before `b` in the lexicographic order or is equal to it.
pub fn bytes_ordered(a: &Vec<u8>, b: &Vec<u8>) -> (r: bool)
    ensures
        r == bytes_le(a@, b@),
{
    let mut i: usize = 0;
    while i < a.len()
        invariant
            i <= a@.len(),
            bytes_le(a@, b@) == bytes_le_from(a@, b@, i as nat),
        decreases a@.len() - i,
    {
        if i >= b.len() {
            return false;
        }
        if a[i] != b[i] {
            return a[i] < b[i];
        }
        i = i + 1;
    }
    true
}

/// Says whether `a` comes before `b` in the canonical order or is equal to it.
pub fn output_ordered(a: &CommitmentOutput, b: &CommitmentOutput) -> (r: bool)
    ensures
        r == output_le(a@, b@),
{
    if a.value_sat != b.value_sat {
        a.value_sat < b.value_sat
    } else if !bytes_equal(&a.script, &b.script) {
        bytes_ordered(&a.script, &b.script)
    } else {
        match (a.htlc, b.htlc) {
            (None, _) => true,
            (Some(_), None) => false,
            (Some(i), Some(j)) => i <= j,
        }
    }
}

/// The position at which `item` is to be inserted into outputs in canonical order:
/// behind all those that come before it or are equal to it.
fn insertion_point(sorted: &Vec<CommitmentOutput>, item: &CommitmentOutput) -> (at: usize)
    requires
        sorted_by(views_of(sorted@), output_order()),
    ensures
        at <= sorted@.len(),
        forall|j: int| 0 <= j < at ==> output_le(#[trigger] sorted@[j]@, item@),
        forall|j: int| at <= j < sorted@.len() ==> output_le(item@, #[trigger] sorted@[j]@),
{
    let mut at: usize = 0;
    while at < sorted.len()
        invariant
            at <= sorted@.len(),
            forall|j: int| 0 <= j < at ==> output_le(#[trigger] sorted@[j]@, item@),
        ensures
            at < sorted@.len() ==> !output_le(sorted@[at as int]@, item@),
        decreases sorted@.len() - at,
    {
        if !output_ordered(&sorted[at], item) {
            break;
        }
        at = at + 1;
    }
    proof {
        if at < sorted@.len() {
            let first = sorted@[at as int]@;
            lemma_output_le_connected(first, item@);
            assert forall|j: int| at <= j < sorted@.len() implies output_le(
                item@,
                #[trigger] sorted@[j]@,
            ) by {
                if at < j {
                    let vs = views_of(sorted@);
                    assert(output_order()(vs[at as int], vs[j]));
                    lemma_output_le_transitive(item@, first, sorted@[j]@);
                }
            }
        }
    }
    at
}

/// Puts outputs into canonical order.
#[verifier::rlimit(50)]
pub fn sort_outputs(items: Vec<CommitmentOutput>) -> (sorted: Vec<CommitmentOutput>)
    ensures
        views_of(sorted@) == canonical_order(views_of(items@)),
{
    broadcast use {group_to_multiset_ensures, vstd::multiset::group_multiset_axioms};

    let ghost all = views_of(items@);
    let mut rest = items;
    let mut sorted: Vec<CommitmentOutput> = Vec::new();
    assert(views_of(sorted@) =~= Seq::<OutputView>::empty());
    assert(views_of(sorted@).to_multiset().add(all.to_multiset()) =~= all.to_multiset());
    while rest.len() > 0
        invariant
            sorted_by(views_of(sorted@), output_order()),
            views_of(sorted@).to_multiset().add(views_of(rest@).to_multiset()) == all.to_multiset(),
        decreases rest@.len(),
    {
        let ghost rest_before = views_of(rest@);
        let ghost sorted_before = views_of(sorted@);
        let item = rest.pop().unwrap();
        let ghost x = item@;
        let at = insertion_point(&sorted, &item);
        sorted.insert(at, item);
        proof {
            let now = views_of(sorted@);
            assert(rest_before =~= views_of(rest@).push(x));
            assert(now =~= sorted_before.insert(at as int, x));
            assert forall|i: int, j: int| 0 <= i < j < now.len() implies #[trigger] output_order()(
                now[i],
                now[j],
            ) by {
                if j < at {
                    assert(output_order()(sorted_before[i], sorted_before[j]));
                } else if j == at {
                    assert(now[i] == sorted_before[i]);
                } else if i < at {
                    assert(output_order()(sorted_before[i], sorted_before[j - 1]));
                } else if i == at {
                    assert(now[j] == sorted_before[j - 1]);
                } else {
                    assert(output_order()(sorted_before[i - 1], sorted_before[j - 1]));
                }
            }
            to_multiset_build(views_of(rest@), x);
            to_multiset_insert(sorted_before, at as int, x);
            assert(rest_before.to_multiset() =~= views_of(rest@).to_multiset().insert(x));
            assert(now.to_multiset() =~= sorted_before.to_multiset().insert(x));
            assert(now.to_multiset().add(views_of(rest@).to_multiset())
                =~= sorted_before.to_multiset().add(rest_before.to_multiset()));
        }
    }
    proof {
        assert(views_of(rest@) =~= Seq::<OutputView>::empty());
        assert(views_of(sorted@).to_multiset() =~= all.to_multiset());
        lemma_canonical_order_unique(views_of(sorted@), all);
    }
    sorted
}

} // verus!
