//! The figures of a report that are derived from a built settlement transaction,
//! and the addresses of output scripts.
use vstd::prelude::*;
use crate::channel::{Htlc, HtlcView};
use crate::sums::{lemma_sum_by_take, sum_by};
use crate::wire::views_of;

verus! {

/// A chain on which addresses are rendered.
#[derive(Clone, Copy, Debug, PartialEq, Eq)]
pub enum Chain {
    Bitcoin,
    Testnet,
    Testnet4,
    Signet,
    Regtest,
}

/// The address that `bitcoin::Address::from_script` derives from an output script on
/// a chain, as it is displayed; none where the script has no address.
pub uninterp spec fn address_of(chain: Chain, script: Seq<u8>) -> Option<Seq<char>>;

/// The amount of a payment in whole satoshi where this node pays it.
pub open spec fn offered_sat() -> spec_fn(HtlcView) -> int {
    |h: HtlcView| if h.offered { h.amount_msat as int / 1000 } else { 0 }
}

/// The amounts of the payments that this node pays, each in whole satoshi.
pub open spec fn pending_outgoing(htlcs: Seq<HtlcView>) -> int {
    sum_by(htlcs, offered_sat())
}

/// A fee rate per 1000 weight units in satoshi per virtual byte, rounded up. A
/// virtual byte has four weight units.
pub open spec fn sat_per_vb_ceil(feerate_per_kw: u32) -> int {
    (feerate_per_kw + 249) / 250
}

/// Computes the amounts of the payments that this node pays, each in whole satoshi.
pub fn pending_outgoing_sat(htlcs: &Vec<Htlc>) -> (total: u128)
    ensures
        total == pending_outgoing(views_of(htlcs@)),
{
    let ghost views = views_of(htlcs@);
    let mut total: u128 = 0;
    let mut i: usize = 0;
    assert(views.take(0) =~= Seq::<HtlcView>::empty());
    while i < htlcs.len()
        invariant
            i <= htlcs@.len(),
            views == views_of(htlcs@),
            total == pending_outgoing(views.take(i as int)),
            total <= i * 0xffff_ffff_ffff_ffff,
        decreases htlcs@.len() - i,
    {
        proof {
            assert(views[i as int] == htlcs@[i as int]@);
            lemma_sum_by_take(views, offered_sat(), i as int);
        }
        if htlcs[i].offered {
            total = total + (htlcs[i].amount_msat / 1000) as u128;
        }
        i = i + 1;
    }
    assert(views.take(i as int) =~= views);
    total
}

/// Converts a fee rate per 1000 weight units to satoshi per virtual byte, rounded up.
pub fn feerate_sat_per_vb_ceil(feerate_per_kw: u32) -> (rate: u64)
    ensures
        rate == sat_per_vb_ceil(feerate_per_kw),
{
    (feerate_per_kw as u64 + 249) / 250
}

/// Renders the address of an output script on a chain.
pub fn script_address(chain: Chain, script: &Vec<u8>) -> (address: Option<String>)
    ensures
        match address {
            Some(a) => address_of(chain, script@) == Some(a@),
            None => address_of(chain, script@) is None,
        },
{
    render_address(chain, script)
}

/// Calls `bitcoin::Address::from_script` on the script and the parameters of the
/// chain, and hands back the address as it is displayed; none where the script is
/// of no kind that has an address.
#[verifier::external_body]
fn render_address(chain: Chain, script: &Vec<u8>) -> (address: Option<String>)
    ensures
        match address {
            Some(a) => address_of(chain, script@) == Some(a@),
            None => address_of(chain, script@) is None,
        },
{
    let network = match chain {
        Chain::Bitcoin => bitcoin::Network::Bitcoin,
        Chain::Testnet => bitcoin::Network::Testnet,
        Chain::Testnet4 => bitcoin::Network::Testnet4,
        Chain::Signet => bitcoin::Network::Signet,
        Chain::Regtest => bitcoin::Network::Regtest,
    };
    let script = bitcoin::Script::from_bytes(script);
    bitcoin::Address::from_script(script, network).ok().map(|a| a.to_string())
}

} // verus!
