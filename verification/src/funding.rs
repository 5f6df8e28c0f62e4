//! The funding transaction of a channel, as far as an audit reads it.
use vstd::prelude::*;
use crate::wire::views_of;

verus! {

/// What `bitcoin::consensus::encode::deserialize` reads from the bytes as one
/// transaction with nothing left over; none where it reads none.
pub uninterp spec fn decoded_transaction(bytes: Seq<u8>) -> Option<FundingDetailsView>;

/// The identifier that `bitcoin::Transaction::compute_txid` gives to the transaction
/// that the bytes are, as it is displayed; none where they are no transaction.
pub uninterp spec fn transaction_id(bytes: Seq<u8>) -> Option<Seq<char>>;

/// Whether the bytes are one well-formed transaction.
pub open spec fn is_transaction(bytes: Seq<u8>) -> bool {
    decoded_transaction(bytes) is Some
}

/// The output that an input of a transaction spends.
#[derive(Clone, Debug, PartialEq, Eq)]
pub struct OutPoint {
    /// The identifier of the transaction, as it is displayed.
    pub txid: String,
    pub vout: u32,
}

/// The mathematical model of a spent output.
pub struct OutPointView {
    pub txid: Seq<char>,
    pub vout: u32,
}

impl View for OutPoint {
    type V = OutPointView;

    open spec fn view(&self) -> OutPointView {
        OutPointView { txid: self.txid@, vout: self.vout }
    }
}

/// An output of a transaction.
#[derive(Clone, Debug, PartialEq, Eq)]
pub struct TxOutput {
    pub value_sat: u64,
    pub script: Vec<u8>,
}

/// The mathematical model of an output of a transaction.
pub struct TxOutputView {
    pub value_sat: u64,
    pub script: Seq<u8>,
}

impl View for TxOutput {
    type V = TxOutputView;

    open spec fn view(&self) -> TxOutputView {
        TxOutputView { value_sat: self.value_sat, script: self.script@ }
    }
}

/// The outputs that a transaction spends and its own outputs.
#[derive(Clone, Debug, PartialEq, Eq)]
pub struct FundingDetails {
    pub inputs: Vec<OutPoint>,
    pub outputs: Vec<TxOutput>,
}

/// The mathematical model of what is read of a funding transaction.
pub struct FundingDetailsView {
    pub inputs: Seq<OutPointView>,
    pub outputs: Seq<TxOutputView>,
}

impl View for FundingDetails {
    type V = FundingDetailsView;

    open spec fn view(&self) -> FundingDetailsView {
        FundingDetailsView { inputs: views_of(self.inputs@), outputs: views_of(self.outputs@) }
    }
}

/// Reads the bytes as one transaction.
pub fn funding_details(bytes: &Vec<u8>) -> (details: Option<FundingDetails>)
    ensures
        match details {
            Some(d) => decoded_transaction(bytes@) == Some(d@),
            None => decoded_transaction(bytes@) is None,
        },
{
    decode_transaction(bytes)
}

/// Computes the identifier of the transaction that the bytes are, as it is displayed.
pub fn funding_txid(bytes: &Vec<u8>) -> (txid: Option<String>)
    ensures
        match txid {
            Some(id) => transaction_id(bytes@) == Some(id@),
            None => transaction_id(bytes@) is None,
        },
{
    compute_transaction_id(bytes)
}

/// Says whether the bytes are one well-formed transaction.
pub fn check_transaction(bytes: &Vec<u8>) -> (ok: bool)
    ensures
        ok == is_transaction(bytes@),
{
    decode_transaction(bytes).is_some()
}

/// Calls `bitcoin::consensus::encode::deserialize` for a transaction, which fails
/// unless the bytes are one transaction with nothing left over; hands back the
/// outputs that the inputs spend, each with the identifier of its transaction as it
/// is displayed, and the value and script of each output.
#[verifier::external_body]
fn decode_transaction(bytes: &Vec<u8>) -> (details: Option<FundingDetails>)
    ensures
        match details {
            Some(d) => decoded_transaction(bytes@) == Some(d@),
            None => decoded_transaction(bytes@) is None,
        },
{
    let tx = bitcoin::consensus::encode::deserialize::<bitcoin::Transaction>(bytes).ok()?;
    let spent = |i: &bitcoin::TxIn| OutPoint { txid: i.previous_output.txid.to_string(), vout: i.previous_output.vout };
    let paid = |o: &bitcoin::TxOut| TxOutput { value_sat: o.value.to_sat(), script: o.script_pubkey.to_bytes() };
    Some(FundingDetails {
        inputs: tx.input.iter().map(spent).collect(),
        outputs: tx.output.iter().map(paid).collect(),
    })
}

/// Calls `bitcoin::Transaction::compute_txid` on the transaction that the bytes
/// are, and hands back the identifier as it is displayed; none where the bytes are
/// no transaction.
#[verifier::external_body]
fn compute_transaction_id(bytes: &Vec<u8>) -> (txid: Option<String>)
    ensures
        match txid {
            Some(id) => transaction_id(bytes@) == Some(id@),
            None => transaction_id(bytes@) is None,
        },
{
    let tx = bitcoin::consensus::encode::deserialize::<bitcoin::Transaction>(bytes).ok()?;
    Some(tx.compute_txid().to_string())
}

} // verus!
