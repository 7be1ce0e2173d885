//! Signed transactions on their way to the network: from the text of a PSBT to the bytes that
//! are broadcast.
use bdk_wallet::bitcoin::consensus::encode::serialize;
use bdk_wallet::bitcoin::Psbt;
use std::str::FromStr;
use vstd::prelude::*;

verus! {

/// What `bitcoin::Psbt::from_str` makes of `text`: the PSBT in its binary form, or the text of
/// the error.
pub uninterp spec fn decoded_psbt(text: Seq<char>) -> Result<Seq<u8>, Seq<char>>;

/// The fee of a PSBT in its binary form, by `bitcoin::Psbt::fee`, or the text of the error.
pub uninterp spec fn psbt_fee(psbt: Seq<u8>) -> Result<u64, Seq<char>>;

/// The transaction that `bitcoin::Psbt::extract_tx` makes of a PSBT in its binary form,
/// serialized as the network has it.
pub uninterp spec fn extracted_tx(psbt: Seq<u8>) -> Option<Seq<u8>>;

/// What `r` holds.
pub open spec fn result_bytes(r: Result<Vec<u8>, String>) -> Result<Seq<u8>, Seq<char>> {
    match r {
        Ok(bytes) => Ok(bytes@),
        Err(e) => Err(e@),
    }
}

/// What `r` holds.
pub open spec fn result_fee(r: Result<u64, String>) -> Result<u64, Seq<char>> {
    match r {
        Ok(fee) => Ok(fee),
        Err(e) => Err(e@),
    }
}

/// What `r` holds.
pub open spec fn option_bytes(r: Option<Vec<u8>>) -> Option<Seq<u8>> {
    match r {
        Some(bytes) => Some(bytes@),
        None => None,
    }
}

/// `bitcoin::Psbt::from_str`, what it reads in its binary form and the error as text.
#[verifier::external_body]
fn decode_psbt(text: &str) -> (r: Result<Vec<u8>, String>)
    ensures
        result_bytes(r) == decoded_psbt(text@),
{
    match Psbt::from_str(text) {
        Ok(psbt) => Ok(psbt.serialize()),
        Err(e) => Err(e.to_string()),
    }
}

/// `bitcoin::Psbt::fee` of a PSBT in its binary form, the error as text. It is an error too
/// where the bytes are no PSBT.
#[verifier::external_body]
fn fee_of_psbt(psbt: &[u8]) -> (r: Result<u64, String>)
    ensures
        result_fee(r) == psbt_fee(psbt@),
{
    let psbt = Psbt::deserialize(psbt).map_err(|e| e.to_string())?;
    psbt.fee().map(|fee| fee.to_sat()).map_err(|e| e.to_string())
}

/// `bitcoin::Psbt::extract_tx` of a PSBT in its binary form whose fee is known. It refuses a
/// fee rate above 25,000 satoshis a virtual byte. No transaction weighs less than 40 units, so
/// up to 250,000 satoshis no rate is.
#[verifier::external_body]
fn extract_tx(psbt: &[u8]) -> (r: Option<Vec<u8>>)
    requires
        psbt_fee(psbt@) is Ok,
    ensures
        option_bytes(r) == extracted_tx(psbt@),
        psbt_fee(psbt@)->Ok_0 <= 250_000 ==> r is Some,
{
    let psbt = Psbt::deserialize(psbt).unwrap();
    match psbt.extract_tx() {
        Ok(tx) => Some(serialize(&tx)),
        Err(_) => None,
    }
}

/// Why a PSBT is not broadcast.
#[derive(Debug)]
pub enum BroadcastError {
    /// Its fee cannot be told: it is no PSBT, an input misses the output it spends, or more is
    /// sent than spent.
    Fee(String),
    /// Its fee rate is absurdly high.
    AbsurdFeeRate,
}

/// What `r` holds: the bytes, or the text of the fee error where it is one.
pub open spec fn broadcast_outcome(
    r: Result<Vec<u8>, BroadcastError>,
) -> Result<Seq<u8>, Option<Seq<char>>> {
    match r {
        Ok(bytes) => Ok(bytes@),
        Err(BroadcastError::Fee(e)) => Err(Some(e@)),
        Err(BroadcastError::AbsurdFeeRate) => Err(None),
    }
}

/// What is broadcast, given the fee and the transaction.
pub open spec fn broadcast_tx(
    fee: Result<u64, Seq<char>>,
    tx: Option<Seq<u8>>,
) -> Result<Seq<u8>, Option<Seq<char>>> {
    match fee {
        Err(e) => Err(Some(e)),
        Ok(_) => match tx {
            Some(bytes) => Ok(bytes),
            None => Err(None),
        },
    }
}

/// Reads a PSBT. What comes back is its binary form.
pub fn parse_psbt(s: &str) -> (r: Result<Vec<u8>, String>)
    ensures
        result_bytes(r) == decoded_psbt(s@),
{
    decode_psbt(s)
}

/// What is broadcast, given the fee and the transaction.
pub fn finish_broadcast(
    fee: Result<u64, String>,
    tx: Option<Vec<u8>>,
) -> (r: Result<Vec<u8>, BroadcastError>)
    ensures
        broadcast_outcome(r) == broadcast_tx(result_fee(fee), option_bytes(tx)),
{
    match fee {
        Err(e) => Err(BroadcastError::Fee(e)),
        Ok(_) => match tx {
            Some(bytes) => Ok(bytes),
            None => Err(BroadcastError::AbsurdFeeRate),
        },
    }
}

/// The transaction of a signed PSBT in its binary form, as it is broadcast.
pub fn cmd_broadcast(psbt: &Vec<u8>) -> (r: Result<Vec<u8>, BroadcastError>)
    ensures
        broadcast_outcome(r) == broadcast_tx(psbt_fee(psbt@), extracted_tx(psbt@)),
        psbt_fee(psbt@) matches Ok(fee) && fee <= 250_000 ==> r is Ok,
{
    let fee = fee_of_psbt(psbt.as_slice());
    let tx = if fee.is_ok() {
        extract_tx(psbt.as_slice())
    } else {
        None
    };
    finish_broadcast(fee, tx)
}

/// Nothing is broadcast where the fee cannot be told, whatever the transaction; where it can, the
/// transaction is, and its absence means that the rate is absurd.
pub proof fn lemma_broadcast_is(fee: Result<u64, Seq<char>>, tx: Option<Seq<u8>>)
    ensures
        match broadcast_tx(fee, tx) {
            Ok(bytes) => fee is Ok && tx == Some(bytes),
            Err(Some(e)) => fee == Err::<u64, Seq<char>>(e),
            Err(None) => fee is Ok && tx is None,
        },
{
}

/// What results on the way to the network hold.
pub proof fn lemma_psbt_fields(
    bytes: Result<Vec<u8>, String>,
    fee: Result<u64, String>,
    tx: Option<Vec<u8>>,
    r: Result<Vec<u8>, BroadcastError>,
)
    ensures
        match result_bytes(bytes) {
            Ok(data) => bytes is Ok && data == bytes->Ok_0@,
            Err(e) => bytes is Err && e == bytes->Err_0@,
        },
        match result_fee(fee) {
            Ok(sats) => fee is Ok && sats == fee->Ok_0,
            Err(e) => fee is Err && e == fee->Err_0@,
        },
        match option_bytes(tx) {
            Some(data) => tx is Some && data == tx->0@,
            None => tx is None,
        },
        match broadcast_outcome(r) {
            Ok(data) => r is Ok && data == r->Ok_0@,
            Err(Some(e)) => r is Err && r->Err_0 is Fee && e == r->Err_0->Fee_0@,
            Err(None) => r is Err && r->Err_0 is AbsurdFeeRate,
        },
{
}

} // verus!
