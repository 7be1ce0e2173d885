//! Addresses: the text by which an output script is listed and asked for.
use crate::script::{
    is_p2pkh, is_p2sh, is_witness_program, lemma_script_kinds, p2pkh, p2sh, witness_program,
};
use bdk_wallet::bitcoin::{Address, Network, Script};
use std::str::FromStr;
use vstd::prelude::*;

verus! {

/// The output scripts that have an address: pay-to-public-key-hash, pay-to-script-hash, and
/// witness programs, of which version 0 has two lengths.
pub open spec fn has_address(script: Seq<u8>) -> bool {
    ||| p2pkh(script)
    ||| p2sh(script)
    ||| witness_program(script) && (script[0] != 0 || script.len() == 22 || script.len() == 34)
}

/// Whether `script` has an address.
pub fn is_addressable(script: &Vec<u8>) -> (r: bool)
    ensures
        r == has_address(script@),
{
    let bytes = script.as_slice();
    is_p2pkh(bytes) || is_p2sh(bytes) || (is_witness_program(bytes) && (script[0] != 0
        || script.len() == 22 || script.len() == 34))
}

/// The text of the address of `script`, as `bitcoin::Address::from_script` gives it.
pub uninterp spec fn address_text(script: Seq<u8>, network: Network) -> Seq<char>;

/// Whether `bitcoin::Address::from_str` reads `text` as an address of any network.
pub uninterp spec fn address_parses(text: Seq<char>) -> bool;

/// The output script of the address `text`, where `bitcoin::Address::require_network` finds
/// that it is one of `network`.
pub uninterp spec fn address_script(text: Seq<char>, network: Network) -> Option<Seq<u8>>;

/// `bitcoin::Address::from_script`, formatted as text. The text of a witness program reads back
/// as an address, and a text that does has the same script on the same network. A legacy text
/// that is by chance also segwit text of no known network does not read back:
/// `bitcoin::Address::from_str` tries that first.
#[verifier::external_body]
pub(crate) fn address_from_script(script: &[u8], network: Network) -> (r: String)
    requires
        has_address(script@),
    ensures
        r@ == address_text(script@, network),
        witness_program(script@) ==> address_parses(r@),
        address_parses(r@) ==> address_script(r@, network) == Some(script@),
{
    Address::from_script(Script::from_bytes(script), network).unwrap().to_string()
}

/// `bitcoin::Address::from_str`, asked only whether it succeeds.
#[verifier::external_body]
fn is_address(text: &str) -> (r: bool)
    ensures
        r == address_parses(text@),
{
    Address::from_str(text).is_ok()
}

/// `bitcoin::Address::require_network` on a text that is an address, and the script of what
/// it returns.
#[verifier::external_body]
fn script_of_address(text: &str, network: Network) -> (r: Option<Vec<u8>>)
    requires
        address_parses(text@),
    ensures
        script_found(r) == address_script(text@, network),
{
    let address = Address::from_str(text).unwrap();
    match address.require_network(network) {
        Ok(checked) => Some(checked.script_pubkey().into_bytes()),
        Err(_) => None,
    }
}

/// What `script` holds.
pub open spec fn script_found(script: Option<Vec<u8>>) -> Option<Seq<u8>> {
    match script {
        Some(bytes) => Some(bytes@),
        None => None,
    }
}

/// Why a text is not the address of an output to spend.
#[derive(Debug, Clone, Copy, PartialEq, Eq, Structural)]
pub enum AddressError {
    /// It is no address.
    Malformed,
    /// It is an address of another network.
    WrongNetwork,
}

/// What reading an address comes to, given whether it parses and the script it then has on
/// the network at hand.
pub open spec fn address_read(
    parses: bool,
    script: Option<Seq<u8>>,
) -> Result<Seq<u8>, AddressError> {
    if !parses {
        Err(AddressError::Malformed)
    } else {
        match script {
            Some(bytes) => Ok(bytes),
            None => Err(AddressError::WrongNetwork),
        }
    }
}

/// What `r` holds.
pub open spec fn read_script(r: Result<Vec<u8>, AddressError>) -> Result<Seq<u8>, AddressError> {
    match r {
        Ok(bytes) => Ok(bytes@),
        Err(e) => Err(e),
    }
}

/// What reading an address comes to, given whether it parses and the script it then has on
/// the network at hand.
pub fn read_address(parses: bool, script: Option<Vec<u8>>) -> (r: Result<Vec<u8>, AddressError>)
    ensures
        read_script(r) == address_read(parses, script_found(script)),
{
    if !parses {
        return Err(AddressError::Malformed);
    }
    match script {
        Some(bytes) => Ok(bytes),
        None => Err(AddressError::WrongNetwork),
    }
}

/// The output script of the address `text`, which has to be one of `network`.
pub fn parse_address(text: &str, network: Network) -> (r: Result<Vec<u8>, AddressError>)
    ensures
        read_script(r) == address_read(address_parses(text@), address_script(text@, network)),
{
    let parses = is_address(text);
    let script = if parses {
        script_of_address(text, network)
    } else {
        None
    };
    read_address(parses, script)
}

/// The scripts that have an address: the two legacy kinds, the two of version 0, and every witness
/// program of version 1 to 16.
pub proof fn lemma_addressable(script: Seq<u8>)
    ensures
        has_address(script) <==> {
            ||| script.len() == 25 && script.take(3) == seq![0x76u8, 0xa9u8, 0x14u8]
                && script.skip(23) == seq![0x88u8, 0xacu8]
            ||| script.len() == 23 && script.take(2) == seq![0xa9u8, 0x14u8] && script.last()
                == 0x87
            ||| script.len() == 22 && script.take(2) == seq![0x00u8, 0x14u8]
            ||| script.len() == 34 && script.take(2) == seq![0x00u8, 0x20u8]
            ||| 4 <= script.len() <= 42 && 0x51 <= script[0] <= 0x60 && script[1] == script.len()
                - 2
        },
{
    lemma_script_kinds(script);
}

/// An address is refused as malformed exactly where it does not parse, and as one of another
/// network exactly where it parses and has no script on this one; else its script comes back.
pub proof fn lemma_address_read(parses: bool, script: Option<Seq<u8>>)
    ensures
        address_read(parses, script) == Err::<Seq<u8>, AddressError>(AddressError::Malformed)
            <==> !parses,
        address_read(parses, script) == Err::<Seq<u8>, AddressError>(AddressError::WrongNetwork)
            <==> parses && script is None,
        match address_read(parses, script) {
            Ok(bytes) => parses && script == Some(bytes),
            Err(_) => !parses || script is None,
        },
{
}

/// What results of reading an address hold.
pub proof fn lemma_read_fields(script: Option<Vec<u8>>, r: Result<Vec<u8>, AddressError>)
    ensures
        script_found(script) is Some <==> script is Some,
        script matches Some(bytes) ==> script_found(script) == Some(bytes@),
        read_script(r) is Ok <==> r is Ok,
        r matches Ok(bytes) ==> read_script(r) == Ok::<Seq<u8>, AddressError>(bytes@),
        r matches Err(e) ==> read_script(r) == Err::<Seq<u8>, AddressError>(e),
{
}

} // verus!
