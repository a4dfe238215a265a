//! The address codec and the transaction id, through the bitcoin crate.
//!
//! Both are fixed functions of their argument bytes alone (the network is
//! pinned to mainnet), so each result carries a name that the callers'
//! contracts are stated over. At most one address ever comes out of one
//! spending condition: the result is an `Option`.

use vstd::prelude::*;

verus! {

/// The canonical mainnet address of a spending-condition script, or none for
/// an unrecognized or non-standard script.
pub uninterp spec fn addr_of_script(script: Seq<u8>) -> Option<Seq<char>>;

/// The canonical form of an address string, or none when the string is no
/// address.
pub uninterp spec fn addr_canon(s: Seq<char>) -> Option<Seq<char>>;

/// The display form (reversed-byte hex) of the id of the transaction a
/// byte payload encodes, or none when the chain library does not accept
/// the payload as a transaction.
pub uninterp spec fn txid_of(payload: Seq<u8>) -> Option<Seq<char>>;

/// Relies on bitcoin::Address::from_script for mainnet: one canonical
/// address per recognized script, none for the rest, depending on the script
/// bytes alone.
#[verifier::external_body]
pub(crate) fn script_address(script: &Vec<u8>) -> (r: Option<String>)
    ensures
        (r is Some) == (addr_of_script(script@) is Some),
        r matches Some(a) ==> addr_of_script(script@) == Some(a@),
{
    let s = bitcoin::Script::from_bytes(script.as_slice());
    match bitcoin::Address::from_script(s, bitcoin::Network::Bitcoin) {
        Ok(a) => Some(format!("{}", a)),
        Err(_) => None,
    }
}

/// Relies on bitcoin::Address::from_str (network unchecked: the
/// registration path accepts any network's string) and Display: the
/// canonical form of an address string, depending on the string alone.
#[verifier::external_body]
pub fn parse_canonical_address(s: &str) -> (r: Option<String>)
    ensures
        (r is Some) == (addr_canon(s@) is Some),
        r matches Some(a) ==> addr_canon(s@) == Some(a@),
{
    match s.parse::<bitcoin::Address<bitcoin::address::NetworkUnchecked>>() {
        Ok(a) => Some(format!("{}", a.assume_checked())),
        Err(_) => None,
    }
}

/// Relies on bitcoin::consensus::encode::deserialize and
/// Transaction::compute_txid: whether the payload deserializes, and the id
/// of the transaction it encodes, both depending on the payload bytes
/// alone.
#[verifier::external_body]
pub(crate) fn payload_txid(payload: &Vec<u8>) -> (r: Option<String>)
    ensures
        (r is Some) == (txid_of(payload@) is Some),
        r matches Some(s) ==> txid_of(payload@) == Some(s@),
{
    match bitcoin::consensus::encode::deserialize::<bitcoin::Transaction>(payload.as_slice()) {
        Ok(t) => Some(format!("{}", t.compute_txid())),
        Err(_) => None,
    }
}

} // verus!
