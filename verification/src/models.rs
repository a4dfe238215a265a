//! The data the pipeline works on: users, stored watched records, the
//! per-transaction summary handed to the match engine, and the match event
//! that is recorded and dispatched.
//!
//! A watched record is a closed sum over the four stored shapes. Only the
//! address variant takes part in matching; the others are classified and
//! stored but never compared.

use vstd::prelude::*;

use crate::script::{addr_canon, parse_canonical_address};

verus! {

/// A registered user, identified by a public-key string.
pub struct User {
    pub nostr_pubkey: String,
}

/// One stored watchlist row: a user and the record text they registered.
pub struct UserAddress {
    pub nostr_pubkey: String,
    pub address: String,
}

/// A resolved spending input: the previous transaction's id (display form)
/// and that transaction's whole output-address set.
pub struct InputTrans {
    pub txid: String,
    pub output_address: Vec<String>,
}

/// The per-transaction summary the match engine reads.
pub struct GenTransaction {
    pub txid: String,
    pub output_address: Vec<String>,
    pub input_address: Vec<InputTrans>,
}

/// One match: a user, the transaction, the provenance when the match came
/// from a resolved input, and the watched addresses that matched, in the
/// user's watchlist order.
pub struct MatchedEvent {
    pub nostr_pubkey: String,
    pub txid: String,
    pub prev_txid: Option<String>,
    pub record: Vec<String>,
}

/// The closed sum of stored record shapes.
pub enum RecordType {
    /// A canonical address; the only variant that can match.
    Address(String),
    /// An extended public key, kept verbatim.
    Xpub(String),
    /// An outpoint reference, kept verbatim.
    Utxo(String),
    /// An output descriptor, kept verbatim.
    Descriptor(String),
}

/// The string begins like a base58 or bech32 mainnet address: "1", "3" or
/// "bc1".
pub open spec fn has_addr_prefix(b: Seq<u8>) -> bool {
    (b.len() >= 1 && (b[0] == 49 || b[0] == 51)) || (b.len() >= 3 && b[0] == 98 && b[1] == 99
        && b[2] == 49)
}

/// The string begins "xpub", "ypub" or "zpub".
pub open spec fn has_xpub_prefix(b: Seq<u8>) -> bool {
    b.len() >= 4 && (b[0] == 120 || b[0] == 121 || b[0] == 122) && b[1] == 112 && b[2] == 117
        && b[3] == 98
}

/// The string holds a ':' and is longer than 65 bytes, as a txid:vout
/// outpoint is.
pub open spec fn is_utxo_like(b: Seq<u8>) -> bool {
    (exists|i: int| 0 <= i < b.len() && b[i] == 58) && b.len() > 65
}

/// The string begins "wpkh(", "sh(" or "multi(".
pub open spec fn has_descriptor_prefix(b: Seq<u8>) -> bool {
    (b.len() >= 5 && b[0] == 119 && b[1] == 112 && b[2] == 107 && b[3] == 104 && b[4] == 40) || (
    b.len() >= 3 && b[0] == 115 && b[1] == 104 && b[2] == 40) || (b.len() >= 6 && b[0] == 109
        && b[1] == 117 && b[2] == 108 && b[3] == 116 && b[4] == 105 && b[5] == 40)
}

/// The UTF-8 bytes of a record string; the stored shapes are all ASCII.
pub open spec fn record_bytes(s: String) -> Seq<u8> {
    vstd::utf8::encode_utf8(s@)
}

/// No stored shape fits the string.
pub open spec fn record_unrecognized(s: String) -> bool {
    let b = record_bytes(s);
    &&& has_addr_prefix(b) ==> addr_canon(s@) is None
    &&& !has_addr_prefix(b) ==> !has_xpub_prefix(b) && !is_utxo_like(b) && !has_descriptor_prefix(
        b,
    )
}

impl RecordType {
    /// Classifies one stored record string by its shape, in the fixed order
    /// of the prefixes; an address-shaped string must also parse as an
    /// address, and its canonical form is kept.
    pub fn try_from(s: String) -> (r: Result<RecordType, &'static str>)
        ensures
            match r {
                Ok(RecordType::Address(a)) => has_addr_prefix(record_bytes(s)) && addr_canon(s@)
                    == Some(a@),
                Ok(RecordType::Xpub(x)) => !has_addr_prefix(record_bytes(s)) && has_xpub_prefix(
                    record_bytes(s),
                ) && x@ == s@,
                Ok(RecordType::Utxo(x)) => !has_addr_prefix(record_bytes(s)) && !has_xpub_prefix(
                    record_bytes(s),
                ) && is_utxo_like(record_bytes(s)) && x@ == s@,
                Ok(RecordType::Descriptor(x)) => !has_addr_prefix(record_bytes(s))
                    && !has_xpub_prefix(record_bytes(s)) && !is_utxo_like(record_bytes(s))
                    && has_descriptor_prefix(record_bytes(s)) && x@ == s@,
                Err(m) => record_unrecognized(s) && m@ == "Invalid RecordType string"@,
            },
    {
        let b = s.as_str().as_bytes();
        let n = b.len();
        if (n >= 1 && (b[0] == 49 || b[0] == 51)) || (n >= 3 && b[0] == 98 && b[1] == 99 && b[2]
            == 49) {
            match parse_canonical_address(s.as_str()) {
                Some(c) => Ok(RecordType::Address(c)),
                None => Err("Invalid RecordType string"),
            }
        } else if n >= 4 && (b[0] == 120 || b[0] == 121 || b[0] == 122) && b[1] == 112 && b[2]
            == 117 && b[3] == 98 {
            Ok(RecordType::Xpub(s))
        } else if contains_colon(b) && n > 65 {
            Ok(RecordType::Utxo(s))
        } else if (n >= 5 && b[0] == 119 && b[1] == 112 && b[2] == 107 && b[3] == 104 && b[4]
            == 40) || (n >= 3 && b[0] == 115 && b[1] == 104 && b[2] == 40) || (n >= 6 && b[0]
            == 109 && b[1] == 117 && b[2] == 108 && b[3] == 116 && b[4] == 105 && b[5] == 40) {
            Ok(RecordType::Descriptor(s))
        } else {
            Err("Invalid RecordType string")
        }
    }

    /// The stored text of the record; for an address, its canonical form.
    pub fn into_string(self) -> (r: String)
        ensures
            r@ == match self {
                RecordType::Address(a) => a@,
                RecordType::Xpub(x) => x@,
                RecordType::Utxo(x) => x@,
                RecordType::Descriptor(x) => x@,
            },
    {
        match self {
            RecordType::Address(a) => a,
            RecordType::Xpub(x) => x,
            RecordType::Utxo(x) => x,
            RecordType::Descriptor(x) => x,
        }
    }
}

fn contains_colon(b: &[u8]) -> (r: bool)
    ensures
        r == exists|i: int| 0 <= i < b@.len() && b@[i] == 58,
{
    let mut i: usize = 0;
    while i < b.len()
        invariant
            i <= b@.len(),
            forall|j: int| 0 <= j < i ==> b@[j] != 58,
        decreases b@.len() - i,
    {
        if b[i] == 58 {
            return true;
        }
        i = i + 1;
    }
    false
}

} // verus!
