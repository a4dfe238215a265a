//! Resolution of spending-input provenance, and the startup capability
//! probe that picks the backend.
//!
//! The calls that reach a node or an explorer live outside the library; the
//! decisions are here. Each resolver takes the plain outcome of one call
//! (exit status, HTTP status and body, raw bytes) and yields the resolved
//! input or none; a failed resolution never aborts the pass, the input is
//! only left out of the resolved list.

use vstd::prelude::*;

use crate::hexstr::{hex_decoded, hex_encode, hex_of, is_hex_string, hex_decode};
use crate::matching::out_addrs_spec;
use crate::models::InputTrans;
use crate::tx::{decode_transaction, parse_tx, TxInput};

verus! {

/// The boolean "pruned" field of the capability-probe reply, a function of
/// the reply text alone; none when the text is not a JSON document with a
/// boolean field of that name.
pub uninterp spec fn pruned_field(s: Seq<char>) -> Option<bool>;

/// Relies on serde_json::from_str, Value::get and Value::as_bool: reads the
/// boolean "pruned" field out of the probe reply, from plain text to a
/// plain value.
#[verifier::external_body]
fn probe_pruned_field(s: &str) -> (r: Option<bool>)
    ensures
        r == pruned_field(s@),
{
    match serde_json::from_str::<serde_json::Value>(s) {
        Ok(v) => match v.get("pruned") {
            Some(p) => p.as_bool(),
            None => None,
        },
        Err(_) => None,
    }
}

/// Decides the resolution backend from the startup capability probe: a
/// failed probe is fatal, a node that reports itself pruned cannot serve
/// historical transactions locally, every other reply selects the local
/// backend.
pub fn is_bitcoin_node_pruned(probe_ok: bool, info: &str) -> (r: Result<bool, &'static str>)
    ensures
        (r is Ok) == probe_ok,
        r matches Ok(p) ==> (p <==> pruned_field(info@) == Some(true)),
{
    if !probe_ok {
        return Err("capability probe failed");
    }
    match probe_pruned_field(info) {
        Some(true) => Ok(true),
        _ => Ok(false),
    }
}

/// What the result of str::trim stands for.
pub uninterp spec fn trim_of(s: Seq<char>) -> Seq<char>;

/// Relies on str::trim: the input with leading and trailing whitespace
/// removed (a substring of the input), depending on the input alone.
#[verifier::external_body]
fn trim_text(s: &str) -> (r: &str)
    ensures
        r@ == trim_of(s@),
{
    s.trim()
}

/// The remote backend's answer, resolved. The body is trusted only on HTTP
/// success; it is trimmed, read as hex, and the bytes are decoded as a
/// transaction whose whole output-address set becomes the input's source
/// set.
pub fn resolve_remote(prev_txid: &String, status: u16, body: &str) -> (r: Option<InputTrans>)
    ensures
        (r is Some) == (status == 200 && is_hex_string(trim_of(body@)) && parse_tx(
            hex_decoded(trim_of(body@)),
        ) is Some),
        r matches Some(it) ==> it@.prev_txid == prev_txid@ && (parse_tx(
            hex_decoded(trim_of(body@)),
        ) matches Some(t) && it@.sources == out_addrs_spec(t.outputs)),
{
    if status != 200 {
        return None;
    }
    let trimmed = trim_text(body);
    match hex_decode(trimmed) {
        Some(bytes) => match decode_transaction(bytes.as_slice()) {
            Some(t) => {
                let outs = crate::matching::process_outputs(&t);
                Some(InputTrans { txid: prev_txid.clone(), output_address: outs })
            },
            None => None,
        },
        None => None,
    }
}

/// The local backend's answer, resolved. A non-success exit means
/// unresolved; otherwise the node's printed reply is trimmed, read as hex,
/// and the bytes are decoded as a transaction whose whole output-address
/// set becomes the input's source set.
pub fn resolve_local(prev_txid: &String, success: bool, reply: &str) -> (r: Option<InputTrans>)
    ensures
        (r is Some) == (success && is_hex_string(trim_of(reply@)) && parse_tx(
            hex_decoded(trim_of(reply@)),
        ) is Some),
        r matches Some(it) ==> it@.prev_txid == prev_txid@ && (parse_tx(
            hex_decoded(trim_of(reply@)),
        ) matches Some(t) && it@.sources == out_addrs_spec(t.outputs)),
{
    if !success {
        return None;
    }
    let trimmed = trim_text(reply);
    match hex_decode(trimmed) {
        Some(bytes) => match decode_transaction(bytes.as_slice()) {
            Some(t) => {
                let outs = crate::matching::process_outputs(&t);
                Some(InputTrans { txid: prev_txid.clone(), output_address: outs })
            },
            None => None,
        },
        None => None,
    }
}

/// The display form of the previous-transaction id of one input: the hex of
/// its 32 bytes in reverse order, as the chain's tooling prints ids.
pub fn prev_txid_hex(inp: &TxInput) -> (r: String)
    ensures
        r@ == hex_of(inp.prev_txid@.reverse()),
{
    let mut rev: Vec<u8> = Vec::new();
    let n = inp.prev_txid.len();
    let mut i: usize = 0;
    while i < n
        invariant
            i <= n,
            n == inp.prev_txid@.len(),
            rev@ == inp.prev_txid@.reverse().take(i as int),
        decreases n - i,
    {
        let ghost before = rev@;
        rev.push(inp.prev_txid[n - 1 - i]);
        proof {
            assert(inp.prev_txid@.reverse()[i as int] == inp.prev_txid@[n - 1 - i as int]);
            assert(rev@ =~= inp.prev_txid@.reverse().take(i as int + 1));
        }
        i = i + 1;
    }
    proof {
        assert(inp.prev_txid@.reverse().take(n as int) =~= inp.prev_txid@.reverse());
    }
    hex_encode(&rev)
}

} // verus!
