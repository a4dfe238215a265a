//! The wire codec on real payloads: the genesis coinbase transaction, a
//! hand-built segwit payload, and malformed inputs.

use utxo_monitor::tx::{
    decode_feed_payload, decode_transaction, encode_transaction, Transaction, TxInput, TxOutput,
};

const GENESIS_TX_HEX: &str = "01000000010000000000000000000000000000000000000000000000000000000000000000ffffffff4d04ffff001d0104455468652054696d65732030332f4a616e2f32303039204368616e63656c6c6f72206f6e206272696e6b206f66207365636f6e64206261696c6f757420666f722062616e6b73ffffffff0100f2052a01000000434104678afdb0fe5548271967f1a67130b7105cd6a828e03909a67962e0ea1f61deb649f6bc3f4cef38c4f35504e51ec112de5c384df7ba0b8d578a4c702b6bf11d5fac00000000";

fn genesis_bytes() -> Vec<u8> {
    hex::decode(GENESIS_TX_HEX).unwrap()
}

#[test]
fn decode_genesis_structure() {
    let bytes = genesis_bytes();
    let tx = decode_transaction(&bytes).expect("genesis coinbase must decode");
    assert_eq!(tx.version, 1);
    assert!(!tx.segwit);
    assert_eq!(tx.inputs.len(), 1);
    assert_eq!(tx.inputs[0].prev_txid, vec![0u8; 32]);
    assert_eq!(tx.inputs[0].prev_vout, 0xffffffff);
    assert_eq!(tx.inputs[0].script_sig.len(), 77);
    assert_eq!(tx.inputs[0].sequence, 0xffffffff);
    assert_eq!(tx.outputs.len(), 1);
    assert_eq!(tx.outputs[0].value, 5_000_000_000);
    assert_eq!(tx.outputs[0].script_pubkey.len(), 67);
    assert_eq!(tx.locktime, 0);
    assert!(tx.witnesses.is_empty());
}

#[test]
fn round_trip_genesis() {
    let bytes = genesis_bytes();
    let tx = decode_transaction(&bytes).expect("genesis coinbase must decode");
    let encoded = encode_transaction(&tx);
    assert_eq!(encoded, bytes);
}

fn segwit_sample_bytes() -> Vec<u8> {
    let mut b: Vec<u8> = Vec::new();
    b.extend_from_slice(&[0x02, 0x00, 0x00, 0x00]); // version 2
    b.extend_from_slice(&[0x00, 0x01]); // segwit marker and flag
    b.push(0x01); // one input
    b.extend_from_slice(&[0x11u8; 32]); // previous txid
    b.extend_from_slice(&[0x00, 0x00, 0x00, 0x00]); // vout 0
    b.push(0x00); // empty script sig
    b.extend_from_slice(&[0xff, 0xff, 0xff, 0xff]); // sequence
    b.push(0x01); // one output
    b.extend_from_slice(&[0xe8, 0x03, 0x00, 0x00, 0x00, 0x00, 0x00, 0x00]); // 1000 sat
    b.push(0x16); // 22-byte script
    b.push(0x00);
    b.push(0x14);
    b.extend_from_slice(&hex::decode("751e76e8199196d454941c45d1b3a323f1433bd6").unwrap());
    b.push(0x01); // witness stack for the input: one item
    b.push(0x02); // item of two bytes
    b.extend_from_slice(&[0xab, 0xab]);
    b.extend_from_slice(&[0x00, 0x00, 0x00, 0x00]); // locktime
    b
}

#[test]
fn round_trip_segwit() {
    let bytes = segwit_sample_bytes();
    let tx = decode_transaction(&bytes).expect("segwit sample must decode");
    assert!(tx.segwit);
    assert_eq!(tx.witnesses.len(), 1);
    assert_eq!(tx.witnesses[0], vec![vec![0xab, 0xab]]);
    let encoded = encode_transaction(&tx);
    assert_eq!(encoded, bytes);
}

#[test]
fn decode_rejects_truncated_payload() {
    let bytes = genesis_bytes();
    assert!(decode_transaction(&bytes[..bytes.len() - 1]).is_none());
    assert!(decode_transaction(&[0x01, 0x00]).is_none());
    assert!(decode_transaction(&[]).is_none());
}

#[test]
fn decode_rejects_trailing_bytes() {
    let mut bytes = genesis_bytes();
    bytes.push(0x00);
    assert!(decode_transaction(&bytes).is_none());
}

#[test]
fn decode_rejects_non_minimal_count() {
    // The same genesis payload, with the one-byte input count written in
    // the three-byte form.
    let bytes = genesis_bytes();
    let mut padded: Vec<u8> = Vec::new();
    padded.extend_from_slice(&bytes[..4]);
    padded.extend_from_slice(&[0xfd, 0x01, 0x00]);
    padded.extend_from_slice(&bytes[5..]);
    assert!(decode_transaction(&padded).is_none());
}

#[test]
fn decode_rejects_bad_segwit_flag() {
    let mut bytes = segwit_sample_bytes();
    bytes[5] = 0x02; // flag must be 1
    assert!(decode_transaction(&bytes).is_none());
}

#[test]
fn genesis_txid_matches_chain() {
    let bytes = genesis_bytes();
    let (tx, txid) = decode_feed_payload(&bytes).expect("genesis coinbase must decode");
    assert_eq!(tx.version, 1);
    assert_eq!(
        txid,
        "4a5e1e4baab89f3a32518a88c31bc87f618f76673e2cc77ab2127b7afdeda33b"
    );
}

#[test]
fn encode_built_transaction() {
    // A transaction assembled field by field encodes to the same bytes it
    // was read from.
    let tx = Transaction {
        version: 1,
        segwit: false,
        inputs: vec![TxInput {
            prev_txid: vec![0x22u8; 32],
            prev_vout: 1,
            script_sig: vec![],
            sequence: 0xfffffffd,
        }],
        outputs: vec![TxOutput {
            value: 42,
            script_pubkey: vec![0x6a],
        }],
        witnesses: vec![],
        locktime: 7,
    };
    let encoded = encode_transaction(&tx);
    let again = decode_transaction(&encoded).expect("own encoding must decode");
    assert_eq!(encode_transaction(&again), encoded);
}
