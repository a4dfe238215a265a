//! The pipeline stages against concrete data: address decoding, record
//! classification, the watchlist snapshot, input resolution and the match
//! engine.

use utxo_monitor::notify::render_alert;
use utxo_monitor::matching::{find_address_match, process_outputs, UserWatch};
use utxo_monitor::models::{InputTrans, MatchedEvent, RecordType, UserAddress};
use utxo_monitor::resolve::{is_bitcoin_node_pruned, prev_txid_hex, resolve_local, resolve_remote};
use utxo_monitor::script::parse_canonical_address;
use utxo_monitor::tx::{decode_transaction, encode_transaction, Transaction, TxInput, TxOutput};
use utxo_monitor::watchlist::build_watchlist;

/// The address of the all-zero public-key hash.
const BURN: &str = "1111111111111111111114oLvT2";

fn burn_p2pkh_script() -> Vec<u8> {
    let mut s = vec![0x76, 0xa9, 0x14];
    s.extend_from_slice(&[0u8; 20]);
    s.push(0x88);
    s.push(0xac);
    s
}

/// A one-input, one-output transaction paying to the burn address.
fn burn_tx() -> Transaction {
    Transaction {
        version: 1,
        segwit: false,
        inputs: vec![TxInput {
            prev_txid: vec![0x33u8; 32],
            prev_vout: 0,
            script_sig: vec![],
            sequence: 0xffffffff,
        }],
        outputs: vec![TxOutput {
            value: 1000,
            script_pubkey: burn_p2pkh_script(),
        }],
        witnesses: vec![],
        locktime: 0,
    }
}

fn watch(user: &str, addrs: &[&str]) -> UserWatch {
    UserWatch {
        nostr_pubkey: user.to_string(),
        addresses: addrs.iter().map(|a| a.to_string()).collect(),
    }
}

fn tx_with_scripts(scripts: Vec<Vec<u8>>) -> Transaction {
    let mut tx = burn_tx();
    tx.outputs = scripts
        .into_iter()
        .map(|script_pubkey| TxOutput {
            value: 1,
            script_pubkey,
        })
        .collect();
    tx
}

#[test]
fn script_address_p2pkh() {
    let outs = process_outputs(&tx_with_scripts(vec![burn_p2pkh_script()]));
    assert_eq!(outs, vec![BURN.to_string()]);
}

#[test]
fn script_address_unrecognized_yields_none() {
    // Pay-to-public-key (as the genesis output), an empty script and a
    // data-carrier script have no address form.
    let mut p2pk = vec![0x41];
    p2pk.extend_from_slice(&[0x04; 65]);
    p2pk.push(0xac);
    let outs = process_outputs(&tx_with_scripts(vec![p2pk, vec![], vec![0x6a]]));
    assert!(outs.is_empty());
}

#[test]
fn parse_address_canonical() {
    assert_eq!(parse_canonical_address(BURN), Some(BURN.to_string()));
    assert_eq!(parse_canonical_address("hello"), None);
    assert_eq!(parse_canonical_address(""), None);
    // The canonical form of an uppercase bech32 string is lowercase.
    assert_eq!(
        parse_canonical_address("BC1QW508D6QEJXTDG4Y5R3ZARVARY0C5XW7KV8F3T4"),
        Some("bc1qw508d6qejxtdg4y5r3zarvary0c5xw7kv8f3t4".to_string())
    );
}

#[test]
fn script_address_p2wpkh() {
    let mut spk = vec![0x00, 0x14];
    spk.extend_from_slice(&hex::decode("751e76e8199196d454941c45d1b3a323f1433bd6").unwrap());
    let outs = process_outputs(&tx_with_scripts(vec![spk]));
    assert_eq!(
        outs,
        vec!["bc1qw508d6qejxtdg4y5r3zarvary0c5xw7kv8f3t4".to_string()]
    );
}

#[test]
fn process_outputs_drops_unrecognized() {
    let mut tx = burn_tx();
    tx.outputs.push(TxOutput {
        value: 1,
        script_pubkey: vec![0x6a],
    });
    let outs = process_outputs(&tx);
    assert_eq!(outs, vec![BURN.to_string()]);
    assert!(outs.len() <= tx.outputs.len());
}

#[test]
fn record_classification() {
    match RecordType::try_from(BURN.to_string()) {
        Ok(RecordType::Address(a)) => assert_eq!(a, BURN),
        other => panic!("expected the address variant, got {:?}", other.is_ok()),
    }
    assert!(matches!(
        RecordType::try_from("xpub661MyMwAqRbcF".to_string()),
        Ok(RecordType::Xpub(_))
    ));
    let outpoint = format!("{}:0", "4a".repeat(32));
    assert!(matches!(
        RecordType::try_from(outpoint),
        Ok(RecordType::Utxo(_))
    ));
    assert!(matches!(
        RecordType::try_from("wpkh(abcd)".to_string()),
        Ok(RecordType::Descriptor(_))
    ));
    assert_eq!(
        RecordType::try_from("hello".to_string()).err(),
        Some("Invalid RecordType string")
    );
    // Address-shaped but unparseable.
    assert_eq!(
        RecordType::try_from("1notanaddress".to_string()).err(),
        Some("Invalid RecordType string")
    );
}

#[test]
fn record_into_string() {
    let r = RecordType::try_from("wpkh(abcd)".to_string()).unwrap();
    assert_eq!(r.into_string(), "wpkh(abcd)");
}

#[test]
fn watchlist_groups_by_user() {
    let rows = vec![
        UserAddress {
            nostr_pubkey: "userA".to_string(),
            address: BURN.to_string(),
        },
        UserAddress {
            nostr_pubkey: "userB".to_string(),
            address: "xpubAAAA".to_string(),
        },
        UserAddress {
            nostr_pubkey: "userA".to_string(),
            address: BURN.to_string(),
        },
    ];
    let snap = build_watchlist(&rows);
    assert_eq!(snap.len(), 2);
    assert_eq!(snap[0].nostr_pubkey, "userA");
    assert_eq!(snap[0].addresses, vec![BURN.to_string(), BURN.to_string()]);
    assert_eq!(snap[1].nostr_pubkey, "userB");
    assert!(snap[1].addresses.is_empty());
}

#[test]
fn watchlist_excludes_unrecognized_record() {
    // An unrecognized record is excluded from the snapshot: its user gains
    // no address from it and can never match through it.
    let rows = vec![UserAddress {
        nostr_pubkey: "userA".to_string(),
        address: "not a record".to_string(),
    }];
    let snap = build_watchlist(&rows);
    assert_eq!(snap.len(), 1);
    assert!(snap[0].addresses.is_empty());
    let events = find_address_match(
        &"t1".to_string(),
        &vec![BURN.to_string()],
        &vec![],
        &snap,
    );
    assert!(events.is_empty());
}

#[test]
fn output_match_single_user() {
    // One user watches the burn address, the transaction pays to it: exactly
    // one event, no provenance, and nothing for the unrelated user.
    let tx = burn_tx();
    let outs = process_outputs(&tx);
    let wl = vec![watch("userA", &[BURN]), watch("userB", &[])];
    let events = find_address_match(&"t1".to_string(), &outs, &vec![], &wl);
    assert_eq!(events.len(), 1);
    assert_eq!(events[0].nostr_pubkey, "userA");
    assert_eq!(events[0].txid, "t1");
    assert_eq!(events[0].prev_txid, None);
    assert_eq!(events[0].record, vec![BURN.to_string()]);
}

#[test]
fn two_users_two_independent_events() {
    let wl = vec![watch("userA", &[BURN]), watch("userB", &[BURN])];
    let events = find_address_match(
        &"t1".to_string(),
        &vec![BURN.to_string()],
        &vec![],
        &wl,
    );
    assert_eq!(events.len(), 2);
    assert_eq!(events[0].nostr_pubkey, "userA");
    assert_eq!(events[1].nostr_pubkey, "userB");
    assert_eq!(events[0].record, vec![BURN.to_string()]);
    assert_eq!(events[1].record, vec![BURN.to_string()]);
}

#[test]
fn input_match_carries_provenance() {
    // The resolved previous transaction's output set holds a watched
    // address: one input-side event naming that previous txid.
    let wl = vec![watch("userA", &[BURN])];
    let resolved = vec![InputTrans {
        txid: "prev1".to_string(),
        output_address: vec![BURN.to_string()],
    }];
    let events = find_address_match(&"t1".to_string(), &vec![], &resolved, &wl);
    assert_eq!(events.len(), 1);
    assert_eq!(events[0].nostr_pubkey, "userA");
    assert_eq!(events[0].prev_txid, Some("prev1".to_string()));
    assert_eq!(events[0].record, vec![BURN.to_string()]);
}

#[test]
fn failed_resolution_leaves_output_side_alone() {
    // The input's resolution failed, so it is absent from the resolved
    // list; the output-side event is still produced, and no input-side
    // event exists.
    let unresolved = resolve_local(&"prev1".to_string(), false, "");
    assert!(unresolved.is_none());
    let wl = vec![watch("userA", &[BURN])];
    let events = find_address_match(
        &"t1".to_string(),
        &vec![BURN.to_string()],
        &vec![],
        &wl,
    );
    assert_eq!(events.len(), 1);
    assert_eq!(events[0].prev_txid, None);
}

#[test]
fn remote_resolution_not_found_drops_input() {
    // The explorer answers 404: the input is dropped, nothing else happens.
    let body = hex::encode(encode_transaction(&burn_tx()));
    assert!(resolve_remote(&"prev1".to_string(), 404, &body).is_none());
    assert!(resolve_remote(&"prev1".to_string(), 500, &body).is_none());
}

#[test]
fn remote_resolution_success() {
    let body = format!("{}\n", hex::encode(encode_transaction(&burn_tx())));
    let it = resolve_remote(&"prev1".to_string(), 200, &body).expect("valid body must resolve");
    assert_eq!(it.txid, "prev1");
    assert_eq!(it.output_address, vec![BURN.to_string()]);
}

#[test]
fn remote_resolution_bad_body() {
    assert!(resolve_remote(&"prev1".to_string(), 200, "zz").is_none());
    assert!(resolve_remote(&"prev1".to_string(), 200, "abc").is_none());
}

#[test]
fn local_resolution_success() {
    let reply = format!("{}\n", hex::encode(encode_transaction(&burn_tx())));
    let it = resolve_local(&"prev1".to_string(), true, &reply).expect("valid reply must resolve");
    assert_eq!(it.output_address, vec![BURN.to_string()]);
    assert!(resolve_local(&"prev1".to_string(), true, "zz").is_none());
    assert!(resolve_local(&"prev1".to_string(), false, &reply).is_none());
}

#[test]
fn node_pruned_probe() {
    assert_eq!(is_bitcoin_node_pruned(true, "{\"pruned\":true}"), Ok(true));
    assert_eq!(is_bitcoin_node_pruned(true, "{\"pruned\":false}"), Ok(false));
    assert_eq!(is_bitcoin_node_pruned(true, "{}"), Ok(false));
    assert!(is_bitcoin_node_pruned(false, "").is_err());
}

#[test]
fn previous_txid_display_form() {
    let tx = burn_tx();
    let shown = prev_txid_hex(&tx.inputs[0]);
    assert_eq!(shown, "33".repeat(32));
    let mut inp = TxInput {
        prev_txid: (0u8..32).collect(),
        prev_vout: 0,
        script_sig: vec![],
        sequence: 0,
    };
    inp.prev_txid[0] = 0xaa;
    let shown2 = prev_txid_hex(&inp);
    assert!(shown2.starts_with("1f1e1d"));
    assert!(shown2.ends_with("aa"));
}

#[test]
fn alert_message_wording() {
    let out_event = MatchedEvent {
        nostr_pubkey: "userA".to_string(),
        txid: "t1".to_string(),
        prev_txid: None,
        record: vec![BURN.to_string(), "x".to_string()],
    };
    assert_eq!(
        render_alert(&out_event),
        format!(
            "Your watch list Address [\"{}\", \"x\"] has been spent in this tx t1",
            BURN
        )
    );
    let in_event = MatchedEvent {
        nostr_pubkey: "userA".to_string(),
        txid: "t1".to_string(),
        prev_txid: Some("p9".to_string()),
        record: vec![BURN.to_string()],
    };
    assert_eq!(
        render_alert(&in_event),
        format!(
            "Your watch list Address [\"{}\"] has been spent as an input for this tx t1. The input was previously funded by this tx: p9",
            BURN
        )
    );
}
