//! Watches a live Bitcoin transaction feed and matches each transaction's
//! output addresses, and the output addresses of every resolved previous
//! transaction, against per-user watchlists.
//!
//! The crate holds the verified core of the pipeline: the wire-format
//! transaction codec, the address and record classification, the watchlist
//! snapshot, the resolution decisions, and the match engine. Feed, store and
//! notification transports live outside the library and hand it plain values.

pub mod encoding;
pub mod hexstr;
pub mod matching;
pub mod models;
pub mod notify;
pub mod resolve;
pub mod script;
pub mod tx;
pub mod watchlist;
