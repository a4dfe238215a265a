//! The watchlist snapshot: every user's watched addresses, rebuilt from the
//! stored rows for each processing pass.
//!
//! Each row is classified; only a row whose record interprets as the
//! address variant contributes its canonical address. A row with any other
//! shape, or with an unrecognized shape, still lists its user but adds no
//! address, so it can never match. Users appear in first-seen order and
//! each user appears once.

use vstd::prelude::*;

use crate::matching::{UserWatch, UserWatchModel};
use crate::models::{has_addr_prefix, record_bytes, RecordType, UserAddress};
use crate::script::addr_canon;

verus! {

/// What one stored row contributes: the canonical address, when the record
/// interprets as the address variant.
pub open spec fn row_address(rec: String) -> Option<Seq<char>> {
    if has_addr_prefix(record_bytes(rec)) {
        addr_canon(rec@)
    } else {
        None
    }
}

/// Folds one row into the snapshot: the user's entry grows by the
/// contributed address, a first-seen user gets a fresh entry.
pub open spec fn snap_insert(
    m: Seq<UserWatchModel>,
    user: Seq<char>,
    a: Option<Seq<char>>,
) -> Seq<UserWatchModel> {
    let added: Seq<Seq<char>> = match a {
        Some(c) => seq![c],
        None => Seq::empty(),
    };
    if exists|i: int| 0 <= i < m.len() && (#[trigger] m[i]).user == user {
        let i = choose|i: int| 0 <= i < m.len() && (#[trigger] m[i]).user == user;
        m.update(i, UserWatchModel { user: user, addresses: m[i].addresses + added })
    } else {
        m.push(UserWatchModel { user: user, addresses: added })
    }
}

/// The snapshot of a row list, rows folded in order.
pub open spec fn snapshot_spec(rows: Seq<UserAddress>) -> Seq<UserWatchModel>
    decreases rows.len(),
{
    if rows.len() == 0 {
        Seq::empty()
    } else {
        snap_insert(
            snapshot_spec(rows.drop_last()),
            rows.last().nostr_pubkey@,
            row_address(rows.last().address),
        )
    }
}

pub open spec fn distinct_users(m: Seq<UserWatchModel>) -> bool {
    forall|i: int, j: int| 0 <= i < j < m.len() ==> m[i].user != m[j].user
}

pub proof fn lemma_snap_insert_distinct(m: Seq<UserWatchModel>, user: Seq<char>, a: Option<Seq<char>>)
    requires
        distinct_users(m),
    ensures
        distinct_users(snap_insert(m, user, a)),
{
    let r = snap_insert(m, user, a);
    if exists|i: int| 0 <= i < m.len() && (#[trigger] m[i]).user == user {
        assert forall|i: int, j: int| 0 <= i < j < r.len() implies r[i].user != r[j].user by {
            assert(m[i].user != m[j].user);
        }
    } else {
        assert forall|i: int, j: int| 0 <= i < j < r.len() implies r[i].user != r[j].user by {
            if j < m.len() {
                assert(m[i].user != m[j].user);
            }
        }
    }
}

/// Every snapshot lists each user once.
pub proof fn lemma_snapshot_distinct(rows: Seq<UserAddress>)
    ensures
        distinct_users(snapshot_spec(rows)),
    decreases rows.len(),
{
    if rows.len() > 0 {
        lemma_snapshot_distinct(rows.drop_last());
        lemma_snap_insert_distinct(
            snapshot_spec(rows.drop_last()),
            rows.last().nostr_pubkey@,
            row_address(rows.last().address),
        );
    }
}

fn find_user(entries: &Vec<UserWatch>, user: &String) -> (r: Option<usize>)
    ensures
        match r {
            Some(i) => i < entries@.len() && entries@[i as int]@.user == user@,
            None => forall|i: int|
                0 <= i < entries@.len() ==> (#[trigger] entries@[i])@.user != user@,
        },
{
    let mut i: usize = 0;
    while i < entries.len()
        invariant
            i <= entries@.len(),
            forall|j: int| 0 <= j < i ==> (#[trigger] entries@[j])@.user != user@,
        decreases entries@.len() - i,
    {
        if entries[i].nostr_pubkey == *user {
            return Some(i);
        }
        i = i + 1;
    }
    None
}

/// Builds the snapshot from the stored rows. The result is exactly
/// `snapshot_spec` of the rows: a record that does not interpret as an
/// address is excluded from matching (its user gains no address from it),
/// and no row is dropped silently - its user is still listed.
pub fn build_watchlist(rows: &Vec<UserAddress>) -> (r: Vec<UserWatch>)
    ensures
        r@.map_values(|u: UserWatch| u@) == snapshot_spec(rows@),
        distinct_users(r@.map_values(|u: UserWatch| u@)),
{
    let mut entries: Vec<UserWatch> = Vec::new();
    let mut i: usize = 0;
    while i < rows.len()
        invariant
            i <= rows@.len(),
            entries@.map_values(|u: UserWatch| u@) == snapshot_spec(rows@.take(i as int)),
        decreases rows@.len() - i,
    {
        let ghost prev = entries@.map_values(|u: UserWatch| u@);
        proof {
            assert(rows@.take(i as int + 1).drop_last() =~= rows@.take(i as int));
            assert(rows@.take(i as int + 1).last() == rows@[i as int]);
            lemma_snapshot_distinct(rows@.take(i as int));
        }
        let row = &rows[i];
        let addr_opt: Option<String> = match RecordType::try_from(row.address.clone()) {
            Ok(RecordType::Address(a)) => Some(a),
            Ok(_) => None,
            Err(_) => None,
        };
        proof {
            assert(match addr_opt {
                Some(a) => row_address(rows@[i as int].address) == Some(a@),
                None => row_address(rows@[i as int].address) is None,
            });
        }
        let ghost added: Seq<Seq<char>> = match row_address(rows@[i as int].address) {
            Some(c) => seq![c],
            None => Seq::empty(),
        };
        match find_user(&entries, &row.nostr_pubkey) {
            Some(idx) => {
                let ghost old_entry = entries@[idx as int]@;
                if let Some(c) = addr_opt {
                    entries[idx].addresses.push(c);
                }
                proof {
                    assert(entries@.map_values(|u: UserWatch| u@) =~~= prev.update(
                        idx as int,
                        UserWatchModel {
                            user: old_entry.user,
                            addresses: old_entry.addresses + added,
                        },
                    ));
                    assert(prev[idx as int].user == rows@[i as int].nostr_pubkey@);
                    assert(exists|k: int|
                        0 <= k < prev.len() && (#[trigger] prev[k]).user
                            == rows@[i as int].nostr_pubkey@);
                    let w = choose|k: int| 0 <= k < prev.len() && (#[trigger] prev[k]).user
                        == rows@[i as int].nostr_pubkey@;
                    assert(prev.len() == snapshot_spec(rows@.take(i as int)).len());
                    if w != idx as int {
                        assert(prev[w].user == prev[idx as int].user);
                        assert(false);
                    }
                    assert(entries@.map_values(|u: UserWatch| u@) == snap_insert(
                        prev,
                        rows@[i as int].nostr_pubkey@,
                        row_address(rows@[i as int].address),
                    ));
                }
            },
            None => {
                let mut fresh: Vec<String> = Vec::new();
                if let Some(c) = addr_opt {
                    fresh.push(c);
                }
                entries.push(UserWatch { nostr_pubkey: row.nostr_pubkey.clone(), addresses: fresh });
                proof {
                    assert(forall|k: int|
                        0 <= k < prev.len() ==> (#[trigger] prev[k]).user != rows@[i as
                            int].nostr_pubkey@);
                    assert(entries@.map_values(|u: UserWatch| u@) =~~= prev.push(
                        UserWatchModel { user: rows@[i as int].nostr_pubkey@, addresses: added },
                    ));
                    assert(entries@.map_values(|u: UserWatch| u@) == snap_insert(
                        prev,
                        rows@[i as int].nostr_pubkey@,
                        row_address(rows@[i as int].address),
                    ));
                }
            },
        }
        i = i + 1;
    }
    proof {
        assert(rows@.take(rows@.len() as int) =~= rows@);
        lemma_snapshot_distinct(rows@);
    }
    entries
}

} // verus!
