//! The match engine: cross-references a transaction's output addresses and
//! its resolved inputs against the watchlist snapshot.
//!
//! For each user, in snapshot order: one event for the outputs when the
//! intersection with the user's watched addresses is non-empty, then one
//! event per resolved input whose source-address set intersects them. The
//! emitted list equals `match_spec` of the views, so the order is fixed and
//! every event is accounted for.

use vstd::prelude::*;

use crate::models::{InputTrans, MatchedEvent};
use crate::script::addr_of_script;
use crate::tx::{OutputModel, Transaction};

verus! {

/// One user's snapshot entry: the user and their watched canonical
/// addresses, in registration order.
pub struct UserWatch {
    pub nostr_pubkey: String,
    pub addresses: Vec<String>,
}

#[verifier::ext_equal]
pub ghost struct UserWatchModel {
    pub user: Seq<char>,
    pub addresses: Seq<Seq<char>>,
}

impl View for UserWatch {
    type V = UserWatchModel;

    open spec fn view(&self) -> UserWatchModel {
        UserWatchModel {
            user: self.nostr_pubkey@,
            addresses: self.addresses@.map_values(|a: String| a@),
        }
    }
}

#[verifier::ext_equal]
pub ghost struct EventModel {
    pub user: Seq<char>,
    pub txid: Seq<char>,
    pub prev_txid: Option<Seq<char>>,
    pub matched: Seq<Seq<char>>,
}

impl View for MatchedEvent {
    type V = EventModel;

    open spec fn view(&self) -> EventModel {
        EventModel {
            user: self.nostr_pubkey@,
            txid: self.txid@,
            prev_txid: match self.prev_txid {
                Some(p) => Some(p@),
                None => None,
            },
            matched: self.record@.map_values(|a: String| a@),
        }
    }
}

#[verifier::ext_equal]
pub ghost struct ResolvedModel {
    pub prev_txid: Seq<char>,
    pub sources: Seq<Seq<char>>,
}

impl View for InputTrans {
    type V = ResolvedModel;

    open spec fn view(&self) -> ResolvedModel {
        ResolvedModel {
            prev_txid: self.txid@,
            sources: self.output_address@.map_values(|a: String| a@),
        }
    }
}

pub open spec fn strs_view(v: Seq<String>) -> Seq<Seq<char>> {
    v.map_values(|s: String| s@)
}

/// The watched addresses that occur in the pool, in watchlist order,
/// duplicates kept.
pub open spec fn inter(watch: Seq<Seq<char>>, pool: Seq<Seq<char>>) -> Seq<Seq<char>> {
    watch.filter(|a: Seq<char>| pool.contains(a))
}

/// The input-side events of one user, one per resolved input whose source
/// set intersects the watched addresses, in input order.
pub open spec fn input_events_for(
    user: Seq<char>,
    watch: Seq<Seq<char>>,
    txid: Seq<char>,
    ins: Seq<ResolvedModel>,
) -> Seq<EventModel>
    decreases ins.len(),
{
    if ins.len() == 0 {
        Seq::empty()
    } else {
        (if inter(watch, ins[0].sources).len() > 0 {
            seq![
                EventModel {
                    user: user,
                    txid: txid,
                    prev_txid: Some(ins[0].prev_txid),
                    matched: inter(watch, ins[0].sources),
                },
            ]
        } else {
            Seq::empty()
        }) + input_events_for(user, watch, txid, ins.drop_first())
    }
}

/// All events of one user: the output event first, then the input events.
pub open spec fn user_events(
    u: UserWatchModel,
    txid: Seq<char>,
    outs: Seq<Seq<char>>,
    ins: Seq<ResolvedModel>,
) -> Seq<EventModel> {
    (if inter(u.addresses, outs).len() > 0 {
        seq![
            EventModel {
                user: u.user,
                txid: txid,
                prev_txid: None,
                matched: inter(u.addresses, outs),
            },
        ]
    } else {
        Seq::empty()
    }) + input_events_for(u.user, u.addresses, txid, ins)
}

/// Every event of one pass: users in snapshot order, each user's events in
/// order. A user with empty intersections contributes nothing.
pub open spec fn match_spec(
    watch: Seq<UserWatchModel>,
    txid: Seq<char>,
    outs: Seq<Seq<char>>,
    ins: Seq<ResolvedModel>,
) -> Seq<EventModel>
    decreases watch.len(),
{
    if watch.len() == 0 {
        Seq::empty()
    } else {
        user_events(watch[0], txid, outs, ins) + match_spec(watch.drop_first(), txid, outs, ins)
    }
}

pub proof fn lemma_input_events_snoc(
    user: Seq<char>,
    watch: Seq<Seq<char>>,
    txid: Seq<char>,
    ins: Seq<ResolvedModel>,
    x: ResolvedModel,
)
    ensures
        input_events_for(user, watch, txid, ins.push(x)) == input_events_for(
            user,
            watch,
            txid,
            ins,
        ) + (if inter(watch, x.sources).len() > 0 {
            seq![
                EventModel {
                    user: user,
                    txid: txid,
                    prev_txid: Some(x.prev_txid),
                    matched: inter(watch, x.sources),
                },
            ]
        } else {
            Seq::<EventModel>::empty()
        }),
    decreases ins.len(),
{
    let tail = (if inter(watch, x.sources).len() > 0 {
        seq![
            EventModel {
                user: user,
                txid: txid,
                prev_txid: Some(x.prev_txid),
                matched: inter(watch, x.sources),
            },
        ]
    } else {
        Seq::<EventModel>::empty()
    });
    if ins.len() == 0 {
        assert(ins.push(x)[0] == x);
        assert(ins.push(x).drop_first() =~= Seq::<ResolvedModel>::empty());
        assert(input_events_for(user, watch, txid, Seq::<ResolvedModel>::empty())
            == Seq::<EventModel>::empty());
        assert(input_events_for(user, watch, txid, ins.push(x)) =~= Seq::empty() + tail);
        assert(Seq::empty() + tail =~= input_events_for(user, watch, txid, ins) + tail);
    } else {
        assert(ins.push(x)[0] == ins[0]);
        assert(ins.push(x).drop_first() =~= ins.drop_first().push(x));
        lemma_input_events_snoc(user, watch, txid, ins.drop_first(), x);
        let head = (if inter(watch, ins[0].sources).len() > 0 {
            seq![
                EventModel {
                    user: user,
                    txid: txid,
                    prev_txid: Some(ins[0].prev_txid),
                    matched: inter(watch, ins[0].sources),
                },
            ]
        } else {
            Seq::<EventModel>::empty()
        });
        assert(head + (input_events_for(user, watch, txid, ins.drop_first()) + tail) =~= (head
            + input_events_for(user, watch, txid, ins.drop_first())) + tail);
    }
}

pub proof fn lemma_match_spec_snoc(
    watch: Seq<UserWatchModel>,
    txid: Seq<char>,
    outs: Seq<Seq<char>>,
    ins: Seq<ResolvedModel>,
    u: UserWatchModel,
)
    ensures
        match_spec(watch.push(u), txid, outs, ins) == match_spec(watch, txid, outs, ins)
            + user_events(u, txid, outs, ins),
    decreases watch.len(),
{
    if watch.len() == 0 {
        assert(watch.push(u)[0] == u);
        assert(watch.push(u).drop_first() =~= Seq::<UserWatchModel>::empty());
        assert(match_spec(Seq::<UserWatchModel>::empty(), txid, outs, ins)
            == Seq::<EventModel>::empty());
        assert(match_spec(watch.push(u), txid, outs, ins) =~= user_events(u, txid, outs, ins)
            + Seq::empty());
        assert(user_events(u, txid, outs, ins) + Seq::empty() =~= Seq::empty() + user_events(
            u,
            txid,
            outs,
            ins,
        ));
    } else {
        assert(watch.push(u)[0] == watch[0]);
        assert(watch.push(u).drop_first() =~= watch.drop_first().push(u));
        lemma_match_spec_snoc(watch.drop_first(), txid, outs, ins, u);
        let head = user_events(watch[0], txid, outs, ins);
        assert(head + (match_spec(watch.drop_first(), txid, outs, ins) + user_events(
            u,
            txid,
            outs,
            ins,
        )) =~= (head + match_spec(watch.drop_first(), txid, outs, ins)) + user_events(
            u,
            txid,
            outs,
            ins,
        ));
    }
}

fn contains_string(v: &Vec<String>, x: &String) -> (r: bool)
    ensures
        r == strs_view(v@).contains(x@),
{
    let mut i: usize = 0;
    while i < v.len()
        invariant
            i <= v@.len(),
            forall|j: int| 0 <= j < i ==> strs_view(v@)[j] != x@,
        decreases v@.len() - i,
    {
        if v[i] == *x {
            assert(strs_view(v@)[i as int] == x@);
            return true;
        }
        i = i + 1;
    }
    assert(!strs_view(v@).contains(x@));
    false
}

/// The watched addresses that occur in the pool, in watchlist order.
fn intersect(watch: &Vec<String>, pool: &Vec<String>) -> (r: Vec<String>)
    ensures
        strs_view(r@) == inter(strs_view(watch@), strs_view(pool@)),
{
    let ghost pred = |a: Seq<char>| strs_view(pool@).contains(a);
    let mut r: Vec<String> = Vec::new();
    let mut i: usize = 0;
    while i < watch.len()
        invariant
            i <= watch@.len(),
            strs_view(r@) == strs_view(watch@).take(i as int).filter(pred),
            pred == (|a: Seq<char>| strs_view(pool@).contains(a)),
        decreases watch@.len() - i,
    {
        let ghost prefix = strs_view(watch@).take(i as int);
        proof {
            prefix.lemma_filter_push(strs_view(watch@)[i as int], pred);
            assert(strs_view(watch@).take(i as int + 1) =~= prefix.push(
                strs_view(watch@)[i as int],
            ));
        }
        if contains_string(pool, &watch[i]) {
            let ghost before = r@;
            r.push(watch[i].clone());
            proof {
                assert(strs_view(r@) =~= strs_view(before).push(strs_view(watch@)[i as int]));
            }
        }
        i = i + 1;
    }
    proof {
        assert(strs_view(watch@).take(watch@.len() as int) =~= strs_view(watch@));
    }
    r
}

/// Cross-references one transaction against the watchlist snapshot and
/// returns every match event of this pass, in the fixed order.
pub fn find_address_match(
    txid: &String,
    outputs: &Vec<String>,
    inputs: &Vec<InputTrans>,
    watchlist: &Vec<UserWatch>,
) -> (r: Vec<MatchedEvent>)
    ensures
        r@.map_values(|e: MatchedEvent| e@) == match_spec(
            watchlist@.map_values(|u: UserWatch| u@),
            txid@,
            strs_view(outputs@),
            inputs@.map_values(|i: InputTrans| i@),
        ),
{
    let ghost watch_m = watchlist@.map_values(|u: UserWatch| u@);
    let ghost outs_m = strs_view(outputs@);
    let ghost ins_m = inputs@.map_values(|i: InputTrans| i@);
    let mut events: Vec<MatchedEvent> = Vec::new();
    let mut u: usize = 0;
    while u < watchlist.len()
        invariant
            u <= watchlist@.len(),
            watch_m == watchlist@.map_values(|w: UserWatch| w@),
            outs_m == strs_view(outputs@),
            ins_m == inputs@.map_values(|i: InputTrans| i@),
            events@.map_values(|e: MatchedEvent| e@) == match_spec(
                watch_m.take(u as int),
                txid@,
                outs_m,
                ins_m,
            ),
        decreases watchlist@.len() - u,
    {
        let ghost watch_prefix = watch_m.take(u as int);
        let ghost um = watch_m[u as int];
        let ghost events_before_user = events@.map_values(|e: MatchedEvent| e@);
        let uw = &watchlist[u];
        let m_out = intersect(&uw.addresses, outputs);
        if m_out.len() > 0 {
            let ghost before = events@.map_values(|e: MatchedEvent| e@);
            events.push(
                MatchedEvent {
                    nostr_pubkey: uw.nostr_pubkey.clone(),
                    txid: txid.clone(),
                    prev_txid: None,
                    record: m_out,
                },
            );
            proof {
                assert(events@.map_values(|e: MatchedEvent| e@) =~= before.push(
                    EventModel {
                        user: um.user,
                        txid: txid@,
                        prev_txid: None,
                        matched: inter(um.addresses, outs_m),
                    },
                ));
            }
        }
        let ghost out_part = (if inter(um.addresses, outs_m).len() > 0 {
            seq![
                EventModel {
                    user: um.user,
                    txid: txid@,
                    prev_txid: None,
                    matched: inter(um.addresses, outs_m),
                },
            ]
        } else {
            Seq::<EventModel>::empty()
        });
        proof {
            assert(events@.map_values(|e: MatchedEvent| e@) =~= events_before_user + out_part);
        }
        let mut j: usize = 0;
        while j < inputs.len()
            invariant
                j <= inputs@.len(),
                u < watchlist@.len(),
                watch_m == watchlist@.map_values(|w: UserWatch| w@),
                outs_m == strs_view(outputs@),
                ins_m == inputs@.map_values(|i: InputTrans| i@),
                um == watch_m[u as int],
                events_before_user == match_spec(watch_m.take(u as int), txid@, outs_m, ins_m),
                out_part == (if inter(um.addresses, outs_m).len() > 0 {
                    seq![
                        EventModel {
                            user: um.user,
                            txid: txid@,
                            prev_txid: None,
                            matched: inter(um.addresses, outs_m),
                        },
                    ]
                } else {
                    Seq::<EventModel>::empty()
                }),
                events@.map_values(|e: MatchedEvent| e@) == events_before_user + out_part
                    + input_events_for(um.user, um.addresses, txid@, ins_m.take(j as int)),
            decreases inputs@.len() - j,
        {
            let ghost ins_prefix = ins_m.take(j as int);
            let ghost xm = ins_m[j as int];
            proof {
                lemma_input_events_snoc(um.user, um.addresses, txid@, ins_prefix, xm);
                assert(ins_m.take(j as int + 1) =~= ins_prefix.push(xm));
            }
            let inp = &inputs[j];
            let uw2 = &watchlist[u];
            let m_in = intersect(&uw2.addresses, &inp.output_address);
            if m_in.len() > 0 {
                let ghost before = events@.map_values(|e: MatchedEvent| e@);
                events.push(
                    MatchedEvent {
                        nostr_pubkey: uw2.nostr_pubkey.clone(),
                        txid: txid.clone(),
                        prev_txid: Some(inp.txid.clone()),
                        record: m_in,
                    },
                );
                proof {
                    assert(events@.map_values(|e: MatchedEvent| e@) =~= before.push(
                        EventModel {
                            user: um.user,
                            txid: txid@,
                            prev_txid: Some(xm.prev_txid),
                            matched: inter(um.addresses, xm.sources),
                        },
                    ));
                    assert(events@.map_values(|e: MatchedEvent| e@) =~= events_before_user
                        + out_part + input_events_for(
                        um.user,
                        um.addresses,
                        txid@,
                        ins_m.take(j as int + 1),
                    ));
                }
            } else {
                proof {
                    assert(input_events_for(um.user, um.addresses, txid@, ins_m.take(j as int + 1))
                        =~= input_events_for(um.user, um.addresses, txid@, ins_prefix));
                }
            }
            j = j + 1;
        }
        proof {
            assert(ins_m.take(inputs@.len() as int) =~= ins_m);
            assert(events@.map_values(|e: MatchedEvent| e@) =~= events_before_user + user_events(
                um,
                txid@,
                outs_m,
                ins_m,
            ));
            lemma_match_spec_snoc(watch_prefix, txid@, outs_m, ins_m, um);
            assert(watch_m.take(u as int + 1) =~= watch_prefix.push(um));
        }
        u = u + 1;
    }
    proof {
        assert(watch_m.take(watchlist@.len() as int) =~= watch_m);
    }
    events
}

/// The output-address list of a transaction: the address of each recognized
/// spending condition, in output order; unrecognized scripts contribute
/// nothing. At most one address comes from one output.
pub open spec fn out_addrs_spec(outs: Seq<OutputModel>) -> Seq<Seq<char>>
    decreases outs.len(),
{
    if outs.len() == 0 {
        Seq::empty()
    } else {
        (match addr_of_script(outs[0].script_pubkey) {
            Some(c) => seq![c],
            None => Seq::empty(),
        }) + out_addrs_spec(outs.drop_first())
    }
}

pub proof fn lemma_out_addrs_snoc(outs: Seq<OutputModel>, o: OutputModel)
    ensures
        out_addrs_spec(outs.push(o)) == out_addrs_spec(outs) + (match addr_of_script(
            o.script_pubkey,
        ) {
            Some(c) => seq![c],
            None => Seq::<Seq<char>>::empty(),
        }),
    decreases outs.len(),
{
    let tail = (match addr_of_script(o.script_pubkey) {
        Some(c) => seq![c],
        None => Seq::<Seq<char>>::empty(),
    });
    if outs.len() == 0 {
        assert(outs.push(o)[0] == o);
        assert(outs.push(o).drop_first() =~= Seq::<OutputModel>::empty());
        assert(out_addrs_spec(Seq::<OutputModel>::empty()) == Seq::<Seq<char>>::empty());
        assert(out_addrs_spec(outs.push(o)) =~= Seq::empty() + tail);
        assert(Seq::empty() + tail =~= out_addrs_spec(outs) + tail);
    } else {
        assert(outs.push(o)[0] == outs[0]);
        assert(outs.push(o).drop_first() =~= outs.drop_first().push(o));
        lemma_out_addrs_snoc(outs.drop_first(), o);
        let head = (match addr_of_script(outs[0].script_pubkey) {
            Some(c) => seq![c],
            None => Seq::<Seq<char>>::empty(),
        });
        assert(head + (out_addrs_spec(outs.drop_first()) + tail) =~= (head + out_addrs_spec(
            outs.drop_first(),
        )) + tail);
    }
}

/// At most one address per output; never more.
pub proof fn lemma_out_addrs_len(outs: Seq<OutputModel>)
    ensures
        out_addrs_spec(outs).len() <= outs.len(),
    decreases outs.len(),
{
    if outs.len() > 0 {
        lemma_out_addrs_len(outs.drop_first());
    }
}

/// The address codec pass over a transaction's outputs: decodes every
/// spending condition, drops the unrecognized ones.
pub fn process_outputs(t: &Transaction) -> (r: Vec<String>)
    ensures
        strs_view(r@) == out_addrs_spec(t@.outputs),
        r@.len() <= t.outputs@.len(),
{
    let mut r: Vec<String> = Vec::new();
    let mut i: usize = 0;
    while i < t.outputs.len()
        invariant
            i <= t.outputs@.len(),
            strs_view(r@) == out_addrs_spec(t@.outputs.take(i as int)),
            r@.len() <= i,
        decreases t.outputs@.len() - i,
    {
        let ghost prefix = t@.outputs.take(i as int);
        proof {
            lemma_out_addrs_snoc(prefix, t@.outputs[i as int]);
            assert(t@.outputs.take(i as int + 1) =~= prefix.push(t@.outputs[i as int]));
        }
        match crate::script::script_address(&t.outputs[i].script_pubkey) {
            Some(a) => {
                let ghost before = r@;
                r.push(a);
                proof {
                    assert(strs_view(r@) =~= strs_view(before) + seq![
                        addr_of_script(t@.outputs[i as int].script_pubkey).unwrap(),
                    ]);
                }
            },
            None => {
                proof {
                    assert(out_addrs_spec(t@.outputs.take(i as int + 1)) =~= out_addrs_spec(
                        prefix,
                    ) + Seq::<Seq<char>>::empty());
                    assert(out_addrs_spec(prefix) + Seq::<Seq<char>>::empty() =~= out_addrs_spec(
                        prefix,
                    ));
                }
            },
        }
        i = i + 1;
    }
    proof {
        assert(t@.outputs.take(t.outputs@.len() as int) =~= t@.outputs);
    }
    r
}

pub proof fn lemma_contains_concat_left<T>(a: Seq<T>, b: Seq<T>, x: T)
    requires
        a.contains(x),
    ensures
        (a + b).contains(x),
{
    let i = choose|i: int| 0 <= i < a.len() && a[i] == x;
    assert((a + b)[i] == x);
}

pub proof fn lemma_contains_concat_right<T>(a: Seq<T>, b: Seq<T>, x: T)
    requires
        b.contains(x),
    ensures
        (a + b).contains(x),
{
    let i = choose|i: int| 0 <= i < b.len() && b[i] == x;
    assert((a + b)[a.len() + i] == x);
}

pub proof fn lemma_concat_contains_split<T>(a: Seq<T>, b: Seq<T>, x: T)
    requires
        (a + b).contains(x),
    ensures
        a.contains(x) || b.contains(x),
{
    let i = choose|i: int| 0 <= i < (a + b).len() && (a + b)[i] == x;
    if i < a.len() {
        assert(a[i] == x);
    } else {
        assert(b[i - a.len()] == x);
    }
}

pub proof fn lemma_filter_singleton<T>(a: T, p: spec_fn(T) -> bool)
    ensures
        seq![a].filter(p) == if p(a) {
            seq![a]
        } else {
            Seq::<T>::empty()
        },
{
    let s = seq![a];
    let e = Seq::<T>::empty();
    e.lemma_filter_len(p);
    assert(e.filter(p) =~= e);
    e.lemma_filter_push(a, p);
    assert(e.push(a) =~= s);
    if p(a) {
        assert(e.filter(p).push(a) =~= seq![a]);
    }
}

/// A resolved input none of whose source addresses is watched by the user
/// contributes no event for them; a failed resolution is not in the list at
/// all. With no intersecting input, the user has no input-side events.
pub proof fn lemma_no_input_events(
    user: Seq<char>,
    watch: Seq<Seq<char>>,
    txid: Seq<char>,
    ins: Seq<ResolvedModel>,
)
    requires
        forall|j: int| 0 <= j < ins.len() ==> inter(watch, (#[trigger] ins[j]).sources).len() == 0,
    ensures
        input_events_for(user, watch, txid, ins) == Seq::<EventModel>::empty(),
    decreases ins.len(),
{
    if ins.len() > 0 {
        assert(forall|j: int|
            0 <= j < ins.drop_first().len() ==> (#[trigger] ins.drop_first()[j])
                == ins[j + 1]);
        lemma_no_input_events(user, watch, txid, ins.drop_first());
        assert(input_events_for(user, watch, txid, ins) =~= Seq::<EventModel>::empty()
            + Seq::<EventModel>::empty());
        assert(Seq::<EventModel>::empty() + Seq::<EventModel>::empty()
            =~= Seq::<EventModel>::empty());
    }
}

/// A watchlist of exactly one user watching exactly one address that occurs
/// among the transaction's output addresses, with no resolved input whose
/// sources hold that address, yields exactly one event: that user, that
/// transaction, no provenance, that one address - and none for anyone else.
pub proof fn lemma_single_watcher_single_event(
    u: Seq<char>,
    a: Seq<char>,
    txid: Seq<char>,
    outs: Seq<Seq<char>>,
    ins: Seq<ResolvedModel>,
)
    requires
        outs.contains(a),
        forall|j: int| 0 <= j < ins.len() ==> !(#[trigger] ins[j]).sources.contains(a),
    ensures
        match_spec(
            seq![UserWatchModel { user: u, addresses: seq![a] }],
            txid,
            outs,
            ins,
        ) == seq![EventModel { user: u, txid: txid, prev_txid: None, matched: seq![a] }],
{
    let w = UserWatchModel { user: u, addresses: seq![a] };
    let ws = seq![w];
    lemma_filter_singleton(a, |x: Seq<char>| outs.contains(x));
    assert(inter(seq![a], outs) == seq![a]);
    assert forall|j: int| 0 <= j < ins.len() implies inter(
        seq![a],
        (#[trigger] ins[j]).sources,
    ).len() == 0 by {
        lemma_filter_singleton(a, |x: Seq<char>| ins[j].sources.contains(x));
    }
    lemma_no_input_events(u, seq![a], txid, ins);
    let ev = EventModel { user: u, txid: txid, prev_txid: None, matched: seq![a] };
    assert(user_events(w, txid, outs, ins) =~= seq![ev] + Seq::empty());
    assert(ws.drop_first() =~= Seq::<UserWatchModel>::empty());
    assert(match_spec(Seq::<UserWatchModel>::empty(), txid, outs, ins)
        == Seq::<EventModel>::empty());
    assert(match_spec(ws, txid, outs, ins) =~= seq![ev]);
}

/// Two distinct users each watching the same address that occurs among the
/// outputs yield two independent events, one per user, in snapshot order.
pub proof fn lemma_two_watchers_two_events(
    u1: Seq<char>,
    u2: Seq<char>,
    a: Seq<char>,
    txid: Seq<char>,
    outs: Seq<Seq<char>>,
)
    requires
        outs.contains(a),
    ensures
        match_spec(
            seq![
                UserWatchModel { user: u1, addresses: seq![a] },
                UserWatchModel { user: u2, addresses: seq![a] },
            ],
            txid,
            outs,
            Seq::empty(),
        ) == seq![
            EventModel { user: u1, txid: txid, prev_txid: None, matched: seq![a] },
            EventModel { user: u2, txid: txid, prev_txid: None, matched: seq![a] },
        ],
{
    let w1 = UserWatchModel { user: u1, addresses: seq![a] };
    let w2 = UserWatchModel { user: u2, addresses: seq![a] };
    let ws = seq![w1, w2];
    lemma_filter_singleton(a, |x: Seq<char>| outs.contains(x));
    assert(inter(seq![a], outs) == seq![a]);
    let ev1 = EventModel { user: u1, txid: txid, prev_txid: None, matched: seq![a] };
    let ev2 = EventModel { user: u2, txid: txid, prev_txid: None, matched: seq![a] };
    assert(input_events_for(u1, seq![a], txid, Seq::empty()) == Seq::<EventModel>::empty());
    assert(input_events_for(u2, seq![a], txid, Seq::empty()) == Seq::<EventModel>::empty());
    assert(user_events(w1, txid, outs, Seq::empty()) =~= seq![ev1] + Seq::empty());
    assert(user_events(w2, txid, outs, Seq::empty()) =~= seq![ev2] + Seq::empty());
    assert(ws.drop_first() =~= seq![w2]);
    assert(seq![w2].drop_first() =~= Seq::<UserWatchModel>::empty());
    assert(match_spec(Seq::<UserWatchModel>::empty(), txid, outs, Seq::empty())
        == Seq::<EventModel>::empty());
    assert(match_spec(seq![w2], txid, outs, Seq::empty()) =~= seq![ev2]);
    assert(match_spec(ws, txid, outs, Seq::empty()) =~= seq![ev1, ev2]);
}

pub proof fn lemma_input_events_contains(
    user: Seq<char>,
    watch: Seq<Seq<char>>,
    txid: Seq<char>,
    ins: Seq<ResolvedModel>,
    j: int,
)
    requires
        0 <= j < ins.len(),
        inter(watch, ins[j].sources).len() > 0,
    ensures
        input_events_for(user, watch, txid, ins).contains(
            EventModel {
                user: user,
                txid: txid,
                prev_txid: Some(ins[j].prev_txid),
                matched: inter(watch, ins[j].sources),
            },
        ),
    decreases j,
{
    let ev = EventModel {
        user: user,
        txid: txid,
        prev_txid: Some(ins[j].prev_txid),
        matched: inter(watch, ins[j].sources),
    };
    let head = (if inter(watch, ins[0].sources).len() > 0 {
        seq![
            EventModel {
                user: user,
                txid: txid,
                prev_txid: Some(ins[0].prev_txid),
                matched: inter(watch, ins[0].sources),
            },
        ]
    } else {
        Seq::<EventModel>::empty()
    });
    if j == 0 {
        assert(head == seq![ev]);
        assert(head[0] == ev);
        assert(head.contains(ev));
        lemma_contains_concat_left(head, input_events_for(user, watch, txid, ins.drop_first()), ev);
    } else {
        assert(ins.drop_first()[j - 1] == ins[j]);
        lemma_input_events_contains(user, watch, txid, ins.drop_first(), j - 1);
        lemma_contains_concat_right(
            head,
            input_events_for(user, watch, txid, ins.drop_first()),
            ev,
        );
    }
}

/// A watched address among the source addresses of a resolved input yields
/// an input-side event for that user carrying that input's previous
/// transaction id.
pub proof fn lemma_input_match_event(
    watch: Seq<UserWatchModel>,
    txid: Seq<char>,
    outs: Seq<Seq<char>>,
    ins: Seq<ResolvedModel>,
    ui: int,
    j: int,
    a: Seq<char>,
)
    requires
        0 <= ui < watch.len(),
        0 <= j < ins.len(),
        watch[ui].addresses.contains(a),
        ins[j].sources.contains(a),
    ensures
        match_spec(watch, txid, outs, ins).contains(
            EventModel {
                user: watch[ui].user,
                txid: txid,
                prev_txid: Some(ins[j].prev_txid),
                matched: inter(watch[ui].addresses, ins[j].sources),
            },
        ),
        inter(watch[ui].addresses, ins[j].sources).contains(a),
    decreases ui,
{
    let wa = watch[ui].addresses;
    let pred = |x: Seq<char>| ins[j].sources.contains(x);
    let k = choose|k: int| 0 <= k < wa.len() && wa[k] == a;
    Seq::lemma_filter_contains(wa, pred, k);
    assert(inter(wa, ins[j].sources).contains(a));
    let ev = EventModel {
        user: watch[ui].user,
        txid: txid,
        prev_txid: Some(ins[j].prev_txid),
        matched: inter(wa, ins[j].sources),
    };
    if ui == 0 {
        lemma_input_events_contains(watch[0].user, watch[0].addresses, txid, ins, j);
        lemma_contains_concat_right(
            (if inter(watch[0].addresses, outs).len() > 0 {
                seq![
                    EventModel {
                        user: watch[0].user,
                        txid: txid,
                        prev_txid: None,
                        matched: inter(watch[0].addresses, outs),
                    },
                ]
            } else {
                Seq::<EventModel>::empty()
            }),
            input_events_for(watch[0].user, watch[0].addresses, txid, ins),
            ev,
        );
        lemma_contains_concat_left(
            user_events(watch[0], txid, outs, ins),
            match_spec(watch.drop_first(), txid, outs, ins),
            ev,
        );
    } else {
        assert(watch.drop_first()[ui - 1] == watch[ui]);
        lemma_input_match_event(watch.drop_first(), txid, outs, ins, ui - 1, j, a);
        lemma_contains_concat_right(
            user_events(watch[0], txid, outs, ins),
            match_spec(watch.drop_first(), txid, outs, ins),
            ev,
        );
    }
}

pub proof fn lemma_input_events_filter_none(
    user: Seq<char>,
    watch: Seq<Seq<char>>,
    txid: Seq<char>,
    ins: Seq<ResolvedModel>,
)
    ensures
        input_events_for(user, watch, txid, ins).filter(|e: EventModel| e.prev_txid is None)
            == Seq::<EventModel>::empty(),
    decreases ins.len(),
{
    let p = |e: EventModel| e.prev_txid is None;
    if ins.len() == 0 {
        assert(Seq::<EventModel>::empty().filter(p) == Seq::<EventModel>::empty());
    } else {
        let head = (if inter(watch, ins[0].sources).len() > 0 {
            seq![
                EventModel {
                    user: user,
                    txid: txid,
                    prev_txid: Some(ins[0].prev_txid),
                    matched: inter(watch, ins[0].sources),
                },
            ]
        } else {
            Seq::<EventModel>::empty()
        });
        let rest = input_events_for(user, watch, txid, ins.drop_first());
        Seq::filter_distributes_over_add(head, rest, p);
        lemma_input_events_filter_none(user, watch, txid, ins.drop_first());
        if inter(watch, ins[0].sources).len() > 0 {
            lemma_filter_singleton(
                EventModel {
                    user: user,
                    txid: txid,
                    prev_txid: Some(ins[0].prev_txid),
                    matched: inter(watch, ins[0].sources),
                },
                p,
            );
        } else {
            assert(Seq::<EventModel>::empty().filter(p) == Seq::<EventModel>::empty());
        }
        assert(input_events_for(user, watch, txid, ins).filter(p)
            =~= Seq::<EventModel>::empty());
    }
}

/// The output-side events do not depend on the resolved-input list: keeping
/// only the events without provenance gives exactly the events of a pass
/// with no resolved inputs. A failed resolution, being absent from the
/// list, leaves output-side matching untouched.
pub proof fn lemma_output_side_independent(
    watch: Seq<UserWatchModel>,
    txid: Seq<char>,
    outs: Seq<Seq<char>>,
    ins: Seq<ResolvedModel>,
)
    ensures
        match_spec(watch, txid, outs, ins).filter(|e: EventModel| e.prev_txid is None)
            == match_spec(watch, txid, outs, Seq::empty()),
    decreases watch.len(),
{
    let p = |e: EventModel| e.prev_txid is None;
    if watch.len() == 0 {
        assert(Seq::<EventModel>::empty().filter(p) == Seq::<EventModel>::empty());
    } else {
        let w0 = watch[0];
        let out_part = (if inter(w0.addresses, outs).len() > 0 {
            seq![
                EventModel {
                    user: w0.user,
                    txid: txid,
                    prev_txid: None,
                    matched: inter(w0.addresses, outs),
                },
            ]
        } else {
            Seq::<EventModel>::empty()
        });
        let in_part = input_events_for(w0.user, w0.addresses, txid, ins);
        let rest = match_spec(watch.drop_first(), txid, outs, ins);
        Seq::filter_distributes_over_add(user_events(w0, txid, outs, ins), rest, p);
        Seq::filter_distributes_over_add(out_part, in_part, p);
        lemma_input_events_filter_none(w0.user, w0.addresses, txid, ins);
        lemma_output_side_independent(watch.drop_first(), txid, outs, ins);
        if inter(w0.addresses, outs).len() > 0 {
            lemma_filter_singleton(
                EventModel {
                    user: w0.user,
                    txid: txid,
                    prev_txid: None,
                    matched: inter(w0.addresses, outs),
                },
                p,
            );
        } else {
            assert(Seq::<EventModel>::empty().filter(p) == Seq::<EventModel>::empty());
        }
        assert(input_events_for(w0.user, w0.addresses, txid, Seq::empty())
            == Seq::<EventModel>::empty());
        assert(user_events(w0, txid, outs, Seq::empty()) =~= out_part);
        assert(match_spec(watch, txid, outs, ins).filter(p) =~= out_part.filter(p)
            + match_spec(watch.drop_first(), txid, outs, Seq::empty()));
        assert(out_part.filter(p) =~= out_part);
        assert(match_spec(watch, txid, outs, Seq::empty()) =~= user_events(
            w0,
            txid,
            outs,
            Seq::empty(),
        ) + match_spec(watch.drop_first(), txid, outs, Seq::empty()));
    }
}

/// Every event that carries a provenance names the previous transaction id
/// of one of the resolved inputs: an input that is not in the list cannot
/// be named by any event.
pub proof fn lemma_input_event_names_resolved(
    watch: Seq<UserWatchModel>,
    txid: Seq<char>,
    outs: Seq<Seq<char>>,
    ins: Seq<ResolvedModel>,
    e: EventModel,
    p: Seq<char>,
)
    requires
        match_spec(watch, txid, outs, ins).contains(e),
        e.prev_txid == Some(p),
    ensures
        exists|j: int| 0 <= j < ins.len() && (#[trigger] ins[j]).prev_txid == p,
    decreases watch.len(),
{
    if watch.len() == 0 {
        assert(false);
    } else {
        let w0 = watch[0];
        lemma_concat_contains_split(
            user_events(w0, txid, outs, ins),
            match_spec(watch.drop_first(), txid, outs, ins),
            e,
        );
        if user_events(w0, txid, outs, ins).contains(e) {
            let out_part = (if inter(w0.addresses, outs).len() > 0 {
                seq![
                    EventModel {
                        user: w0.user,
                        txid: txid,
                        prev_txid: None,
                        matched: inter(w0.addresses, outs),
                    },
                ]
            } else {
                Seq::<EventModel>::empty()
            });
            lemma_concat_contains_split(
                out_part,
                input_events_for(w0.user, w0.addresses, txid, ins),
                e,
            );
            if out_part.contains(e) {
                assert(false);
            } else {
                lemma_input_event_in_list(w0.user, w0.addresses, txid, ins, e, p);
            }
        } else {
            lemma_input_event_names_resolved(watch.drop_first(), txid, outs, ins, e, p);
        }
    }
}

pub proof fn lemma_input_event_in_list(
    user: Seq<char>,
    watch: Seq<Seq<char>>,
    txid: Seq<char>,
    ins: Seq<ResolvedModel>,
    e: EventModel,
    p: Seq<char>,
)
    requires
        input_events_for(user, watch, txid, ins).contains(e),
        e.prev_txid == Some(p),
    ensures
        exists|j: int| 0 <= j < ins.len() && (#[trigger] ins[j]).prev_txid == p,
    decreases ins.len(),
{
    if ins.len() == 0 {
        assert(false);
    } else {
        let head = (if inter(watch, ins[0].sources).len() > 0 {
            seq![
                EventModel {
                    user: user,
                    txid: txid,
                    prev_txid: Some(ins[0].prev_txid),
                    matched: inter(watch, ins[0].sources),
                },
            ]
        } else {
            Seq::<EventModel>::empty()
        });
        lemma_concat_contains_split(
            head,
            input_events_for(user, watch, txid, ins.drop_first()),
            e,
        );
        if head.contains(e) {
            assert(ins[0].prev_txid == p);
        } else {
            lemma_input_event_in_list(user, watch, txid, ins.drop_first(), e, p);
            let j = choose|j: int|
                0 <= j < ins.drop_first().len() && (#[trigger] ins.drop_first()[j]).prev_txid
                    == p;
            assert(ins[j + 1].prev_txid == p);
        }
    }
}

pub proof fn lemma_input_events_len(
    user: Seq<char>,
    watch: Seq<Seq<char>>,
    txid: Seq<char>,
    ins: Seq<ResolvedModel>,
)
    ensures
        input_events_for(user, watch, txid, ins).len() <= ins.len(),
    decreases ins.len(),
{
    if ins.len() > 0 {
        lemma_input_events_len(user, watch, txid, ins.drop_first());
    }
}

/// One transaction with N resolved spending provenances yields at most
/// N + 1 events for any one user: one output-side event and one per
/// resolved input.
pub proof fn lemma_events_per_user_bound(
    u: UserWatchModel,
    txid: Seq<char>,
    outs: Seq<Seq<char>>,
    ins: Seq<ResolvedModel>,
)
    ensures
        user_events(u, txid, outs, ins).len() <= 1 + ins.len(),
{
    lemma_input_events_len(u.user, u.addresses, txid, ins);
}

} // verus!
