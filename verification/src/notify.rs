//! Rendering of the human-readable alert for one match event. The text is
//! pinned exactly; the channel that delivers it lives outside the library.

use vstd::prelude::*;
use vstd::string::StringExecFns;

use crate::matching::EventModel;
use crate::models::MatchedEvent;

verus! {

pub open spec fn quoted(a: Seq<char>) -> Seq<char> {
    seq!['"'] + a + seq!['"']
}

/// The matched addresses as a quoted, comma-separated list, as the stored
/// list prints.
pub open spec fn joined(xs: Seq<Seq<char>>) -> Seq<char>
    decreases xs.len(),
{
    if xs.len() == 0 {
        Seq::empty()
    } else if xs.len() == 1 {
        quoted(xs[0])
    } else {
        quoted(xs[0]) + ", "@ + joined(xs.drop_first())
    }
}

pub proof fn lemma_joined_snoc(xs: Seq<Seq<char>>, x: Seq<char>)
    ensures
        joined(xs.push(x)) == if xs.len() == 0 {
            quoted(x)
        } else {
            joined(xs) + ", "@ + quoted(x)
        },
    decreases xs.len(),
{
    if xs.len() == 0 {
        assert(xs.push(x).len() == 1);
        assert(xs.push(x)[0] == x);
    } else {
        assert(xs.push(x)[0] == xs[0]);
        assert(xs.push(x).drop_first() =~= xs.drop_first().push(x));
        lemma_joined_snoc(xs.drop_first(), x);
        if xs.len() == 1 {
            assert(xs.drop_first().len() == 0);
            assert(joined(xs.push(x)) == quoted(xs[0]) + ", "@ + quoted(x));
            assert(joined(xs) == quoted(xs[0]));
        } else {
            assert(quoted(xs[0]) + ", "@ + (joined(xs.drop_first()) + ", "@ + quoted(x)) =~= (
            quoted(xs[0]) + ", "@ + joined(xs.drop_first())) + ", "@ + quoted(x));
        }
    }
}

/// The exact alert text for one event: the output-side wording without a
/// provenance, the input-side wording with it.
pub open spec fn alert_text(e: EventModel) -> Seq<char> {
    match e.prev_txid {
        None => "Your watch list Address ["@ + joined(e.matched) + "] has been spent in this tx "@
            + e.txid,
        Some(p) => "Your watch list Address ["@ + joined(e.matched)
            + "] has been spent as an input for this tx "@ + e.txid
            + ". The input was previously funded by this tx: "@ + p,
    }
}

fn append_joined(s: &mut String, items: &Vec<String>)
    ensures
        final(s)@ == old(s)@ + joined(items@.map_values(|a: String| a@)),
{
    let ghost all = items@.map_values(|a: String| a@);
    let mut i: usize = 0;
    while i < items.len()
        invariant
            i <= items@.len(),
            all == items@.map_values(|a: String| a@),
            s@ == old(s)@ + joined(all.take(i as int)),
        decreases items@.len() - i,
    {
        proof {
            lemma_joined_snoc(all.take(i as int), all[i as int]);
            assert(all.take(i as int + 1) =~= all.take(i as int).push(all[i as int]));
        }
        if i > 0 {
            s.append(", ");
        }
        s.append("\"");
        s.append(items[i].as_str());
        s.append("\"");
        proof {
            assert(seq!['"'] =~= "\""@) by {
                reveal_strlit("\"");
            }
            if i == 0 {
                assert(joined(all.take(0)) == Seq::<char>::empty());
                assert(s@ =~= old(s)@ + quoted(all[0]));
            } else {
                assert(s@ =~= old(s)@ + (joined(all.take(i as int)) + ", "@ + quoted(
                    all[i as int],
                )));
            }
        }
        i = i + 1;
    }
    proof {
        assert(all.take(items@.len() as int) =~= all);
    }
}

/// Renders the alert for one match event, exactly as `alert_text` states.
pub fn render_alert(e: &MatchedEvent) -> (r: String)
    ensures
        r@ == alert_text(e@),
{
    let mut s = String::new();
    s.append("Your watch list Address [");
    append_joined(&mut s, &e.record);
    match &e.prev_txid {
        None => {
            s.append("] has been spent in this tx ");
            s.append(e.txid.as_str());
        },
        Some(p) => {
            s.append("] has been spent as an input for this tx ");
            s.append(e.txid.as_str());
            s.append(". The input was previously funded by this tx: ");
            s.append(p.as_str());
        },
    }
    s
}

} // verus!
