//! The laws of the two aggregate views, stated over the models that
//! the executable functions' contracts return, and proved once and for
//! all inputs.

use vstd::prelude::*;

use crate::history::{history_model, in_history_window};
use crate::rankings::{
    bucket_model, event_selected, grouped, joined_matches, lemma_order_members,
    lemma_sort_desc_props, product_model, product_order, rankings_model, slot_matches, sort_desc,
};
use crate::types::{lookup, CatalogModel, HistoryPoint, PurchaseEvent};

verus! {

/// The history point an event row yields: its date and count, tagged
/// with its product's catalog category.
pub open spec fn point_of(ev: PurchaseEvent, catalog: Seq<CatalogModel>) -> HistoryPoint
    recommends
        lookup(catalog, ev.product_id) is Some,
{
    HistoryPoint {
        date: ev.date,
        category: lookup(catalog, ev.product_id).unwrap().category,
        count: ev.count,
    }
}

/// Every `/history` entry is dated within the trailing-30-day window
/// ending today, bounds included, and stems from a stored event whose
/// product has a catalog match: events of unknown products never
/// appear.
pub proof fn lemma_history_window(events: Seq<PurchaseEvent>, catalog: Seq<CatalogModel>, today: int)
    ensures
        forall|k: int|
            0 <= k < history_model(events, catalog, today).len() ==> in_history_window(
                (#[trigger] history_model(events, catalog, today)[k]).date,
                today,
            ),
        forall|k: int|
            0 <= k < history_model(events, catalog, today).len() ==> exists|i: int|
                0 <= i < events.len() && lookup(catalog, events[i].product_id) is Some
                    && in_history_window(events[i].date, today) && #[trigger] history_model(
                    events,
                    catalog,
                    today,
                )[k] == point_of(events[i], catalog),
    decreases events.len(),
{
    if events.len() == 0 {
    } else {
        let prior = events.drop_last();
        lemma_history_window(prior, catalog, today);
        let m = history_model(events, catalog, today);
        let mp = history_model(prior, catalog, today);
        assert forall|k: int| 0 <= k < m.len() implies in_history_window(
            (#[trigger] m[k]).date,
            today,
        ) && exists|i: int|
            0 <= i < events.len() && lookup(catalog, events[i].product_id) is Some
                && in_history_window(events[i].date, today) && m[k] == point_of(
                events[i],
                catalog,
            ) by {
            if k < mp.len() {
                assert(m[k] == mp[k]);
                let i = choose|i: int|
                    0 <= i < prior.len() && lookup(catalog, prior[i].product_id) is Some
                        && in_history_window(prior[i].date, today) && mp[k] == point_of(
                        prior[i],
                        catalog,
                    );
                assert(prior[i] == events[i]);
            } else {
                // the last event was kept, and m[k] is its point
                let i = events.len() - 1;
                assert(events.last() == events[i]);
                assert(m[k] == point_of(events[i], catalog));
            }
        }
    }
}

/// `/rankings` always holds exactly five buckets, for category slots
/// 0 to 4 in that order, each at most ten entries long and ordered by
/// total descending.
pub proof fn lemma_rankings_shape(events: Seq<PurchaseEvent>, catalog: Seq<CatalogModel>, cutoff: int)
    ensures
        rankings_model(events, catalog, cutoff).len() == 5,
        forall|c: int|
            0 <= c < 5 ==> (#[trigger] rankings_model(events, catalog, cutoff)[c]).category == c as i16,
        forall|c: int|
            0 <= c < 5 ==> (#[trigger] rankings_model(events, catalog, cutoff)[c]).entries.len()
                <= 10,
        forall|c: int, i: int, j: int|
            0 <= c < 5 && 0 <= i <= j < rankings_model(events, catalog, cutoff)[c].entries.len()
                ==> (#[trigger] rankings_model(events, catalog, cutoff)[c].entries[i]).total
                >= (#[trigger] rankings_model(events, catalog, cutoff)[c].entries[j]).total,
{
    assert forall|c: int| 0 <= c < 5 implies (#[trigger] rankings_model(
        events,
        catalog,
        cutoff,
    )[c]).category == c as i16 && rankings_model(events, catalog, cutoff)[c].entries.len() <= 10
        && (forall|i: int, j: int|
        0 <= i <= j < rankings_model(events, catalog, cutoff)[c].entries.len() ==> rankings_model(
            events,
            catalog,
            cutoff,
        )[c].entries[i].total >= rankings_model(events, catalog, cutoff)[c].entries[j].total) by {
        let slot = c as i16;
        lemma_sort_desc_props(grouped(events, catalog, cutoff, slot));
        let b = bucket_model(events, catalog, cutoff, slot);
        let sorted = sort_desc(grouped(events, catalog, cutoff, slot));
        let top = if sorted.len() <= 10 {
            sorted
        } else {
            sorted.take(10)
        };
        assert(b.entries.len() == top.len());
        assert forall|i: int, j: int| 0 <= i <= j < b.entries.len() implies b.entries[i].total
            >= b.entries[j].total by {
            assert(b.entries[i].total == top[i].total);
            assert(b.entries[j].total == top[j].total);
            assert(top[i].total == sorted[i].total && top[j].total == sorted[j].total);
        }
    }
}

/// A product of one bucket's grouping is in bucket 0's grouping too,
/// with the very same grouped row — name, category and windowed total —
/// so bucket 0's construction covers every per-category bucket, and the
/// per-product sums agree. (The cap at ten entries applies after this
/// construction.)
pub proof fn lemma_all_bucket_covers(
    events: Seq<PurchaseEvent>,
    catalog: Seq<CatalogModel>,
    cutoff: int,
    slot: i16,
    id: i64,
)
    requires
        1 <= slot <= 4,
        product_order(events, catalog, cutoff, slot).contains(id),
    ensures
        product_order(events, catalog, cutoff, 0).contains(id),
        grouped(events, catalog, cutoff, 0).contains(product_model(events, catalog, cutoff, id)),
        grouped(events, catalog, cutoff, slot).contains(
            product_model(events, catalog, cutoff, id),
        ),
{
    lemma_order_subset(events, catalog, cutoff, slot, id);
    lemma_grouped_of_order(events, catalog, cutoff, 0, id);
    lemma_grouped_of_order(events, catalog, cutoff, slot, id);
}

/// Membership in a per-category bucket's product order implies
/// membership in bucket 0's.
pub proof fn lemma_order_subset(
    events: Seq<PurchaseEvent>,
    catalog: Seq<CatalogModel>,
    cutoff: int,
    slot: i16,
    id: i64,
)
    requires
        product_order(events, catalog, cutoff, slot).contains(id),
    ensures
        product_order(events, catalog, cutoff, 0).contains(id),
    decreases events.len(),
{
    if events.len() == 0 {
    } else {
        let prior = events.drop_last();
        let prev_s = product_order(prior, catalog, cutoff, slot);
        let prev_0 = product_order(prior, catalog, cutoff, 0);
        let order_s = product_order(events, catalog, cutoff, slot);
        let order_0 = product_order(events, catalog, cutoff, 0);
        let ev = events.last();
        if prev_s.contains(id) {
            lemma_order_subset(prior, catalog, cutoff, slot, id);
            if order_0 == prev_0 {
            } else {
                let k = choose|k: int| 0 <= k < prev_0.len() && prev_0[k] == id;
                assert(order_0[k] == id);
            }
        } else {
            // id was pushed for `slot`, so the last event selects it,
            // and it selects it for bucket 0 as well
            let k = choose|k: int| 0 <= k < order_s.len() && order_s[k] == id;
            assert(id == ev.product_id);
            assert(event_selected(ev, catalog, cutoff, 0));
            if prev_0.contains(id) {
                let k0 = choose|k0: int| 0 <= k0 < prev_0.len() && prev_0[k0] == id;
                assert(order_0[k0] == id);
            } else {
                assert(order_0 == prev_0.push(id));
                assert(order_0[order_0.len() - 1] == id);
            }
        }
    }
}

/// A product of a bucket's order carries its grouped row into the
/// bucket's grouping.
pub proof fn lemma_grouped_of_order(
    events: Seq<PurchaseEvent>,
    catalog: Seq<CatalogModel>,
    cutoff: int,
    slot: i16,
    id: i64,
)
    requires
        product_order(events, catalog, cutoff, slot).contains(id),
    ensures
        grouped(events, catalog, cutoff, slot).contains(product_model(events, catalog, cutoff, id)),
{
    let order = product_order(events, catalog, cutoff, slot);
    let g = grouped(events, catalog, cutoff, slot);
    let k = choose|k: int| 0 <= k < order.len() && order[k] == id;
    assert(g[k] == product_model(events, catalog, cutoff, id));
}

/// The cap keeps the top: no grouped row left out of a bucket has a
/// larger total than any entry kept, so the bucket holds the top ten
/// products by total.
pub proof fn lemma_cap_keeps_top(
    events: Seq<PurchaseEvent>,
    catalog: Seq<CatalogModel>,
    cutoff: int,
    slot: i16,
)
    ensures
        forall|i: int, j: int|
            0 <= i < bucket_model(events, catalog, cutoff, slot).entries.len() <= j < sort_desc(
                grouped(events, catalog, cutoff, slot),
            ).len() ==> (#[trigger] bucket_model(events, catalog, cutoff, slot).entries[i]).total
                >= (#[trigger] sort_desc(grouped(events, catalog, cutoff, slot))[j]).total,
{
    lemma_sort_desc_props(grouped(events, catalog, cutoff, slot));
    let sorted = sort_desc(grouped(events, catalog, cutoff, slot));
    let b = bucket_model(events, catalog, cutoff, slot);
    assert forall|i: int, j: int| 0 <= i < b.entries.len() <= j < sorted.len() implies (
    #[trigger] b.entries[i]).total >= (#[trigger] sorted[j]).total by {
        assert(b.entries[i].total == sorted[i].total);
    }
}

/// Repeated reads with no intervening writes answer `/history`
/// identically: the view is a function of the store and the day alone.
pub proof fn lemma_history_idempotent(
    events: Seq<PurchaseEvent>,
    catalog: Seq<CatalogModel>,
    today: int,
    first: Seq<HistoryPoint>,
    second: Seq<HistoryPoint>,
)
    requires
        first == history_model(events, catalog, today),
        second == history_model(events, catalog, today),
    ensures
        first == second,
{
}

/// Repeated reads with no intervening writes answer `/rankings`
/// identically: the view is a function of the store and the cutoff
/// alone.
pub proof fn lemma_rankings_idempotent(
    events: Seq<PurchaseEvent>,
    catalog: Seq<CatalogModel>,
    cutoff: int,
    first: Seq<crate::types::BucketModel>,
    second: Seq<crate::types::BucketModel>,
)
    requires
        first == rankings_model(events, catalog, cutoff),
        second == rankings_model(events, catalog, cutoff),
    ensures
        first == second,
{
}

/// A bucket's product order holds a product exactly when some event of
/// that product qualifies for the bucket.
pub proof fn lemma_order_complete(
    events: Seq<PurchaseEvent>,
    catalog: Seq<CatalogModel>,
    cutoff: int,
    slot: i16,
    id: i64,
)
    ensures
        product_order(events, catalog, cutoff, slot).contains(id) <==> exists|i: int|
            0 <= i < events.len() && (#[trigger] events[i]).product_id == id && event_selected(
                events[i],
                catalog,
                cutoff,
                slot,
            ),
    decreases events.len(),
{
    if events.len() == 0 {
    } else {
        let prior = events.drop_last();
        lemma_order_complete(prior, catalog, cutoff, slot, id);
        let prev = product_order(prior, catalog, cutoff, slot);
        let order = product_order(events, catalog, cutoff, slot);
        let ev = events.last();
        assert(forall|i: int| 0 <= i < prior.len() ==> prior[i] == events[i]);
        if order.contains(id) {
            let k = choose|k: int| 0 <= k < order.len() && order[k] == id;
            if k < prev.len() {
                assert(prev.contains(id));
                let i = choose|i: int|
                    0 <= i < prior.len() && (#[trigger] prior[i]).product_id == id
                        && event_selected(prior[i], catalog, cutoff, slot);
                assert(events[i].product_id == id && event_selected(
                    events[i],
                    catalog,
                    cutoff,
                    slot,
                ));
            } else {
                let i = events.len() - 1;
                assert(events[i] == ev);
            }
        }
        if exists|i: int|
            0 <= i < events.len() && (#[trigger] events[i]).product_id == id && event_selected(
                events[i],
                catalog,
                cutoff,
                slot,
            ) {
            let i = choose|i: int|
                0 <= i < events.len() && (#[trigger] events[i]).product_id == id && event_selected(
                    events[i],
                    catalog,
                    cutoff,
                    slot,
                );
            if i < events.len() - 1 {
                assert(prior[i] == events[i]);
                assert(prev.contains(id));
                let k = choose|k: int| 0 <= k < prev.len() && prev[k] == id;
                assert(order[k] == id);
            } else {
                if prev.contains(id) {
                    let k = choose|k: int| 0 <= k < prev.len() && prev[k] == id;
                    assert(order[k] == id);
                } else {
                    assert(order == prev.push(id));
                    assert(order[order.len() - 1] == id);
                }
            }
        }
    }
}

/// An uncategorized product — null category in the catalog — is never
/// grouped into buckets 1 to 4, and is grouped into bucket 0 exactly
/// when one of its events is dated on or after the cutoff.
pub proof fn lemma_uncategorized_rankings(
    events: Seq<PurchaseEvent>,
    catalog: Seq<CatalogModel>,
    cutoff: int,
    slot: i16,
    id: i64,
)
    requires
        lookup(catalog, id) is Some,
        lookup(catalog, id).unwrap().category is None,
        1 <= slot <= 4,
    ensures
        !product_order(events, catalog, cutoff, slot).contains(id),
        product_order(events, catalog, cutoff, 0).contains(id) <==> exists|i: int|
            0 <= i < events.len() && (#[trigger] events[i]).product_id == id && events[i].date
                as int >= cutoff,
{
    lemma_order_members(events, catalog, cutoff, slot);
    assert(!slot_matches(lookup(catalog, id).unwrap().category, slot));
    if product_order(events, catalog, cutoff, slot).contains(id) {
        assert(joined_matches(catalog, id, slot));
        assert(false);
    }
    lemma_order_complete(events, catalog, cutoff, 0, id);
    assert(forall|i: int|
        0 <= i < events.len() && (#[trigger] events[i]).product_id == id ==> (event_selected(
            events[i],
            catalog,
            cutoff,
            0,
        ) <==> events[i].date as int >= cutoff));
}

/// An event of an uncategorized product dated within the window shows
/// up in `/history` with a null category.
pub proof fn lemma_uncategorized_history(
    events: Seq<PurchaseEvent>,
    catalog: Seq<CatalogModel>,
    today: int,
    i: int,
)
    requires
        0 <= i < events.len(),
        lookup(catalog, events[i].product_id) is Some,
        lookup(catalog, events[i].product_id).unwrap().category is None,
        in_history_window(events[i].date, today),
    ensures
        history_model(events, catalog, today).contains(
            HistoryPoint { date: events[i].date, category: None, count: events[i].count },
        ),
{
    lemma_history_contains(events, catalog, today, i);
}

/// Every event of the window whose product joins the catalog yields its
/// point somewhere in the `/history` view.
pub proof fn lemma_history_contains(
    events: Seq<PurchaseEvent>,
    catalog: Seq<CatalogModel>,
    today: int,
    i: int,
)
    requires
        0 <= i < events.len(),
        lookup(catalog, events[i].product_id) is Some,
        in_history_window(events[i].date, today),
    ensures
        history_model(events, catalog, today).contains(point_of(events[i], catalog)),
    decreases events.len(),
{
    let m = history_model(events, catalog, today);
    let prior = events.drop_last();
    let mp = history_model(prior, catalog, today);
    if i == events.len() - 1 {
        assert(events.last() == events[i]);
        assert(m[m.len() - 1] == point_of(events[i], catalog));
    } else {
        assert(prior[i] == events[i]);
        lemma_history_contains(prior, catalog, today, i);
        let k = choose|k: int| 0 <= k < mp.len() && mp[k] == point_of(events[i], catalog);
        assert(m[k] == point_of(events[i], catalog));
    }
}

} // verus!
