//! The history aggregator: a daily purchase-count time series over the
//! trailing 30 days.
//!
//! One output row per stored purchase-event row that falls in the
//! window and joins the catalog; the store's rows are pre-aggregated
//! per (date, product), so no summing happens here. Events whose
//! product has no catalog entry are silently excluded (inner-join
//! semantics), and the store's row order is preserved as-is.

use vstd::prelude::*;

use crate::types::{lookup, lookup_index, CatalogEntry, CatalogModel, HistoryPoint, PurchaseEvent};

verus! {

/// Whether a date (as a day number) falls in the trailing-30-day
/// window ending at `today`, both bounds included.
pub open spec fn in_history_window(date: i32, today: int) -> bool {
    today - 30 <= date as int && date as int <= today
}

/// What `/history` returns: the events of the window that join the
/// catalog, in store order, each tagged with its product's category.
pub open spec fn history_model(
    events: Seq<PurchaseEvent>,
    catalog: Seq<CatalogModel>,
    today: int,
) -> Seq<HistoryPoint>
    decreases events.len(),
{
    if events.len() == 0 {
        Seq::empty()
    } else {
        let rest = history_model(events.drop_last(), catalog, today);
        let ev = events.last();
        match lookup(catalog, ev.product_id) {
            Some(entry) => if in_history_window(ev.date, today) {
                rest.push(HistoryPoint { date: ev.date, category: entry.category, count: ev.count })
            } else {
                rest
            },
            None => rest,
        }
    }
}

/// Computes the trailing-30-day time series: one `HistoryPoint` per
/// event of `[today - 30, today]` whose product is in the catalog, in
/// store order.
pub fn history_points(
    events: &Vec<PurchaseEvent>,
    catalog: &Vec<CatalogEntry>,
    today: i32,
) -> (r: Vec<HistoryPoint>)
    ensures
        r@ == history_model(events@, catalog.deep_view(), today as int),
{
    let mut r: Vec<HistoryPoint> = Vec::new();
    let mut i: usize = 0;
    while i < events.len()
        invariant
            i <= events@.len(),
            r@ == history_model(events@.take(i as int), catalog.deep_view(), today as int),
        decreases events@.len() - i,
    {
        let ev = events[i];
        let in_window = ev.date as i64 >= today as i64 - 30 && ev.date <= today;
        if in_window {
            match lookup_index(catalog, ev.product_id) {
                Some(j) => {
                    r.push(
                        HistoryPoint {
                            date: ev.date,
                            category: catalog[j].category,
                            count: ev.count,
                        },
                    );
                },
                None => {},
            }
        } else {
            proof {
                // the join partner does not matter outside the window
                assert(history_model(events@.take(i as int + 1), catalog.deep_view(), today as int)
                    == history_model(events@.take(i as int), catalog.deep_view(), today as int))
                    by {
                    assert(events@.take(i as int + 1).drop_last() =~= events@.take(i as int));
                };
            }
        }
        proof {
            assert(events@.take(i as int + 1).drop_last() =~= events@.take(i as int));
            assert(events@.take(i as int + 1).last() == events@[i as int]);
        }
        i += 1;
    }
    proof {
        assert(events@.take(events@.len() as int) =~= events@);
    }
    r
}

} // verus!
