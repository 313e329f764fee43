//! The ranking aggregator: for the all-categories bucket and for each
//! of the four catalog categories, the top ten products by units sold
//! over the trailing month.
//!
//! The five buckets share one aggregation shape — join events to the
//! catalog, keep events dated on or after the cutoff, group by product,
//! sum the counts, order by total descending, cap at ten — with an
//! optional category filter; bucket 0 applies no filter and so also
//! covers uncategorized products. Products are grouped in order of
//! their first qualifying event, and the sort is stable, so equal
//! totals keep that order; callers must not rely on the order among
//! equal totals.

use vstd::prelude::*;

use crate::types::{
    lookup, lookup_index, CatalogEntry, CatalogModel, PurchaseEvent, RankingBucket, RankingEntry,
};
use vstd::seq_lib::lemma_multiset_commutative;

verus! {

/// Largest number of events a ranking query accepts: with per-row
/// counts bounded by `i32`, totals of this many rows cannot overflow
/// an `i64`.
pub const MAX_RANKING_EVENTS: usize = 0x8000_0000;

/// Whether a product of category `category` belongs to bucket `slot`:
/// bucket 0 takes every product, buckets 1 to 4 only their own
/// category.
pub open spec fn slot_matches(category: Option<i16>, slot: i16) -> bool {
    slot == 0 || category == Some(slot)
}

/// Whether the event's product joins the catalog with a category that
/// belongs to bucket `slot`.
pub open spec fn joined_matches(catalog: Seq<CatalogModel>, id: i64, slot: i16) -> bool {
    match lookup(catalog, id) {
        Some(e) => slot_matches(e.category, slot),
        None => false,
    }
}

/// Whether an event row enters bucket `slot`'s aggregation: dated on or
/// after the cutoff, and its product joins the catalog with a matching
/// category.
pub open spec fn event_selected(
    ev: PurchaseEvent,
    catalog: Seq<CatalogModel>,
    cutoff: int,
    slot: i16,
) -> bool {
    ev.date as int >= cutoff && joined_matches(catalog, ev.product_id, slot)
}

/// Units of product `id` sold on or after the cutoff: the sum of the
/// counts of its events in the window.
pub open spec fn product_total(events: Seq<PurchaseEvent>, cutoff: int, id: i64) -> int
    decreases events.len(),
{
    if events.len() == 0 {
        0
    } else {
        product_total(events.drop_last(), cutoff, id) + if events.last().product_id == id
            && events.last().date as int >= cutoff {
            events.last().count as int
        } else {
            0
        }
    }
}

/// The products of bucket `slot`, in order of their first qualifying
/// event, each exactly once.
pub open spec fn product_order(
    events: Seq<PurchaseEvent>,
    catalog: Seq<CatalogModel>,
    cutoff: int,
    slot: i16,
) -> Seq<i64>
    decreases events.len(),
{
    if events.len() == 0 {
        Seq::empty()
    } else {
        let prev = product_order(events.drop_last(), catalog, cutoff, slot);
        let ev = events.last();
        if event_selected(ev, catalog, cutoff, slot) && !prev.contains(ev.product_id) {
            prev.push(ev.product_id)
        } else {
            prev
        }
    }
}

/// A grouped row before sorting: one product with its display name,
/// category and windowed total.
pub struct ProductModel {
    pub product_id: i64,
    pub name: Seq<char>,
    pub total: int,
    pub category: Option<i16>,
}

/// The grouped row of product `id`: its catalog name and category, and
/// its total over the window.
pub open spec fn product_model(
    events: Seq<PurchaseEvent>,
    catalog: Seq<CatalogModel>,
    cutoff: int,
    id: i64,
) -> ProductModel {
    match lookup(catalog, id) {
        Some(e) => ProductModel {
            product_id: id,
            name: e.name,
            total: product_total(events, cutoff, id),
            category: e.category,
        },
        None => ProductModel {
            product_id: id,
            name: Seq::empty(),
            total: product_total(events, cutoff, id),
            category: None,
        },
    }
}

/// Bucket `slot`'s grouped rows, one per product, in first-event order.
pub open spec fn grouped(
    events: Seq<PurchaseEvent>,
    catalog: Seq<CatalogModel>,
    cutoff: int,
    slot: i16,
) -> Seq<ProductModel> {
    product_order(events, catalog, cutoff, slot).map_values(
        |id: i64| product_model(events, catalog, cutoff, id),
    )
}

/// Every product of bucket `slot`'s order joins the catalog with a
/// matching category.
pub proof fn lemma_order_members(
    events: Seq<PurchaseEvent>,
    catalog: Seq<CatalogModel>,
    cutoff: int,
    slot: i16,
)
    ensures
        forall|id: i64|
            product_order(events, catalog, cutoff, slot).contains(id) ==> joined_matches(
                catalog,
                id,
                slot,
            ),
    decreases events.len(),
{
    if events.len() == 0 {
    } else {
        lemma_order_members(events.drop_last(), catalog, cutoff, slot);
        let prev = product_order(events.drop_last(), catalog, cutoff, slot);
        let order = product_order(events, catalog, cutoff, slot);
        assert forall|id: i64| order.contains(id) implies joined_matches(catalog, id, slot) by {
            if order != prev {
                let k = choose|k: int| 0 <= k < order.len() && order[k] == id;
                if k < prev.len() {
                    assert(prev.contains(id));
                } else {
                    assert(id == events.last().product_id);
                }
            }
        }
    }
}

/// The total of a product over `events` is at most the number of rows
/// times the largest per-row count.
pub proof fn lemma_total_bound(events: Seq<PurchaseEvent>, cutoff: int, id: i64)
    ensures
        -(events.len() as int) * 0x8000_0000 <= product_total(events, cutoff, id),
        product_total(events, cutoff, id) <= (events.len() as int) * 0x8000_0000,
    decreases events.len(),
{
    if events.len() == 0 {
    } else {
        lemma_total_bound(events.drop_last(), cutoff, id);
        assert((events.len() - 1) * 0x8000_0000 + 0x8000_0000 == events.len()
            * 0x8000_0000) by (nonlinear_arith);
    }
}

/// Sums the counts of product `id`'s events dated on or after the
/// cutoff.
fn total_of_product(events: &Vec<PurchaseEvent>, cutoff: i32, id: i64) -> (t: i64)
    requires
        events@.len() <= MAX_RANKING_EVENTS,
    ensures
        t as int == product_total(events@, cutoff as int, id),
{
    let mut t: i64 = 0;
    let mut i: usize = 0;
    while i < events.len()
        invariant
            i <= events@.len(),
            events@.len() <= MAX_RANKING_EVENTS,
            t as int == product_total(events@.take(i as int), cutoff as int, id),
        decreases events@.len() - i,
    {
        proof {
            assert(events@.take(i as int + 1).drop_last() =~= events@.take(i as int));
            assert(events@.take(i as int + 1).last() == events@[i as int]);
            lemma_total_bound(events@.take(i as int + 1), cutoff as int, id);
            assert((i + 1) * 0x8000_0000 <= 0x8000_0000 * 0x8000_0000) by (nonlinear_arith)
                requires
                    i + 1 <= 0x8000_0000,
            ;
        }
        let ev = events[i];
        if ev.product_id == id && ev.date >= cutoff {
            t = t + ev.count as i64;
        }
        i += 1;
    }
    proof {
        assert(events@.take(events@.len() as int) =~= events@);
    }
    t
}

/// Whether the sequence holds the id; a linear scan.
fn contains_id(ids: &Vec<i64>, id: i64) -> (r: bool)
    ensures
        r == ids@.contains(id),
{
    let mut i: usize = 0;
    while i < ids.len()
        invariant
            i <= ids@.len(),
            forall|k: int| 0 <= k < i ==> ids@[k] != id,
        decreases ids@.len() - i,
    {
        if ids[i] == id {
            return true;
        }
        i += 1;
    }
    false
}

/// Collects bucket `slot`'s products in order of first qualifying
/// event, each once.
fn collect_products(
    events: &Vec<PurchaseEvent>,
    catalog: &Vec<CatalogEntry>,
    cutoff: i32,
    slot: i16,
) -> (ids: Vec<i64>)
    ensures
        ids@ == product_order(events@, catalog.deep_view(), cutoff as int, slot),
{
    let ghost cm = catalog.deep_view();
    let mut ids: Vec<i64> = Vec::new();
    let mut i: usize = 0;
    while i < events.len()
        invariant
            i <= events@.len(),
            cm == catalog.deep_view(),
            ids@ == product_order(events@.take(i as int), cm, cutoff as int, slot),
        decreases events@.len() - i,
    {
        proof {
            assert(events@.take(i as int + 1).drop_last() =~= events@.take(i as int));
            assert(events@.take(i as int + 1).last() == events@[i as int]);
        }
        let ev = events[i];
        if ev.date >= cutoff {
            let selected = match lookup_index(catalog, ev.product_id) {
                Some(j) => slot == 0 || match catalog[j].category {
                    Some(c) => c == slot,
                    None => false,
                },
                None => false,
            };
            if selected && !contains_id(&ids, ev.product_id) {
                ids.push(ev.product_id);
            }
        }
        i += 1;
    }
    proof {
        assert(events@.take(events@.len() as int) =~= events@);
    }
    ids
}

/// A grouped row as executable data, before sorting.
pub struct ProductTotal {
    pub product_id: i64,
    pub name: String,
    pub total: i64,
    pub category: Option<i16>,
}

impl DeepView for ProductTotal {
    type V = ProductModel;

    open spec fn deep_view(&self) -> ProductModel {
        ProductModel {
            product_id: self.product_id,
            name: self.name@,
            total: self.total as int,
            category: self.category,
        }
    }
}

/// `x` placed into the descending sequence `s`, before the first row
/// whose total it reaches: a stable insertion.
pub open spec fn insert_desc(s: Seq<ProductModel>, x: ProductModel) -> Seq<ProductModel>
    decreases s.len(),
{
    if s.len() == 0 {
        seq![x]
    } else if x.total >= s[0].total {
        seq![x] + s
    } else {
        seq![s[0]] + insert_desc(s.drop_first(), x)
    }
}

/// `s` reordered by total descending; stable, so rows with equal
/// totals keep their order.
pub open spec fn sort_desc(s: Seq<ProductModel>) -> Seq<ProductModel>
    decreases s.len(),
{
    if s.len() == 0 {
        Seq::empty()
    } else {
        insert_desc(sort_desc(s.drop_first()), s[0])
    }
}

/// Totals never increase along the sequence.
pub open spec fn sorted_desc(s: Seq<ProductModel>) -> bool {
    forall|i: int, j: int| 0 <= i <= j < s.len() ==> s[i].total >= s[j].total
}

/// Where the insertion point is known — after the rows with strictly
/// larger totals — the stable insertion is a plain splice.
proof fn lemma_insert_desc_at(s: Seq<ProductModel>, x: ProductModel, j: int)
    requires
        0 <= j <= s.len(),
        forall|k: int| 0 <= k < j ==> s[k].total > x.total,
        j < s.len() ==> x.total >= s[j].total,
    ensures
        insert_desc(s, x) == s.take(j) + seq![x] + s.skip(j),
    decreases j,
{
    if j == 0 {
        if s.len() == 0 {
            assert(insert_desc(s, x) =~= s.take(0) + seq![x] + s.skip(0));
        } else {
            assert(insert_desc(s, x) =~= s.take(0) + seq![x] + s.skip(0));
        }
    } else {
        let d = s.drop_first();
        lemma_insert_desc_at(d, x, j - 1);
        assert(seq![s[0]] + (d.take(j - 1) + seq![x] + d.skip(j - 1)) =~= s.take(j) + seq![x]
            + s.skip(j));
    }
}

/// Stable insertion keeps a descending sequence descending.
pub proof fn lemma_insert_desc_sorted(s: Seq<ProductModel>, x: ProductModel)
    requires
        sorted_desc(s),
    ensures
        sorted_desc(insert_desc(s, x)),
        insert_desc(s, x).len() == s.len() + 1,
    decreases s.len(),
{
    if s.len() == 0 {
    } else if x.total >= s[0].total {
    } else {
        lemma_insert_desc_sorted(s.drop_first(), x);
        let r = seq![s[0]] + insert_desc(s.drop_first(), x);
        let ri = insert_desc(s.drop_first(), x);
        assert forall|i: int, j: int| 0 <= i <= j < r.len() implies r[i].total >= r[j].total by {
            if i == 0 && j > 0 {
                // the head dominates the tail's rows: each is either a
                // row of s or x itself, and all sit below s[0]
                lemma_insert_desc_members(s.drop_first(), x, j - 1);
            }
        }
    }
}

/// Every row of a stable insertion is a row of the input or the
/// inserted row.
proof fn lemma_insert_desc_members(s: Seq<ProductModel>, x: ProductModel, j: int)
    requires
        0 <= j < insert_desc(s, x).len(),
    ensures
        insert_desc(s, x)[j] == x || s.contains(insert_desc(s, x)[j]),
    decreases s.len(),
{
    if s.len() == 0 {
    } else if x.total >= s[0].total {
        if j > 0 {
            assert(s.contains(s[j - 1]));
        }
    } else {
        if j > 0 {
            lemma_insert_desc_members(s.drop_first(), x, j - 1);
            let r = insert_desc(s.drop_first(), x);
            if r[j - 1] == x {
            } else {
                let k = choose|k: int| 0 <= k < s.drop_first().len() && s.drop_first()[k] == r[j
                    - 1];
                assert(s[k + 1] == r[j - 1]);
            }
        } else {
            assert(s.contains(s[0]));
        }
    }
}

/// Stable insertion adds exactly the inserted row to the rows present.
proof fn lemma_insert_desc_multiset(s: Seq<ProductModel>, x: ProductModel)
    ensures
        insert_desc(s, x).to_multiset() == s.to_multiset().insert(x),
    decreases s.len(),
{
    broadcast use vstd::seq_lib::group_to_multiset_ensures;
    broadcast use vstd::multiset::group_multiset_axioms;

    if s.len() == 0 {
        assert(seq![x] =~= Seq::<ProductModel>::empty().push(x));
        assert(s =~= Seq::<ProductModel>::empty());
        assert(insert_desc(s, x).to_multiset() =~= s.to_multiset().insert(x));
    } else if x.total >= s[0].total {
        lemma_multiset_commutative(seq![x], s);
        assert(seq![x] =~= Seq::<ProductModel>::empty().push(x));
        assert(insert_desc(s, x).to_multiset() =~= s.to_multiset().insert(x));
    } else {
        lemma_insert_desc_multiset(s.drop_first(), x);
        lemma_multiset_commutative(seq![s[0]], insert_desc(s.drop_first(), x));
        assert(s =~= seq![s[0]] + s.drop_first());
        lemma_multiset_commutative(seq![s[0]], s.drop_first());
        assert(seq![s[0]] =~= Seq::<ProductModel>::empty().push(s[0]));
        assert(insert_desc(s, x).to_multiset() =~= s.to_multiset().insert(x));
    }
}

/// Sorting permutes the grouped rows and invents none: the sorted
/// sequence holds exactly the rows of the input.
pub proof fn lemma_sort_desc_multiset(s: Seq<ProductModel>)
    ensures
        sort_desc(s).to_multiset() == s.to_multiset(),
    decreases s.len(),
{
    broadcast use vstd::seq_lib::group_to_multiset_ensures;
    broadcast use vstd::multiset::group_multiset_axioms;

    if s.len() == 0 {
    } else {
        lemma_sort_desc_multiset(s.drop_first());
        lemma_insert_desc_multiset(sort_desc(s.drop_first()), s[0]);
        assert(s =~= seq![s[0]] + s.drop_first());
        lemma_multiset_commutative(seq![s[0]], s.drop_first());
        assert(seq![s[0]] =~= Seq::<ProductModel>::empty().push(s[0]));
        assert(sort_desc(s).to_multiset() =~= s.to_multiset());
    }
}

/// The sorted sequence is descending and keeps the input's length.
pub proof fn lemma_sort_desc_props(s: Seq<ProductModel>)
    ensures
        sorted_desc(sort_desc(s)),
        sort_desc(s).len() == s.len(),
    decreases s.len(),
{
    if s.len() == 0 {
    } else {
        lemma_sort_desc_props(s.drop_first());
        lemma_insert_desc_sorted(sort_desc(s.drop_first()), s[0]);
    }
}

/// Reorders the grouped rows by total descending, stably.
fn sort_products(v: Vec<ProductTotal>) -> (r: Vec<ProductTotal>)
    ensures
        r.deep_view() == sort_desc(v.deep_view()),
{
    let ghost input = v.deep_view();
    let mut v = v;
    let mut r: Vec<ProductTotal> = Vec::new();
    proof {
        assert(v.deep_view() =~= input.take(v@.len() as int));
        assert(input.skip(input.len() as int) =~= Seq::<ProductModel>::empty());
    }
    while v.len() > 0
        invariant
            v@.len() <= input.len(),
            v.deep_view() == input.take(v@.len() as int),
            r.deep_view() == sort_desc(input.skip(v@.len() as int)),
        decreases v@.len(),
    {
        let ghost n = v@.len() as int;
        let ghost before = v@;
        let x = match v.pop() {
            Some(x) => x,
            None => {
                proof {
                    assert(false);
                }
                unreached()
            },
        };
        proof {
            assert(v.deep_view() =~= input.take(n - 1));
            assert(x == before[n - 1]);
            assert(before[n - 1].deep_view() == input.take(n)[n - 1]);
            assert(x.deep_view() == input[n - 1]);
        }
        let ghost rd = r.deep_view();
        let mut j: usize = 0;
        while j < r.len() && r[j].total > x.total
            invariant
                j <= r@.len(),
                rd == r.deep_view(),
                forall|m: int| 0 <= m < j ==> rd[m].total > x.deep_view().total,
            decreases r@.len() - j,
        {
            j += 1;
        }
        r.insert(j, x);
        proof {
            lemma_insert_desc_at(rd, x.deep_view(), j as int);
            assert(r.deep_view() =~= rd.take(j as int) + seq![x.deep_view()] + rd.skip(j as int));
            // one step of the specification's insertion sort
            let su = input.skip(n - 1);
            assert(su.drop_first() =~= input.skip(n));
            assert(su[0] == input[n - 1]);
            assert(r.deep_view() == sort_desc(input.skip(n - 1)));
        }
    }
    proof {
        assert(input.skip(0) =~= input);
    }
    r
}

/// What a grouped row shows to callers: the product id, which only
/// served the grouping, is dropped.
pub open spec fn entry_of(p: ProductModel) -> crate::types::EntryModel {
    crate::types::EntryModel { name: p.name, total: p.total, category: p.category }
}

/// What bucket `slot` of `/rankings` holds: the grouped rows, ordered
/// by total descending, capped at ten.
pub open spec fn bucket_model(
    events: Seq<PurchaseEvent>,
    catalog: Seq<CatalogModel>,
    cutoff: int,
    slot: i16,
) -> crate::types::BucketModel {
    let sorted = sort_desc(grouped(events, catalog, cutoff, slot));
    let top = if sorted.len() <= 10 {
        sorted
    } else {
        sorted.take(10)
    };
    crate::types::BucketModel { category: slot, entries: top.map_values(|p: ProductModel| entry_of(p)) }
}

/// What `/rankings` returns: the buckets of category slots 0 to 4, in
/// that order.
pub open spec fn rankings_model(
    events: Seq<PurchaseEvent>,
    catalog: Seq<CatalogModel>,
    cutoff: int,
) -> Seq<crate::types::BucketModel> {
    Seq::new(5, |c: int| bucket_model(events, catalog, cutoff, c as i16))
}

/// Builds one ranking bucket: products grouped and summed over the
/// window, ordered by total descending, capped at ten entries.
pub fn bucket_for(
    events: &Vec<PurchaseEvent>,
    catalog: &Vec<CatalogEntry>,
    cutoff: i32,
    slot: i16,
) -> (b: RankingBucket)
    requires
        events@.len() <= MAX_RANKING_EVENTS,
    ensures
        b.deep_view() == bucket_model(events@, catalog.deep_view(), cutoff as int, slot),
{
    let ghost cm = catalog.deep_view();
    let ids = collect_products(events, catalog, cutoff, slot);
    proof {
        lemma_order_members(events@, cm, cutoff as int, slot);
    }
    let ghost g = grouped(events@, cm, cutoff as int, slot);
    let mut rows: Vec<ProductTotal> = Vec::new();
    let mut k: usize = 0;
    while k < ids.len()
        invariant
            k <= ids@.len(),
            cm == catalog.deep_view(),
            events@.len() <= MAX_RANKING_EVENTS,
            ids@ == product_order(events@, cm, cutoff as int, slot),
            g == grouped(events@, cm, cutoff as int, slot),
            forall|id: i64| ids@.contains(id) ==> joined_matches(cm, id, slot),
            rows@.len() == k,
            forall|m: int| 0 <= m < k ==> rows.deep_view()[m] == g[m],
        decreases ids@.len() - k,
    {
        let id = ids[k];
        proof {
            assert(ids@.contains(id));
        }
        let j = match lookup_index(catalog, id) {
            Some(j) => j,
            None => {
                proof {
                    assert(false);
                }
                unreached()
            },
        };
        let total = total_of_product(events, cutoff, id);
        rows.push(
            ProductTotal {
                product_id: id,
                name: catalog[j].name.clone(),
                total,
                category: catalog[j].category,
            },
        );
        k += 1;
    }
    proof {
        assert(rows.deep_view() =~= g);
    }
    let mut sorted = sort_products(rows);
    let ghost top = bucket_model(events@, cm, cutoff as int, slot).entries;
    sorted.truncate(10);
    proof {
        assert(sorted.deep_view() =~= (if sort_desc(g).len() <= 10 {
            sort_desc(g)
        } else {
            sort_desc(g).take(10)
        }));
    }
    let mut entries: Vec<RankingEntry> = Vec::new();
    let mut k: usize = 0;
    while k < sorted.len()
        invariant
            k <= sorted@.len(),
            sorted.deep_view().map_values(|p: ProductModel| entry_of(p)) == top,
            entries@.len() == k,
            forall|m: int| 0 <= m < k ==> entries.deep_view()[m] == top[m],
        decreases sorted@.len() - k,
    {
        let row = &sorted[k];
        entries.push(
            RankingEntry { name: row.name.clone(), total: row.total, category: row.category },
        );
        k += 1;
    }
    proof {
        assert(entries.deep_view() =~= top);
    }
    RankingBucket { category: slot, entries }
}

/// Computes the `/rankings` view: the five buckets of category slots
/// 0 to 4, in that order, each grouped and summed over events dated on
/// or after the cutoff, ordered by total descending and capped at ten.
pub fn ranking_buckets(
    events: &Vec<PurchaseEvent>,
    catalog: &Vec<CatalogEntry>,
    cutoff: i32,
) -> (r: Vec<RankingBucket>)
    requires
        events@.len() <= MAX_RANKING_EVENTS,
    ensures
        r.deep_view() == rankings_model(events@, catalog.deep_view(), cutoff as int),
{
    let ghost cm = catalog.deep_view();
    let ghost model = rankings_model(events@, cm, cutoff as int);
    let mut r: Vec<RankingBucket> = Vec::new();
    let mut slot: i16 = 0;
    while slot < 5
        invariant
            0 <= slot <= 5,
            cm == catalog.deep_view(),
            events@.len() <= MAX_RANKING_EVENTS,
            model == rankings_model(events@, cm, cutoff as int),
            r@.len() == slot as int,
            forall|m: int| 0 <= m < slot as int ==> r.deep_view()[m] == model[m],
        decreases 5 - slot as int,
    {
        let b = bucket_for(events, catalog, cutoff, slot);
        r.push(b);
        slot += 1;
    }
    proof {
        assert(r.deep_view() =~= model);
    }
    r
}

} // verus!


