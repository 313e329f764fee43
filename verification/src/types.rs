//! Data model of the vending-usage store and of the two aggregate views.
//!
//! Dates are calendar dates carried as day numbers (days since a fixed
//! epoch), so that window bounds are plain integer comparisons; the
//! unverified edge converts between its calendar type and day numbers.

use vstd::prelude::*;

verus! {

/// One vending transaction row of the store: on `date`, `count` units
/// of the product `product_id` were sold. Rows are immutable and come
/// pre-aggregated per (date, product).
#[derive(Clone, Copy, Debug, PartialEq, Eq)]
pub struct PurchaseEvent {
    /// Calendar date as a day number.
    pub date: i32,
    /// Key into the product catalog.
    pub product_id: i64,
    /// Units sold of this product on this date.
    pub count: i32,
}

/// One catalog row: a sellable product. `category` is one of a small
/// closed set, or `None` for uncategorized products.
#[derive(Clone, Debug, PartialEq, Eq)]
pub struct CatalogEntry {
    /// Unique key of the product.
    pub product_id: i64,
    /// Display name.
    pub name: String,
    /// Category of the product, absent for uncategorized products.
    pub category: Option<i16>,
}

/// Mathematical model of a catalog entry: the name as a character
/// sequence.
pub struct CatalogModel {
    pub product_id: i64,
    pub name: Seq<char>,
    pub category: Option<i16>,
}

impl DeepView for CatalogEntry {
    type V = CatalogModel;

    open spec fn deep_view(&self) -> CatalogModel {
        CatalogModel { product_id: self.product_id, name: self.name@, category: self.category }
    }
}

/// One entry of the `/history` view: the purchase count of one (date,
/// product) row of the trailing 30 days, tagged with the product's
/// category (`None` for uncategorized products).
#[derive(Clone, Copy, Debug, PartialEq, Eq)]
pub struct HistoryPoint {
    pub date: i32,
    pub category: Option<i16>,
    pub count: i32,
}

/// One entry of a ranking bucket: a product's display name, its total
/// units sold over the trailing month, and its catalog category
/// (`None` only in the all-categories bucket, for uncategorized
/// products).
#[derive(Clone, Debug, PartialEq, Eq)]
pub struct RankingEntry {
    pub name: String,
    pub total: i64,
    pub category: Option<i16>,
}

/// Mathematical model of a ranking entry.
pub struct EntryModel {
    pub name: Seq<char>,
    pub total: int,
    pub category: Option<i16>,
}

impl DeepView for RankingEntry {
    type V = EntryModel;

    open spec fn deep_view(&self) -> EntryModel {
        EntryModel { name: self.name@, total: self.total as int, category: self.category }
    }
}

/// One bucket of the `/rankings` view: the bucket's category slot
/// (0 is the synthetic all-categories bucket; 1 to 4 are catalog
/// categories) and its entries, ordered by total descending, at most
/// ten of them.
#[derive(Clone, Debug, PartialEq, Eq)]
pub struct RankingBucket {
    pub category: i16,
    pub entries: Vec<RankingEntry>,
}

/// Mathematical model of a ranking bucket.
pub struct BucketModel {
    pub category: i16,
    pub entries: Seq<EntryModel>,
}

impl DeepView for RankingBucket {
    type V = BucketModel;

    open spec fn deep_view(&self) -> BucketModel {
        BucketModel { category: self.category, entries: self.entries.deep_view() }
    }
}

/// The single externally visible error kind: every storage fault —
/// lost connection, failed query, missing or ill-typed field — collapses
/// into this one opaque value, so that no storage internals leak to
/// callers.
#[derive(Clone, Copy, Debug, PartialEq, Eq)]
pub struct StorageError;

impl StorageError {
    /// The opaque text shown to callers for every storage fault.
    pub fn message(&self) -> (r: &'static str)
        ensures
            r@ == "Database"@,
    {
        "Database"
    }
}

/// First catalog entry with the given product id, if any. The catalog
/// holds `product_id` as a unique key, so this is the join partner of
/// an event with that id.
pub open spec fn lookup(catalog: Seq<CatalogModel>, id: i64) -> Option<CatalogModel>
    decreases catalog.len(),
{
    if catalog.len() == 0 {
        None
    } else if catalog[0].product_id == id {
        Some(catalog[0])
    } else {
        lookup(catalog.drop_first(), id)
    }
}

/// Index of the join partner of `id` in the catalog, if any.
pub fn lookup_index(catalog: &Vec<CatalogEntry>, id: i64) -> (r: Option<usize>)
    ensures
        match r {
            Some(j) => j < catalog@.len() && lookup(catalog.deep_view(), id)
                == Some(catalog@[j as int].deep_view()),
            None => lookup(catalog.deep_view(), id) is None,
        },
{
    let ghost full = catalog.deep_view();
    proof {
        assert(full.skip(0) =~= full);
    }
    let mut i: usize = 0;
    while i < catalog.len()
        invariant
            i <= catalog@.len(),
            full == catalog.deep_view(),
            lookup(full, id) == lookup(full.skip(i as int), id),
        decreases catalog@.len() - i,
    {
        proof {
            assert(full.skip(i as int).drop_first() =~= full.skip(i as int + 1));
        }
        if catalog[i].product_id == id {
            return Some(i);
        }
        i += 1;
    }
    proof {
        assert(full.skip(i as int) =~= Seq::<CatalogModel>::empty());
    }
    None
}

} // verus!
