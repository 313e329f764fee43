//! Row decoding and the error-collapse policy of the two endpoints.
//!
//! The unverified edge runs the store queries and hands over, per row,
//! each field's extraction outcome (`None` where the field was missing
//! or ill-typed) — or a storage error where the query itself failed.
//! Here every such fault, on any field of any row, collapses into the
//! one opaque `StorageError`, and aborts the whole request: partial
//! results are never returned.

use vstd::prelude::*;

use crate::history::{history_model, history_points};
use crate::rankings::{ranking_buckets, rankings_model, MAX_RANKING_EVENTS};
use crate::types::{
    CatalogEntry, CatalogModel, HistoryPoint, PurchaseEvent, RankingBucket, StorageError,
};

verus! {

/// One purchase-event row as fetched: each field `Some` where it was
/// present and of the right type.
#[derive(Clone, Copy, Debug, PartialEq, Eq)]
pub struct RawEventRow {
    pub date: Option<i32>,
    pub product_id: Option<i64>,
    pub count: Option<i32>,
}

/// One catalog row as fetched. The outer `Option` of `category` is the
/// extraction outcome; the inner one carries the store's null for
/// uncategorized products.
#[derive(Clone, Debug, PartialEq, Eq)]
pub struct RawCatalogRow {
    pub product_id: Option<i64>,
    pub name: Option<String>,
    pub category: Option<Option<i16>>,
}

/// Model of a raw catalog row.
pub struct RawCatalogModel {
    pub product_id: Option<i64>,
    pub name: Option<Seq<char>>,
    pub category: Option<Option<i16>>,
}

impl DeepView for RawCatalogRow {
    type V = RawCatalogModel;

    open spec fn deep_view(&self) -> RawCatalogModel {
        RawCatalogModel {
            product_id: self.product_id,
            name: match self.name {
                Some(ref n) => Some(n@),
                None => None,
            },
            category: self.category,
        }
    }
}

/// Whether every field of the event row was extracted.
pub open spec fn event_row_ok(r: RawEventRow) -> bool {
    r.date is Some && r.product_id is Some && r.count is Some
}

/// The event a complete raw row decodes to.
pub open spec fn decoded_event(r: RawEventRow) -> PurchaseEvent
    recommends
        event_row_ok(r),
{
    PurchaseEvent {
        date: r.date.unwrap(),
        product_id: r.product_id.unwrap(),
        count: r.count.unwrap(),
    }
}

/// Whether every field of the catalog row was extracted.
pub open spec fn catalog_row_ok(r: RawCatalogModel) -> bool {
    r.product_id is Some && r.name is Some && r.category is Some
}

/// The catalog entry a complete raw row decodes to.
pub open spec fn decoded_catalog_entry(r: RawCatalogModel) -> CatalogModel
    recommends
        catalog_row_ok(r),
{
    CatalogModel {
        product_id: r.product_id.unwrap(),
        name: r.name.unwrap(),
        category: r.category.unwrap(),
    }
}

/// Decodes the fetched event rows, failing on the first row with a
/// missing or ill-typed field: the result is the decoded rows, in
/// order, exactly when every field of every row was extracted.
pub fn decode_events(rows: &Vec<RawEventRow>) -> (r: Result<Vec<PurchaseEvent>, StorageError>)
    ensures
        r is Ok <==> (forall|i: int| 0 <= i < rows@.len() ==> event_row_ok(rows@[i])),
        r is Ok ==> r.unwrap()@ == Seq::new(rows@.len(), |i: int| decoded_event(rows@[i])),
{
    let mut out: Vec<PurchaseEvent> = Vec::new();
    let mut i: usize = 0;
    while i < rows.len()
        invariant
            i <= rows@.len(),
            out@.len() == i,
            forall|k: int| 0 <= k < i ==> event_row_ok(rows@[k]),
            forall|k: int| 0 <= k < i ==> out@[k] == decoded_event(rows@[k]),
        decreases rows@.len() - i,
    {
        let row = rows[i];
        match (row.date, row.product_id, row.count) {
            (Some(date), Some(product_id), Some(count)) => {
                out.push(PurchaseEvent { date, product_id, count });
            },
            _ => {
                return Err(StorageError);
            },
        }
        i += 1;
    }
    proof {
        assert(out@ =~= Seq::new(rows@.len(), |k: int| decoded_event(rows@[k])));
    }
    Ok(out)
}

/// Decodes the fetched catalog rows, failing on the first row with a
/// missing or ill-typed field; a null category is not a fault but an
/// uncategorized product.
pub fn decode_catalog(rows: &Vec<RawCatalogRow>) -> (r: Result<Vec<CatalogEntry>, StorageError>)
    ensures
        r is Ok <==> (forall|i: int|
            0 <= i < rows@.len() ==> catalog_row_ok(rows.deep_view()[i])),
        r is Ok ==> r.unwrap().deep_view() == Seq::new(
            rows@.len(),
            |i: int| decoded_catalog_entry(rows.deep_view()[i]),
        ),
{
    let mut out: Vec<CatalogEntry> = Vec::new();
    let mut i: usize = 0;
    while i < rows.len()
        invariant
            i <= rows@.len(),
            out@.len() == i,
            forall|k: int| 0 <= k < i ==> catalog_row_ok(rows@[k].deep_view()),
            forall|k: int|
                0 <= k < i ==> out@[k].deep_view() == decoded_catalog_entry(rows@[k].deep_view()),
        decreases rows@.len() - i,
    {
        let row = &rows[i];
        match (row.product_id, &row.name, row.category) {
            (Some(product_id), Some(name), Some(category)) => {
                out.push(CatalogEntry { product_id, name: name.clone(), category });
                proof {
                    assert(out@[i as int].deep_view() == decoded_catalog_entry(
                        rows@[i as int].deep_view(),
                    ));
                }
            },
            _ => {
                proof {
                    assert(rows.deep_view()[i as int] == rows@[i as int].deep_view());
                    assert(!catalog_row_ok(rows.deep_view()[i as int]));
                }
                return Err(StorageError);
            },
        }
        i += 1;
    }
    proof {
        assert forall|k: int| 0 <= k < rows@.len() implies rows.deep_view()[k]
            == rows@[k].deep_view() by {}
        assert(out.deep_view() =~= Seq::new(
            rows@.len(),
            |k: int| decoded_catalog_entry(rows.deep_view()[k]),
        ));
    }
    Ok(out)
}

/// Whether both fetches succeeded and every row of both decodes: the
/// exact condition under which either endpoint answers with data.
pub open spec fn fetch_ok(
    events_fetch: Result<Vec<RawEventRow>, StorageError>,
    catalog_fetch: Result<Vec<RawCatalogRow>, StorageError>,
) -> bool {
    &&& events_fetch is Ok
    &&& catalog_fetch is Ok
    &&& forall|i: int| 0 <= i < events_fetch.unwrap()@.len() ==> event_row_ok(
        events_fetch.unwrap()@[i],
    )
    &&& forall|i: int| 0 <= i < catalog_fetch.unwrap()@.len() ==> catalog_row_ok(
        catalog_fetch.unwrap().deep_view()[i],
    )
}

/// The decoded event rows of a successful fetch.
pub open spec fn decoded_events(rows: Seq<RawEventRow>) -> Seq<PurchaseEvent> {
    Seq::new(rows.len(), |i: int| decoded_event(rows[i]))
}

/// The decoded catalog of a successful fetch.
pub open spec fn decoded_catalog(rows: Seq<RawCatalogModel>) -> Seq<CatalogModel> {
    Seq::new(rows.len(), |i: int| decoded_catalog_entry(rows[i]))
}

/// The whole `/history` request past the store reads: decodes the
/// fetched rows and aggregates. Succeeds exactly when both fetches
/// succeeded and every row decodes; any storage fault yields the one
/// opaque error and no data, so a fault is never masked by an
/// empty-but-successful answer.
pub fn history_endpoint(
    events_fetch: Result<Vec<RawEventRow>, StorageError>,
    catalog_fetch: Result<Vec<RawCatalogRow>, StorageError>,
    today: i32,
) -> (r: Result<Vec<HistoryPoint>, StorageError>)
    ensures
        r is Ok <==> fetch_ok(events_fetch, catalog_fetch),
        r is Ok ==> r.unwrap()@ == history_model(
            decoded_events(events_fetch.unwrap()@),
            decoded_catalog(catalog_fetch.unwrap().deep_view()),
            today as int,
        ),
{
    let event_rows = match events_fetch {
        Ok(v) => v,
        Err(e) => {
            return Err(e);
        },
    };
    let catalog_rows = match catalog_fetch {
        Ok(v) => v,
        Err(e) => {
            return Err(e);
        },
    };
    let events = match decode_events(&event_rows) {
        Ok(v) => v,
        Err(e) => {
            return Err(e);
        },
    };
    let catalog = match decode_catalog(&catalog_rows) {
        Ok(v) => v,
        Err(e) => {
            return Err(e);
        },
    };
    Ok(history_points(&events, &catalog, today))
}

/// The whole `/rankings` request past the store reads: decodes the
/// fetched rows and aggregates into the five buckets. The same
/// error-collapse policy as `/history`: success exactly when both
/// fetches succeeded and every row decodes, one opaque error otherwise,
/// never a partial bucket list.
pub fn rankings_endpoint(
    events_fetch: Result<Vec<RawEventRow>, StorageError>,
    catalog_fetch: Result<Vec<RawCatalogRow>, StorageError>,
    cutoff: i32,
) -> (r: Result<Vec<RankingBucket>, StorageError>)
    requires
        events_fetch is Ok ==> events_fetch.unwrap()@.len() <= MAX_RANKING_EVENTS,
    ensures
        r is Ok <==> fetch_ok(events_fetch, catalog_fetch),
        r is Ok ==> r.unwrap().deep_view() == rankings_model(
            decoded_events(events_fetch.unwrap()@),
            decoded_catalog(catalog_fetch.unwrap().deep_view()),
            cutoff as int,
        ),
{
    let event_rows = match events_fetch {
        Ok(v) => v,
        Err(e) => {
            return Err(e);
        },
    };
    let catalog_rows = match catalog_fetch {
        Ok(v) => v,
        Err(e) => {
            return Err(e);
        },
    };
    let events = match decode_events(&event_rows) {
        Ok(v) => v,
        Err(e) => {
            return Err(e);
        },
    };
    let catalog = match decode_catalog(&catalog_rows) {
        Ok(v) => v,
        Err(e) => {
            return Err(e);
        },
    };
    Ok(ranking_buckets(&events, &catalog, cutoff))
}

} // verus!
