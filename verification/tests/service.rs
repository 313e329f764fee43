use drink_stats::decode::{history_endpoint, rankings_endpoint, RawCatalogRow, RawEventRow};
use drink_stats::history::history_points;
use drink_stats::rankings::ranking_buckets;
use drink_stats::types::{CatalogEntry, HistoryPoint, PurchaseEvent, RankingEntry, StorageError};

fn ev(date: i32, product_id: i64, count: i32) -> PurchaseEvent {
    PurchaseEvent { date, product_id, count }
}

fn cat(product_id: i64, name: &str, category: Option<i16>) -> CatalogEntry {
    CatalogEntry { product_id, name: name.to_string(), category }
}

fn raw_ev(date: i32, product_id: i64, count: i32) -> RawEventRow {
    RawEventRow { date: Some(date), product_id: Some(product_id), count: Some(count) }
}

fn raw_cat(product_id: i64, name: &str, category: Option<i16>) -> RawCatalogRow {
    RawCatalogRow {
        product_id: Some(product_id),
        name: Some(name.to_string()),
        category: Some(category),
    }
}

const TODAY: i32 = 739000;

#[test]
fn history_keeps_only_the_window() {
    let catalog = vec![cat(1, "Cola", Some(1))];
    let events = vec![
        ev(TODAY - 31, 1, 2),  // one day too old
        ev(TODAY - 30, 1, 3),  // lower bound, included
        ev(TODAY, 1, 4),       // upper bound, included
        ev(TODAY + 1, 1, 5),   // in the future, excluded
    ];
    let points = history_points(&events, &catalog, TODAY);
    assert_eq!(
        points,
        vec![
            HistoryPoint { date: TODAY - 30, category: Some(1), count: 3 },
            HistoryPoint { date: TODAY, category: Some(1), count: 4 },
        ]
    );
}

#[test]
fn history_excludes_unknown_products() {
    let catalog = vec![cat(1, "Cola", Some(1))];
    let events = vec![ev(TODAY, 77, 9), ev(TODAY, 1, 2)];
    let points = history_points(&events, &catalog, TODAY);
    assert_eq!(points, vec![HistoryPoint { date: TODAY, category: Some(1), count: 2 }]);
}

#[test]
fn history_preserves_store_row_order() {
    let catalog = vec![cat(1, "Cola", Some(1)), cat(2, "Water", Some(2))];
    let events = vec![ev(TODAY, 2, 1), ev(TODAY - 5, 1, 2), ev(TODAY - 1, 2, 3)];
    let points = history_points(&events, &catalog, TODAY);
    assert_eq!(
        points,
        vec![
            HistoryPoint { date: TODAY, category: Some(2), count: 1 },
            HistoryPoint { date: TODAY - 5, category: Some(1), count: 2 },
            HistoryPoint { date: TODAY - 1, category: Some(2), count: 3 },
        ]
    );
}

#[test]
fn history_shows_null_category() {
    let catalog = vec![cat(5, "Mystery", None)];
    let events = vec![ev(TODAY - 2, 5, 7)];
    let points = history_points(&events, &catalog, TODAY);
    assert_eq!(points, vec![HistoryPoint { date: TODAY - 2, category: None, count: 7 }]);
}

#[test]
fn rankings_have_five_buckets_in_order() {
    let catalog = vec![cat(1, "Cola", Some(1))];
    let events = vec![ev(TODAY - 1, 1, 5)];
    let buckets = ranking_buckets(&events, &catalog, TODAY - 30);
    assert_eq!(buckets.len(), 5);
    for (i, b) in buckets.iter().enumerate() {
        assert_eq!(b.category, i as i16);
        assert!(b.entries.len() <= 10);
    }
}

#[test]
fn rankings_sum_per_product_and_sort_descending() {
    let catalog = vec![
        cat(1, "Cola", Some(1)),
        cat(2, "Water", Some(1)),
        cat(3, "Juice", Some(1)),
    ];
    let events = vec![
        ev(TODAY - 3, 2, 4),
        ev(TODAY - 2, 1, 3),
        ev(TODAY - 1, 1, 4),  // Cola totals 7
        ev(TODAY, 3, 6),
        ev(TODAY - 4, 2, 1),  // Water totals 5
    ];
    let buckets = ranking_buckets(&events, &catalog, TODAY - 30);
    let bucket1 = &buckets[1];
    assert_eq!(
        bucket1.entries,
        vec![
            RankingEntry { name: "Cola".to_string(), total: 7, category: Some(1) },
            RankingEntry { name: "Juice".to_string(), total: 6, category: Some(1) },
            RankingEntry { name: "Water".to_string(), total: 5, category: Some(1) },
        ]
    );
    // bucket 0 aggregates the very same products
    assert_eq!(buckets[0].entries, bucket1.entries);
}

#[test]
fn rankings_cap_each_bucket_at_ten() {
    let mut catalog = Vec::new();
    let mut events = Vec::new();
    for i in 1..=12i64 {
        catalog.push(cat(i, &format!("P{}", i), Some(1)));
        events.push(ev(TODAY - 1, i, i as i32));
    }
    let buckets = ranking_buckets(&events, &catalog, TODAY - 30);
    let entries = &buckets[1].entries;
    assert_eq!(entries.len(), 10);
    // top ten by total descending: 12, 11, ..., 3
    for (k, e) in entries.iter().enumerate() {
        assert_eq!(e.total, 12 - k as i64);
    }
    // the two smallest totals fell off
    assert!(entries.iter().all(|e| e.total >= 3));
}

#[test]
fn rankings_respect_the_cutoff() {
    let catalog = vec![cat(1, "Cola", Some(1))];
    let events = vec![ev(TODAY - 40, 1, 9), ev(TODAY - 40, 1, 2)];
    let buckets = ranking_buckets(&events, &catalog, TODAY - 30);
    assert!(buckets[0].entries.is_empty());
    assert!(buckets[1].entries.is_empty());
}

#[test]
fn uncategorized_products_only_reach_bucket_zero() {
    let catalog = vec![cat(5, "Mystery", None), cat(1, "Cola", Some(1))];
    let events = vec![ev(TODAY - 1, 5, 8), ev(TODAY - 1, 1, 2)];
    let buckets = ranking_buckets(&events, &catalog, TODAY - 30);
    let bucket0 = &buckets[0];
    assert_eq!(
        bucket0.entries,
        vec![
            RankingEntry { name: "Mystery".to_string(), total: 8, category: None },
            RankingEntry { name: "Cola".to_string(), total: 2, category: Some(1) },
        ]
    );
    for b in &buckets[1..] {
        assert!(b.entries.iter().all(|e| e.name != "Mystery"));
    }
}

#[test]
fn scenario_cola_yesterday_water_forty_days_ago() {
    // one purchase of 5 Cola (category 1) yesterday, one of 3 Water
    // (category 2) forty days ago
    let catalog = vec![cat(1, "Cola", Some(1)), cat(2, "Water", Some(2))];
    let events = vec![ev(TODAY - 1, 1, 5), ev(TODAY - 40, 2, 3)];

    let points = history_points(&events, &catalog, TODAY);
    assert_eq!(points, vec![HistoryPoint { date: TODAY - 1, category: Some(1), count: 5 }]);

    // a calendar month before today, within [TODAY - 31, TODAY - 28]
    let cutoff = TODAY - 30;
    let buckets = ranking_buckets(&events, &catalog, cutoff);
    let cola = RankingEntry { name: "Cola".to_string(), total: 5, category: Some(1) };
    assert_eq!(buckets[1].entries, vec![cola.clone()]);
    assert!(buckets[2].entries.is_empty());
    assert_eq!(buckets[0].entries, vec![cola]);
}

#[test]
fn repeated_reads_answer_identically() {
    let catalog = vec![cat(1, "Cola", Some(1)), cat(5, "Mystery", None)];
    let events = vec![ev(TODAY - 1, 1, 5), ev(TODAY - 2, 5, 3), ev(TODAY - 1, 1, 1)];
    assert_eq!(
        history_points(&events, &catalog, TODAY),
        history_points(&events, &catalog, TODAY)
    );
    assert_eq!(
        ranking_buckets(&events, &catalog, TODAY - 30),
        ranking_buckets(&events, &catalog, TODAY - 30)
    );
}

#[test]
fn empty_store_answers_successfully_and_empty() {
    let catalog: Vec<CatalogEntry> = Vec::new();
    let events: Vec<PurchaseEvent> = Vec::new();
    assert!(history_points(&events, &catalog, TODAY).is_empty());
    let buckets = ranking_buckets(&events, &catalog, TODAY - 30);
    assert_eq!(buckets.len(), 5);
    assert!(buckets.iter().all(|b| b.entries.is_empty()));
}

#[test]
fn endpoints_pass_fetched_rows_through() {
    let raw_events = vec![raw_ev(TODAY - 1, 1, 5)];
    let raw_catalog = vec![raw_cat(1, "Cola", Some(1))];
    let history = history_endpoint(Ok(raw_events.clone()), Ok(raw_catalog.clone()), TODAY);
    assert_eq!(
        history,
        Ok(vec![HistoryPoint { date: TODAY - 1, category: Some(1), count: 5 }])
    );
    let rankings = rankings_endpoint(Ok(raw_events), Ok(raw_catalog), TODAY - 30);
    let buckets = rankings.expect("fetch was complete");
    assert_eq!(
        buckets[1].entries,
        vec![RankingEntry { name: "Cola".to_string(), total: 5, category: Some(1) }]
    );
}

#[test]
fn a_failed_fetch_fails_the_whole_request() {
    let history = history_endpoint(Err(StorageError), Ok(vec![]), TODAY);
    assert_eq!(history, Err(StorageError));
    let rankings = rankings_endpoint(Err(StorageError), Ok(vec![]), TODAY - 30);
    assert_eq!(rankings, Err(StorageError));
    // never an empty-but-successful answer in place of a fault
    assert!(history.is_err() && rankings.is_err());
}

#[test]
fn a_single_bad_field_fails_the_whole_request() {
    let good = raw_ev(TODAY - 1, 1, 5);
    let bad = RawEventRow { date: Some(TODAY - 1), product_id: Some(1), count: None };
    let raw_catalog = vec![raw_cat(1, "Cola", Some(1))];
    let history = history_endpoint(Ok(vec![good, bad]), Ok(raw_catalog.clone()), TODAY);
    assert_eq!(history, Err(StorageError));

    let bad_catalog = RawCatalogRow { product_id: Some(2), name: None, category: Some(None) };
    let rankings = rankings_endpoint(
        Ok(vec![good]),
        Ok(vec![raw_cat(1, "Cola", Some(1)), bad_catalog]),
        TODAY - 30,
    );
    assert_eq!(rankings, Err(StorageError));
}

#[test]
fn null_category_decodes_as_uncategorized_not_as_fault() {
    let raw_events = vec![raw_ev(TODAY - 1, 5, 8)];
    let raw_catalog = vec![raw_cat(5, "Mystery", None)];
    let history = history_endpoint(Ok(raw_events), Ok(raw_catalog), TODAY);
    assert_eq!(
        history,
        Ok(vec![HistoryPoint { date: TODAY - 1, category: None, count: 8 }])
    );
}

#[test]
fn the_storage_error_text_is_opaque() {
    assert_eq!(StorageError.message(), "Database");
}
