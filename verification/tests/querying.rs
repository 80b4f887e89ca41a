//! Listing, search ranking and price history.

use pm_tracker::models::CreateMarket;
use pm_tracker::queries::{HistoryQuery, ListQuery, SearchQuery};
use pm_tracker::recorder::MarketRecorder;
use pm_tracker::store::Store;

fn creation(source_id: &str, title: &str, desc: &str, volume: u64) -> CreateMarket {
    CreateMarket {
        source_id: String::from(source_id),
        source: String::from("kalshi"),
        title: String::from(title),
        description: String::from(desc),
        category: None,
        tags: None,
        yes_price: 5000,
        no_price: 5000,
        volume,
        volume_24h: 0,
        liquidity: None,
        status: String::from("open"),
        close_at: None,
        url: String::from("https://example.invalid/m"),
    }
}

#[test]
fn title_hit_ranks_above_no_hit() {
    let mut store = Store::new();
    let rec = MarketRecorder::new();
    rec.record_market(
        &mut store,
        creation("a", "Rates hold steady", "General market", 9_999_999),
        100,
    );
    rec.record_market(
        &mut store,
        creation("b", "Will Bitcoin hit 100k", "Crypto outlook", 5),
        100,
    );
    let results = store.search("bitcoin", 10, None, None);
    // Only the title hit is relevant; the other market matches nowhere
    // and is not returned at all.
    assert_eq!(results.len(), 1);
    assert_eq!(results[0].market.source_id, "b");
    assert!(results[0].score >= 2);
}

#[test]
fn title_hit_outranks_description_hit() {
    let mut store = Store::new();
    let rec = MarketRecorder::new();
    rec.record_market(
        &mut store,
        creation("desc-hit", "Something else", "All about bitcoin here", 1_000_000),
        100,
    );
    rec.record_market(&mut store, creation("title-hit", "Bitcoin above 100k", "", 1), 100);
    let results = store.search("bitcoin", 10, None, None);
    assert_eq!(results.len(), 2);
    assert_eq!(results[0].market.source_id, "title-hit");
    assert_eq!(results[1].market.source_id, "desc-hit");
    assert!(results[0].score > results[1].score);
}

#[test]
fn equal_relevance_ties_break_by_volume() {
    let mut store = Store::new();
    let rec = MarketRecorder::new();
    rec.record_market(&mut store, creation("small", "Bitcoin dips", "", 10), 100);
    rec.record_market(&mut store, creation("large", "Bitcoin rips", "", 1000), 100);
    let results = store.search("bitcoin", 10, None, None);
    assert_eq!(results.len(), 2);
    assert_eq!(results[0].score, results[1].score);
    assert_eq!(results[0].market.source_id, "large");
    assert_eq!(results[1].market.source_id, "small");
}

#[test]
fn search_is_case_insensitive_and_multi_term() {
    let mut store = Store::new();
    let rec = MarketRecorder::new();
    rec.record_market(
        &mut store,
        creation("m", "BITCOIN above 100K", "level watch", 10),
        100,
    );
    let results = store.search("bitcoin 100k", 10, None, None);
    assert_eq!(results.len(), 1);
    // Both terms occur in the title: two title hits of weight two.
    assert_eq!(results[0].score, 4);
}

#[test]
fn search_filters_by_source_and_status() {
    let mut store = Store::new();
    let rec = MarketRecorder::new();
    let mut a = creation("a", "Bitcoin event", "", 10);
    a.source = String::from("polymarket");
    rec.record_market(&mut store, a, 100);
    let mut b = creation("b", "Bitcoin event", "", 10);
    b.status = String::from("closed");
    rec.record_market(&mut store, b, 100);

    let all = store.search("bitcoin", 10, None, None);
    assert_eq!(all.len(), 2);
    let poly = store.search("bitcoin", 10, Some("polymarket"), None);
    assert_eq!(poly.len(), 1);
    assert_eq!(poly[0].market.source_id, "a");
    let closed = store.search("bitcoin", 10, None, Some("closed"));
    assert_eq!(closed.len(), 1);
    assert_eq!(closed[0].market.source_id, "b");
    let none = store.search("bitcoin", 10, Some("polymarket"), Some("closed"));
    assert_eq!(none.len(), 0);
}

#[test]
fn search_caps_results_just_above_limit() {
    let mut store = Store::new();
    let rec = MarketRecorder::new();
    for i in 0..6u64 {
        rec.record_market(
            &mut store,
            creation(&format!("m{}", i), "Bitcoin market", "", i),
            100,
        );
    }
    let results = store.search("bitcoin", 2, None, None);
    assert_eq!(results.len(), 4);
}

#[test]
fn list_sorts_by_volume_descending_by_default_order() {
    let mut store = Store::new();
    let rec = MarketRecorder::new();
    rec.record_market(&mut store, creation("low", "A", "", 10), 100);
    rec.record_market(&mut store, creation("high", "B", "", 1000), 200);
    rec.record_market(&mut store, creation("mid", "C", "", 100), 300);

    let by_volume = store.list(10, 0, "volume", "desc");
    assert_eq!(by_volume.len(), 3);
    assert_eq!(by_volume[0].source_id, "high");
    assert_eq!(by_volume[1].source_id, "mid");
    assert_eq!(by_volume[2].source_id, "low");

    let ascending = store.list(10, 0, "volume", "ASC");
    assert_eq!(ascending[0].source_id, "low");
    assert_eq!(ascending[2].source_id, "high");

    // An unknown sort name falls back to creation time.
    let newest_first = store.list(10, 0, "whatever", "desc");
    assert_eq!(newest_first[0].source_id, "mid");
    assert_eq!(newest_first[2].source_id, "low");
}

#[test]
fn list_pages_with_offset_and_limit() {
    let mut store = Store::new();
    let rec = MarketRecorder::new();
    for i in 0..5u64 {
        rec.record_market(
            &mut store,
            creation(&format!("m{}", i), "T", "", i),
            100 + i as i64,
        );
    }
    let page = store.list(2, 1, "volume", "asc");
    assert_eq!(page.len(), 2);
    assert_eq!(page[0].source_id, "m1");
    assert_eq!(page[1].source_id, "m2");
    let past_end = store.list(2, 10, "volume", "asc");
    assert_eq!(past_end.len(), 0);
}

#[test]
fn list_puts_missing_close_times_last() {
    let mut store = Store::new();
    let rec = MarketRecorder::new();
    let mut a = creation("never", "A", "", 1);
    a.close_at = None;
    rec.record_market(&mut store, a, 100);
    let mut b = creation("soon", "B", "", 1);
    b.close_at = Some(500);
    rec.record_market(&mut store, b, 100);
    let mut c = creation("later", "C", "", 1);
    c.close_at = Some(900);
    rec.record_market(&mut store, c, 100);

    let asc = store.list(10, 0, "close_at", "asc");
    assert_eq!(asc[0].source_id, "soon");
    assert_eq!(asc[1].source_id, "later");
    assert_eq!(asc[2].source_id, "never");
    let desc = store.list(10, 0, "close_at", "desc");
    assert_eq!(desc[0].source_id, "later");
    assert_eq!(desc[1].source_id, "soon");
    assert_eq!(desc[2].source_id, "never");
}

#[test]
fn history_is_newest_first_with_window_and_cap() {
    let mut store = Store::new();
    let rec = MarketRecorder::new();
    let row = rec.record_market(&mut store, creation("m", "T", "", 1), 1_000);
    rec.record_market(&mut store, creation("m", "T", "", 2), 8_200);
    rec.record_market(&mut store, creation("m", "T", "", 3), 15_400);
    let other = rec.record_market(&mut store, creation("other", "T", "", 9), 15_400);
    assert_ne!(other.id, row.id);

    let all = store.get_history(row.id, 100, None, 20_000);
    assert_eq!(all.len(), 3);
    assert_eq!(all[0].recorded_at, 15_400);
    assert_eq!(all[1].recorded_at, 8_200);
    assert_eq!(all[2].recorded_at, 1_000);

    // A four-hour window from t=20000 keeps snapshots at or after 5600.
    let windowed = store.get_history(row.id, 100, Some(4), 20_000);
    assert_eq!(windowed.len(), 2);
    assert_eq!(windowed[0].recorded_at, 15_400);
    assert_eq!(windowed[1].recorded_at, 8_200);

    let capped = store.get_history(row.id, 1, None, 20_000);
    assert_eq!(capped.len(), 1);
    assert_eq!(capped[0].recorded_at, 15_400);

    let missing = store.get_history(99_999, 100, None, 20_000);
    assert_eq!(missing.len(), 0);
}

#[test]
fn query_parameter_defaults() {
    let l = ListQuery::default();
    assert_eq!(l.limit, 20);
    assert_eq!(l.offset, 0);
    assert_eq!(l.sort, "created_at");
    assert_eq!(l.order, "desc");
    let s = SearchQuery::new(String::from("btc"));
    assert_eq!(s.limit, 10);
    assert!(s.source.is_none());
    let h = HistoryQuery::default();
    assert_eq!(h.limit, 100);
    assert!(h.hours.is_none());
}
