//! Recorder, store upsert semantics and the collection cycle.

use pm_tracker::config::Config;
use pm_tracker::models::{CreateMarket, MarketSource, UpdateMarket};
use pm_tracker::recorder::{count_successes, MarketRecorder};
use pm_tracker::scheduler::{
    per_source_limit, FetchOutcome, Scheduler, SchedulerAction, SchedulerEvent, SchedulerState,
};
use pm_tracker::store::{Store, StoreError};

fn creation(source: &str, source_id: &str, yes: i64, volume: u64) -> CreateMarket {
    CreateMarket {
        source_id: String::from(source_id),
        source: String::from(source),
        title: String::from("Title"),
        description: String::from("Description"),
        category: None,
        tags: None,
        yes_price: yes,
        no_price: 10000 - yes,
        volume,
        volume_24h: 0,
        liquidity: None,
        status: String::from("open"),
        close_at: None,
        url: String::from("https://example.invalid/m"),
    }
}

#[test]
fn upsert_is_idempotent_on_the_conflict_key() {
    let mut store = Store::new();
    let rec = MarketRecorder::new();
    let first = rec.record_market(&mut store, creation("kalshi", "X", 4000, 10), 100);
    let second = rec.record_market(&mut store, creation("kalshi", "X", 6000, 20), 200);
    // One row, the later mutable values, the original created_at.
    assert_eq!(store.markets.len(), 1);
    assert_eq!(second.id, first.id);
    assert_eq!(second.yes_price, 6000);
    assert_eq!(second.volume, 20);
    assert_eq!(second.created_at, 100);
    assert_eq!(second.updated_at, 200);
    assert_eq!(store.markets[0].yes_price, 6000);
    assert_eq!(store.markets[0].created_at, 100);
}

#[test]
fn upsert_keeps_immutable_fields_on_conflict() {
    let mut store = Store::new();
    let rec = MarketRecorder::new();
    let mut a = creation("kalshi", "X", 4000, 10);
    a.category = Some(String::from("Politics"));
    a.url = String::from("https://example.invalid/a");
    rec.record_market(&mut store, a, 100);
    let mut b = creation("kalshi", "X", 6000, 20);
    b.category = Some(String::from("Other"));
    b.url = String::from("https://example.invalid/b");
    b.title = String::from("Revised title");
    let row = rec.record_market(&mut store, b, 200);
    // category and url stay; title and description are soft-mutable.
    assert_eq!(row.category.as_deref(), Some("Politics"));
    assert_eq!(row.url, "https://example.invalid/a");
    assert_eq!(row.title, "Revised title");
}

#[test]
fn distinct_keys_make_distinct_rows() {
    let mut store = Store::new();
    let rec = MarketRecorder::new();
    rec.record_market(&mut store, creation("kalshi", "X", 4000, 10), 100);
    rec.record_market(&mut store, creation("polymarket", "X", 4000, 10), 100);
    rec.record_market(&mut store, creation("kalshi", "Y", 4000, 10), 100);
    assert_eq!(store.markets.len(), 3);
    assert_ne!(store.markets[0].id, store.markets[1].id);
    assert_ne!(store.markets[1].id, store.markets[2].id);
}

#[test]
fn record_appends_one_snapshot_of_current_state() {
    let mut store = Store::new();
    let rec = MarketRecorder::new();
    let row = rec.record_market(&mut store, creation("kalshi", "X", 4000, 10), 100);
    assert_eq!(store.history.len(), 1);
    let snap = store.history[0];
    assert_eq!(snap.market_id, row.id);
    assert_eq!(snap.yes_price, 4000);
    assert_eq!(snap.volume, 10);
    assert_eq!(snap.recorded_at, 100);
    // A second record at the same instant upserts the market but takes no
    // second snapshot (exact-timestamp dedup); a later instant does.
    rec.record_market(&mut store, creation("kalshi", "X", 5000, 10), 100);
    assert_eq!(store.history.len(), 1);
    rec.record_market(&mut store, creation("kalshi", "X", 5000, 10), 200);
    assert_eq!(store.history.len(), 2);
}

#[test]
fn snapshot_conflict_reports_and_keeps_history() {
    let mut store = Store::new();
    let row = store.create(creation("kalshi", "X", 4000, 10), 100);
    assert!(store.record_snapshot(row.id, &row, 100).is_ok());
    let again = store.record_snapshot(row.id, &row, 100);
    assert_eq!(again.unwrap_err(), StoreError::Conflict);
    assert_eq!(store.history.len(), 1);
}

#[test]
fn batch_count_and_effects() {
    let mut store = Store::new();
    let rec = MarketRecorder::new();
    let batch = vec![
        creation("kalshi", "A", 1000, 1),
        creation("kalshi", "B", 2000, 2),
        creation("kalshi", "A", 3000, 3),
    ];
    let count = rec.record_markets_batch(&mut store, batch, 100);
    assert_eq!(count, 3);
    // A and B rows, with A holding the later values.
    assert_eq!(store.markets.len(), 2);
    assert_eq!(store.markets[0].yes_price, 3000);
}

#[test]
fn single_failure_counts_all_but_one() {
    // Three records, exactly one failing persistence: two successes and
    // no batch-level error.
    let outcomes = vec![true, false, true];
    assert_eq!(count_successes(&outcomes), 2);
    let outcomes = vec![false];
    assert_eq!(count_successes(&outcomes), 0);
    let outcomes: Vec<bool> = vec![];
    assert_eq!(count_successes(&outcomes), 0);
}

#[test]
fn capacity_split_drops_remainder() {
    assert_eq!(per_source_limit(10, 2), 5);
    assert_eq!(per_source_limit(11, 2), 5);
    assert_eq!(per_source_limit(1, 2), 0);
}

fn scheduler_with_budget(budget: &str) -> Scheduler {
    let config = Config::from_values(
        String::from("postgres://db"),
        None,
        Some(String::from(budget)),
        None,
    )
    .unwrap();
    Scheduler::new(config)
}

#[test]
fn cycle_plan_splits_budget_evenly() {
    let plan = scheduler_with_budget("10").plan_cycle();
    assert_eq!(plan.len(), 2);
    assert_eq!(plan[0].source, MarketSource::Polymarket);
    assert_eq!(plan[0].limit, 5);
    assert_eq!(plan[1].source, MarketSource::Kalshi);
    assert_eq!(plan[1].limit, 5);
    let plan = scheduler_with_budget("11").plan_cycle();
    assert_eq!(plan[0].limit, 5);
    assert_eq!(plan[1].limit, 5);
}

#[test]
fn one_source_failure_does_not_stop_the_cycle() {
    let mut store = Store::new();
    let s = scheduler_with_budget("10");
    let fetches = vec![
        (
            MarketSource::Polymarket,
            FetchOutcome::Failed(String::from("Polymarket API error: 503")),
        ),
        (
            MarketSource::Kalshi,
            FetchOutcome::Fetched(vec![creation("kalshi", "X", 4000, 10)]),
        ),
    ];
    let reports = s.collect_and_record(&mut store, fetches, 100);
    assert_eq!(reports.len(), 2);
    assert_eq!(reports[0].source, MarketSource::Polymarket);
    assert_eq!(
        reports[0].result.as_ref().unwrap_err(),
        "Polymarket API error: 503"
    );
    assert_eq!(reports[1].source, MarketSource::Kalshi);
    assert_eq!(*reports[1].result.as_ref().unwrap(), 1);
    // The failed source did not prevent the other source's record.
    assert_eq!(store.markets.len(), 1);
    assert_eq!(store.markets[0].source, "kalshi");
    assert_eq!(store.markets[0].source_id, "X");
}

#[test]
fn disabled_worker_exits_before_the_loop() {
    let config = Config::from_values(
        String::from("postgres://db"),
        None,
        None,
        Some(String::from("false")),
    )
    .unwrap();
    let s = Scheduler::new(config);
    assert_eq!(s.on_start(), (SchedulerState::Stopped, SchedulerAction::Exit));
    let s = scheduler_with_budget("10");
    assert_eq!(s.on_start(), (SchedulerState::Idle, SchedulerAction::WaitTick));
}

#[test]
fn scheduler_walks_sources_in_order_with_pacing() {
    let s = scheduler_with_budget("10");
    let n = 2;
    let (st, sp, act) = s.step(SchedulerState::Idle, false, SchedulerEvent::TickFired, n);
    assert_eq!(
        (st, sp, act),
        (SchedulerState::Collecting(0), false, SchedulerAction::Fetch(0))
    );
    let (st, sp, act) = s.step(st, sp, SchedulerEvent::FetchFinished, n);
    assert_eq!(
        (st, sp, act),
        (SchedulerState::Recording(0), false, SchedulerAction::Record(0))
    );
    let (st, sp, act) = s.step(st, sp, SchedulerEvent::BatchRecorded, n);
    assert_eq!(
        (st, sp, act),
        (SchedulerState::Pacing(0), false, SchedulerAction::Sleep(500))
    );
    let (st, sp, act) = s.step(st, sp, SchedulerEvent::PauseElapsed, n);
    assert_eq!(
        (st, sp, act),
        (SchedulerState::Collecting(1), false, SchedulerAction::Fetch(1))
    );
    let (st, sp, act) = s.step(st, sp, SchedulerEvent::FetchFinished, n);
    assert_eq!(
        (st, sp, act),
        (SchedulerState::Recording(1), false, SchedulerAction::Record(1))
    );
    let (st, sp, act) = s.step(st, sp, SchedulerEvent::BatchRecorded, n);
    assert_eq!((st, sp, act), (SchedulerState::Idle, false, SchedulerAction::WaitTick));
}

#[test]
fn stop_request_lets_the_cycle_finish_then_exits() {
    let s = scheduler_with_budget("10");
    let n = 2;
    // Idle: a stop request exits at once.
    let (st, _, act) = s.step(SchedulerState::Idle, false, SchedulerEvent::StopRequested, n);
    assert_eq!((st, act), (SchedulerState::Stopped, SchedulerAction::Exit));
    // Mid-cycle: the stop is remembered and the cycle runs to its end.
    let (st, sp, act) =
        s.step(SchedulerState::Collecting(1), false, SchedulerEvent::StopRequested, n);
    assert_eq!(
        (st, sp, act),
        (SchedulerState::Collecting(1), true, SchedulerAction::Continue)
    );
    let (st, sp, act) = s.step(st, sp, SchedulerEvent::FetchFinished, n);
    assert_eq!(
        (st, sp, act),
        (SchedulerState::Recording(1), true, SchedulerAction::Record(1))
    );
    let (st, sp, act) = s.step(st, sp, SchedulerEvent::BatchRecorded, n);
    assert_eq!((st, sp, act), (SchedulerState::Stopped, true, SchedulerAction::Exit));
}

#[test]
fn store_get_and_update() {
    let mut store = Store::new();
    let row = store.create(creation("kalshi", "X", 4000, 10), 100);
    let got = store.get_by_id(row.id).unwrap();
    assert_eq!(got.source_id, "X");
    assert_eq!(store.get_by_id(999).unwrap_err(), StoreError::NotFound);

    let update = UpdateMarket {
        yes_price: Some(9000),
        no_price: None,
        volume: None,
        volume_24h: Some(7),
        liquidity: None,
        status: Some(String::from("closed")),
        close_at: Some(500),
    };
    let updated = store.update(row.id, update, 300).unwrap();
    assert_eq!(updated.yes_price, 9000);
    assert_eq!(updated.no_price, 6000);
    assert_eq!(updated.volume, 10);
    assert_eq!(updated.volume_24h, 7);
    assert_eq!(updated.status, "closed");
    assert_eq!(updated.close_at, Some(500));
    assert_eq!(updated.created_at, 100);
    assert_eq!(updated.updated_at, 300);

    let none = UpdateMarket {
        yes_price: None,
        no_price: None,
        volume: None,
        volume_24h: None,
        liquidity: None,
        status: None,
        close_at: None,
    };
    assert_eq!(store.update(999, none, 300).unwrap_err(), StoreError::NotFound);
}
