//! The scheduler: periodic collection cycles over the configured sources.
//!
//! The control loop's outside work — waiting on the interval timer,
//! issuing the fetches, sleeping between sources — happens outside the
//! library. The library decides: it plans each cycle's fetch requests,
//! steps the control-state machine, and folds the fetch outcomes into the
//! store, isolating each source's failure from the others.

use vstd::prelude::*;

use crate::config::Config;
use crate::models::{CreateMarket, CreateMarketData, MarketSource};
use crate::recorder::MarketRecorder;
use crate::store::{lemma_record_all_wf, Store, StoreData};

verus! {

/// Split a tracked-markets budget evenly across the configured sources.
///
/// Integer division: any remainder of an uneven split is dropped, never
/// redistributed, so a budget of 11 over 2 sources asks each source for 5.
pub fn per_source_limit(budget: usize, sources: usize) -> (limit: usize)
    requires
        sources > 0,
    ensures
        limit == budget / sources,
{
    budget / sources
}

/// What one source's fetch produced: its normalized creation records, or
/// the reason the whole fetch failed (transport failure or a non-success
/// response status).
pub enum FetchOutcome {
    Fetched(Vec<CreateMarket>),
    Failed(String),
}

/// One source's entry in a cycle report: how many records were recorded,
/// or why the source's fetch failed.
pub struct SourceReport {
    pub source: MarketSource,
    pub result: Result<usize, String>,
}

/// One planned fetch: which source to call and the result limit to ask
/// for.
#[derive(Clone, Copy, Debug, PartialEq, Eq, Structural)]
pub struct FetchRequest {
    pub source: MarketSource,
    pub limit: usize,
}

/// The creation records a fetch outcome carries, viewed mathematically; a
/// failed fetch carries none.
pub open spec fn fetched_views(o: FetchOutcome) -> Seq<CreateMarketData> {
    match o {
        FetchOutcome::Fetched(ms) => ms@.map_values(|m: CreateMarket| m@),
        FetchOutcome::Failed(_) => Seq::<CreateMarketData>::empty(),
    }
}

/// Total number of creation records across a cycle's fetch outcomes.
pub open spec fn total_fetched(fs: Seq<(MarketSource, FetchOutcome)>) -> int
    decreases fs.len(),
{
    if fs.len() == 0 {
        0
    } else {
        fetched_views(fs[0].1).len() + total_fetched(fs.drop_first())
    }
}

/// The store state a cycle leaves behind: each source's fetched records
/// folded in, in source order; failed sources contribute nothing.
pub open spec fn cycle_fold(v: StoreData, fs: Seq<(MarketSource, FetchOutcome)>, now: i64) -> StoreData
    decreases fs.len(),
{
    if fs.len() == 0 {
        v
    } else {
        cycle_fold(v.record_all(fetched_views(fs[0].1), now), fs.drop_first(), now)
    }
}

/// How one report entry relates to the fetch outcome it accounts for.
pub open spec fn report_matches(f: (MarketSource, FetchOutcome), r: SourceReport) -> bool {
    &&& r.source == f.0
    &&& (match f.1 {
        FetchOutcome::Fetched(ms) => r.result matches Ok(n) && n == ms@.len(),
        FetchOutcome::Failed(why) => r.result matches Err(w) && w@ == why@,
    })
}

/// Folding a cycle outcome by outcome equals folding the cycle.
pub proof fn lemma_cycle_fold_snoc(
    v: StoreData,
    fs: Seq<(MarketSource, FetchOutcome)>,
    f: (MarketSource, FetchOutcome),
    now: i64,
)
    ensures
        cycle_fold(v, fs.push(f), now) == cycle_fold(v, fs, now).record_all(
            fetched_views(f.1),
            now,
        ),
    decreases fs.len(),
{
    if fs.len() == 0 {
        assert(fs.push(f)[0] == f);
        assert(fs.push(f).drop_first() =~= Seq::<(MarketSource, FetchOutcome)>::empty());
        let w = v.record_all(fetched_views(f.1), now);
        assert(cycle_fold(v, fs.push(f), now) == cycle_fold(w, fs.push(f).drop_first(), now));
        assert(cycle_fold(w, fs.push(f).drop_first(), now) == w);
        assert(cycle_fold(v, fs, now) == v);
    } else {
        assert(fs.push(f)[0] == fs[0]);
        assert(fs.push(f).drop_first() =~= fs.drop_first().push(f));
        let w = v.record_all(fetched_views(fs[0].1), now);
        assert(cycle_fold(v, fs.push(f), now) == cycle_fold(w, fs.push(f).drop_first(), now));
        assert(cycle_fold(v, fs, now) == cycle_fold(w, fs.drop_first(), now));
        lemma_cycle_fold_snoc(w, fs.drop_first(), f, now);
    }
}

/// The scheduler: the immutable configuration plus the recorder the cycles
/// delegate to.
pub struct Scheduler {
    pub config: Config,
    pub recorder: MarketRecorder,
}

impl Scheduler {
    pub fn new(config: Config) -> (s: Scheduler)
        ensures
            s.config.database_url@ == config.database_url@,
            s.config.collection_interval_seconds == config.collection_interval_seconds,
            s.config.tracked_markets_limit == config.tracked_markets_limit,
            s.config.enabled == config.enabled,
    {
        Scheduler { config, recorder: MarketRecorder::new() }
    }

    /// Plan one collection cycle: one fetch request per source, in the
    /// fixed cycle order, each with an even share of the tracked-markets
    /// budget (remainder dropped).
    pub fn plan_cycle(&self) -> (plan: Vec<FetchRequest>)
        ensures
            plan@.len() == 2,
            plan@[0] == (FetchRequest {
                source: MarketSource::Polymarket,
                limit: self.config.tracked_markets_limit / 2,
            }),
            plan@[1] == (FetchRequest {
                source: MarketSource::Kalshi,
                limit: self.config.tracked_markets_limit / 2,
            }),
    {
        let limit = per_source_limit(self.config.tracked_markets_limit, 2);
        let mut plan: Vec<FetchRequest> = Vec::new();
        plan.push(FetchRequest { source: MarketSource::Polymarket, limit });
        plan.push(FetchRequest { source: MarketSource::Kalshi, limit });
        plan
    }

    /// Fold one cycle's fetch outcomes into the store, source by source in
    /// the given order. A source whose fetch failed is reported with its
    /// reason and skipped; every record of every fetched source is
    /// recorded regardless of other sources' failures, and its conflict
    /// key is present in the store afterwards.
    pub fn collect_and_record(
        &self,
        store: &mut Store,
        fetches: Vec<(MarketSource, FetchOutcome)>,
        now: i64,
    ) -> (reports: Vec<SourceReport>)
        requires
            old(store)@.wf(),
            old(store)@.next_market_id + total_fetched(fetches@) < u64::MAX,
            old(store)@.next_history_id + total_fetched(fetches@) < u64::MAX,
        ensures
            final(store)@ == cycle_fold(old(store)@, fetches@, now),
            final(store)@.wf(),
            reports@.len() == fetches@.len(),
            forall|i: int|
                0 <= i < fetches@.len() ==> report_matches(fetches@[i], #[trigger] reports@[i]),
            forall|i: int, j: int|
                0 <= i < fetches@.len() && 0 <= j < fetched_views(fetches@[i].1).len()
                    ==> #[trigger] final(store)@.contains_key(
                    fetched_views(fetches@[i].1)[j].key(),
                ),
    {
        let ghost pre = store@;
        let ghost all = fetches@;
        let mut fs = fetches;
        let mut reports: Vec<SourceReport> = Vec::new();
        proof {
            assert(all.subrange(0, 0) =~= Seq::<(MarketSource, FetchOutcome)>::empty());
            assert(all.subrange(0, all.len() as int) =~= all);
            lemma_total_fetched_nonneg(all);
        }
        while fs.len() > 0
            invariant
                store@.wf(),
                reports@.len() + fs@.len() == all.len(),
                forall|i: int|
                    0 <= i < fs@.len() ==> #[trigger] fs@[i] == all[reports@.len() + i],
                forall|i: int|
                    0 <= i < reports@.len() ==> report_matches(all[i], #[trigger] reports@[i]),
                store@ == cycle_fold(pre, all.subrange(0, reports@.len() as int), now),
                store@.next_market_id + total_fetched(all.subrange(reports@.len() as int, all.len() as int)) < u64::MAX,
                store@.next_history_id + total_fetched(all.subrange(reports@.len() as int, all.len() as int)) < u64::MAX,
                forall|i: int, j: int|
                    0 <= i < reports@.len() && 0 <= j < fetched_views(all[i].1).len()
                        ==> #[trigger] store@.contains_key(fetched_views(all[i].1)[j].key()),
            decreases fs.len(),
        {
            let ghost k = reports@.len() as int;
            let ghost done = all.subrange(0, k);
            let ghost rest = all.subrange(k, all.len() as int);
            proof {
                assert(rest[0] == all[k]);
                assert(rest.drop_first() =~= all.subrange(k + 1, all.len() as int));
                lemma_total_fetched_nonneg(rest.drop_first());
                lemma_cycle_fold_snoc(pre, done, all[k], now);
                assert(done.push(all[k]) =~= all.subrange(0, k + 1));
            }
            let (source, outcome) = fs.remove(0);
            let ghost prev = store@;
            let report = match outcome {
                FetchOutcome::Fetched(ms) => {
                    let n = ms.len();
                    proof {
                        lemma_record_all_wf(store@, fetched_views(all[k].1), now);
                    }
                    let count = self.recorder.record_markets_batch(store, ms, now);
                    SourceReport { source, result: Ok(count) }
                },
                FetchOutcome::Failed(why) => {
                    proof {
                        assert(fetched_views(all[k].1) =~= Seq::<CreateMarketData>::empty());
                        assert(store@.record_all(fetched_views(all[k].1), now) == store@);
                    }
                    SourceReport { source, result: Err(why) }
                },
            };
            proof {
                assert(store@ == prev.record_all(fetched_views(all[k].1), now));
                lemma_record_all_wf(prev, fetched_views(all[k].1), now);
                assert forall|i: int, j: int|
                    0 <= i < k + 1 && 0 <= j < fetched_views(all[i].1).len()
                        implies #[trigger] store@.contains_key(
                        fetched_views(all[i].1)[j].key(),
                    ) by {
                    if i < k {
                        assert(prev.contains_key(fetched_views(all[i].1)[j].key()));
                    }
                }
            }
            reports.push(report);
        }
        proof {
            assert(all.subrange(0, all.len() as int) =~= all);
        }
        reports
    }
}

proof fn lemma_total_fetched_nonneg(fs: Seq<(MarketSource, FetchOutcome)>)
    ensures
        total_fetched(fs) >= 0,
        fs.len() > 0 ==> total_fetched(fs) == fetched_views(fs[0].1).len() + total_fetched(
            fs.drop_first(),
        ),
    decreases fs.len(),
{
    if fs.len() > 0 {
        lemma_total_fetched_nonneg(fs.drop_first());
    }
}

/// The scheduler's control state: idle between ticks, or working through
/// the sources of the current cycle, or stopped for good.
#[derive(Clone, Copy, Debug, PartialEq, Eq, Structural)]
pub enum SchedulerState {
    /// Waiting for the next interval tick.
    Idle,
    /// A fetch for the source at this cycle position is outstanding.
    Collecting(usize),
    /// Recording the batch fetched for the source at this cycle position.
    Recording(usize),
    /// Pacing before the next source's fetch.
    Pacing(usize),
    /// The worker is disabled; no cycle ever runs.
    Stopped,
}

/// What the control loop must do next.
#[derive(Clone, Copy, Debug, PartialEq, Eq, Structural)]
pub enum SchedulerAction {
    /// Exit the worker without entering the loop.
    Exit,
    /// Wait until the interval timer next fires.
    WaitTick,
    /// Fetch from the source at this cycle position.
    Fetch(usize),
    /// Hand the fetched batch to the recorder.
    Record(usize),
    /// Sleep the inter-source pacing delay (milliseconds).
    Sleep(u64),
    /// Keep waiting for the work already in flight.
    Continue,
}

/// What just happened in the control loop.
#[derive(Clone, Copy, Debug, PartialEq, Eq, Structural)]
pub enum SchedulerEvent {
    /// The interval timer fired.
    TickFired,
    /// The outstanding fetch finished (successfully or not).
    FetchFinished,
    /// The recorder finished with the current batch.
    BatchRecorded,
    /// The pacing delay elapsed.
    PauseElapsed,
    /// Termination was requested: an idle worker exits at once, a working
    /// one lets the in-flight cycle finish and then exits.
    StopRequested,
}

/// The inter-source pacing delay, in milliseconds.
pub const PACING_MILLIS: u64 = 500;

impl Scheduler {
    /// Start-up decision: a disabled worker stops before the loop; an
    /// enabled one goes idle and waits for the first tick.
    pub fn on_start(&self) -> (r: (SchedulerState, SchedulerAction))
        ensures
            self.config.enabled ==> r == (SchedulerState::Idle, SchedulerAction::WaitTick),
            !self.config.enabled ==> r == (SchedulerState::Stopped, SchedulerAction::Exit),
    {
        if self.config.enabled {
            (SchedulerState::Idle, SchedulerAction::WaitTick)
        } else {
            (SchedulerState::Stopped, SchedulerAction::Exit)
        }
    }

    /// One transition of the control-state machine for a cycle over
    /// `n_sources` sources; `stop_pending` records a termination request
    /// that arrived mid-cycle. A tick starts the cycle at source 0; each
    /// source is fetched then recorded; between sources the loop sleeps
    /// the pacing delay; after the last source the loop goes idle until
    /// the next tick — or exits, when a stop is pending. A fetch failure
    /// is a `FetchFinished` event like any other: the cycle continues
    /// with the next source. A stop request exits an idle worker at once
    /// and otherwise lets the in-flight cycle finish. Events that cannot
    /// occur in a state leave it unchanged and wait for the tick.
    pub fn step(
        &self,
        state: SchedulerState,
        stop_pending: bool,
        event: SchedulerEvent,
        n_sources: usize,
    ) -> (r: (SchedulerState, bool, SchedulerAction))
        requires
            n_sources > 0,
        ensures
            state == SchedulerState::Stopped ==> r == (
                SchedulerState::Stopped,
                stop_pending,
                SchedulerAction::Exit,
            ),
            state == SchedulerState::Idle && event == SchedulerEvent::TickFired ==> r == (
                SchedulerState::Collecting(0usize),
                stop_pending,
                SchedulerAction::Fetch(0usize),
            ),
            state == SchedulerState::Idle && event == SchedulerEvent::StopRequested ==> r == (
                SchedulerState::Stopped,
                stop_pending,
                SchedulerAction::Exit,
            ),
            state != SchedulerState::Idle && state != SchedulerState::Stopped && event
                == SchedulerEvent::StopRequested ==> r == (
                state,
                true,
                SchedulerAction::Continue,
            ),
            forall|i: usize|
                state == SchedulerState::Collecting(i) && event == SchedulerEvent::FetchFinished
                    ==> r == (
                    SchedulerState::Recording(i),
                    stop_pending,
                    SchedulerAction::Record(i),
                ),
            forall|i: usize|
                state == SchedulerState::Recording(i) && event == SchedulerEvent::BatchRecorded
                    ==> r == (if i + 1 < n_sources {
                    (SchedulerState::Pacing(i), stop_pending, SchedulerAction::Sleep(PACING_MILLIS))
                } else if stop_pending {
                    (SchedulerState::Stopped, stop_pending, SchedulerAction::Exit)
                } else {
                    (SchedulerState::Idle, stop_pending, SchedulerAction::WaitTick)
                }),
            forall|i: usize|
                state == SchedulerState::Pacing(i) && event == SchedulerEvent::PauseElapsed && i
                    + 1 < n_sources ==> r == (
                    SchedulerState::Collecting((i + 1) as usize),
                    stop_pending,
                    SchedulerAction::Fetch((i + 1) as usize),
                ),
    {
        match (state, event) {
            (SchedulerState::Stopped, _) => (
                SchedulerState::Stopped,
                stop_pending,
                SchedulerAction::Exit,
            ),
            (SchedulerState::Idle, SchedulerEvent::TickFired) => (
                SchedulerState::Collecting(0),
                stop_pending,
                SchedulerAction::Fetch(0),
            ),
            (SchedulerState::Idle, SchedulerEvent::StopRequested) => (
                SchedulerState::Stopped,
                stop_pending,
                SchedulerAction::Exit,
            ),
            (s, SchedulerEvent::StopRequested) => (s, true, SchedulerAction::Continue),
            (SchedulerState::Collecting(i), SchedulerEvent::FetchFinished) => (
                SchedulerState::Recording(i),
                stop_pending,
                SchedulerAction::Record(i),
            ),
            (SchedulerState::Recording(i), SchedulerEvent::BatchRecorded) => {
                if i < n_sources - 1 {
                    (
                        SchedulerState::Pacing(i),
                        stop_pending,
                        SchedulerAction::Sleep(PACING_MILLIS),
                    )
                } else if stop_pending {
                    (SchedulerState::Stopped, stop_pending, SchedulerAction::Exit)
                } else {
                    (SchedulerState::Idle, stop_pending, SchedulerAction::WaitTick)
                }
            },
            (SchedulerState::Pacing(i), SchedulerEvent::PauseElapsed) => {
                if i < n_sources - 1 {
                    (
                        SchedulerState::Collecting(i + 1),
                        stop_pending,
                        SchedulerAction::Fetch(i + 1),
                    )
                } else if stop_pending {
                    (SchedulerState::Stopped, stop_pending, SchedulerAction::Exit)
                } else {
                    (SchedulerState::Idle, stop_pending, SchedulerAction::WaitTick)
                }
            },
            (s, _) => (s, stop_pending, SchedulerAction::WaitTick),
        }
    }
}

} // verus!
