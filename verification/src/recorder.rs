//! The recorder: idempotent market upsert plus best-effort price-snapshot
//! append, and batch recording with per-record success accounting.

use vstd::prelude::*;

use crate::models::{CreateMarket, CreateMarketData, Market};
use crate::store::{lemma_record_all_snoc, lemma_record_wf, Store};

verus! {

/// Records creation records into a store.
pub struct MarketRecorder {}

impl MarketRecorder {
    pub fn new() -> (r: Self) {
        MarketRecorder {  }
    }

    /// Upsert the market on its conflict key, then append one price
    /// snapshot of the resulting row. The snapshot is best-effort
    /// telemetry: a timestamp conflict leaves the history untouched and
    /// never rolls back the upsert. Returns the post-upsert row.
    pub fn record_market(&self, store: &mut Store, market: CreateMarket, now: i64) -> (r: Market)
        requires
            old(store)@.wf(),
            old(store)@.next_market_id < u64::MAX,
            old(store)@.next_history_id < u64::MAX,
        ensures
            final(store)@ == old(store)@.record(market@, now),
            final(store)@.wf(),
            r@ == old(store)@.upserted_row(market@, now),
    {
        let ghost pre = store@;
        proof {
            lemma_record_wf(pre, market@, now);
        }
        let row = store.create(market, now);
        // A Conflict on the snapshot's timestamp key is deliberately
        // swallowed: the upsert stands either way.
        let _ = store.record_snapshot(row.id, &row, now);
        proof {
            let w = pre.upsert(market@, now);
            let urow = pre.upserted_row(market@, now);
            assert(store@ =~= w.add_snapshot(urow, now));
        }
        row
    }

    /// Record a batch of creation records, one by one and in order,
    /// returning how many were recorded. In this store every record
    /// operation succeeds, so the count is the batch size; under a
    /// fallible store the count follows `count_trues` of the per-record
    /// outcomes (see `count_successes`).
    pub fn record_markets_batch(&self, store: &mut Store, markets: Vec<CreateMarket>, now: i64) -> (count: usize)
        requires
            old(store)@.wf(),
            old(store)@.next_market_id + markets@.len() < u64::MAX,
            old(store)@.next_history_id + markets@.len() < u64::MAX,
        ensures
            final(store)@ == old(store)@.record_all(
                markets@.map_values(|m: CreateMarket| m@),
                now,
            ),
            final(store)@.wf(),
            count == markets@.len(),
    {
        let ghost pre = store@;
        let ghost all = markets@.map_values(|m: CreateMarket| m@);
        let mut ms = markets;
        let mut count: usize = 0;
        let total = ms.len();
        proof {
            assert(all.len() == total);
            assert(all.subrange(0, 0) =~= Seq::<CreateMarketData>::empty());
        }
        while ms.len() > 0
            invariant
                store@.wf(),
                count + ms@.len() == all.len(),
                forall|i: int| 0 <= i < ms@.len() ==> (#[trigger] ms@[i])@ == all[count + i],
                store@ == pre.record_all(all.subrange(0, count as int), now),
                all.len() <= usize::MAX,
                store@.next_market_id <= pre.next_market_id + count,
                store@.next_history_id <= pre.next_history_id + count,
                pre.next_market_id + all.len() < u64::MAX,
                pre.next_history_id + all.len() < u64::MAX,
            decreases ms.len(),
        {
            let ghost done = all.subrange(0, count as int);
            let m = ms.remove(0);
            proof {
                lemma_record_wf(store@, m@, now);
                lemma_record_all_snoc(pre, done, m@, now);
                assert(done.push(m@) =~= all.subrange(0, count + 1));
            }
            let _ = self.record_market(store, m, now);
            count += 1;
        }
        proof {
            assert(all.subrange(0, count as int) =~= all);
        }
        count
    }
}

/// Number of `true` entries in a sequence of per-record outcomes.
pub open spec fn count_trues(s: Seq<bool>) -> int
    decreases s.len(),
{
    if s.len() == 0 {
        0
    } else {
        count_trues(s.drop_last()) + (if s.last() {
            1int
        } else {
            0int
        })
    }
}

/// Count how many per-record persistence outcomes succeeded. This is the
/// batch accounting used when the store behind the recorder can fail per
/// item: failed records are excluded from the count and never abort the
/// batch.
pub fn count_successes(outcomes: &Vec<bool>) -> (n: usize)
    ensures
        n == count_trues(outcomes@),
{
    let mut n: usize = 0;
    let mut i: usize = 0;
    proof {
        assert(outcomes@.subrange(0, 0) =~= Seq::<bool>::empty());
        lemma_count_trues_bound(outcomes@);
    }
    while i < outcomes.len()
        invariant
            0 <= i <= outcomes@.len(),
            n == count_trues(outcomes@.subrange(0, i as int)),
            n <= i,
        decreases outcomes@.len() - i,
    {
        proof {
            assert(outcomes@.subrange(0, i + 1).drop_last() =~= outcomes@.subrange(0, i as int));
        }
        if outcomes[i] {
            n += 1;
        }
        i += 1;
    }
    proof {
        assert(outcomes@.subrange(0, outcomes@.len() as int) =~= outcomes@);
    }
    n
}

proof fn lemma_count_trues_bound(s: Seq<bool>)
    ensures
        0 <= count_trues(s) <= s.len(),
    decreases s.len(),
{
    if s.len() > 0 {
        lemma_count_trues_bound(s.drop_last());
    }
}

/// Batch partial failure: when exactly one of the per-record outcomes
/// failed, the batch reports one fewer success than records, and the batch
/// itself still completes with a count rather than an error.
pub proof fn lemma_single_failure(outcomes: Seq<bool>, f: int)
    requires
        0 <= f < outcomes.len(),
        !outcomes[f],
        forall|i: int| 0 <= i < outcomes.len() && i != f ==> outcomes[i],
    ensures
        count_trues(outcomes) == outcomes.len() - 1,
    decreases outcomes.len(),
{
    if outcomes.len() - 1 == f {
        lemma_count_trues_all(outcomes.drop_last());
    } else {
        lemma_single_failure(outcomes.drop_last(), f);
    }
}

/// A batch whose outcomes all succeeded counts every record.
pub proof fn lemma_count_trues_all(s: Seq<bool>)
    requires
        forall|i: int| 0 <= i < s.len() ==> s[i],
    ensures
        count_trues(s) == s.len(),
    decreases s.len(),
{
    if s.len() > 0 {
        lemma_count_trues_all(s.drop_last());
    }
}

} // verus!
