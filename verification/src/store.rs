//! The persistence model: market rows unique on the `(source, source_id)`
//! conflict key with atomic insert-or-update resolution, and append-only
//! price history unique on `(market_id, recorded_at)`.

use vstd::prelude::*;

use crate::models::{CreateMarket, CreateMarketData, Market, MarketData, PriceHistory, UpdateMarket, UpdateMarketData};

verus! {

/// Reasons a store operation fails.
#[derive(Clone, Copy, Debug, PartialEq, Eq, Structural)]
pub enum StoreError {
    /// No market row has the requested id.
    NotFound,
    /// The row's unique key is already taken.
    Conflict,
}

/// Mathematical view of the store.
#[verifier::ext_equal]
pub ghost struct StoreData {
    pub markets: Seq<MarketData>,
    pub history: Seq<PriceHistory>,
    pub next_market_id: u64,
    pub next_history_id: u64,
}

/// The store: market rows and price-history rows, with the id counters the
/// row identifiers are drawn from. Mutate it through its methods: they
/// keep `wf` (unique conflict keys, unique ids, unique snapshot keys).
pub struct Store {
    pub markets: Vec<Market>,
    pub history: Vec<PriceHistory>,
    pub next_market_id: u64,
    pub next_history_id: u64,
}

impl View for Store {
    type V = StoreData;

    open spec fn view(&self) -> StoreData {
        StoreData {
            markets: self.markets@.map_values(|m: Market| m@),
            history: self.history@,
            next_market_id: self.next_market_id,
            next_history_id: self.next_history_id,
        }
    }
}

/// The row an upsert writes over an existing row: mutable fields (title
/// and description are soft-mutable and refreshed too) come from the
/// creation record; identity fields, category, tags, url and created_at
/// stay.
pub open spec fn merged_row(row: MarketData, m: CreateMarketData, now: i64) -> MarketData {
    MarketData {
        title: m.title,
        description: m.description,
        yes_price: m.yes_price,
        no_price: m.no_price,
        volume: m.volume,
        volume_24h: m.volume_24h,
        liquidity: m.liquidity,
        status: m.status,
        close_at: m.close_at,
        updated_at: now,
        ..row
    }
}

/// The row a first insert writes: every field from the creation record,
/// the given fresh id, and both timestamps set to the insert time.
pub open spec fn new_row(m: CreateMarketData, id: u64, now: i64) -> MarketData {
    MarketData {
        id,
        source_id: m.source_id,
        source: m.source,
        title: m.title,
        description: m.description,
        category: m.category,
        tags: m.tags,
        yes_price: m.yes_price,
        no_price: m.no_price,
        volume: m.volume,
        volume_24h: m.volume_24h,
        liquidity: m.liquidity,
        status: m.status,
        created_at: now,
        updated_at: now,
        close_at: m.close_at,
        url: m.url,
    }
}

/// The row an update writes: provided fields replace stored ones, absent
/// fields keep their stored values.
pub open spec fn updated_row(row: MarketData, u: UpdateMarketData, now: i64) -> MarketData {
    MarketData {
        yes_price: match u.yes_price {
            Some(p) => p,
            None => row.yes_price,
        },
        no_price: match u.no_price {
            Some(p) => p,
            None => row.no_price,
        },
        volume: match u.volume {
            Some(v) => v,
            None => row.volume,
        },
        volume_24h: match u.volume_24h {
            Some(v) => v,
            None => row.volume_24h,
        },
        liquidity: match u.liquidity {
            Some(l) => Some(l),
            None => row.liquidity,
        },
        status: match u.status {
            Some(s) => s,
            None => row.status,
        },
        close_at: match u.close_at {
            Some(c) => Some(c),
            None => row.close_at,
        },
        updated_at: now,
        ..row
    }
}

/// The snapshot row recorded for a market's current state.
pub open spec fn snapshot_row(market_id: u64, m: MarketData, id: u64, at: i64) -> PriceHistory {
    PriceHistory {
        id,
        market_id,
        yes_price: m.yes_price,
        no_price: m.no_price,
        volume: m.volume,
        volume_24h: m.volume_24h,
        liquidity: m.liquidity,
        recorded_at: at,
    }
}

impl StoreData {
    /// Some market row bears this conflict key.
    pub open spec fn contains_key(self, key: (Seq<char>, Seq<char>)) -> bool {
        exists|i: int|
            0 <= i < self.markets.len() && (#[trigger] self.markets[i]).key() == key
    }

    /// The index of the row bearing this conflict key (unique under `wf`).
    pub open spec fn key_index(self, key: (Seq<char>, Seq<char>)) -> int {
        choose|i: int|
            0 <= i < self.markets.len() && (#[trigger] self.markets[i]).key() == key
    }

    /// Some market row bears this row id.
    pub open spec fn contains_id(self, id: u64) -> bool {
        exists|i: int| 0 <= i < self.markets.len() && (#[trigger] self.markets[i]).id == id
    }

    /// The index of the row bearing this row id (unique under `wf`).
    pub open spec fn id_index(self, id: u64) -> int {
        choose|i: int| 0 <= i < self.markets.len() && (#[trigger] self.markets[i]).id == id
    }

    /// A snapshot for this market already bears this timestamp.
    pub open spec fn has_snapshot(self, market_id: u64, at: i64) -> bool {
        exists|i: int|
            0 <= i < self.history.len() && (#[trigger] self.history[i]).market_id == market_id
                && self.history[i].recorded_at == at
    }

    /// Well-formedness: conflict keys unique, row ids unique and below the
    /// id counters, snapshot `(market_id, recorded_at)` keys unique.
    pub open spec fn wf(self) -> bool {
        &&& forall|i: int, j: int|
            0 <= i < j < self.markets.len() ==> (#[trigger] self.markets[i]).key() != (
            #[trigger] self.markets[j]).key()
        &&& forall|i: int, j: int|
            0 <= i < j < self.markets.len() ==> (#[trigger] self.markets[i]).id != (
            #[trigger] self.markets[j]).id
        &&& forall|i: int|
            0 <= i < self.markets.len() ==> (#[trigger] self.markets[i]).id
                < self.next_market_id
        &&& forall|i: int, j: int|
            0 <= i < j < self.history.len() ==> !((#[trigger] self.history[i]).market_id == (
            #[trigger] self.history[j]).market_id && self.history[i].recorded_at
                == self.history[j].recorded_at)
        &&& forall|i: int|
            0 <= i < self.history.len() ==> (#[trigger] self.history[i]).id
                < self.next_history_id
    }

    /// Atomic insert-or-update on the conflict key.
    pub open spec fn upsert(self, m: CreateMarketData, now: i64) -> StoreData {
        if self.contains_key(m.key()) {
            let i = self.key_index(m.key());
            StoreData {
                markets: self.markets.update(i, merged_row(self.markets[i], m, now)),
                ..self
            }
        } else {
            StoreData {
                markets: self.markets.push(new_row(m, self.next_market_id, now)),
                next_market_id: (self.next_market_id + 1) as u64,
                ..self
            }
        }
    }

    /// The row the upsert leaves for the record's conflict key.
    pub open spec fn upserted_row(self, m: CreateMarketData, now: i64) -> MarketData {
        if self.contains_key(m.key()) {
            merged_row(self.markets[self.key_index(m.key())], m, now)
        } else {
            new_row(m, self.next_market_id, now)
        }
    }

    /// Best-effort snapshot append: a no-op when the `(market_id,
    /// recorded_at)` key is already taken.
    pub open spec fn add_snapshot(self, row: MarketData, at: i64) -> StoreData {
        if self.has_snapshot(row.id, at) {
            self
        } else {
            StoreData {
                history: self.history.push(
                    snapshot_row(row.id, row, self.next_history_id, at),
                ),
                next_history_id: (self.next_history_id + 1) as u64,
                ..self
            }
        }
    }

    /// One record operation: upsert, then snapshot the resulting row.
    pub open spec fn record(self, m: CreateMarketData, now: i64) -> StoreData {
        self.upsert(m, now).add_snapshot(self.upserted_row(m, now), now)
    }

    /// A batch of record operations, in order.
    pub open spec fn record_all(self, ms: Seq<CreateMarketData>, now: i64) -> StoreData
        decreases ms.len(),
    {
        if ms.len() == 0 {
            self
        } else {
            self.record(ms[0], now).record_all(ms.drop_first(), now)
        }
    }
}

/// Under `wf`, a row's index is the one `key_index` picks for its key.
pub proof fn lemma_key_index(v: StoreData, i: int)
    requires
        v.wf(),
        0 <= i < v.markets.len(),
    ensures
        v.contains_key(v.markets[i].key()),
        v.key_index(v.markets[i].key()) == i,
{
    assert(v.contains_key(v.markets[i].key()));
    let j = v.key_index(v.markets[i].key());
    assert(0 <= j < v.markets.len() && v.markets[j].key() == v.markets[i].key());
    if i < j {
        assert(v.markets[i].key() != v.markets[j].key());
    } else if j < i {
        assert(v.markets[j].key() != v.markets[i].key());
    }
}

/// Under `wf`, a row's index is the one `id_index` picks for its id.
pub proof fn lemma_id_index(v: StoreData, i: int)
    requires
        v.wf(),
        0 <= i < v.markets.len(),
    ensures
        v.contains_id(v.markets[i].id),
        v.id_index(v.markets[i].id) == i,
{
    assert(v.contains_id(v.markets[i].id));
    let j = v.id_index(v.markets[i].id);
    if i < j {
        assert(v.markets[i].id != v.markets[j].id);
    } else if j < i {
        assert(v.markets[j].id != v.markets[i].id);
    }
}

/// An upsert keeps the store well-formed.
pub proof fn lemma_upsert_wf(v: StoreData, m: CreateMarketData, now: i64)
    requires
        v.wf(),
        v.contains_key(m.key()) || v.next_market_id < u64::MAX,
    ensures
        v.upsert(m, now).wf(),
        v.upsert(m, now).contains_key(m.key()),
        v.next_market_id <= v.upsert(m, now).next_market_id <= v.next_market_id + 1,
        v.upsert(m, now).history == v.history,
        v.upsert(m, now).next_history_id == v.next_history_id,
        forall|k: (Seq<char>, Seq<char>)|
            v.contains_key(k) ==> #[trigger] v.upsert(m, now).contains_key(k),
{
    let w = v.upsert(m, now);
    if v.contains_key(m.key()) {
        let i = v.key_index(m.key());
        assert(0 <= i < v.markets.len() && v.markets[i].key() == m.key());
        assert(w.markets[i] == merged_row(v.markets[i], m, now));
        assert(w.markets[i].key() == v.markets[i].key());
        assert forall|a: int, b: int| 0 <= a < b < w.markets.len() implies (
        #[trigger] w.markets[a]).key() != (#[trigger] w.markets[b]).key() && w.markets[a].id
            != w.markets[b].id by {
            assert(v.markets[a].key() != v.markets[b].key());
            assert(w.markets[a].key() == v.markets[a].key());
            assert(w.markets[b].key() == v.markets[b].key());
            assert(w.markets[a].id == v.markets[a].id);
            assert(w.markets[b].id == v.markets[b].id);
        }
        assert forall|a: int| 0 <= a < w.markets.len() implies (#[trigger] w.markets[a]).id
            < w.next_market_id by {
            assert(w.markets[a].id == v.markets[a].id);
        }
        assert forall|k: (Seq<char>, Seq<char>)| v.contains_key(k) implies #[trigger] w.contains_key(
            k,
        ) by {
            let a = choose|a: int|
                0 <= a < v.markets.len() && (#[trigger] v.markets[a]).key() == k;
            assert(w.markets[a].key() == k);
        }
    } else {
        let n = v.markets.len() as int;
        assert(w.markets[n] == new_row(m, v.next_market_id, now));
        assert(w.markets[n].key() == m.key());
        assert forall|a: int, b: int| 0 <= a < b < w.markets.len() implies (
        #[trigger] w.markets[a]).key() != (#[trigger] w.markets[b]).key() && w.markets[a].id
            != w.markets[b].id by {
            if b < n {
                assert(v.markets[a].key() != v.markets[b].key());
            } else {
                assert(b == n);
                assert(w.markets[a] == v.markets[a]);
                assert(v.markets[a].key() != m.key());
                assert(v.markets[a].id < v.next_market_id);
            }
        }
        assert forall|k: (Seq<char>, Seq<char>)| v.contains_key(k) implies #[trigger] w.contains_key(
            k,
        ) by {
            let a = choose|a: int|
                0 <= a < v.markets.len() && (#[trigger] v.markets[a]).key() == k;
            assert(w.markets[a].key() == k);
        }
    }
}

/// A record operation keeps the store well-formed, grows each id counter
/// by at most one, and never loses a conflict key.
pub proof fn lemma_record_wf(v: StoreData, m: CreateMarketData, now: i64)
    requires
        v.wf(),
        v.contains_key(m.key()) || v.next_market_id < u64::MAX,
        v.next_history_id < u64::MAX,
    ensures
        v.record(m, now).wf(),
        v.record(m, now).contains_key(m.key()),
        v.next_market_id <= v.record(m, now).next_market_id <= v.next_market_id + 1,
        v.next_history_id <= v.record(m, now).next_history_id <= v.next_history_id + 1,
        forall|k: (Seq<char>, Seq<char>)|
            v.contains_key(k) ==> #[trigger] v.record(m, now).contains_key(k),
{
    lemma_upsert_wf(v, m, now);
    let w = v.upsert(m, now);
    let row = v.upserted_row(m, now);
    let z = w.add_snapshot(row, now);
    assert(z.markets == w.markets);
    assert(z.next_market_id == w.next_market_id);
    assert forall|k: (Seq<char>, Seq<char>)| v.contains_key(k) implies #[trigger] z.contains_key(
        k,
    ) by {
        assert(w.contains_key(k));
        assert(z.markets == w.markets);
    }
    if !w.has_snapshot(row.id, now) {
        let n = w.history.len() as int;
        assert forall|a: int, b: int| 0 <= a < b < z.history.len() implies !((
        #[trigger] z.history[a]).market_id == (#[trigger] z.history[b]).market_id
            && z.history[a].recorded_at == z.history[b].recorded_at) by {
            if b < n {
                assert(w.history[a] == z.history[a]);
                assert(w.history[b] == z.history[b]);
            } else {
                assert(b == n);
                assert(z.history[a] == w.history[a]);
            }
        }
        assert forall|a: int| 0 <= a < z.history.len() implies (#[trigger] z.history[a]).id
            < z.next_history_id by {
            if a < n {
                assert(z.history[a] == w.history[a]);
            }
        }
    }
}

/// Recording a batch element by element equals recording the batch.
pub proof fn lemma_record_all_snoc(v: StoreData, ms: Seq<CreateMarketData>, m: CreateMarketData, now: i64)
    ensures
        v.record_all(ms.push(m), now) == v.record_all(ms, now).record(m, now),
    decreases ms.len(),
{
    if ms.len() == 0 {
        assert(ms.push(m)[0] == m);
        assert(ms.push(m).drop_first() =~= Seq::<CreateMarketData>::empty());
        assert(v.record_all(ms.push(m), now) == v.record(m, now).record_all(
            Seq::<CreateMarketData>::empty(),
            now,
        ));
    } else {
        assert(ms.push(m)[0] == ms[0]);
        assert(ms.push(m).drop_first() =~= ms.drop_first().push(m));
        lemma_record_all_snoc(v.record(ms[0], now), ms.drop_first(), m, now);
    }
}

/// Recording a whole batch keeps the store well-formed, grows each id
/// counter by at most the batch size, loses no conflict key, and leaves
/// every batch record's conflict key present.
pub proof fn lemma_record_all_wf(v: StoreData, ms: Seq<CreateMarketData>, now: i64)
    requires
        v.wf(),
        v.next_market_id + ms.len() < u64::MAX,
        v.next_history_id + ms.len() < u64::MAX,
    ensures
        v.record_all(ms, now).wf(),
        v.record_all(ms, now).next_market_id <= v.next_market_id + ms.len(),
        v.record_all(ms, now).next_history_id <= v.next_history_id + ms.len(),
        forall|k: (Seq<char>, Seq<char>)|
            v.contains_key(k) ==> #[trigger] v.record_all(ms, now).contains_key(k),
        forall|i: int|
            0 <= i < ms.len() ==> #[trigger] v.record_all(ms, now).contains_key(ms[i].key()),
    decreases ms.len(),
{
    if ms.len() > 0 {
        lemma_record_wf(v, ms[0], now);
        let v1 = v.record(ms[0], now);
        lemma_record_all_wf(v1, ms.drop_first(), now);
        let w = v.record_all(ms, now);
        assert(w == v1.record_all(ms.drop_first(), now));
        assert forall|i: int| 0 <= i < ms.len() implies #[trigger] w.contains_key(
            ms[i].key(),
        ) by {
            if i == 0 {
                assert(v1.contains_key(ms[0].key()));
            } else {
                assert(w.contains_key(ms.drop_first()[i - 1].key()));
                assert(ms.drop_first()[i - 1] == ms[i]);
            }
        }
    }
}

/// Idempotent upsert: two upserts with the same conflict key, starting
/// from a store without that key, leave exactly one row for the key. The
/// row carries the second record's mutable fields and the `created_at` of
/// the first insert, and no second row id is spent.
pub proof fn lemma_upsert_idempotent(
    v: StoreData,
    m1: CreateMarketData,
    m2: CreateMarketData,
    t1: i64,
    t2: i64,
)
    requires
        v.wf(),
        !v.contains_key(m1.key()),
        m2.key() == m1.key(),
        v.next_market_id < u64::MAX,
    ensures
        ({
            let w = v.upsert(m1, t1).upsert(m2, t2);
            let i = w.key_index(m2.key());
            &&& w.markets.len() == v.markets.len() + 1
            &&& w.next_market_id == v.next_market_id + 1
            &&& w.contains_key(m2.key())
            &&& i == v.markets.len()
            &&& w.markets[i].created_at == t1
            &&& w.markets[i].updated_at == t2
            &&& w.markets[i].id == v.next_market_id
            &&& w.markets[i].title == m2.title
            &&& w.markets[i].description == m2.description
            &&& w.markets[i].yes_price == m2.yes_price
            &&& w.markets[i].no_price == m2.no_price
            &&& w.markets[i].volume == m2.volume
            &&& w.markets[i].volume_24h == m2.volume_24h
            &&& w.markets[i].liquidity == m2.liquidity
            &&& w.markets[i].status == m2.status
            &&& w.markets[i].close_at == m2.close_at
        }),
{
    let v1 = v.upsert(m1, t1);
    lemma_upsert_wf(v, m1, t1);
    let n = v.markets.len() as int;
    assert(v1.markets[n] == new_row(m1, v.next_market_id, t1));
    assert(v1.markets[n].key() == m1.key());
    lemma_key_index(v1, n);
    assert(v1.contains_key(m2.key()));
    assert(v1.key_index(m2.key()) == n);
    let w = v1.upsert(m2, t2);
    lemma_upsert_wf(v1, m2, t2);
    assert(w.markets[n] == merged_row(v1.markets[n], m2, t2));
    assert(w.markets[n].key() == m2.key());
    lemma_key_index(w, n);
}

/// Idempotent recording: recording two creation records with identical
/// conflict keys but differing mutable fields, starting from a store
/// without that key, yields exactly one market row, holding the second
/// record's mutable values and the unchanged `created_at` of the first
/// insert.
pub proof fn lemma_record_idempotent(
    v: StoreData,
    m1: CreateMarketData,
    m2: CreateMarketData,
    t1: i64,
    t2: i64,
)
    requires
        v.wf(),
        !v.contains_key(m1.key()),
        m2.key() == m1.key(),
        v.next_market_id < u64::MAX,
        v.next_history_id < u64::MAX - 1,
    ensures
        ({
            let w = v.record(m1, t1).record(m2, t2);
            let i = w.key_index(m2.key());
            &&& w.markets.len() == v.markets.len() + 1
            &&& w.next_market_id == v.next_market_id + 1
            &&& w.contains_key(m2.key())
            &&& i == v.markets.len()
            &&& w.markets[i].created_at == t1
            &&& w.markets[i].updated_at == t2
            &&& w.markets[i].id == v.next_market_id
            &&& w.markets[i].title == m2.title
            &&& w.markets[i].description == m2.description
            &&& w.markets[i].yes_price == m2.yes_price
            &&& w.markets[i].no_price == m2.no_price
            &&& w.markets[i].volume == m2.volume
            &&& w.markets[i].volume_24h == m2.volume_24h
            &&& w.markets[i].liquidity == m2.liquidity
            &&& w.markets[i].status == m2.status
            &&& w.markets[i].close_at == m2.close_at
        }),
{
    lemma_record_wf(v, m1, t1);
    let v1 = v.record(m1, t1);
    let u1 = v.upsert(m1, t1);
    assert(v1.markets == u1.markets);
    assert(v1.next_market_id == u1.next_market_id);
    let n = v.markets.len() as int;
    assert(u1.markets[n] == new_row(m1, v.next_market_id, t1));
    assert(v1.markets[n].key() == m1.key());
    lemma_key_index(v1, n);
    assert(v1.contains_key(m2.key()));
    assert(v1.key_index(m2.key()) == n);
    lemma_record_wf(v1, m2, t2);
    let w = v1.record(m2, t2);
    let u2 = v1.upsert(m2, t2);
    assert(w.markets == u2.markets);
    assert(w.next_market_id == u2.next_market_id);
    assert(u2.markets[n] == merged_row(v1.markets[n], m2, t2));
    assert(w.markets[n].key() == m2.key());
    lemma_key_index(w, n);
}

impl Store {
    /// An empty store.
    pub fn new() -> (s: Store)
        ensures
            s@.wf(),
            s@.markets.len() == 0,
            s@.history.len() == 0,
            s@.next_market_id == 1,
            s@.next_history_id == 1,
    {
        let s = Store { markets: Vec::new(), history: Vec::new(), next_market_id: 1, next_history_id: 1 };
        proof {
            assert(s@.markets =~= Seq::<MarketData>::empty());
        }
        s
    }

    /// The index of the row with this conflict key, if any.
    fn find_key(&self, source: &String, source_id: &String) -> (r: Option<usize>)
        ensures
            match r {
                Some(i) => i < self.markets.len() && self@.markets[i as int].key() == (
                    source@,
                    source_id@,
                ),
                None => !self@.contains_key((source@, source_id@)),
            },
    {
        let n = self.markets.len();
        let mut i: usize = 0;
        while i < n
            invariant
                0 <= i <= n,
                n == self.markets.len(),
                forall|j: int|
                    0 <= j < i ==> (#[trigger] self@.markets[j]).key() != (source@, source_id@),
            decreases n - i,
        {
            let same_source = self.markets[i].source == *source;
            let same_source_id = self.markets[i].source_id == *source_id;
            if same_source && same_source_id {
                return Some(i);
            }
            i += 1;
        }
        None
    }

    /// The index of the row with this id, if any.
    fn find_id(&self, id: u64) -> (r: Option<usize>)
        requires
            self@.wf(),
        ensures
            match r {
                Some(i) => i < self.markets.len() && self@.contains_id(id) && self@.id_index(id)
                    == i,
                None => !self@.contains_id(id),
            },
    {
        let n = self.markets.len();
        let mut i: usize = 0;
        while i < n
            invariant
                self@.wf(),
                0 <= i <= n,
                n == self.markets.len(),
                forall|j: int| 0 <= j < i ==> (#[trigger] self@.markets[j]).id != id,
            decreases n - i,
        {
            if self.markets[i].id == id {
                proof {
                    lemma_id_index(self@, i as int);
                }
                return Some(i);
            }
            i += 1;
        }
        None
    }

    /// Atomic upsert keyed by `(source, source_id)`: on first insert all
    /// fields are set and `created_at` is `now`; on conflict only the
    /// mutable fields (title and description included) are overwritten and
    /// `created_at` is untouched. Returns the post-upsert row.
    pub fn create(&mut self, market: CreateMarket, now: i64) -> (r: Market)
        requires
            old(self)@.wf(),
            old(self)@.next_market_id < u64::MAX,
        ensures
            final(self)@ == old(self)@.upsert(market@, now),
            final(self)@.wf(),
            r@ == old(self)@.upserted_row(market@, now),
    {
        let ghost pre = self@;
        proof {
            lemma_upsert_wf(pre, market@, now);
        }
        match self.find_key(&market.source, &market.source_id) {
            Some(i) => {
                proof {
                    lemma_key_index(pre, i as int);
                }
                let old_row = self.markets[i].duplicate();
                let row = Market {
                    id: old_row.id,
                    source_id: old_row.source_id,
                    source: old_row.source,
                    title: market.title,
                    description: market.description,
                    category: old_row.category,
                    tags: old_row.tags,
                    yes_price: market.yes_price,
                    no_price: market.no_price,
                    volume: market.volume,
                    volume_24h: market.volume_24h,
                    liquidity: market.liquidity,
                    status: market.status,
                    created_at: old_row.created_at,
                    updated_at: now,
                    close_at: market.close_at,
                    url: old_row.url,
                };
                assert(row@ =~= merged_row(pre.markets[i as int], market@, now));
                let ret = row.duplicate();
                self.markets.remove(i);
                self.markets.insert(i, row);
                proof {
                    assert(self.markets@ =~= old(self).markets@.update(i as int, row));
                    assert(self@.markets =~= pre.markets.update(i as int, row@));
                    assert(self@ =~= pre.upsert(market@, now));
                }
                ret
            },
            None => {
                let id = self.next_market_id;
                let row = Market {
                    id,
                    source_id: market.source_id,
                    source: market.source,
                    title: market.title,
                    description: market.description,
                    category: market.category,
                    tags: market.tags,
                    yes_price: market.yes_price,
                    no_price: market.no_price,
                    volume: market.volume,
                    volume_24h: market.volume_24h,
                    liquidity: market.liquidity,
                    status: market.status,
                    created_at: now,
                    updated_at: now,
                    close_at: market.close_at,
                    url: market.url,
                };
                assert(row@ =~= new_row(market@, id, now));
                let ret = row.duplicate();
                self.markets.push(row);
                self.next_market_id = id + 1;
                proof {
                    assert(self@.markets =~= pre.markets.push(row@));
                    assert(self@ =~= pre.upsert(market@, now));
                }
                ret
            },
        }
    }

    /// The row with this id, or `NotFound`.
    pub fn get_by_id(&self, id: u64) -> (r: Result<Market, StoreError>)
        requires
            self@.wf(),
        ensures
            match r {
                Ok(m) => self@.contains_id(id) && m@ == self@.markets[self@.id_index(id)],
                Err(e) => e == StoreError::NotFound && !self@.contains_id(id),
            },
    {
        let n = self.markets.len();
        let mut i: usize = 0;
        while i < n
            invariant
                self@.wf(),
                0 <= i <= n,
                n == self.markets.len(),
                forall|j: int| 0 <= j < i ==> (#[trigger] self@.markets[j]).id != id,
            decreases n - i,
        {
            if self.markets[i].id == id {
                let m = self.markets[i].duplicate();
                proof {
                    lemma_id_index(self@, i as int);
                }
                return Ok(m);
            }
            i += 1;
        }
        Err(StoreError::NotFound)
    }

    /// Overwrite the provided fields of the row with this id, keeping the
    /// absent ones; `NotFound` when no row has the id, leaving the store
    /// unchanged.
    pub fn update(&mut self, id: u64, update: UpdateMarket, now: i64) -> (r: Result<
        Market,
        StoreError,
    >)
        requires
            old(self)@.wf(),
        ensures
            final(self)@.wf(),
            match r {
                Ok(m) => {
                    &&& old(self)@.contains_id(id)
                    &&& m@ == updated_row(
                        old(self)@.markets[old(self)@.id_index(id)],
                        update@,
                        now,
                    )
                    &&& final(self)@ == StoreData {
                        markets: old(self)@.markets.update(old(self)@.id_index(id), m@),
                        ..old(self)@
                    }
                },
                Err(e) => {
                    &&& e == StoreError::NotFound
                    &&& !old(self)@.contains_id(id)
                    &&& final(self)@ == old(self)@
                },
            },
    {
        let ghost pre = self@;
        let idx = match self.find_id(id) {
            Some(i) => i,
            None => {
                return Err(StoreError::NotFound);
            },
        };
        let i = idx;
        let old_row = self.markets[i].duplicate();
        let row = Market {
            id: old_row.id,
            source_id: old_row.source_id,
            source: old_row.source,
            title: old_row.title,
            description: old_row.description,
            category: old_row.category,
            tags: old_row.tags,
            yes_price: match update.yes_price {
                Some(p) => p,
                None => old_row.yes_price,
            },
            no_price: match update.no_price {
                Some(p) => p,
                None => old_row.no_price,
            },
            volume: match update.volume {
                Some(v) => v,
                None => old_row.volume,
            },
            volume_24h: match update.volume_24h {
                Some(v) => v,
                None => old_row.volume_24h,
            },
            liquidity: match update.liquidity {
                Some(l) => Some(l),
                None => old_row.liquidity,
            },
            status: match update.status {
                Some(s) => s,
                None => old_row.status,
            },
            created_at: old_row.created_at,
            updated_at: now,
            close_at: match update.close_at {
                Some(c) => Some(c),
                None => old_row.close_at,
            },
            url: old_row.url,
        };
        assert(row@ =~= updated_row(pre.markets[i as int], update@, now));
        let ret = row.duplicate();
        self.markets.remove(i);
        self.markets.insert(i, row);
        proof {
            assert(self.markets@ =~= old(self).markets@.update(i as int, row));
            assert(self@.markets =~= pre.markets.update(i as int, row@));
            assert(self@ =~= StoreData { markets: pre.markets.update(pre.id_index(id), row@), ..pre });
            assert forall|a: int, b: int| 0 <= a < b < self@.markets.len() implies (
            #[trigger] self@.markets[a]).key() != (#[trigger] self@.markets[b]).key()
                && self@.markets[a].id != self@.markets[b].id by {
                assert(pre.markets[a].key() != pre.markets[b].key());
                assert(self@.markets[a].key() == pre.markets[a].key());
                assert(self@.markets[b].key() == pre.markets[b].key());
                assert(self@.markets[a].id == pre.markets[a].id);
                assert(self@.markets[b].id == pre.markets[b].id);
            }
            assert forall|a: int| 0 <= a < self@.markets.len() implies (
            #[trigger] self@.markets[a]).id < self@.next_market_id by {
                assert(self@.markets[a].id == pre.markets[a].id);
            }
        }
        Ok(ret)
    }

    /// Append one snapshot
    /// Append one snapshot of the market's current state, timestamped
    /// `now`; `Conflict` when a snapshot for `market_id` already bears this
    /// exact timestamp, leaving the store unchanged.
    pub fn record_snapshot(&mut self, market_id: u64, market: &Market, now: i64) -> (r: Result<
        PriceHistory,
        StoreError,
    >)
        requires
            old(self)@.wf(),
            old(self)@.next_history_id < u64::MAX,
        ensures
            final(self)@.wf(),
            final(self)@.markets == old(self)@.markets,
            final(self)@.next_market_id == old(self)@.next_market_id,
            match r {
                Ok(h) => {
                    &&& !old(self)@.has_snapshot(market_id, now)
                    &&& h == snapshot_row(market_id, market@, old(self)@.next_history_id, now)
                    &&& final(self)@ == StoreData {
                        history: old(self)@.history.push(h),
                        next_history_id: (old(self)@.next_history_id + 1) as u64,
                        ..old(self)@
                    }
                },
                Err(e) => {
                    &&& e == StoreError::Conflict
                    &&& old(self)@.has_snapshot(market_id, now)
                    &&& final(self)@ == old(self)@
                },
            },
    {
        let ghost pre = self@;
        let n = self.history.len();
        let mut i: usize = 0;
        while i < n
            invariant
                self@ == pre,
                pre.wf(),
                0 <= i <= n,
                n == self.history.len(),
                forall|j: int|
                    0 <= j < i ==> !((#[trigger] self@.history[j]).market_id == market_id
                        && self@.history[j].recorded_at == now),
            decreases n - i,
        {
            let h = self.history[i];
            if h.market_id == market_id && h.recorded_at == now {
                return Err(StoreError::Conflict);
            }
            i += 1;
        }
        let snap = PriceHistory {
            id: self.next_history_id,
            market_id,
            yes_price: market.yes_price,
            no_price: market.no_price,
            volume: market.volume,
            volume_24h: market.volume_24h,
            liquidity: market.liquidity,
            recorded_at: now,
        };
        self.history.push(snap);
        self.next_history_id = self.next_history_id + 1;
        proof {
            let z = self@;
            assert(z.history == pre.history.push(snap));
            let hn = pre.history.len() as int;
            assert forall|a: int, b: int| 0 <= a < b < z.history.len() implies !((
            #[trigger] z.history[a]).market_id == (#[trigger] z.history[b]).market_id
                && z.history[a].recorded_at == z.history[b].recorded_at) by {
                if b < hn {
                    assert(z.history[a] == pre.history[a]);
                    assert(z.history[b] == pre.history[b]);
                } else {
                    assert(b == hn);
                    assert(z.history[a] == pre.history[a]);
                }
            }
            assert forall|a: int| 0 <= a < z.history.len() implies (#[trigger] z.history[a]).id
                < z.next_history_id by {
                if a < hn {
                    assert(z.history[a] == pre.history[a]);
                }
            }
            assert(z =~= StoreData {
                history: pre.history.push(snap),
                next_history_id: (pre.next_history_id + 1) as u64,
                ..pre
            });
        }
        Ok(snap)
    }
}

} // verus!
