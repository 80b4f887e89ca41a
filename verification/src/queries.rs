//! The query layer served from the store: paged listing over a
//! whitelisted set of sort columns, free-text search ranked by relevance
//! then volume, and per-market history with an optional lookback window.

use vstd::prelude::*;

use crate::models::{Market, MarketData, PriceHistory, SearchResult};
use crate::store::Store;
use crate::text::{fold_seq, fold_str, str_eq};
use vstd::seq_lib::lemma_multiset_commutative;

verus! {

/// Parameters of a list request. Defaults: 20 rows from offset 0, newest
/// created first.
#[derive(Clone, Debug)]
pub struct ListQuery {
    pub limit: i64,
    pub offset: i64,
    pub sort: String,
    pub order: String,
}

impl Default for ListQuery {
    fn default() -> (r: Self)
        ensures
            r.limit == 20,
            r.offset == 0,
            r.sort@ == "created_at"@,
            r.order@ == "desc"@,
    {
        ListQuery {
            limit: 20,
            offset: 0,
            sort: String::from_str("created_at"),
            order: String::from_str("desc"),
        }
    }
}

/// Parameters of a search request. Default: 10 rows, no filters.
#[derive(Clone, Debug)]
pub struct SearchQuery {
    pub q: String,
    pub limit: i64,
    pub source: Option<String>,
    pub status: Option<String>,
}

impl SearchQuery {
    /// A search for this text with the default limit and no filters.
    pub fn new(q: String) -> (r: Self)
        ensures
            r.q@ == q@,
            r.limit == 10,
            r.source is None,
            r.status is None,
    {
        SearchQuery { q, limit: 10, source: None, status: None }
    }
}

/// Parameters of a history request. Defaults: 100 rows, no lookback
/// window.
#[derive(Clone, Copy, Debug)]
pub struct HistoryQuery {
    pub limit: i64,
    pub hours: Option<i64>,
}

impl Default for HistoryQuery {
    fn default() -> (r: Self)
        ensures
            r.limit == 100,
            r.hours is None,
    {
        HistoryQuery { limit: 100, hours: None }
    }
}

/// The whitelisted sort columns; any unrecognized sort name falls back to
/// the creation time.
#[derive(Clone, Copy, Debug, PartialEq, Eq, Structural)]
pub enum SortKey {
    CreatedAt,
    Volume,
    Volume24h,
    CloseAt,
}

/// Sort direction; any unrecognized order name falls back to descending.
#[derive(Clone, Copy, Debug, PartialEq, Eq, Structural)]
pub enum SortOrder {
    Asc,
    Desc,
}

/// The sort column a sort name selects: the whitelist is matched exactly,
/// anything else selects the creation time.
pub open spec fn sort_key_of(s: Seq<char>) -> SortKey {
    if s == "volume"@ {
        SortKey::Volume
    } else if s == "close_at"@ {
        SortKey::CloseAt
    } else if s == "volume_24h"@ {
        SortKey::Volume24h
    } else {
        SortKey::CreatedAt
    }
}

/// The direction an order name selects: `asc` case-insensitively, else
/// descending.
pub open spec fn sort_order_of(s: Seq<char>) -> SortOrder {
    if fold_seq(s) == "asc"@ {
        SortOrder::Asc
    } else {
        SortOrder::Desc
    }
}

/// Map a sort name onto the whitelist.
pub fn parse_sort_key(s: &str) -> (k: SortKey)
    ensures
        k == sort_key_of(s@),
{
    if str_eq(s, "volume") {
        SortKey::Volume
    } else if str_eq(s, "close_at") {
        SortKey::CloseAt
    } else if str_eq(s, "volume_24h") {
        SortKey::Volume24h
    } else {
        SortKey::CreatedAt
    }
}

/// Map an order name onto a direction.
pub fn parse_sort_order(s: &str) -> (o: SortOrder)
    ensures
        o == sort_order_of(s@),
{
    let folded = fold_str(s);
    if str_eq(folded.as_str(), "asc") {
        SortOrder::Asc
    } else {
        SortOrder::Desc
    }
}

/// The value a row sorts by under a column: a null-rank (absent close
/// times sort last whatever the direction) and the column value.
pub open spec fn sort_value(m: MarketData, k: SortKey) -> (int, int) {
    match k {
        SortKey::CreatedAt => (0, m.created_at as int),
        SortKey::Volume => (0, m.volume as int),
        SortKey::Volume24h => (0, m.volume_24h as int),
        SortKey::CloseAt => match m.close_at {
            Some(c) => (0, c as int),
            None => (1, 0),
        },
    }
}

/// Row `a` may stand at or before row `b` under this column and
/// direction: rows without a value stand last either way; otherwise the
/// column values are compared in the chosen direction.
pub open spec fn list_le(a: MarketData, b: MarketData, k: SortKey, o: SortOrder) -> bool {
    let (an, av) = sort_value(a, k);
    let (bn, bv) = sort_value(b, k);
    if an != bn {
        an < bn
    } else {
        match o {
            SortOrder::Asc => av <= bv,
            SortOrder::Desc => av >= bv,
        }
    }
}

/// The rows stand in the order `list_le` allows.
pub open spec fn sorted_markets(s: Seq<MarketData>, k: SortKey, o: SortOrder) -> bool {
    forall|i: int, j: int| 0 <= i < j < s.len() ==> list_le(s[i], s[j], k, o)
}

/// `list_le` is total.
proof fn lemma_list_le_total(a: MarketData, b: MarketData, k: SortKey, o: SortOrder)
    ensures
        list_le(a, b, k, o) || list_le(b, a, k, o),
{
}

/// `list_le` is transitive.
proof fn lemma_list_le_trans(a: MarketData, b: MarketData, c: MarketData, k: SortKey, o: SortOrder)
    requires
        list_le(a, b, k, o),
        list_le(b, c, k, o),
    ensures
        list_le(a, c, k, o),
{
}

/// Compare two rows under a column and direction.
fn market_le(a: &Market, b: &Market, k: SortKey, o: SortOrder) -> (r: bool)
    ensures
        r == list_le(a@, b@, k, o),
{
    match k {
        SortKey::CreatedAt => match o {
            SortOrder::Asc => a.created_at <= b.created_at,
            SortOrder::Desc => a.created_at >= b.created_at,
        },
        SortKey::Volume => match o {
            SortOrder::Asc => a.volume <= b.volume,
            SortOrder::Desc => a.volume >= b.volume,
        },
        SortKey::Volume24h => match o {
            SortOrder::Asc => a.volume_24h <= b.volume_24h,
            SortOrder::Desc => a.volume_24h >= b.volume_24h,
        },
        SortKey::CloseAt => match (a.close_at, b.close_at) {
            (Some(x), Some(y)) => match o {
                SortOrder::Asc => x <= y,
                SortOrder::Desc => x >= y,
            },
            (Some(_), None) => true,
            (None, Some(_)) => false,
            (None, None) => true,
        },
    }
}

/// Inserting into a sequence adds one occurrence to its multiset.
proof fn lemma_insert_to_multiset<A>(s: Seq<A>, pos: int, x: A)
    requires
        0 <= pos <= s.len(),
    ensures
        s.insert(pos, x).to_multiset() =~= s.to_multiset().insert(x),
{
    broadcast use vstd::seq_lib::group_to_multiset_ensures;

    lemma_multiset_commutative(s.subrange(0, pos).push(x), s.subrange(pos, s.len() as int));
    lemma_multiset_commutative(s.subrange(0, pos), s.subrange(pos, s.len() as int));
    assert(s =~= s.subrange(0, pos) + s.subrange(pos, s.len() as int));
}

/// Sort rows by the given column and direction (insertion sort). The
/// result holds exactly the given rows, in an order `list_le` allows.
fn sort_markets(v: Vec<Market>, k: SortKey, o: SortOrder) -> (r: Vec<Market>)
    ensures
        r@.map_values(|m: Market| m@).to_multiset() == v@.map_values(
            |m: Market| m@,
        ).to_multiset(),
        sorted_markets(r@.map_values(|m: Market| m@), k, o),
{
    broadcast use vstd::seq_lib::group_to_multiset_ensures;

    let ghost all = v@.map_values(|m: Market| m@);
    let mut src = v;
    let mut out: Vec<Market> = Vec::new();
    while src.len() > 0
        invariant
            out@.map_values(|m: Market| m@).to_multiset().add(
                src@.map_values(|m: Market| m@).to_multiset(),
            ) =~= all.to_multiset(),
            sorted_markets(out@.map_values(|m: Market| m@), k, o),
        decreases src.len(),
    {
        let ghost src0 = src@.map_values(|m: Market| m@);
        let ghost out0 = out@.map_values(|m: Market| m@);
        let x = src.remove(0);
        proof {
            broadcast use vstd::seq_lib::group_to_multiset_ensures;
            broadcast use vstd::multiset::group_multiset_axioms;

            assert(src@.map_values(|m: Market| m@) =~= src0.remove(0));
            assert(src0.remove(0).to_multiset() =~= src0.to_multiset().remove(src0[0]));
            assert(src0[0] == x@);
            assert(src0.to_multiset().count(x@) > 0) by {
                assert(src0.contains(src0[0]));
            }
        }
        let mut pos: usize = 0;
        while pos < out.len() && market_le(&out[pos], &x, k, o)
            invariant
                0 <= pos <= out.len(),
                out0 == out@.map_values(|m: Market| m@),
                forall|p: int| 0 <= p < pos ==> list_le(out0[p], x@, k, o),
            decreases out.len() - pos,
        {
            pos += 1;
        }
        proof {
            assert(pos < out0.len() ==> !list_le(out0[pos as int], x@, k, o));
            if pos < out0.len() {
                lemma_list_le_total(out0[pos as int], x@, k, o);
            }
            assert forall|p: int| pos <= p < out0.len() implies list_le(x@, out0[p], k, o) by {
                if p > pos {
                    lemma_list_le_trans(x@, out0[pos as int], out0[p], k, o);
                }
            }
        }
        out.insert(pos, x);
        proof {
            broadcast use vstd::seq_lib::group_to_multiset_ensures;
            broadcast use vstd::multiset::group_multiset_axioms;

            assert(out@.map_values(|m: Market| m@) =~= out0.insert(pos as int, x@));
            lemma_insert_to_multiset(out0, pos as int, x@);
            let out1 = out0.insert(pos as int, x@);
            out0.insert_ensures(pos as int, x@);
            assert forall|i: int, j: int| 0 <= i < j < out1.len() implies list_le(
                out1[i],
                out1[j],
                k,
                o,
            ) by {
                if j < pos {
                    assert(out1[i] == out0[i] && out1[j] == out0[j]);
                } else if i > pos {
                    assert(out1[i] == out0[i - 1] && out1[j] == out0[j - 1]);
                } else if i == pos {
                    assert(out1[i] == x@ && out1[j] == out0[j - 1]);
                } else if j == pos {
                    assert(out1[i] == out0[i] && out1[j] == x@);
                } else {
                    assert(out1[i] == out0[i] && out1[j] == out0[j - 1]);
                    assert(list_le(out0[i], out0[j - 1], k, o));
                }
            }
            assert(out1.to_multiset().add(src0.to_multiset().remove(x@)) =~= all.to_multiset());
        }
    }
    proof {
        assert(src@.map_values(|m: Market| m@).to_multiset() =~= Seq::<
            MarketData,
        >::empty().to_multiset());
        assert(out@.map_values(|m: Market| m@).to_multiset() =~= all.to_multiset());
    }
    out
}

/// Length of the leading run of non-space characters.
pub open spec fn leading_run(q: Seq<char>) -> int
    decreases q.len(),
{
    if q.len() == 0 || q[0] == ' ' {
        0
    } else {
        1 + leading_run(q.drop_first())
    }
}

pub proof fn lemma_leading_run_bounds(q: Seq<char>)
    ensures
        0 <= leading_run(q) <= q.len(),
        q.len() > 0 && q[0] != ' ' ==> leading_run(q) >= 1,
    decreases q.len(),
{
    if q.len() > 0 && q[0] != ' ' {
        lemma_leading_run_bounds(q.drop_first());
    }
}

/// The leading run ends exactly at the first space (or the end).
pub proof fn lemma_leading_run_at(q: Seq<char>, l: int)
    requires
        0 <= l <= q.len(),
        forall|x: int| 0 <= x < l ==> q[x] != ' ',
        l < q.len() ==> q[l as int] == ' ',
    ensures
        leading_run(q) == l,
    decreases l,
{
    if l == 0 {
    } else {
        lemma_leading_run_at(q.drop_first(), l - 1);
    }
}

/// What one search term contributes to a market's relevance: 2 for a
/// title occurrence plus 1 for a description occurrence.
pub open spec fn term_score(t: Seq<char>, title: Seq<char>, desc: Seq<char>) -> int {
    (if crate::text::occurs(title, t) {
        2int
    } else {
        0int
    }) + (if crate::text::occurs(desc, t) {
        1int
    } else {
        0int
    })
}

/// A query's relevance against a title and description: the sum of the
/// term scores of its space-separated terms.
pub open spec fn query_score(q: Seq<char>, title: Seq<char>, desc: Seq<char>) -> int
    decreases q.len(),
    via query_score_decreases
{
    if q.len() == 0 {
        0
    } else if q[0] == ' ' {
        query_score(q.skip(1), title, desc)
    } else {
        term_score(q.take(leading_run(q)), title, desc) + query_score(
            q.skip(leading_run(q)),
            title,
            desc,
        )
    }
}

#[via_fn]
proof fn query_score_decreases(q: Seq<char>, title: Seq<char>, desc: Seq<char>) {
    if q.len() > 0 && q[0] != ' ' {
        lemma_leading_run_bounds(q);
    }
}

pub proof fn lemma_query_score_bounds(q: Seq<char>, title: Seq<char>, desc: Seq<char>)
    ensures
        0 <= query_score(q, title, desc) <= 3 * q.len(),
    decreases q.len(),
{
    if q.len() == 0 {
    } else if q[0] == ' ' {
        lemma_query_score_bounds(q.skip(1), title, desc);
    } else {
        lemma_leading_run_bounds(q);
        lemma_query_score_bounds(q.skip(leading_run(q)), title, desc);
    }
}

/// A market's relevance for a query: scored over the case-folded query,
/// title and description.
pub open spec fn relevance(m: MarketData, q: Seq<char>) -> int {
    query_score(fold_seq(q), fold_seq(m.title), fold_seq(m.description))
}

/// Score an already-case-folded query against an already-case-folded
/// title and description.
fn score_text(q: &Vec<char>, title: &Vec<char>, desc: &Vec<char>) -> (s: i64)
    requires
        3 * q@.len() <= i64::MAX,
    ensures
        s == query_score(q@, title@, desc@),
{
    let n = q.len();
    let mut s: i64 = 0;
    let mut i: usize = 0;
    proof {
        assert(q@.skip(0) =~= q@);
    }
    while i < n
        invariant
            0 <= i <= n,
            n == q@.len(),
            3 * n <= i64::MAX,
            0 <= s <= 3 * i,
            s + query_score(q@.skip(i as int), title@, desc@) == query_score(q@, title@, desc@),
        decreases n - i,
    {
        if q[i] == ' ' {
            proof {
                assert(q@.skip(i as int).skip(1) =~= q@.skip(i + 1));
            }
            i += 1;
        } else {
            let start = i;
            let mut j = i;
            while j < n && q[j] != ' '
                invariant
                    start <= j <= n,
                    n == q@.len(),
                    forall|x: int| start <= x < j ==> q@[x] != ' ',
                decreases n - j,
            {
                j += 1;
            }
            let mut term: Vec<char> = Vec::new();
            let mut x = start;
            while x < j
                invariant
                    start <= x <= j <= n,
                    n == q@.len(),
                    term@ == q@.subrange(start as int, x as int),
                decreases j - x,
            {
                term.push(q[x]);
                assert(q@.subrange(start as int, x + 1) =~= q@.subrange(
                    start as int,
                    x as int,
                ).push(q@[x as int]));
                x += 1;
            }
            let in_title = crate::text::contains_sub(title, &term);
            let in_desc = crate::text::contains_sub(desc, &term);
            let ts: i64 = (if in_title {
                2
            } else {
                0
            }) + (if in_desc {
                1
            } else {
                0
            });
            proof {
                let rest = q@.skip(start as int);
                lemma_leading_run_at(rest, j - start);
                assert(rest.take(j - start) =~= q@.subrange(start as int, j as int));
                assert(rest.skip(j - start) =~= q@.skip(j as int));
                assert(query_score(rest, title@, desc@) == term_score(term@, title@, desc@)
                    + query_score(q@.skip(j as int), title@, desc@));
                assert(ts == term_score(term@, title@, desc@));
                lemma_query_score_bounds(q@.skip(j as int), title@, desc@);
                lemma_query_score_bounds(q@, title@, desc@);
            }
            s += ts;
            i = j;
        }
    }
    proof {
        assert(q@.skip(n as int) =~= Seq::<char>::empty());
    }
    s
}

/// View of an optional borrowed string.
pub open spec fn opt_str_view(o: Option<&str>) -> Option<Seq<char>> {
    match o {
        Some(s) => Some(s@),
        None => None,
    }
}

/// A market satisfies a search: relevant to the query, and matching the
/// optional source and status filters exactly.
pub open spec fn search_hit(
    m: MarketData,
    q: Seq<char>,
    source: Option<Seq<char>>,
    status: Option<Seq<char>>,
) -> bool {
    &&& relevance(m, q) > 0
    &&& (match source {
        Some(s) => m.source == s,
        None => true,
    })
    &&& (match status {
        Some(s) => m.status == s,
        None => true,
    })
}

/// The scored hits of a row sequence, in row order.
pub open spec fn scored_hits(
    ms: Seq<MarketData>,
    q: Seq<char>,
    source: Option<Seq<char>>,
    status: Option<Seq<char>>,
) -> Seq<(MarketData, int)> {
    ms.filter(|m: MarketData| search_hit(m, q, source, status)).map_values(
        |m: MarketData| (m, relevance(m, q)),
    )
}

/// The pair a search result stands for.
pub open spec fn result_view(r: SearchResult) -> (MarketData, int) {
    (r.market@, r.score as int)
}

/// Hit `a` may stand at or before hit `b`: strictly higher relevance
/// first, ties broken by volume descending.
pub open spec fn rank_le(a: SearchResult, b: SearchResult) -> bool {
    a.score > b.score || (a.score == b.score && a.market@.volume >= b.market@.volume)
}

/// The hits stand in the order `rank_le` allows.
pub open spec fn sorted_by_rank(s: Seq<SearchResult>) -> bool {
    forall|i: int, j: int| 0 <= i < j < s.len() ==> rank_le(s[i], s[j])
}

/// Compare two hits by rank.
fn rank_le_exec(a: &SearchResult, b: &SearchResult) -> (r: bool)
    ensures
        r == rank_le(*a, *b),
{
    a.score > b.score || (a.score == b.score && a.market.volume >= b.market.volume)
}

/// Sort hits by rank (insertion sort). The result holds exactly the given
/// hits, in an order `rank_le` allows.
fn sort_results(v: Vec<SearchResult>) -> (r: Vec<SearchResult>)
    ensures
        r@.map_values(|x: SearchResult| result_view(x)).to_multiset() == v@.map_values(
            |x: SearchResult| result_view(x),
        ).to_multiset(),
        sorted_by_rank(r@),
        forall|i: int|
            0 <= i < r@.len() ==> v@.map_values(|x: SearchResult| result_view(x)).contains(
                result_view(#[trigger] r@[i]),
            ),
{
    broadcast use vstd::seq_lib::group_to_multiset_ensures;
    broadcast use vstd::multiset::group_multiset_axioms;

    let ghost all = v@.map_values(|x: SearchResult| result_view(x));
    let mut src = v;
    let mut out: Vec<SearchResult> = Vec::new();
    proof {
        assert(out@.map_values(|x: SearchResult| result_view(x)) =~= Seq::<(
            MarketData,
            int,
        )>::empty());
    }
    while src.len() > 0
        invariant
            out@.map_values(|x: SearchResult| result_view(x)).to_multiset().add(
                src@.map_values(|x: SearchResult| result_view(x)).to_multiset(),
            ) =~= all.to_multiset(),
            sorted_by_rank(out@),
        decreases src.len(),
    {
        let ghost src0 = src@.map_values(|x: SearchResult| result_view(x));
        let ghost out0 = out@;
        let x = src.remove(0);
        proof {
            broadcast use vstd::seq_lib::group_to_multiset_ensures;
            broadcast use vstd::multiset::group_multiset_axioms;

            assert(src@.map_values(|y: SearchResult| result_view(y)) =~= src0.remove(0));
            assert(src0.remove(0).to_multiset() =~= src0.to_multiset().remove(src0[0]));
            assert(src0[0] == result_view(x));
            assert(src0.to_multiset().count(result_view(x)) > 0) by {
                assert(src0.contains(src0[0]));
            }
        }
        let mut pos: usize = 0;
        while pos < out.len() && rank_le_exec(&out[pos], &x)
            invariant
                0 <= pos <= out.len(),
                out0 == out@,
                forall|p: int| 0 <= p < pos ==> rank_le(out0[p], x),
            decreases out.len() - pos,
        {
            pos += 1;
        }
        proof {
            assert forall|p: int| pos <= p < out0.len() implies rank_le(x, out0[p]) by {
                assert(!rank_le(out0[pos as int], x));
                assert(rank_le(x, out0[pos as int]));
                if p > pos {
                    assert(rank_le(out0[pos as int], out0[p]));
                }
            }
        }
        out.insert(pos, x);
        proof {
            broadcast use vstd::seq_lib::group_to_multiset_ensures;
            broadcast use vstd::multiset::group_multiset_axioms;

            assert(out@ =~= out0.insert(pos as int, x));
            assert(out@.map_values(|y: SearchResult| result_view(y)) =~= out0.map_values(
                |y: SearchResult| result_view(y),
            ).insert(pos as int, result_view(x)));
            lemma_insert_to_multiset(
                out0.map_values(|y: SearchResult| result_view(y)),
                pos as int,
                result_view(x),
            );
            out0.insert_ensures(pos as int, x);
            let out1 = out0.insert(pos as int, x);
            assert forall|i: int, j: int| 0 <= i < j < out1.len() implies rank_le(
                out1[i],
                out1[j],
            ) by {
                if j < pos {
                    assert(out1[i] == out0[i] && out1[j] == out0[j]);
                } else if i > pos {
                    assert(out1[i] == out0[i - 1] && out1[j] == out0[j - 1]);
                } else if i == pos {
                    assert(out1[i] == x && out1[j] == out0[j - 1]);
                } else if j == pos {
                    assert(out1[i] == out0[i] && out1[j] == x);
                } else {
                    assert(out1[i] == out0[i] && out1[j] == out0[j - 1]);
                    assert(rank_le(out0[i], out0[j - 1]));
                }
            }
            assert(out@.map_values(|y: SearchResult| result_view(y)).to_multiset().add(
                src0.to_multiset().remove(result_view(x)),
            ) =~= all.to_multiset());
        }
    }
    proof {
        broadcast use vstd::seq_lib::group_to_multiset_ensures;
        broadcast use vstd::multiset::group_multiset_axioms;

        assert(src@.map_values(|x: SearchResult| result_view(x)).to_multiset() =~= Seq::<(
            MarketData,
            int,
        )>::empty().to_multiset());
        assert(out@.map_values(|x: SearchResult| result_view(x)).to_multiset()
            =~= all.to_multiset());
        assert forall|i: int| 0 <= i < out@.len() implies all.contains(
            result_view(#[trigger] out@[i]),
        ) by {
            let mapped = out@.map_values(|x: SearchResult| result_view(x));
            assert(mapped[i] == result_view(out@[i]));
            assert(mapped.contains(mapped[i]));
            assert(mapped.to_multiset().count(mapped[i]) > 0);
            assert(all.to_multiset().count(mapped[i]) > 0);
        }
    }
    out
}

impl Store {
    /// List markets, sorted by a whitelisted column (`volume`, `close_at`,
    /// `volume_24h`, anything else meaning creation time) in the given
    /// direction (`asc` case-insensitively, anything else descending),
    /// with rows lacking the column's value last, then paged by `offset`
    /// and `limit`. Ties may stand in any order, so the result is some
    /// sorted arrangement of all rows, windowed.
    pub fn list(&self, limit: usize, offset: usize, sort_by: &str, order: &str) -> (r: Vec<
        Market,
    >)
        ensures
            exists|s: Seq<MarketData>|
                {
                    &&& #[trigger] s.to_multiset() == self@.markets.to_multiset()
                    &&& sorted_markets(s, sort_key_of(sort_by@), sort_order_of(order@))
                    &&& r@.map_values(|m: Market| m@) == s.subrange(
                        if offset as int <= s.len() {
                            offset as int
                        } else {
                            s.len() as int
                        },
                        if offset + limit <= s.len() {
                            offset + limit
                        } else {
                            s.len() as int
                        },
                    )
                },
    {
        let k = parse_sort_key(sort_by);
        let o = parse_sort_order(order);
        let mut rows: Vec<Market> = Vec::new();
        let n = self.markets.len();
        let mut i: usize = 0;
        while i < n
            invariant
                0 <= i <= n,
                n == self.markets.len(),
                rows@.map_values(|m: Market| m@) =~= self@.markets.subrange(0, i as int),
            decreases n - i,
        {
            rows.push(self.markets[i].duplicate());
            assert(rows@.map_values(|m: Market| m@) =~= self@.markets.subrange(0, i as int).push(
                self@.markets[i as int],
            ));
            assert(self@.markets.subrange(0, i + 1) =~= self@.markets.subrange(0, i as int).push(
                self@.markets[i as int],
            ));
            i += 1;
        }
        proof {
            assert(self@.markets.subrange(0, n as int) =~= self@.markets);
        }
        let sorted = sort_markets(rows, k, o);
        let ghost s = sorted@.map_values(|m: Market| m@);
        let total = sorted.len();
        let start = if offset <= total {
            offset
        } else {
            total
        };
        let end = match offset.checked_add(limit) {
            Some(e) => {
                if e <= total {
                    e
                } else {
                    total
                }
            },
            None => total,
        };
        let mut r: Vec<Market> = Vec::new();
        let mut j: usize = start;
        while j < end
            invariant
                start <= j <= end,
                end <= total,
                total == sorted.len(),
                s == sorted@.map_values(|m: Market| m@),
                r@.map_values(|m: Market| m@) =~= s.subrange(start as int, j as int),
            decreases end - j,
        {
            r.push(sorted[j].duplicate());
            assert(r@.map_values(|m: Market| m@) =~= s.subrange(start as int, j as int).push(
                s[j as int],
            ));
            assert(s.subrange(start as int, j + 1) =~= s.subrange(start as int, j as int).push(
                s[j as int],
            ));
            j += 1;
        }
        proof {
            assert(r@.map_values(|m: Market| m@) == s.subrange(start as int, end as int));
        }
        r
    }
}


impl Store {
    /// Free-text search: every row relevant to the query (case-folded
    /// substring occurrence of each space-separated term, title counting
    /// double) and matching the optional source and status filters, ranked
    /// by relevance then volume descending, capped at `limit + 2` rows.
    /// Ties of equal relevance and volume may stand in any order, so the
    /// result is a prefix of some ranked arrangement of exactly the hits.
    pub fn search(&self, query: &str, limit: usize, source: Option<&str>, status: Option<&str>)
        -> (r: Vec<SearchResult>)
        requires
            3 * query@.len() <= i64::MAX,
            limit + 2 <= usize::MAX,
        ensures
            sorted_by_rank(r@),
            forall|i: int|
                0 <= i < r@.len() ==> (#[trigger] r@[i]).score == relevance(
                    r@[i].market@,
                    query@,
                ),
            exists|full: Seq<SearchResult>|
                {
                    &&& #[trigger] sorted_by_rank(full)
                    &&& full.map_values(|x: SearchResult| result_view(x)).to_multiset()
                        == scored_hits(
                        self@.markets,
                        query@,
                        opt_str_view(source),
                        opt_str_view(status),
                    ).to_multiset()
                    &&& r@ == full.subrange(
                        0,
                        if limit + 2 <= full.len() {
                            limit + 2
                        } else {
                            full.len() as int
                        },
                    )
                },
    {
        let ghost q = query@;
        let ghost src_v = opt_str_view(source);
        let ghost st_v = opt_str_view(status);
        let qf = crate::text::fold_chars(query);
        let n = self.markets.len();
        let mut hits: Vec<SearchResult> = Vec::new();
        let mut i: usize = 0;
        proof {
            reveal(Seq::filter);
            assert(self@.markets.subrange(0, 0) =~= Seq::<MarketData>::empty());
            assert(hits@.map_values(|x: SearchResult| result_view(x)) =~= scored_hits(
                self@.markets.subrange(0, 0),
                q,
                src_v,
                st_v,
            ));
        }
        while i < n
            invariant
                0 <= i <= n,
                n == self.markets.len(),
                qf@ == fold_seq(q),
                3 * q.len() <= i64::MAX,
                src_v == opt_str_view(source),
                st_v == opt_str_view(status),
                hits@.map_values(|x: SearchResult| result_view(x)) =~= scored_hits(
                    self@.markets.subrange(0, i as int),
                    q,
                    src_v,
                    st_v,
                ),
                forall|p: int|
                    0 <= p < hits@.len() ==> (#[trigger] hits@[p]).score == relevance(
                        hits@[p].market@,
                        q,
                    ),
            decreases n - i,
        {
            let row = &self.markets[i];
            let tf = crate::text::fold_chars(row.title.as_str());
            let df = crate::text::fold_chars(row.description.as_str());
            proof {
                assert(3 * fold_seq(q).len() <= i64::MAX);
            }
            let sc = score_text(&qf, &tf, &df);
            proof {
                assert(sc == relevance(self@.markets[i as int], q));
            }
            let source_ok = match source {
                Some(s) => str_eq(row.source.as_str(), s),
                None => true,
            };
            let status_ok = match status {
                Some(s) => str_eq(row.status.as_str(), s),
                None => true,
            };
            let ghost prefix = self@.markets.subrange(0, i as int);
            let ghost prefix1 = self@.markets.subrange(0, i + 1);
            proof {
                reveal(Seq::filter);
                assert(prefix1.drop_last() =~= prefix);
                assert(prefix1.last() == self@.markets[i as int]);
            }
            if sc > 0 && source_ok && status_ok {
                assert(search_hit(self@.markets[i as int], q, src_v, st_v));
                hits.push(SearchResult { market: row.duplicate(), score: sc });
                proof {
                    reveal(Seq::filter);
                    assert(hits@.map_values(|x: SearchResult| result_view(x)) =~= scored_hits(
                        prefix,
                        q,
                        src_v,
                        st_v,
                    ).push((self@.markets[i as int], sc as int)));
                    assert(scored_hits(prefix1, q, src_v, st_v) =~= scored_hits(
                        prefix,
                        q,
                        src_v,
                        st_v,
                    ).push((self@.markets[i as int], sc as int)));
                }
            } else {
                proof {
                    reveal(Seq::filter);
                    assert(!search_hit(self@.markets[i as int], q, src_v, st_v));
                    assert(scored_hits(prefix1, q, src_v, st_v) =~= scored_hits(
                        prefix,
                        q,
                        src_v,
                        st_v,
                    ));
                }
            }
            i += 1;
        }
        proof {
            assert(self@.markets.subrange(0, n as int) =~= self@.markets);
        }
        let mut ranked = sort_results(hits);
        let ghost full = ranked@;
        let cap = limit + 2;
        if ranked.len() > cap {
            ranked.truncate(cap);
        }
        proof {
            assert(ranked@ =~= full.subrange(
                0,
                if limit + 2 <= full.len() {
                    limit + 2
                } else {
                    full.len() as int
                },
            ));
            assert forall|p: int| 0 <= p < ranked@.len() implies (#[trigger] ranked@[p]).score
                == relevance(ranked@[p].market@, q) by {
                let mapped = hits@.map_values(|x: SearchResult| result_view(x));
                assert(mapped.contains(result_view(full[p])));
                let w = choose|w: int| 0 <= w < mapped.len() && mapped[w] == result_view(full[p]);
                assert(result_view(hits@[w]) == result_view(full[p]));
            }
        }
        ranked
    }
}

/// A query term that appears in a market's case-folded title makes that
/// market strictly more relevant than one where the term occurs in
/// neither title nor description.
pub proof fn lemma_title_match_outranks(q: Seq<char>, m1: MarketData, m2: MarketData)
    requires
        q.len() > 0,
        forall|i: int| 0 <= i < q.len() ==> q[i] != ' ',
        crate::text::occurs(fold_seq(m1.title), fold_seq(q)),
        !crate::text::occurs(fold_seq(m2.title), fold_seq(q)),
        !crate::text::occurs(fold_seq(m2.description), fold_seq(q)),
    ensures
        relevance(m1, q) > relevance(m2, q),
{
    let fq = fold_seq(q);
    assert(fq.len() == q.len());
    assert forall|i: int| 0 <= i < fq.len() implies fq[i] != ' ' by {
        assert(fq[i] == crate::text::fold_char(q[i]));
        assert(q[i] != ' ');
    }
    lemma_whole_query_is_one_term(fq, fold_seq(m1.title), fold_seq(m1.description));
    lemma_whole_query_is_one_term(fq, fold_seq(m2.title), fold_seq(m2.description));
    assert(relevance(m1, q) >= 2);
    assert(relevance(m2, q) == 0);
}

/// A query without spaces scores as a single term.
proof fn lemma_whole_query_is_one_term(q: Seq<char>, title: Seq<char>, desc: Seq<char>)
    requires
        q.len() > 0,
        forall|i: int| 0 <= i < q.len() ==> q[i] != ' ',
    ensures
        query_score(q, title, desc) == term_score(q, title, desc),
{
    lemma_leading_run_at(q, q.len() as int);
    assert(q.take(q.len() as int) =~= q);
    assert(q.skip(q.len() as int) =~= Seq::<char>::empty());
    assert(query_score(Seq::<char>::empty(), title, desc) == 0);
    assert(query_score(q, title, desc) == term_score(q.take(leading_run(q)), title, desc)
        + query_score(q.skip(leading_run(q)), title, desc));
}

/// In a rank-sorted result list, a hit with strictly higher relevance —
/// or equal relevance and strictly higher volume — stands strictly
/// earlier.
pub proof fn lemma_rank_position(rs: Seq<SearchResult>, i: int, j: int)
    requires
        sorted_by_rank(rs),
        0 <= i < rs.len(),
        0 <= j < rs.len(),
        rs[i].score > rs[j].score || (rs[i].score == rs[j].score && rs[i].market@.volume
            > rs[j].market@.volume),
    ensures
        i < j,
{
    if j < i {
        assert(rank_le(rs[j], rs[i]));
    }
}

/// One snapshot may stand at or before another in a history listing:
/// newest first.
pub open spec fn history_le(a: PriceHistory, b: PriceHistory) -> bool {
    a.recorded_at >= b.recorded_at
}

/// The snapshots stand newest first.
pub open spec fn sorted_history(s: Seq<PriceHistory>) -> bool {
    forall|i: int, j: int| 0 <= i < j < s.len() ==> history_le(s[i], s[j])
}

/// A snapshot belongs to a history query: it is the market's, and within
/// the lookback window when one is given.
pub open spec fn history_eligible(h: PriceHistory, market_id: u64, hours: Option<i64>, now: i64) -> bool {
    &&& h.market_id == market_id
    &&& (match hours {
        Some(hr) => h.recorded_at >= now - hr * 3600,
        None => true,
    })
}

/// The snapshots of a history sequence that a history query keeps, in
/// order.
pub open spec fn eligible_history(
    hs: Seq<PriceHistory>,
    market_id: u64,
    hours: Option<i64>,
    now: i64,
) -> Seq<PriceHistory> {
    hs.filter(|h: PriceHistory| history_eligible(h, market_id, hours, now))
}

/// Sort snapshots newest first (insertion sort). The result holds exactly
/// the given snapshots.
#[verifier::rlimit(60)]
fn sort_history(v: Vec<PriceHistory>) -> (r: Vec<PriceHistory>)
    ensures
        r@.to_multiset() == v@.to_multiset(),
        sorted_history(r@),
{
    broadcast use vstd::seq_lib::group_to_multiset_ensures;
    broadcast use vstd::multiset::group_multiset_axioms;

    let ghost all = v@;
    let mut src = v;
    let mut out: Vec<PriceHistory> = Vec::new();
    while src.len() > 0
        invariant
            out@.to_multiset().add(src@.to_multiset()) =~= all.to_multiset(),
            sorted_history(out@),
        decreases src.len(),
    {
        let ghost src0 = src@;
        let ghost out0 = out@;
        let x = src.remove(0);
        proof {
            broadcast use vstd::seq_lib::group_to_multiset_ensures;
            broadcast use vstd::multiset::group_multiset_axioms;

            assert(src0.remove(0).to_multiset() =~= src0.to_multiset().remove(src0[0]));
            assert(src0.to_multiset().count(x) > 0) by {
                assert(src0.contains(src0[0]));
            }
        }
        let mut pos: usize = 0;
        while pos < out.len() && out[pos].recorded_at >= x.recorded_at
            invariant
                0 <= pos <= out.len(),
                out0 == out@,
                forall|p: int| 0 <= p < pos ==> history_le(out0[p], x),
            decreases out.len() - pos,
        {
            pos += 1;
        }
        proof {
            assert forall|p: int| pos <= p < out0.len() implies history_le(x, out0[p]) by {
                assert(!history_le(out0[pos as int], x));
                if p > pos {
                    assert(history_le(out0[pos as int], out0[p]));
                }
            }
        }
        out.insert(pos, x);
        proof {
            broadcast use vstd::seq_lib::group_to_multiset_ensures;
            broadcast use vstd::multiset::group_multiset_axioms;

            assert(out@ =~= out0.insert(pos as int, x));
            lemma_insert_to_multiset(out0, pos as int, x);
            out0.insert_ensures(pos as int, x);
            let out1 = out0.insert(pos as int, x);
            assert forall|i: int, j: int| 0 <= i < j < out1.len() implies history_le(
                out1[i],
                out1[j],
            ) by {
                if j < pos {
                    assert(out1[i] == out0[i] && out1[j] == out0[j]);
                } else if i > pos {
                    assert(out1[i] == out0[i - 1] && out1[j] == out0[j - 1]);
                } else if i == pos {
                    assert(out1[i] == x && out1[j] == out0[j - 1]);
                } else if j == pos {
                    assert(out1[i] == out0[i] && out1[j] == x);
                } else {
                    assert(out1[i] == out0[i] && out1[j] == out0[j - 1]);
                    assert(history_le(out0[i], out0[j - 1]));
                }
            }
            assert(out1.to_multiset().add(src0.to_multiset().remove(x)) =~= all.to_multiset());
        }
    }
    proof {
        broadcast use vstd::seq_lib::group_to_multiset_ensures;

        assert(src@.to_multiset() =~= Seq::<PriceHistory>::empty().to_multiset());
        assert(out@.to_multiset() =~= all.to_multiset());
    }
    out
}

impl Store {
    /// The market's price history, newest first, within the optional
    /// lookback window of `hours` before `now`, capped at `limit` rows.
    /// Snapshots with equal timestamps may stand in any order, so the
    /// result is a prefix of some newest-first arrangement of exactly the
    /// eligible snapshots.
    pub fn get_history(&self, market_id: u64, limit: usize, hours: Option<i64>, now: i64) -> (r:
        Vec<PriceHistory>)
        ensures
            exists|s: Seq<PriceHistory>|
                {
                    &&& #[trigger] sorted_history(s)
                    &&& s.to_multiset() == eligible_history(
                        self@.history,
                        market_id,
                        hours,
                        now,
                    ).to_multiset()
                    &&& r@ == s.subrange(
                        0,
                        if limit <= s.len() {
                            limit as int
                        } else {
                            s.len() as int
                        },
                    )
                },
    {
        let n = self.history.len();
        let mut eligible: Vec<PriceHistory> = Vec::new();
        let mut i: usize = 0;
        proof {
            reveal(Seq::filter);
            assert(self@.history.subrange(0, 0) =~= Seq::<PriceHistory>::empty());
            assert(eligible@ =~= eligible_history(
                self@.history.subrange(0, 0),
                market_id,
                hours,
                now,
            ));
        }
        while i < n
            invariant
                0 <= i <= n,
                n == self.history.len(),
                eligible@ =~= eligible_history(
                    self@.history.subrange(0, i as int),
                    market_id,
                    hours,
                    now,
                ),
            decreases n - i,
        {
            let h = self.history[i];
            let keep = if h.market_id == market_id {
                match hours {
                    Some(hr) => {
                        let cutoff: i128 = now as i128 - (hr as i128) * 3600;
                        h.recorded_at as i128 >= cutoff
                    },
                    None => true,
                }
            } else {
                false
            };
            let ghost prefix = self@.history.subrange(0, i as int);
            let ghost prefix1 = self@.history.subrange(0, i + 1);
            proof {
                reveal(Seq::filter);
                assert(prefix1.drop_last() =~= prefix);
                assert(prefix1.last() == self@.history[i as int]);
                assert(keep == history_eligible(self@.history[i as int], market_id, hours, now));
            }
            if keep {
                eligible.push(h);
                proof {
                    reveal(Seq::filter);
                    assert(eligible_history(prefix1, market_id, hours, now) =~= eligible_history(
                        prefix,
                        market_id,
                        hours,
                        now,
                    ).push(self@.history[i as int]));
                }
            } else {
                proof {
                    reveal(Seq::filter);
                    assert(eligible_history(prefix1, market_id, hours, now) =~= eligible_history(
                        prefix,
                        market_id,
                        hours,
                        now,
                    ));
                }
            }
            i += 1;
        }
        proof {
            assert(self@.history.subrange(0, n as int) =~= self@.history);
        }
        let mut sorted = sort_history(eligible);
        let ghost full = sorted@;
        if sorted.len() > limit {
            sorted.truncate(limit);
        }
        proof {
            assert(sorted@ =~= full.subrange(
                0,
                if limit <= full.len() {
                    limit as int
                } else {
                    full.len() as int
                },
            ));
        }
        sorted
    }
}

} // verus!
