//! Canonical market model shared by the collectors, the recorder, the
//! scheduler and the query layer.
//!
//! Prices are fixed-point integers in ten-thousandths of a unit
//! (`PRICE_SCALE`), so a probability of one half is `5000`. Monetary
//! amounts (volume, liquidity) are integers in hundredths. Timestamps are
//! Unix seconds.

use vstd::prelude::*;
use vstd::string::StringExecFns;

verus! {

/// Number of fixed-point price units in a whole unit (a probability of 1).
pub const PRICE_SCALE: i64 = 10000;

/// A probability-like price in ten-thousandths of a unit. Nominally within
/// `0..=PRICE_SCALE`, but stored as reported by the source.
pub type Price = i64;

/// A monetary amount in hundredths of the quote currency.
pub type Money = u64;

/// The neutral price used when a source reports no usable price.
pub const NEUTRAL_PRICE: i64 = 5000;

/// Market source platforms.
#[derive(Clone, Copy, Debug, PartialEq, Eq, Structural)]
pub enum MarketSource {
    Polymarket,
    Kalshi,
}

impl MarketSource {
    /// The lower-case identifier stored in the `source` column.
    pub fn as_str(&self) -> (r: &'static str)
        ensures
            *self == MarketSource::Polymarket ==> r@ == "polymarket"@,
            *self == MarketSource::Kalshi ==> r@ == "kalshi"@,
    {
        match self {
            MarketSource::Polymarket => "polymarket",
            MarketSource::Kalshi => "kalshi",
        }
    }

    /// Parse a source name, case-insensitively; anything but the two
    /// known platforms is rejected with a message naming the input.
    pub fn from_str(s: &str) -> (r: Result<MarketSource, String>)
        ensures
            r == Ok::<MarketSource, String>(MarketSource::Polymarket) <==> crate::text::fold_seq(
                s@,
            ) == "polymarket"@,
            r == Ok::<MarketSource, String>(MarketSource::Kalshi) <==> crate::text::fold_seq(s@)
                == "kalshi"@,
            r matches Err(m) ==> m@ == "Unknown market source: "@ + s@,
    {
        proof {
            reveal_strlit("polymarket");
            reveal_strlit("kalshi");
            assert("polymarket"@.len() == 10);
            assert("kalshi"@.len() == 6);
            assert("polymarket"@ != "kalshi"@);
        }
        let folded = crate::text::fold_str(s);
        if crate::text::str_eq(folded.as_str(), "polymarket") {
            Ok(MarketSource::Polymarket)
        } else if crate::text::str_eq(folded.as_str(), "kalshi") {
            Ok(MarketSource::Kalshi)
        } else {
            Err(String::from_str("Unknown market source: ").concat(s))
        }
    }
}

/// Market lifecycle status.
#[derive(Clone, Copy, Debug, PartialEq, Eq, Structural)]
pub enum MarketStatus {
    Open,
    Closed,
    Resolved,
}

impl MarketStatus {
    /// The lower-case identifier stored in the `status` column.
    pub fn as_str(&self) -> (r: &'static str)
        ensures
            *self == MarketStatus::Open ==> r@ == "open"@,
            *self == MarketStatus::Closed ==> r@ == "closed"@,
            *self == MarketStatus::Resolved ==> r@ == "resolved"@,
    {
        match self {
            MarketStatus::Open => "open",
            MarketStatus::Closed => "closed",
            MarketStatus::Resolved => "resolved",
        }
    }
}

/// Prediction market metadata and current state, as persisted.
///
/// Identity is the `(source, source_id)` pair; `id` is the store-assigned
/// row identifier. `created_at` is immutable after the first insert.
#[derive(Clone, Debug)]
pub struct Market {
    pub id: u64,
    pub source_id: String,
    pub source: String,
    pub title: String,
    pub description: String,
    pub category: Option<String>,
    pub tags: Option<Vec<String>>,
    pub yes_price: Price,
    pub no_price: Price,
    pub volume: Money,
    pub volume_24h: Money,
    pub liquidity: Option<Money>,
    pub status: String,
    pub created_at: i64,
    pub updated_at: i64,
    pub close_at: Option<i64>,
    pub url: String,
}

impl Market {
    /// The conflict key that makes a market row unique.
    pub open spec fn key(&self) -> (Seq<char>, Seq<char>) {
        (self.source@, self.source_id@)
    }
}

/// Time-series snapshot of one market's prices and metrics.
///
/// Immutable once inserted; unique on `(market_id, recorded_at)`.
#[derive(Clone, Copy, Debug)]
pub struct PriceHistory {
    pub id: u64,
    pub market_id: u64,
    pub yes_price: Price,
    pub no_price: Price,
    pub volume: Money,
    pub volume_24h: Money,
    pub liquidity: Option<Money>,
    pub recorded_at: i64,
}

/// Request to create (or refresh) a market, produced by a collector.
#[derive(Clone, Debug)]
pub struct CreateMarket {
    pub source_id: String,
    pub source: String,
    pub title: String,
    pub description: String,
    pub category: Option<String>,
    pub tags: Option<Vec<String>>,
    pub yes_price: Price,
    pub no_price: Price,
    pub volume: Money,
    pub volume_24h: Money,
    pub liquidity: Option<Money>,
    pub status: String,
    pub close_at: Option<i64>,
    pub url: String,
}

impl CreateMarket {
    /// The conflict key this record upserts under.
    pub open spec fn key(&self) -> (Seq<char>, Seq<char>) {
        (self.source@, self.source_id@)
    }
}

/// Request to update a market; `None` fields keep their stored value.
#[derive(Clone, Debug)]
pub struct UpdateMarket {
    pub yes_price: Option<Price>,
    pub no_price: Option<Price>,
    pub volume: Option<Money>,
    pub volume_24h: Option<Money>,
    pub liquidity: Option<Money>,
    pub status: Option<String>,
    pub close_at: Option<i64>,
}

/// A search hit with its relevance score.
#[derive(Clone, Debug)]
pub struct SearchResult {
    pub market: Market,
    pub score: i64,
}

/// View of an optional string as an optional character sequence.
pub open spec fn opt_view(o: Option<String>) -> Option<Seq<char>> {
    match o {
        Some(s) => Some(s@),
        None => None,
    }
}

/// View of an optional tag list as optional character sequences.
pub open spec fn tags_view(o: Option<Vec<String>>) -> Option<Seq<Seq<char>>> {
    match o {
        Some(ts) => Some(ts.deep_view()),
        None => None,
    }
}

/// Mathematical view of a market row.
#[verifier::ext_equal]
pub ghost struct MarketData {
    pub id: u64,
    pub source_id: Seq<char>,
    pub source: Seq<char>,
    pub title: Seq<char>,
    pub description: Seq<char>,
    pub category: Option<Seq<char>>,
    pub tags: Option<Seq<Seq<char>>>,
    pub yes_price: Price,
    pub no_price: Price,
    pub volume: Money,
    pub volume_24h: Money,
    pub liquidity: Option<Money>,
    pub status: Seq<char>,
    pub created_at: i64,
    pub updated_at: i64,
    pub close_at: Option<i64>,
    pub url: Seq<char>,
}

impl MarketData {
    /// The conflict key that makes a market row unique.
    pub open spec fn key(&self) -> (Seq<char>, Seq<char>) {
        (self.source, self.source_id)
    }
}

impl View for Market {
    type V = MarketData;

    open spec fn view(&self) -> MarketData {
        MarketData {
            id: self.id,
            source_id: self.source_id@,
            source: self.source@,
            title: self.title@,
            description: self.description@,
            category: opt_view(self.category),
            tags: tags_view(self.tags),
            yes_price: self.yes_price,
            no_price: self.no_price,
            volume: self.volume,
            volume_24h: self.volume_24h,
            liquidity: self.liquidity,
            status: self.status@,
            created_at: self.created_at,
            updated_at: self.updated_at,
            close_at: self.close_at,
            url: self.url@,
        }
    }
}

/// Mathematical view of a creation record.
#[verifier::ext_equal]
pub ghost struct CreateMarketData {
    pub source_id: Seq<char>,
    pub source: Seq<char>,
    pub title: Seq<char>,
    pub description: Seq<char>,
    pub category: Option<Seq<char>>,
    pub tags: Option<Seq<Seq<char>>>,
    pub yes_price: Price,
    pub no_price: Price,
    pub volume: Money,
    pub volume_24h: Money,
    pub liquidity: Option<Money>,
    pub status: Seq<char>,
    pub close_at: Option<i64>,
    pub url: Seq<char>,
}

impl CreateMarketData {
    /// The conflict key this record upserts under.
    pub open spec fn key(&self) -> (Seq<char>, Seq<char>) {
        (self.source, self.source_id)
    }
}

impl View for CreateMarket {
    type V = CreateMarketData;

    open spec fn view(&self) -> CreateMarketData {
        CreateMarketData {
            source_id: self.source_id@,
            source: self.source@,
            title: self.title@,
            description: self.description@,
            category: opt_view(self.category),
            tags: tags_view(self.tags),
            yes_price: self.yes_price,
            no_price: self.no_price,
            volume: self.volume,
            volume_24h: self.volume_24h,
            liquidity: self.liquidity,
            status: self.status@,
            close_at: self.close_at,
            url: self.url@,
        }
    }
}

/// Mathematical view of an update request.
#[verifier::ext_equal]
pub ghost struct UpdateMarketData {
    pub yes_price: Option<Price>,
    pub no_price: Option<Price>,
    pub volume: Option<Money>,
    pub volume_24h: Option<Money>,
    pub liquidity: Option<Money>,
    pub status: Option<Seq<char>>,
    pub close_at: Option<i64>,
}

impl View for UpdateMarket {
    type V = UpdateMarketData;

    open spec fn view(&self) -> UpdateMarketData {
        UpdateMarketData {
            yes_price: self.yes_price,
            no_price: self.no_price,
            volume: self.volume,
            volume_24h: self.volume_24h,
            liquidity: self.liquidity,
            status: opt_view(self.status),
            close_at: self.close_at,
        }
    }
}

/// Copy a vector of strings element by element.
fn clone_string_vec(v: &Vec<String>) -> (r: Vec<String>)
    ensures
        r@ == v@,
{
    let mut r: Vec<String> = Vec::new();
    let mut i: usize = 0;
    while i < v.len()
        invariant
            0 <= i <= v.len(),
            r@ == v@.subrange(0, i as int),
        decreases v.len() - i,
    {
        r.push(v[i].clone());
        assert(v@.subrange(0, i + 1) =~= v@.subrange(0, i as int).push(v@[i as int]));
        i += 1;
    }
    proof {
        assert(v@.subrange(0, v@.len() as int) =~= v@);
        assert(r@ =~= v@);
    }
    r
}

impl Market {
    /// A copy of the row with the same view. (The derived `Clone` carries
    /// no contract, so the store copies rows through this method.)
    pub fn duplicate(&self) -> (r: Market)
        ensures
            r@ == self@,
    {
        Market {
            id: self.id,
            source_id: self.source_id.clone(),
            source: self.source.clone(),
            title: self.title.clone(),
            description: self.description.clone(),
            category: match &self.category {
                Some(c) => Some(c.clone()),
                None => None,
            },
            tags: match &self.tags {
                Some(ts) => Some(clone_string_vec(ts)),
                None => None,
            },
            yes_price: self.yes_price,
            no_price: self.no_price,
            volume: self.volume,
            volume_24h: self.volume_24h,
            liquidity: self.liquidity,
            status: self.status.clone(),
            created_at: self.created_at,
            updated_at: self.updated_at,
            close_at: self.close_at,
            url: self.url.clone(),
        }
    }
}

} // verus!
