//! Kalshi adapter: bid/ask midpoint pricing over whole-cent quotes.

use vstd::prelude::*;

use crate::models::{CreateMarket, Money, NEUTRAL_PRICE, PRICE_SCALE};
use crate::text::{fold_seq, fold_str};
use crate::timeparse::{parse_rfc3339_secs, rfc3339_secs};
use vstd::string::StringExecFns;

verus! {

/// One market row as the platform reports it, reduced to plain values:
/// quotes in whole cents, monetary amounts in hundredths, the close time
/// as RFC 3339 text.
pub struct KalshiMarket {
    pub ticker: String,
    pub title: String,
    pub subtitle: String,
    pub yes_bid: Option<u32>,
    pub yes_ask: Option<u32>,
    pub volume: Option<Money>,
    pub volume_24h: Option<Money>,
    pub open_interest: Option<Money>,
    pub status: String,
    pub close_time: Option<String>,
    pub category: Option<String>,
}

/// Midpoint pricing over cent quotes, in fixed-point price units: the
/// bid/ask midpoint when both sides quote, the quoted side alone when one
/// does, and the neutral price when neither does. One cent is 100 price
/// units, so the midpoint `(b + a) / 2` cents is `(b + a) * 50` units,
/// exact even for odd sums.
pub open spec fn quoted_price(bid: Option<u32>, ask: Option<u32>) -> int {
    match (bid, ask) {
        (Some(b), Some(a)) => (b + a) * 50,
        (Some(b), None) => b * 100,
        (None, Some(a)) => a * 100,
        (None, None) => NEUTRAL_PRICE as int,
    }
}

/// Derive the yes-side price from the bid and ask quotes.
pub fn derive_price(bid: Option<u32>, ask: Option<u32>) -> (r: i64)
    ensures
        r == quoted_price(bid, ask),
{
    match (bid, ask) {
        (Some(b), Some(a)) => (b as i64 + a as i64) * 50,
        (Some(b), None) => (b as i64) * 100,
        (None, Some(a)) => (a as i64) * 100,
        (None, None) => NEUTRAL_PRICE,
    }
}

/// How a canonical creation record relates to the platform row it was
/// normalized from.
pub open spec fn normalizes(m: KalshiMarket, c: CreateMarket) -> bool {
    &&& c.source_id@ == m.ticker@
    &&& c.source@ == "kalshi"@
    &&& c.title@ == m.title@
    &&& c.description@ == m.subtitle@
    &&& c.category == m.category
    &&& c.tags is None
    &&& c.yes_price == quoted_price(m.yes_bid, m.yes_ask)
    &&& c.no_price == PRICE_SCALE - quoted_price(m.yes_bid, m.yes_ask)
    &&& c.volume == (match m.volume {
        Some(v) => v,
        None => 0,
    })
    &&& c.volume_24h == (match m.volume_24h {
        Some(v) => v,
        None => 0,
    })
    &&& c.liquidity == m.open_interest
    &&& c.status@ == fold_seq(m.status@)
    &&& c.close_at == (match m.close_time {
        Some(ct) => rfc3339_secs(ct@),
        None => None,
    })
    &&& c.url@ == "https://kalshi.com/markets/"@ + m.ticker@
}

/// Adapter for the cent-quote platform. Fetching happens outside the
/// library; the adapter normalizes already-decoded rows.
pub struct KalshiCollector {}

impl KalshiCollector {
    pub fn new() -> (r: Self) {
        KalshiCollector {  }
    }

    /// Normalize one platform row into a creation record.
    ///
    /// Normalization of a decoded row never fails: absent optional fields
    /// fall back to the documented defaults (neutral price, zero volume,
    /// no liquidity, no close time).
    pub fn convert_market(&self, market: KalshiMarket) -> (r: Option<CreateMarket>)
        ensures
            r is Some,
            normalizes(market, r->0),
    {
        let yes_price = derive_price(market.yes_bid, market.yes_ask);
        let no_price = PRICE_SCALE - yes_price;
        let volume = match market.volume {
            Some(v) => v,
            None => 0,
        };
        let volume_24h = match market.volume_24h {
            Some(v) => v,
            None => 0,
        };
        let close_at = match &market.close_time {
            Some(ct) => parse_rfc3339_secs(ct.as_str()),
            None => None,
        };
        let status = fold_str(market.status.as_str());
        let url = String::from_str("https://kalshi.com/markets/").concat(market.ticker.as_str());
        Some(
            CreateMarket {
                source_id: market.ticker,
                source: String::from_str("kalshi"),
                title: market.title,
                description: market.subtitle,
                category: market.category,
                tags: None,
                yes_price,
                no_price,
                volume,
                volume_24h,
                liquidity: market.open_interest,
                status,
                close_at,
                url,
            },
        )
    }

    /// Normalize a fetched batch, in order.
    pub fn convert_markets(&self, markets: Vec<KalshiMarket>) -> (r: Vec<CreateMarket>)
        ensures
            r@.len() == markets@.len(),
            forall|i: int|
                0 <= i < markets@.len() ==> normalizes(markets@[i], #[trigger] r@[i]),
    {
        let ghost orig = markets@;
        let mut ms = markets;
        let mut r: Vec<CreateMarket> = Vec::new();
        while ms.len() > 0
            invariant
                orig.len() == r@.len() + ms@.len(),
                forall|i: int| 0 <= i < r@.len() ==> normalizes(orig[i], #[trigger] r@[i]),
                forall|i: int|
                    0 <= i < ms@.len() ==> #[trigger] ms@[i] == orig[r@.len() + i],
            decreases ms.len(),
        {
            let m = ms.remove(0);
            match self.convert_market(m) {
                Some(c) => {
                    r.push(c);
                },
                None => {},
            }
        }
        r
    }
}

} // verus!
