//! Polymarket adapter: explicit outcome-price arrays of decimal text.

use vstd::prelude::*;

use crate::collectors::{
    money_from_text, money_text_ok, parse_money_opt, parse_money_text, parse_price_text,
    price_from_text,
};
use crate::models::{CreateMarket, NEUTRAL_PRICE, PRICE_SCALE};
use crate::text::decimal_value;
use crate::timeparse::{parse_rfc3339_secs, rfc3339_secs};
use vstd::string::StringExecFns;

verus! {

/// One market row as the platform reports it, reduced to plain values:
/// prices and volumes as decimal text, the close time as RFC 3339 text.
pub struct PolymarketMarket {
    pub condition_id: String,
    pub question: String,
    pub description: Option<String>,
    pub outcome_prices: Vec<String>,
    pub volume: Option<String>,
    pub volume_24hr: Option<String>,
    pub liquidity: Option<String>,
    pub active: bool,
    pub end_date: Option<String>,
    pub category: Option<String>,
    pub outcomes: Vec<String>,
}

/// The yes-side price read positionally from the outcome-price list:
/// element 0, falling back to the neutral price when absent or
/// unparseable.
pub open spec fn yes_outcome_price(prices: Seq<String>) -> int {
    if prices.len() >= 1 {
        price_from_text(prices[0]@, NEUTRAL_PRICE as int)
    } else {
        NEUTRAL_PRICE as int
    }
}

/// The no-side price: element 1 of the outcome-price list, falling back to
/// the complement of the yes-side price when absent or unparseable.
pub open spec fn no_outcome_price(prices: Seq<String>) -> int {
    if prices.len() >= 2 {
        price_from_text(prices[1]@, PRICE_SCALE - yes_outcome_price(prices))
    } else {
        PRICE_SCALE - yes_outcome_price(prices)
    }
}

/// How a canonical creation record relates to the platform row it was
/// normalized from.
pub open spec fn normalizes(m: PolymarketMarket, c: CreateMarket) -> bool {
    &&& c.source_id@ == m.condition_id@
    &&& c.source@ == "polymarket"@
    &&& c.title@ == m.question@
    &&& c.description@ == (match m.description {
        Some(d) => d@,
        None => Seq::<char>::empty(),
    })
    &&& c.category == m.category
    &&& c.tags is None
    &&& c.yes_price == yes_outcome_price(m.outcome_prices@)
    &&& c.no_price == no_outcome_price(m.outcome_prices@)
    &&& c.volume as int == (match m.volume {
        Some(v) => money_from_text(v@),
        None => 0,
    })
    &&& c.volume_24h as int == (match m.volume_24hr {
        Some(v) => money_from_text(v@),
        None => 0,
    })
    &&& c.liquidity == (match m.liquidity {
        Some(l) => if money_text_ok(l@) {
            Some((decimal_value(l@, 2)) as u64)
        } else {
            None
        },
        None => None,
    })
    &&& c.status@ == (if m.active {
        "open"@
    } else {
        "closed"@
    })
    &&& c.close_at == (match m.end_date {
        Some(d) => rfc3339_secs(d@),
        None => None,
    })
    &&& c.url@ == "https://polymarket.com/event/"@ + m.condition_id@
}

/// Adapter for the outcome-price-array platform. Fetching happens outside
/// the library; the adapter normalizes already-decoded rows.
pub struct PolymarketCollector {}

impl PolymarketCollector {
    pub fn new() -> (r: Self) {
        PolymarketCollector {  }
    }

    /// Normalize one platform row into a creation record.
    ///
    /// Normalization of a decoded row never fails: unparseable or absent
    /// price text falls back to the neutral price (or the complement of
    /// the yes side), volumes to zero, liquidity to none.
    pub fn convert_market(&self, market: PolymarketMarket) -> (r: Option<CreateMarket>)
        ensures
            r is Some,
            normalizes(market, r->0),
    {
        let yes_price: i64 = if market.outcome_prices.len() >= 1 {
            parse_price_text(market.outcome_prices[0].as_str(), NEUTRAL_PRICE)
        } else {
            NEUTRAL_PRICE
        };
        let no_price: i64 = if market.outcome_prices.len() >= 2 {
            parse_price_text(market.outcome_prices[1].as_str(), PRICE_SCALE - yes_price)
        } else {
            PRICE_SCALE - yes_price
        };
        let volume = match &market.volume {
            Some(v) => parse_money_text(v.as_str()),
            None => 0,
        };
        let volume_24h = match &market.volume_24hr {
            Some(v) => parse_money_text(v.as_str()),
            None => 0,
        };
        let liquidity = match &market.liquidity {
            Some(l) => parse_money_opt(l.as_str()),
            None => None,
        };
        let close_at = match &market.end_date {
            Some(d) => parse_rfc3339_secs(d.as_str()),
            None => None,
        };
        let status = if market.active {
            String::from_str("open")
        } else {
            String::from_str("closed")
        };
        let url = String::from_str("https://polymarket.com/event/").concat(
            market.condition_id.as_str(),
        );
        let description = match market.description {
            Some(d) => d,
            None => String::new(),
        };
        Some(
            CreateMarket {
                source_id: market.condition_id,
                source: String::from_str("polymarket"),
                title: market.question,
                description,
                category: market.category,
                tags: None,
                yes_price,
                no_price,
                volume,
                volume_24h,
                liquidity,
                status,
                close_at,
                url,
            },
        )
    }

    /// Normalize a fetched batch, in order.
    pub fn convert_markets(&self, markets: Vec<PolymarketMarket>) -> (r: Vec<CreateMarket>)
        ensures
            r@.len() == markets@.len(),
            forall|i: int|
                0 <= i < markets@.len() ==> normalizes(markets@[i], #[trigger] r@[i]),
    {
        let ghost orig = markets@;
        let mut ms = markets;
        let mut r: Vec<CreateMarket> = Vec::new();
        while ms.len() > 0
            invariant
                orig.len() == r@.len() + ms@.len(),
                forall|i: int| 0 <= i < r@.len() ==> normalizes(orig[i], #[trigger] r@[i]),
                forall|i: int|
                    0 <= i < ms@.len() ==> #[trigger] ms@[i] == orig[r@.len() + i],
            decreases ms.len(),
        {
            let m = ms.remove(0);
            match self.convert_market(m) {
                Some(c) => {
                    r.push(c);
                },
                None => {},
            }
        }
        r
    }
}

} // verus!
