//! Adapter normalization, text parsing and configuration.

use pm_tracker::collectors::kalshi::{KalshiCollector, KalshiMarket};
use pm_tracker::collectors::polymarket::{PolymarketCollector, PolymarketMarket};
use pm_tracker::config::{Config, ConfigError};
use pm_tracker::api_config::Config as ApiConfig;
use pm_tracker::models::{MarketSource, MarketStatus};
use pm_tracker::text::{contains_sub, fold_chars, parse_bool, parse_scaled, parse_u64, str_chars};

fn kalshi_row() -> KalshiMarket {
    KalshiMarket {
        ticker: String::from("PRES-24"),
        title: String::from("Presidential race"),
        subtitle: String::from("Who wins"),
        yes_bid: None,
        yes_ask: None,
        volume: Some(123_00),
        volume_24h: Some(45_00),
        open_interest: Some(10_00),
        status: String::from("Open"),
        close_time: None,
        category: Some(String::from("Politics")),
    }
}

#[test]
fn kalshi_midpoint_price() {
    // bid 40 cents, ask 60 cents: the midpoint is one half.
    let mut row = kalshi_row();
    row.yes_bid = Some(40);
    row.yes_ask = Some(60);
    let c = KalshiCollector::new().convert_market(row).unwrap();
    assert_eq!(c.yes_price, 5000);
    assert_eq!(c.no_price, 5000);
}

#[test]
fn kalshi_single_side_price() {
    // ask 70 cents alone: yes 0.70, no 0.30.
    let mut row = kalshi_row();
    row.yes_ask = Some(70);
    let c = KalshiCollector::new().convert_market(row).unwrap();
    assert_eq!(c.yes_price, 7000);
    assert_eq!(c.no_price, 3000);

    let mut row = kalshi_row();
    row.yes_bid = Some(55);
    let c = KalshiCollector::new().convert_market(row).unwrap();
    assert_eq!(c.yes_price, 5500);
    assert_eq!(c.no_price, 4500);
}

#[test]
fn kalshi_neutral_price_when_unquoted() {
    let c = KalshiCollector::new().convert_market(kalshi_row()).unwrap();
    assert_eq!(c.yes_price, 5000);
    assert_eq!(c.no_price, 5000);
}

#[test]
fn kalshi_fields_normalized() {
    let c = KalshiCollector::new().convert_market(kalshi_row()).unwrap();
    assert_eq!(c.source, "kalshi");
    assert_eq!(c.source_id, "PRES-24");
    assert_eq!(c.status, "open");
    assert_eq!(c.url, "https://kalshi.com/markets/PRES-24");
    assert_eq!(c.volume, 123_00);
    assert_eq!(c.volume_24h, 45_00);
    assert_eq!(c.liquidity, Some(10_00));
    assert_eq!(c.close_at, None);
    assert!(c.tags.is_none());
}

#[test]
fn kalshi_close_time_parsed() {
    let mut row = kalshi_row();
    row.close_time = Some(String::from("2024-01-01T00:00:00Z"));
    let c = KalshiCollector::new().convert_market(row).unwrap();
    assert_eq!(c.close_at, Some(1704067200));
}

#[test]
fn kalshi_close_time_offset_parsed() {
    let mut row = kalshi_row();
    row.close_time = Some(String::from("2024-01-01T01:30:00+01:30"));
    let c = KalshiCollector::new().convert_market(row).unwrap();
    assert_eq!(c.close_at, Some(1704067200));
}

#[test]
fn kalshi_bad_close_time_is_none() {
    let mut row = kalshi_row();
    row.close_time = Some(String::from("tomorrow-ish"));
    let c = KalshiCollector::new().convert_market(row).unwrap();
    assert_eq!(c.close_at, None);
}

#[test]
fn kalshi_batch_keeps_order_and_length() {
    let mut a = kalshi_row();
    a.ticker = String::from("A");
    let mut b = kalshi_row();
    b.ticker = String::from("B");
    let out = KalshiCollector::new().convert_markets(vec![a, b]);
    assert_eq!(out.len(), 2);
    assert_eq!(out[0].source_id, "A");
    assert_eq!(out[1].source_id, "B");
}

fn polymarket_row() -> PolymarketMarket {
    PolymarketMarket {
        condition_id: String::from("0xabc"),
        question: String::from("Will it rain"),
        description: None,
        outcome_prices: vec![],
        volume: None,
        volume_24hr: None,
        liquidity: None,
        active: true,
        end_date: None,
        category: None,
        outcomes: vec![String::from("Yes"), String::from("No")],
    }
}

#[test]
fn polymarket_positional_prices() {
    let mut row = polymarket_row();
    row.outcome_prices = vec![String::from("0.3"), String::from("0.7")];
    let c = PolymarketCollector::new().convert_market(row).unwrap();
    assert_eq!(c.yes_price, 3000);
    assert_eq!(c.no_price, 7000);
}

#[test]
fn polymarket_unparseable_first_price_defaults() {
    // Unparseable yes side: neutral default, and the no side (absent)
    // falls back to the complement of that default.
    let mut row = polymarket_row();
    row.outcome_prices = vec![String::from("n/a")];
    let c = PolymarketCollector::new().convert_market(row).unwrap();
    assert_eq!(c.yes_price, 5000);
    assert_eq!(c.no_price, 5000);
}

#[test]
fn polymarket_no_side_complements_parsed_yes() {
    let mut row = polymarket_row();
    row.outcome_prices = vec![String::from("0.25")];
    let c = PolymarketCollector::new().convert_market(row).unwrap();
    assert_eq!(c.yes_price, 2500);
    assert_eq!(c.no_price, 7500);
}

#[test]
fn polymarket_volumes_and_liquidity() {
    let mut row = polymarket_row();
    row.volume = Some(String::from("12345.67"));
    row.volume_24hr = Some(String::from("bad"));
    row.liquidity = Some(String::from("42"));
    let c = PolymarketCollector::new().convert_market(row).unwrap();
    assert_eq!(c.volume, 1234567);
    assert_eq!(c.volume_24h, 0);
    assert_eq!(c.liquidity, Some(4200));

    let mut row = polymarket_row();
    row.liquidity = Some(String::from("bad"));
    let c = PolymarketCollector::new().convert_market(row).unwrap();
    assert_eq!(c.liquidity, None);
}

#[test]
fn polymarket_status_from_active_flag() {
    let c = PolymarketCollector::new().convert_market(polymarket_row()).unwrap();
    assert_eq!(c.status, "open");
    let mut row = polymarket_row();
    row.active = false;
    let c = PolymarketCollector::new().convert_market(row).unwrap();
    assert_eq!(c.status, "closed");
}

#[test]
fn polymarket_url_and_description() {
    let mut row = polymarket_row();
    row.description = Some(String::from("Details"));
    let c = PolymarketCollector::new().convert_market(row).unwrap();
    assert_eq!(c.url, "https://polymarket.com/event/0xabc");
    assert_eq!(c.description, "Details");
    let c = PolymarketCollector::new().convert_market(polymarket_row()).unwrap();
    assert_eq!(c.description, "");
}

#[test]
fn decimal_parsing_exact_values() {
    let max = u64::MAX;
    assert_eq!(parse_scaled("0.3", 4, max), Some(3000));
    assert_eq!(parse_scaled("1", 4, max), Some(10000));
    assert_eq!(parse_scaled("0.123456", 4, max), Some(1234));
    assert_eq!(parse_scaled("007", 2, max), Some(700));
    assert_eq!(parse_scaled("3.5", 0, max), Some(3));
}

#[test]
fn decimal_parsing_rejects_bad_shapes() {
    let max = u64::MAX;
    assert_eq!(parse_scaled("", 2, max), None);
    assert_eq!(parse_scaled(".5", 2, max), None);
    assert_eq!(parse_scaled("5.", 2, max), None);
    assert_eq!(parse_scaled("1.2.3", 2, max), None);
    assert_eq!(parse_scaled("-1", 2, max), None);
    assert_eq!(parse_scaled("1e5", 2, max), None);
    assert_eq!(parse_scaled("99", 0, 98), None);
}

#[test]
fn integer_and_bool_parsing() {
    assert_eq!(parse_u64("3600"), Some(3600));
    assert_eq!(parse_u64("0"), Some(0));
    assert_eq!(parse_u64(""), None);
    assert_eq!(parse_u64("12a"), None);
    assert_eq!(parse_u64("18446744073709551615"), Some(u64::MAX));
    assert_eq!(parse_u64("18446744073709551616"), None);
    assert_eq!(parse_bool("true"), Some(true));
    assert_eq!(parse_bool("false"), Some(false));
    assert_eq!(parse_bool("yes"), None);
}

#[test]
fn substring_and_folding() {
    let hay = fold_chars("Will BTC Hit 100k");
    let needle = str_chars("btc");
    assert!(contains_sub(&hay, &needle));
    let absent = str_chars("eth");
    assert!(!contains_sub(&hay, &absent));
    let empty: Vec<char> = Vec::new();
    assert!(contains_sub(&hay, &empty));
}

#[test]
fn worker_config_defaults_and_errors() {
    let c = Config::from_values(String::from("postgres://db"), None, None, None).unwrap();
    assert_eq!(c.collection_interval_seconds, 3600);
    assert_eq!(c.tracked_markets_limit, 10);
    assert!(c.enabled);
    assert_eq!(c.database_url, "postgres://db");

    let c = Config::from_values(
        String::from("postgres://db"),
        Some(String::from("60")),
        Some(String::from("4")),
        Some(String::from("false")),
    )
    .unwrap();
    assert_eq!(c.collection_interval_seconds, 60);
    assert_eq!(c.tracked_markets_limit, 4);
    assert!(!c.enabled);

    let e = Config::from_values(String::from("u"), Some(String::from("abc")), None, None);
    assert_eq!(e.unwrap_err(), ConfigError::BadInterval);
    let e = Config::from_values(String::from("u"), None, Some(String::from("-3")), None);
    assert_eq!(e.unwrap_err(), ConfigError::BadLimit);
    let e = Config::from_values(String::from("u"), None, None, Some(String::from("maybe")));
    assert_eq!(e.unwrap_err(), ConfigError::BadFlag);
}

#[test]
fn api_config_port_parsing() {
    let c = ApiConfig::from_values(String::from("postgres://db"), None, None).unwrap();
    assert_eq!(c.port, 3000);
    assert_eq!(c.host, "0.0.0.0");
    let c = ApiConfig::from_values(
        String::from("postgres://db"),
        Some(String::from("8080")),
        Some(String::from("127.0.0.1")),
    )
    .unwrap();
    assert_eq!(c.port, 8080);
    assert_eq!(c.host, "127.0.0.1");
    assert!(ApiConfig::from_values(String::from("u"), Some(String::from("70000")), None).is_err());
    assert!(ApiConfig::from_values(String::from("u"), Some(String::from("80a")), None).is_err());
}

#[test]
fn market_source_names() {
    assert_eq!(MarketSource::Polymarket.as_str(), "polymarket");
    assert_eq!(MarketSource::Kalshi.as_str(), "kalshi");
    assert_eq!(
        MarketSource::from_str("POLYMARKET").unwrap(),
        MarketSource::Polymarket
    );
    assert_eq!(MarketSource::from_str("Kalshi").unwrap(), MarketSource::Kalshi);
    assert_eq!(
        MarketSource::from_str("predictit").unwrap_err(),
        "Unknown market source: predictit"
    );
}

#[test]
fn market_status_names() {
    assert_eq!(MarketStatus::Open.as_str(), "open");
    assert_eq!(MarketStatus::Closed.as_str(), "closed");
    assert_eq!(MarketStatus::Resolved.as_str(), "resolved");
}
