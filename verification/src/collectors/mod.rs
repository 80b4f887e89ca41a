//! Source adapters: one per external platform, each normalizing that
//! platform's wire schema into canonical creation records.
//!
//! The fetch itself (HTTP, JSON decoding) happens outside the library; an
//! adapter receives the decoded rows as plain values and does all of the
//! normalization here.

use vstd::prelude::*;

pub mod kalshi;
pub mod polymarket;

use crate::text::{decimal_shape, decimal_value, parse_scaled};

verus! {

/// The fixed-point price a decimal numeral denotes, or `dflt` when the
/// text does not match the grammar or does not fit.
pub open spec fn price_from_text(s: Seq<char>, dflt: int) -> int {
    if decimal_shape(s) && 0 <= decimal_value(s, 4) <= i64::MAX {
        decimal_value(s, 4)
    } else {
        dflt
    }
}

/// The monetary amount (in hundredths) a decimal numeral denotes, or `0`
/// when the text does not match the grammar or does not fit.
pub open spec fn money_from_text(s: Seq<char>) -> int {
    if money_text_ok(s) {
        decimal_value(s, 2)
    } else {
        0
    }
}

/// The text parses as a representable monetary amount.
pub open spec fn money_text_ok(s: Seq<char>) -> bool {
    decimal_shape(s) && 0 <= decimal_value(s, 2) <= u64::MAX
}

/// Parse a price numeral, falling back to `dflt`.
pub fn parse_price_text(s: &str, dflt: i64) -> (r: i64)
    ensures
        r == price_from_text(s@, dflt as int),
{
    match parse_scaled(s, 4, 0x7fff_ffff_ffff_ffff) {
        Some(v) => v as i64,
        None => dflt,
    }
}

/// Parse a monetary numeral, falling back to zero.
pub fn parse_money_text(s: &str) -> (r: u64)
    ensures
        r == money_from_text(s@),
{
    match parse_scaled(s, 2, u64::MAX) {
        Some(v) => v,
        None => 0,
    }
}

/// Parse a monetary numeral, with no fallback.
pub fn parse_money_opt(s: &str) -> (r: Option<u64>)
    ensures
        money_text_ok(s@) ==> r == Some((decimal_value(s@, 2)) as u64),
        !money_text_ok(s@) ==> r is None,
{
    parse_scaled(s, 2, u64::MAX)
}

} // verus!
