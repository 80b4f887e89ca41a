//! Worker configuration, built once at startup from plain text values and
//! passed into the scheduler. Reading the environment happens outside the
//! library; parsing and defaulting happen here.

use vstd::prelude::*;

use crate::text::{digits_value, is_digits, parse_bool, parse_u64};

verus! {

/// Immutable worker configuration.
#[derive(Clone, Debug)]
pub struct Config {
    pub database_url: String,
    pub collection_interval_seconds: u64,
    pub tracked_markets_limit: usize,
    pub enabled: bool,
}

/// Which configuration value failed to parse.
#[derive(Clone, Copy, Debug, PartialEq, Eq, Structural)]
pub enum ConfigError {
    BadInterval,
    BadLimit,
    BadFlag,
}

/// The default collection interval, in seconds.
pub const DEFAULT_INTERVAL_SECONDS: u64 = 3600;

/// The default tracked-markets budget.
pub const DEFAULT_TRACKED_MARKETS: usize = 10;

impl Config {
    /// Build the configuration from raw text values: an absent value takes
    /// its default (3600 s interval, 10 tracked markets, worker enabled); a
    /// present value must parse — a run of digits for the two numbers,
    /// `true`/`false` for the flag — or the whole configuration is
    /// rejected, naming the first bad value in the order interval, limit,
    /// flag.
    pub fn from_values(
        database_url: String,
        interval: Option<String>,
        limit: Option<String>,
        enabled: Option<String>,
    ) -> (r: Result<Config, ConfigError>)
        ensures
            match r {
                Ok(c) => {
                    &&& c.database_url@ == database_url@
                    &&& (match interval {
                        Some(s) => is_digits(s@) && c.collection_interval_seconds
                            == digits_value(s@),
                        None => c.collection_interval_seconds == DEFAULT_INTERVAL_SECONDS,
                    })
                    &&& (match limit {
                        Some(s) => is_digits(s@) && c.tracked_markets_limit == digits_value(
                            s@,
                        ),
                        None => c.tracked_markets_limit == DEFAULT_TRACKED_MARKETS,
                    })
                    &&& (match enabled {
                        Some(s) => (s@ == "true"@ && c.enabled) || (s@ == "false"@
                            && !c.enabled),
                        None => c.enabled,
                    })
                },
                Err(e) => {
                    &&& (e == ConfigError::BadInterval <==> (interval matches Some(s)
                        && !(is_digits(s@) && digits_value(s@) <= u64::MAX)))
                    &&& (e == ConfigError::BadLimit ==> (limit matches Some(s) && !(is_digits(
                        s@,
                    ) && digits_value(s@) <= usize::MAX)))
                    &&& (e == ConfigError::BadFlag ==> (enabled matches Some(s) && s@ != "true"@
                        && s@ != "false"@))
                },
            },
            r is Err <==> !({
                &&& (match interval {
                    Some(s) => is_digits(s@) && digits_value(s@) <= u64::MAX,
                    None => true,
                })
                &&& (match limit {
                    Some(s) => is_digits(s@) && digits_value(s@) <= usize::MAX,
                    None => true,
                })
                &&& (match enabled {
                    Some(s) => s@ == "true"@ || s@ == "false"@,
                    None => true,
                })
            }),
    {
        let collection_interval_seconds: u64 = match &interval {
            Some(s) => match parse_u64(s.as_str()) {
                Some(v) => v,
                None => {
                    return Err(ConfigError::BadInterval);
                },
            },
            None => DEFAULT_INTERVAL_SECONDS,
        };
        let tracked_markets_limit: usize = match &limit {
            Some(s) => match parse_u64(s.as_str()) {
                Some(v) => {
                    if v <= usize::MAX as u64 {
                        v as usize
                    } else {
                        return Err(ConfigError::BadLimit);
                    }
                },
                None => {
                    return Err(ConfigError::BadLimit);
                },
            },
            None => DEFAULT_TRACKED_MARKETS,
        };
        let enabled: bool = match &enabled {
            Some(s) => match parse_bool(s.as_str()) {
                Some(b) => b,
                None => {
                    return Err(ConfigError::BadFlag);
                },
            },
            None => true,
        };
        Ok(
            Config {
                database_url,
                collection_interval_seconds,
                tracked_markets_limit,
                enabled,
            },
        )
    }
}

} // verus!
