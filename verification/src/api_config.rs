//! Query-service configuration, built once at startup from plain text
//! values. Reading the environment happens outside the library; parsing
//! and defaulting happen here.

use vstd::prelude::*;

use crate::text::{digits_value, is_digits, parse_u64};
use vstd::string::StringExecFns;

verus! {

/// Immutable query-service configuration.
#[derive(Clone, Debug)]
pub struct Config {
    pub database_url: String,
    pub port: u16,
    pub host: String,
}

/// The port text did not parse as a 16-bit number.
#[derive(Clone, Copy, Debug, PartialEq, Eq, Structural)]
pub struct BadPort {}

/// The default listen port.
pub const DEFAULT_PORT: u16 = 3000;

impl Config {
    /// Build the configuration from raw text values: an absent port takes
    /// 3000, a present one must be a run of digits fitting 16 bits; an
    /// absent host takes `0.0.0.0`.
    pub fn from_values(database_url: String, port: Option<String>, host: Option<String>) -> (r:
        Result<Config, BadPort>)
        ensures
            match r {
                Ok(c) => {
                    &&& c.database_url@ == database_url@
                    &&& (match port {
                        Some(s) => is_digits(s@) && c.port == digits_value(s@),
                        None => c.port == DEFAULT_PORT,
                    })
                    &&& (match host {
                        Some(h) => c.host@ == h@,
                        None => c.host@ == "0.0.0.0"@,
                    })
                },
                Err(_) => (port matches Some(s) && !(is_digits(s@) && digits_value(s@)
                    <= u16::MAX)),
            },
            r is Err <==> (port matches Some(s) && !(is_digits(s@) && digits_value(s@)
                <= u16::MAX)),
    {
        let port_value: u16 = match &port {
            Some(s) => match parse_u64(s.as_str()) {
                Some(v) => {
                    if v <= u16::MAX as u64 {
                        v as u16
                    } else {
                        return Err(BadPort {  });
                    }
                },
                None => {
                    return Err(BadPort {  });
                },
            },
            None => DEFAULT_PORT,
        };
        let host_value: String = match host {
            Some(h) => h,
            None => String::from_str("0.0.0.0"),
        };
        Ok(Config { database_url, port: port_value, host: host_value })
    }
}

} // verus!
