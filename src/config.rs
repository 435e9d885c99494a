use vstd::prelude::*;
use crate::text::{all_digits, chars_of, digits_value, parse_decimal_range};
use crate::track::text_eq;

verus! {

/// Longest backfill window, in seconds: the range of a chrono `TimeDelta`
/// in whole seconds.
pub const MAX_WINDOW_SECS: u64 = 9223372036854775;

/// Polling interval used when the configuration names none.
pub const DEFAULT_POLLING_INTERVAL: u64 = 10;

/// Shortest polling interval the remote service's rate limit allows.
pub const MIN_POLLING_INTERVAL: u64 = 3;

/// Seconds in one unit of a window string: `d`ays, `h`ours or `m`inutes.
pub open spec fn unit_seconds(c: char) -> Option<int> {
    if c == 'd' {
        Some(86400)
    } else if c == 'h' {
        Some(3600)
    } else if c == 'm' {
        Some(60)
    } else {
        None
    }
}

/// The length, in seconds, of a window written as a decimal amount followed
/// by one unit letter (`7d`, `24h`, `30m`), when it is in range.
pub open spec fn window_seconds(s: Seq<char>) -> Option<int> {
    if s.len() >= 2 && all_digits(s.drop_last()) && unit_seconds(s.last()) is Some && digits_value(s.drop_last())
        * unit_seconds(s.last())->0 <= MAX_WINDOW_SECS {
        Some(digits_value(s.drop_last()) * unit_seconds(s.last())->0)
    } else {
        None
    }
}

/// Reads a backfill window such as `7d`, `24h` or `30m` as a number of seconds.
pub fn parse_time_string(time_str: &str) -> (r: Option<u64>)
    ensures
        r matches Some(v) ==> window_seconds(time_str@) == Some(v as int),
        r is None ==> window_seconds(time_str@) is None,
{
    let cs = chars_of(time_str);
    let n = cs.len();
    if n < 2 {
        return None;
    }
    let u = cs[n - 1];
    let unit: u64 = if u == 'd' {
        86400
    } else if u == 'h' {
        3600
    } else if u == 'm' {
        60
    } else {
        return None;
    };
    let ghost amount_text = cs@.subrange(0, n - 1);
    assert(amount_text =~= time_str@.drop_last());
    match parse_decimal_range(&cs, 0, n - 1, MAX_WINDOW_SECS) {
        None => {
            assert(window_seconds(time_str@) is None) by {
                if all_digits(amount_text) {
                    assert(digits_value(amount_text) > MAX_WINDOW_SECS);
                    assert(digits_value(amount_text) * (unit as int) >= digits_value(amount_text)) by (nonlinear_arith)
                        requires
                            digits_value(amount_text) > MAX_WINDOW_SECS,
                            unit >= 1,
                    ;
                }
            }
            None
        },
        Some(amount) => {
            let total: u128 = (amount as u128) * (unit as u128);
            if total <= MAX_WINDOW_SECS as u128 {
                Some(total as u64)
            } else {
                None
            }
        },
    }
}

/// The configuration the engine runs with.
#[derive(Debug, Clone)]
pub struct Config {
    pub api_key: String,
    pub username: String,
    pub polling_interval: u64,
}

/// Why a configuration cannot be used.
#[derive(Debug, Clone, Copy, PartialEq, Eq)]
pub enum ConfigError {
    MissingApiKey,
    MissingUsername,
    PollingIntervalTooShort,
    UsernameNotSet,
    ApiKeyNotSet,
}

/// A credential is unset when it is empty or still the placeholder that a
/// fresh configuration file holds.
pub open spec fn is_unset(value: Seq<char>, placeholder: Seq<char>) -> bool {
    value.len() == 0 || value == placeholder
}

/// Checks the values read from the configuration file, in this order: both
/// credentials present, the polling interval (10 s when absent) at least
/// 3 s, and neither credential left empty or at its placeholder.
pub fn validate_config(api_key: Option<String>, username: Option<String>, polling_interval: Option<u64>) -> (r:
    Result<Config, ConfigError>)
    ensures
        api_key is None ==> r == Err::<Config, ConfigError>(ConfigError::MissingApiKey),
        api_key is Some && username is None ==> r == Err::<Config, ConfigError>(ConfigError::MissingUsername),
        ({
            let interval = match polling_interval {
                Some(p) => p,
                None => DEFAULT_POLLING_INTERVAL,
            };
            match (api_key, username) {
                (Some(k), Some(u)) => if interval < MIN_POLLING_INTERVAL {
                r == Err::<Config, ConfigError>(ConfigError::PollingIntervalTooShort)
            } else if is_unset(u@, "your_username"@) {
                r == Err::<Config, ConfigError>(ConfigError::UsernameNotSet)
            } else if is_unset(k@, "your-api-key"@) {
                r == Err::<Config, ConfigError>(ConfigError::ApiKeyNotSet)
            } else {
                r matches Ok(c) && c.api_key@ == k@ && c.username@ == u@ && c.polling_interval == interval
                },
                _ => true,
            }
        }),
{
    let api_key = match api_key {
        Some(k) => k,
        None => return Err(ConfigError::MissingApiKey),
    };
    let username = match username {
        Some(u) => u,
        None => return Err(ConfigError::MissingUsername),
    };
    let polling_interval = match polling_interval {
        Some(p) => p,
        None => DEFAULT_POLLING_INTERVAL,
    };
    if polling_interval < MIN_POLLING_INTERVAL {
        return Err(ConfigError::PollingIntervalTooShort);
    }
    if username.as_str().is_empty() || text_eq(username.as_str(), "your_username") {
        return Err(ConfigError::UsernameNotSet);
    }
    if api_key.as_str().is_empty() || text_eq(api_key.as_str(), "your-api-key") {
        return Err(ConfigError::ApiKeyNotSet);
    }
    Ok(Config { api_key, username, polling_interval })
}

} // verus!
