//! Runtime configuration of the grid and the rules that read it from raw
//! environment text.

use crate::decimal::{dec_floor, dec_parse, floor_of, Dec, decimal_from_text, dec_of};
use crate::domain::GridMode;
use crate::text::{lower_text, text_equals, text_equals_ignore_ascii_case};
use vstd::prelude::*;
use vstd::string::StringExecFns;

verus! {

#[derive(Debug, PartialEq)]
pub struct AppConfig {
    pub symbol: String,
    pub levels: usize,
    pub spacing_bps: Dec,
    pub order_size: Dec,
    pub max_position_abs: Dec,
    pub grid_mode: GridMode,
    pub grid_active_levels: usize,
    pub grid_short_bias_sell_ratio: Dec,
    pub grid_min_price: Option<Dec>,
    pub grid_max_price: Option<Dec>,
    pub leverage: Dec,
    pub quote_asset: String,
    pub kill_switch: bool,
}

impl Clone for AppConfig {
    fn clone(&self) -> (r: Self)
        ensures
            r == *self,
    {
        AppConfig {
            symbol: self.symbol.clone(),
            levels: self.levels,
            spacing_bps: self.spacing_bps,
            order_size: self.order_size,
            max_position_abs: self.max_position_abs,
            grid_mode: self.grid_mode,
            grid_active_levels: self.grid_active_levels,
            grid_short_bias_sell_ratio: self.grid_short_bias_sell_ratio,
            grid_min_price: self.grid_min_price,
            grid_max_price: self.grid_max_price,
            leverage: self.leverage,
            quote_asset: self.quote_asset.clone(),
            kill_switch: self.kill_switch,
        }
    }
}

#[derive(Debug, PartialEq)]
pub enum ConfigError {
    InvalidDecimal { name: String, raw: String },
    InvalidGridMode(String),
}

/// The decimal an optional raw value gives: the fallback when absent, the
/// parsed value when it parses, an `InvalidDecimal` error otherwise.
pub open spec fn num_decimal_spec(name: Seq<char>, raw: Option<Seq<char>>, fallback: Dec) -> Result<Dec, Seq<char>> {
    match raw {
        None => Ok(fallback),
        Some(text) => match decimal_from_text(text) {
            Some(parts) => Ok(dec_of(parts)),
            None => Err(name),
        },
    }
}

pub fn num_decimal(name: &str, raw: Option<&str>, fallback: Dec) -> (r: Result<Dec, ConfigError>)
    ensures
        raw is None ==> r == Ok::<Dec, ConfigError>(fallback),
        raw matches Some(text) ==> match decimal_from_text(text@) {
            Some(parts) => r == Ok::<Dec, ConfigError>(dec_of(parts)) && dec_of(parts).wf(),
            None => r matches Err(ConfigError::InvalidDecimal { name: n, raw: t }) && n@ == name@
                && t@ == text@,
        },
{
    match raw {
        None => Ok(fallback),
        Some(text) => match dec_parse(text) {
            Some(d) => Ok(d),
            None => Err(ConfigError::InvalidDecimal { name: String::from_str(name), raw: String::from_str(text) }),
        },
    }
}

pub fn optional_decimal(name: &str, raw: Option<&str>) -> (r: Result<Option<Dec>, ConfigError>)
    ensures
        raw is None ==> r == Ok::<Option<Dec>, ConfigError>(None),
        raw matches Some(text) ==> match decimal_from_text(text@) {
            Some(parts) => r == Ok::<Option<Dec>, ConfigError>(Some(dec_of(parts))) && dec_of(parts).wf(),
            None => r matches Err(ConfigError::InvalidDecimal { name: n, raw: t }) && n@ == name@
                && t@ == text@,
        },
{
    match raw {
        None => Ok(None),
        Some(text) => match dec_parse(text) {
            Some(d) => Ok(Some(d)),
            None => Err(ConfigError::InvalidDecimal { name: String::from_str(name), raw: String::from_str(text) }),
        },
    }
}

/// `trunc().to_string().parse::<u64>()` of an integer-valued decimal at scale 0.
pub open spec fn integer_to_u64(d: Dec) -> Option<u64> {
    if d.scale == 0 && 0 <= d.mantissa <= u64::MAX {
        Some(d.mantissa as u64)
    } else {
        None
    }
}

/// A count: the floor of the decimal as a `u64`, the fallback when it is not
/// one, and at least 1.
///
/// A zero here always carries a positive sign: parsed text and `Decimal::from`
/// give zero a positive sign, and the floor takes every value between -1 and 0
/// to -1, so no count is read from the text `-0`.
pub open spec fn count_of(value: Dec, fallback: usize) -> usize {
    let n = match integer_to_u64(floor_of(value)) {
        Some(v) => v,
        None => fallback as u64,
    };
    (if n < 1 {
        1
    } else {
        n
    }) as usize
}

pub fn num_usize(name: &str, raw: Option<&str>, fallback: usize) -> (r: Result<usize, ConfigError>)
    ensures
        raw is None ==> r == Ok::<usize, ConfigError>(count_of(Dec::from_u64_spec(fallback as u64), fallback)),
        raw matches Some(text) ==> match decimal_from_text(text@) {
            Some(parts) => r == Ok::<usize, ConfigError>(count_of(dec_of(parts), fallback)),
            None => r matches Err(ConfigError::InvalidDecimal { name: n, raw: t }) && n@ == name@
                && t@ == text@,
        },
{
    let value = num_decimal(name, raw, Dec::from_u64(fallback as u64))?;
    let floored = dec_floor(value);
    let n: u64 = if floored.scale == 0 && 0 <= floored.mantissa && floored.mantissa <= u64::MAX as i128 {
        floored.mantissa as u64
    } else {
        fallback as u64
    };
    let n: u64 = if n < 1 {
        1
    } else {
        n
    };
    Ok(n as usize)
}

/// A flag: true when the lower-cased raw text is `1`, `true`, `yes` or `on`.
pub open spec fn flag_text(raw: Seq<char>) -> bool {
    let t = lower_text(raw);
    t == "1"@ || t == "true"@ || t == "yes"@ || t == "on"@
}

pub fn bool_flag(raw: Option<&str>, fallback: bool) -> (r: bool)
    ensures
        r == match raw {
            Some(text) => flag_text(text@),
            None => fallback,
        },
{
    match raw {
        None => fallback,
        Some(text) => {
            proof {
                reveal_strlit("1");
                reveal_strlit("true");
                reveal_strlit("yes");
                reveal_strlit("on");
                assert(lower_text("1"@) =~= "1"@);
                assert(lower_text("true"@) =~= "true"@);
                assert(lower_text("yes"@) =~= "yes"@);
                assert(lower_text("on"@) =~= "on"@);
            }
            text_equals_ignore_ascii_case(text, "1") || text_equals_ignore_ascii_case(text, "true")
                || text_equals_ignore_ascii_case(text, "yes") || text_equals_ignore_ascii_case(
                text,
                "on",
            )
        },
    }
}

/// The grid mode a raw value names; `Neutral` when absent.
pub fn grid_mode(raw: Option<&str>) -> (r: Result<GridMode, ConfigError>)
    ensures
        match raw {
            None => r == Ok::<GridMode, ConfigError>(GridMode::Neutral),
            Some(text) => if text@ == "neutral"@ {
                r == Ok::<GridMode, ConfigError>(GridMode::Neutral)
            } else if text@ == "short_bias"@ {
                r == Ok::<GridMode, ConfigError>(GridMode::ShortBias)
            } else if text@ == "short_only"@ {
                r == Ok::<GridMode, ConfigError>(GridMode::ShortOnly)
            } else {
                r matches Err(ConfigError::InvalidGridMode(t)) && t@ == text@
            },
        },
{
    match raw {
        None => Ok(GridMode::Neutral),
        Some(text) => {
            if text_equals(text, "neutral") {
                Ok(GridMode::Neutral)
            } else if text_equals(text, "short_bias") {
                Ok(GridMode::ShortBias)
            } else if text_equals(text, "short_only") {
                Ok(GridMode::ShortOnly)
            } else {
                Err(ConfigError::InvalidGridMode(String::from_str(text)))
            }
        },
    }
}

} // verus!
