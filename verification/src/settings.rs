//! The order-sync bot's configuration and the rules that read each setting
//! from its raw text (the environment is read by the application).

use crate::config::{bool_flag, flag_text};
use crate::decimal::{dec_parse, parsed_of, Dec};
use crate::domain::GridMode;
use crate::text::text_equals;
use vstd::prelude::*;
use vstd::string::{StrSliceExecFns, StringExecFns};

verus! {

#[derive(Debug, PartialEq)]
pub struct Config {
    pub symbol: String,
    pub levels: usize,
    pub spacing_bps: Dec,
    pub order_size: Dec,
    pub max_position_abs: Dec,
    pub grid_mode: GridMode,
    pub grid_active_levels: usize,
    pub grid_short_bias_sell_ratio: usize,
    pub grid_min_price: Option<Dec>,
    pub grid_max_price: Option<Dec>,
    pub kill_switch: bool,
    pub quote_asset: String,
    pub loop_interval_ms: u64,
    pub run_once: bool,
    pub state_path: String,
    pub events_path: String,
    pub cycles_path: String,
    pub live_enabled: bool,
    pub ws_enabled: bool,
    pub ws_url: Option<String>,
    pub api_base_url: String,
    pub api_key: String,
    pub api_secret: String,
}

/// Why a setting could not be read; each names the setting.
#[derive(Debug, PartialEq)]
pub enum SettingsError {
    InvalidDecimal(String),
    InvalidUsize(String),
    InvalidU64(String),
    InvalidGridMode,
}

impl SettingsError {
    /// The error's message.
    pub fn message(&self) -> (r: String)
        ensures
            r@ == match self {
                SettingsError::InvalidDecimal(name) => "invalid decimal env "@ + name@,
                SettingsError::InvalidUsize(name) => "invalid usize env "@ + name@,
                SettingsError::InvalidU64(name) => "invalid u64 env "@ + name@,
                SettingsError::InvalidGridMode => "invalid GRID_MODE"@,
            },
    {
        match self {
            SettingsError::InvalidDecimal(name) => {
                let mut s = String::from_str("invalid decimal env ");
                s.append(name.as_str());
                s
            },
            SettingsError::InvalidUsize(name) => {
                let mut s = String::from_str("invalid usize env ");
                s.append(name.as_str());
                s
            },
            SettingsError::InvalidU64(name) => {
                let mut s = String::from_str("invalid u64 env ");
                s.append(name.as_str());
                s
            },
            SettingsError::InvalidGridMode => String::from_str("invalid GRID_MODE"),
        }
    }
}

pub open spec fn is_digit(c: char) -> bool {
    '0' <= c && c <= '9'
}

pub open spec fn all_digits(s: Seq<char>) -> bool {
    forall|k: int| 0 <= k < s.len() ==> is_digit(#[trigger] s[k])
}

/// The number decimal digits spell.
pub open spec fn digits_value(s: Seq<char>) -> int
    decreases s.len(),
{
    if s.len() == 0 {
        0
    } else {
        digits_value(s.drop_last()) * 10 + (s.last() as int - '0' as int)
    }
}

/// An unsigned integer as `str::parse` reads it: an optional `+`, then one
/// or more decimal digits.
pub open spec fn unsigned_text(s: Seq<char>) -> Option<int> {
    let body = if s.len() > 0 && s[0] == '+' {
        s.drop_first()
    } else {
        s
    };
    if body.len() > 0 && all_digits(body) {
        Some(digits_value(body))
    } else {
        None
    }
}

/// A longer run of digits spells at least as much.
pub proof fn lemma_digits_value_grows(s: Seq<char>, k: int)
    requires
        all_digits(s),
        0 <= k <= s.len(),
    ensures
        digits_value(s) >= digits_value(s.take(k)),
        digits_value(s.take(k)) >= 0,
    decreases s.len(),
{
    if k == s.len() {
        assert(s.take(k) =~= s);
        lemma_digits_value_nonneg(s);
    } else {
        assert(s.drop_last().take(k) =~= s.take(k));
        lemma_digits_value_grows(s.drop_last(), k);
        lemma_digits_value_nonneg(s.drop_last());
    }
}

/// A run of decimal digits has a non-negative value.
pub proof fn lemma_digits_value_nonneg(s: Seq<char>)
    requires
        all_digits(s),
    ensures
        digits_value(s) >= 0,
    decreases s.len(),
{
    if s.len() > 0 {
        lemma_digits_value_nonneg(s.drop_last());
    }
}

/// The unsigned integer the text spells, when it spells one no greater than `max`.
pub fn parse_unsigned(text: &str, max: u64) -> (r: Option<u64>)
    ensures
        match r {
            Some(v) => unsigned_text(text@) == Some(v as int) && v <= max,
            None => !(unsigned_text(text@) matches Some(v) && v <= max),
        },
{
    let n = text.unicode_len();
    let start: usize = if n > 0 && text.get_char(0) == '+' {
        1
    } else {
        0
    };
    let ghost body = if text@.len() > 0 && text@[0] == '+' {
        text@.drop_first()
    } else {
        text@
    };
    assert(body =~= text@.skip(start as int));
    if start == n {
        return None;
    }
    let mut acc: u128 = 0;
    let mut i: usize = start;
    assert(body.take(0) =~= Seq::<char>::empty());
    while i < n
        invariant
            n == text@.len(),
            start <= i <= n,
            body == text@.skip(start as int),
            body == (if text@.len() > 0 && text@[0] == '+' {
                text@.drop_first()
            } else {
                text@
            }),
            body.len() > 0,
            all_digits(body.take(i - start)),
            acc == digits_value(body.take(i - start)),
            acc <= max,
        decreases n - i,
    {
        let c = text.get_char(i);
        assert(body[i - start] == c);
        if !('0' <= c && c <= '9') {
            assert(!all_digits(body));
            assert(unsigned_text(text@) is None);
            return None;
        }
        let d = (c as u32 - '0' as u32) as u128;
        assert(body.take(i - start + 1).drop_last() =~= body.take(i - start));
        assert(body.take(i - start + 1).last() == c);
        acc = acc * 10 + d;
        i = i + 1;
        if acc > max as u128 {
            proof {
                if all_digits(body) {
                    lemma_digits_value_grows(body, i - start);
                    assert(unsigned_text(text@) == Some(digits_value(body)));
                } else {
                    assert(unsigned_text(text@) is None);
                }
            }
            return None;
        }
    }
    assert(body.take(n - start) =~= body);
    Some(acc as u64)
}

/// A flag setting: `1`, `true`, `yes` or `on` in any case is on; the
/// fallback when unset.
pub fn parse_bool(raw: Option<&str>, fallback: bool) -> (r: bool)
    ensures
        r == match raw {
            Some(text) => flag_text(text@),
            None => fallback,
        },
{
    bool_flag(raw, fallback)
}

/// A decimal setting; the fallback text when unset.
pub fn parse_decimal(name: &str, raw: Option<&str>, fallback: &str) -> (r: Result<Dec, SettingsError>)
    ensures
        match parsed_of(
            match raw {
                Some(t) => t@,
                None => fallback@,
            },
        ) {
            Some(d) => r == Ok::<Dec, SettingsError>(d),
            None => r matches Err(SettingsError::InvalidDecimal(n)) && n@ == name@,
        },
{
    let text = match raw {
        Some(t) => t,
        None => fallback,
    };
    match dec_parse(text) {
        Some(d) => Ok(d),
        None => Err(SettingsError::InvalidDecimal(String::from_str(name))),
    }
}

/// The characters `char::is_whitespace` accepts.
pub open spec fn is_white(c: char) -> bool {
    ||| ('\u{9}' <= c && c <= '\u{d}')
    ||| c == ' '
    ||| c == '\u{85}'
    ||| c == '\u{a0}'
    ||| c == '\u{1680}'
    ||| ('\u{2000}' <= c && c <= '\u{200a}')
    ||| c == '\u{2028}'
    ||| c == '\u{2029}'
    ||| c == '\u{202f}'
    ||| c == '\u{205f}'
    ||| c == '\u{3000}'
}

/// Nothing but whitespace: what `trim().is_empty()` tests.
pub open spec fn blank(s: Seq<char>) -> bool {
    forall|k: int| 0 <= k < s.len() ==> is_white(#[trigger] s[k])
}

fn is_white_char(c: char) -> (r: bool)
    ensures
        r == is_white(c),
{
    ('\u{9}' <= c && c <= '\u{d}') || c == ' ' || c == '\u{85}' || c == '\u{a0}' || c == '\u{1680}' || (
    '\u{2000}' <= c && c <= '\u{200a}') || c == '\u{2028}' || c == '\u{2029}' || c == '\u{202f}' || c
        == '\u{205f}' || c == '\u{3000}'
}

/// Whether the text is empty once trimmed.
pub fn is_blank(text: &str) -> (r: bool)
    ensures
        r == blank(text@),
{
    let n = text.unicode_len();
    let mut i: usize = 0;
    while i < n
        invariant
            n == text@.len(),
            i <= n,
            forall|k: int| 0 <= k < i ==> is_white(#[trigger] text@[k]),
        decreases n - i,
    {
        if !is_white_char(text.get_char(i)) {
            return false;
        }
        i = i + 1;
    }
    true
}

/// An optional decimal setting: none when unset or blank.
pub fn parse_optional_decimal(name: &str, raw: Option<&str>) -> (r: Result<Option<Dec>, SettingsError>)
    ensures
        match raw {
            None => r == Ok::<Option<Dec>, SettingsError>(None),
            Some(t) => if blank(t@) {
                r == Ok::<Option<Dec>, SettingsError>(None)
            } else {
                match parsed_of(t@) {
                    Some(d) => r == Ok::<Option<Dec>, SettingsError>(Some(d)),
                    None => r matches Err(SettingsError::InvalidDecimal(n)) && n@ == name@,
                }
            },
        },
{
    match raw {
        None => Ok(None),
        Some(t) => {
            if is_blank(t) {
                Ok(None)
            } else {
                match dec_parse(t) {
                    Some(d) => Ok(Some(d)),
                    None => Err(SettingsError::InvalidDecimal(String::from_str(name))),
                }
            }
        },
    }
}

/// A count setting, at least one; the fallback when unset.
pub fn parse_usize(name: &str, raw: Option<&str>, fallback: usize) -> (r: Result<usize, SettingsError>)
    ensures
        match raw {
            None => r == Ok::<usize, SettingsError>(if fallback < 1 {
                1
            } else {
                fallback
            }),
            Some(t) => match unsigned_text(t@) {
                Some(v) => if v <= usize::MAX {
                    r == Ok::<usize, SettingsError>(if v < 1 {
                        1
                    } else {
                        v as usize
                    })
                } else {
                    r matches Err(SettingsError::InvalidUsize(n)) && n@ == name@
                },
                None => r matches Err(SettingsError::InvalidUsize(n)) && n@ == name@,
            },
        },
{
    match raw {
        None => Ok(
            if fallback < 1 {
                1
            } else {
                fallback
            },
        ),
        Some(t) => match parse_unsigned(t, usize::MAX as u64) {
            Some(v) => Ok(
                if v < 1 {
                    1
                } else {
                    v as usize
                },
            ),
            None => Err(SettingsError::InvalidUsize(String::from_str(name))),
        },
    }
}

/// A millisecond or other `u64` setting, at least one; the fallback when unset.
pub fn parse_u64(name: &str, raw: Option<&str>, fallback: u64) -> (r: Result<u64, SettingsError>)
    ensures
        match raw {
            None => r == Ok::<u64, SettingsError>(if fallback < 1 {
                1
            } else {
                fallback
            }),
            Some(t) => match unsigned_text(t@) {
                Some(v) => if v <= u64::MAX {
                    r == Ok::<u64, SettingsError>(if v < 1 {
                        1
                    } else {
                        v as u64
                    })
                } else {
                    r matches Err(SettingsError::InvalidU64(n)) && n@ == name@
                },
                None => r matches Err(SettingsError::InvalidU64(n)) && n@ == name@,
            },
        },
{
    match raw {
        None => Ok(
            if fallback < 1 {
                1
            } else {
                fallback
            },
        ),
        Some(t) => match parse_unsigned(t, u64::MAX) {
            Some(v) => Ok(
                if v < 1 {
                    1
                } else {
                    v
                },
            ),
            None => Err(SettingsError::InvalidU64(String::from_str(name))),
        },
    }
}

/// The grid mode a setting names exactly.
pub fn parse_grid_mode(raw: &str) -> (r: Result<GridMode, SettingsError>)
    ensures
        r == if raw@ == "neutral"@ {
            Ok::<GridMode, SettingsError>(GridMode::Neutral)
        } else if raw@ == "short_bias"@ {
            Ok::<GridMode, SettingsError>(GridMode::ShortBias)
        } else if raw@ == "short_only"@ {
            Ok::<GridMode, SettingsError>(GridMode::ShortOnly)
        } else {
            Err::<GridMode, SettingsError>(SettingsError::InvalidGridMode)
        },
{
    if text_equals(raw, "neutral") {
        Ok(GridMode::Neutral)
    } else if text_equals(raw, "short_bias") {
        Ok(GridMode::ShortBias)
    } else if text_equals(raw, "short_only") {
        Ok(GridMode::ShortOnly)
    } else {
        Err(SettingsError::InvalidGridMode)
    }
}

} // verus!
