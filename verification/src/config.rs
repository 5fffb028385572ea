//! The plugin's configuration: reading the options at start-up and judging a
//! change of configuration while it runs.
use vstd::prelude::*;

verus! {

/// The statistics period, in seconds, when the configuration gives none.
pub const DEFAULT_STATS_INTERVAL_SECS: u64 = 60;

/// The configuration key that holds the selector.
pub const SELECTOR_KEY: &'static str = "selector";

/// Whether zenoh accepts a string as a key expression.
pub uninterp spec fn zenoh_accepts_key_expr(s: Seq<char>) -> bool;

/// How zenoh's text for a refused key expression `s` begins.
pub open spec fn key_expr_error_prefix(s: Seq<char>) -> Seq<char> {
    "Invalid Key Expr `"@ + s + "`: "@
}

/// Calls `zenoh::key_expr::KeyExpr::try_from(&String)`. When zenoh accepts
/// the string, the key expression it builds holds the string itself, which
/// is handed back as text; when it refuses it, the text of zenoh's error is
/// handed back. The contract claims that acceptance depends on the string
/// alone, that an accepted key expression is the input unchanged, three
/// refusals that zenoh's validation code shows plainly (the empty string, a
/// string that ends in '/', and a string holding '#' or '?'), and that the
/// error text opens with "Invalid Key Expr `", the string, "`: ", as every
/// refusal of that code formats it. The rest of the text (the reason, and
/// the source file and line zenoh appends, which depend on where zenoh was
/// built) is left unsaid.
#[verifier::external_body]
fn key_expr_try_from(s: &String) -> (r: Result<String, String>)
    ensures
        r is Ok <==> zenoh_accepts_key_expr(s@),
        r matches Ok(k) ==> k@ == s@,
        s@.len() == 0 ==> r is Err,
        s@.len() > 0 && s@.last() == '/' ==> r is Err,
        s@.contains('#') || s@.contains('?') ==> r is Err,
        r matches Err(msg) ==> is_key_expr_error(msg@, s@),
{
    match zenoh::key_expr::KeyExpr::try_from(s) {
        Ok(k) => Ok(k.as_str().to_owned()),
        Err(e) => Err(e.to_string()),
    }
}

/// What the plugin reads of one configuration entry.
#[derive(Debug, Clone, PartialEq, Eq)]
pub enum ConfigValue {
    /// The entry is not set.
    Absent,
    /// The entry is a string.
    Text(String),
    /// The entry is a number; `Some` when it is an integer that fits in `u64`.
    Number(Option<u64>),
    /// The entry is of any other JSON type.
    Other,
}

/// The settings the plugin runs with.
#[derive(Debug, Clone, PartialEq, Eq)]
pub struct PluginConfig {
    /// Key expression to subscribe to.
    pub selector: String,
    /// Period of statistics reporting, in seconds.
    pub stats_interval_secs: u64,
    /// Key expression on which statistics are published, if any.
    pub stats_key: Option<String>,
}

/// Why a configuration is refused.
#[derive(Debug, Clone, PartialEq, Eq)]
pub enum ConfigError {
    /// `selector`, which is required, is not set.
    SelectorMissing,
    /// `selector` is set to something other than a string.
    SelectorNotString,
    /// `selector` is a string that zenoh refuses as a key expression.
    InvalidSelector(String),
    /// `stats_interval_secs` is set to something other than a number.
    StatsIntervalNotNumber,
    /// `stats_key` is set to something other than a string.
    StatsKeyNotString,
    /// `stats_key` is a string that zenoh refuses as a key expression.
    InvalidStatsKey(String),
}

/// What a configuration change means for a running plugin.
#[derive(Debug, Clone, Copy, PartialEq, Eq, Structural)]
pub enum ConfigCheck {
    /// Nothing the plugin depends on changed.
    Unchanged,
    /// The selector changed: the plugin must be restarted to apply it.
    RestartRequired,
}

/// A key-expression entry is usable: absent, or a string zenoh accepts.
pub open spec fn key_entry_ok(v: ConfigValue) -> bool {
    match v {
        ConfigValue::Absent => true,
        ConfigValue::Text(s) => zenoh_accepts_key_expr(s@),
        _ => false,
    }
}

/// The selector entry is usable: a string zenoh accepts (it is required).
pub open spec fn selector_entry_ok(v: ConfigValue) -> bool {
    v is Text && key_entry_ok(v)
}

/// `msg` is zenoh's text for refusing key expression `s`: it opens with
/// the prefix zenoh gives every refusal.
pub open spec fn is_key_expr_error(msg: Seq<char>, s: Seq<char>) -> bool {
    msg.len() >= key_expr_error_prefix(s).len() && msg.take(key_expr_error_prefix(s).len() as int)
        == key_expr_error_prefix(s)
}

/// The error an unusable `selector` entry is refused with.
pub open spec fn selector_error(v: ConfigValue, e: ConfigError) -> bool {
    match v {
        ConfigValue::Absent => e == ConfigError::SelectorMissing,
        ConfigValue::Text(s) => e matches ConfigError::InvalidSelector(m) && is_key_expr_error(
            m@,
            s@,
        ),
        _ => e == ConfigError::SelectorNotString,
    }
}

/// The error an unusable `stats_key` entry is refused with.
pub open spec fn stats_key_error(v: ConfigValue, e: ConfigError) -> bool {
    match v {
        ConfigValue::Text(s) => e matches ConfigError::InvalidStatsKey(m) && is_key_expr_error(
            m@,
            s@,
        ),
        _ => e == ConfigError::StatsKeyNotString,
    }
}

/// The interval entry is usable: absent or a number.
pub open spec fn interval_entry_ok(v: ConfigValue) -> bool {
    v is Absent || v is Number
}

/// The interval an entry gives: the number when it fits in `u64`, the default otherwise.
pub open spec fn interval_value(v: ConfigValue) -> u64 {
    match v {
        ConfigValue::Number(Some(n)) => n,
        _ => DEFAULT_STATS_INTERVAL_SECS,
    }
}

/// The selector an entry gives.
pub open spec fn selector_value(v: ConfigValue) -> Seq<char> {
    match v {
        ConfigValue::Text(s) => s@,
        _ => Seq::empty(),
    }
}

/// The statistics key an entry gives.
pub open spec fn stats_key_value(v: ConfigValue) -> Option<Seq<char>> {
    match v {
        ConfigValue::Text(s) => Some(s@),
        _ => None,
    }
}

/// The text of an optional string.
pub open spec fn opt_text(o: Option<String>) -> Option<Seq<char>> {
    match o {
        Some(s) => Some(s@),
        None => None,
    }
}

/// The verdict on a configuration change at `path`.
pub open spec fn config_change(path: Seq<char>, old: ConfigValue, new: ConfigValue) -> Result<
    ConfigCheck,
    ConfigError,
> {
    if path == SELECTOR_KEY@ || path.len() == 0 {
        match new {
            ConfigValue::Text(ns) => {
                if old matches ConfigValue::Text(os) && os@ == ns@ {
                    Ok(ConfigCheck::Unchanged)
                } else {
                    Ok(ConfigCheck::RestartRequired)
                }
            },
            ConfigValue::Absent => Ok(ConfigCheck::Unchanged),
            _ => Err(ConfigError::SelectorNotString),
        }
    } else {
        Ok(ConfigCheck::Unchanged)
    }
}

fn key_entry(
    v: &ConfigValue,
    is_stats_key: bool,
) -> (r: Result<Option<String>, ConfigError>)
    ensures
        r is Ok <==> key_entry_ok(*v),
        r matches Ok(k) ==> opt_text(k) == stats_key_value(*v),
        r matches Err(e) ==> (is_stats_key ==> stats_key_error(*v, e)),
        r matches Err(e) ==> (!is_stats_key ==> selector_error(*v, e)),
        r is Err ==> !(v is Absent),
{
    match v {
        ConfigValue::Absent => Ok(None),
        ConfigValue::Text(s) => match key_expr_try_from(s) {
            Ok(k) => Ok(Some(k)),
            Err(msg) => {
                if is_stats_key {
                    Err(ConfigError::InvalidStatsKey(msg))
                } else {
                    Err(ConfigError::InvalidSelector(msg))
                }
            },
        },
        _ => {
            if is_stats_key {
                Err(ConfigError::StatsKeyNotString)
            } else {
                Err(ConfigError::SelectorNotString)
            }
        },
    }
}

/// The struct of the sequence-detector plugin.
pub struct SequenceDetectorPlugin {}

impl SequenceDetectorPlugin {
    /// Reads the plugin's options: `selector` (required),
    /// `stats_interval_secs` (default 60, also when the number does not fit
    /// in `u64`) and `stats_key` (none by default). The first unusable
    /// entry, in that order, refuses the configuration.
    pub fn parse_config(
        selector: &ConfigValue,
        stats_interval_secs: &ConfigValue,
        stats_key: &ConfigValue,
    ) -> (r: Result<PluginConfig, ConfigError>)
        ensures
            r is Ok <==> selector_entry_ok(*selector) && interval_entry_ok(*stats_interval_secs)
                && key_entry_ok(*stats_key),
            r matches Ok(c) ==> {
                &&& c.selector@ == selector_value(*selector)
                &&& c.stats_interval_secs == interval_value(*stats_interval_secs)
                &&& opt_text(c.stats_key) == stats_key_value(*stats_key)
            },
            !selector_entry_ok(*selector) ==> (r matches Err(e) && selector_error(*selector, e)),
            selector_entry_ok(*selector) && !interval_entry_ok(*stats_interval_secs) ==> r == Err::<
                PluginConfig,
                ConfigError,
            >(ConfigError::StatsIntervalNotNumber),
            selector_entry_ok(*selector) && interval_entry_ok(*stats_interval_secs) && !key_entry_ok(
                *stats_key,
            ) ==> (r matches Err(e) && stats_key_error(*stats_key, e)),
    {
        let selector = match key_entry(selector, false) {
            Ok(Some(k)) => k,
            Ok(None) => {
                return Err(ConfigError::SelectorMissing);
            },
            Err(e) => {
                return Err(e);
            },
        };
        let interval = match stats_interval_secs {
            ConfigValue::Number(Some(n)) => *n,
            ConfigValue::Number(None) => DEFAULT_STATS_INTERVAL_SECS,
            ConfigValue::Absent => DEFAULT_STATS_INTERVAL_SECS,
            _ => {
                return Err(ConfigError::StatsIntervalNotNumber);
            },
        };
        let stats_key = match key_entry(stats_key, true) {
            Ok(k) => k,
            Err(e) => {
                return Err(e);
            },
        };
        Ok(PluginConfig { selector, stats_interval_secs: interval, stats_key })
    }
}

/// Judges a configuration change at `path` (empty for the whole
/// configuration) from the old and new `selector` entries: the same string
/// changes nothing, another string requires a restart, removing it changes
/// nothing, and anything but a string is refused. Changes at other paths
/// change nothing.
pub fn config_checker(path: &str, old_selector: &ConfigValue, new_selector: &ConfigValue) -> (r:
    Result<ConfigCheck, ConfigError>)
    ensures
        r == config_change(path@, *old_selector, *new_selector),
{
    let watched = path.is_empty() || path.to_owned() == SELECTOR_KEY.to_owned();
    if !watched {
        return Ok(ConfigCheck::Unchanged);
    }
    match new_selector {
        ConfigValue::Text(ns) => {
            let same = match old_selector {
                ConfigValue::Text(os) => *os == *ns,
                _ => false,
            };
            if same {
                Ok(ConfigCheck::Unchanged)
            } else {
                Ok(ConfigCheck::RestartRequired)
            }
        },
        ConfigValue::Absent => Ok(ConfigCheck::Unchanged),
        _ => Err(ConfigError::SelectorNotString),
    }
}

} // verus!
