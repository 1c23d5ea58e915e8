//! Command-line settings: port and log-level parsing, defaults.
use vstd::prelude::*;

use crate::text::{concat3, str_equals};

verus! {

/// Default MQTT broker host name.
pub const DEFAULT_MQTT_HOST: &'static str = "localhost";

/// Default MQTT broker port, as it is written on the command line.
pub const DEFAULT_MQTT_PORT: &'static str = "1883";

/// Default port of the HTTP metrics endpoint, as it is written on the command line.
pub const DEFAULT_HTTP_PORT: &'static str = "6565";

/// Default log level, as it is written on the command line.
pub const DEFAULT_LOG_LEVEL: &'static str = "info";

/// Smallest accepted port number.
pub const PORT_MIN: usize = 1;

/// Largest accepted port number.
pub const PORT_MAX: usize = 65535;

/// Verbosity of the log output.
#[derive(Debug, Clone, Copy, PartialEq, Eq, Structural)]
pub enum LogLevel {
    Trace,
    Debug,
    Info,
    Warn,
    Error,
}

/// An ASCII decimal digit, the only characters that unsigned integer parsing accepts.
pub open spec fn is_decimal_digit(c: char) -> bool {
    '0' <= c && c <= '9'
}

/// The number written by a sequence of decimal digits.
pub open spec fn digits_value(ds: Seq<char>) -> nat
    decreases ds.len(),
{
    if ds.len() == 0 {
        0
    } else {
        digits_value(ds.drop_last()) * 10 + ((ds.last() as nat) - ('0' as nat)) as nat
    }
}

/// The text of an unsigned decimal after its optional leading `+`.
pub open spec fn unsigned_digits(s: Seq<char>) -> Seq<char> {
    if s.len() > 0 && s[0] == '+' {
        s.drop_first()
    } else {
        s
    }
}

/// Every character is a decimal digit.
pub open spec fn all_decimal_digits(ds: Seq<char>) -> bool {
    forall|i: int| 0 <= i < ds.len() ==> is_decimal_digit(#[trigger] ds[i])
}

/// The digits of an unsigned decimal: an optional leading `+`, then one or more digits.
pub open spec fn decimal_digits(s: Seq<char>) -> Option<Seq<char>> {
    let ds = unsigned_digits(s);
    if ds.len() > 0 && all_decimal_digits(ds) {
        Some(ds)
    } else {
        None
    }
}

/// What `usize::from_str` yields on `s`: the value of its digits, if it fits in a `usize`.
pub open spec fn spec_parse_usize(s: Seq<char>) -> Option<nat> {
    match decimal_digits(s) {
        Some(ds) => if digits_value(ds) <= usize::MAX {
            Some(digits_value(ds))
        } else {
            None
        },
        None => None,
    }
}

/// The message for a string that is no number.
pub open spec fn invalid_port_message(s: Seq<char>) -> Seq<char> {
    "`"@ + s + "` isn't a valid port number"@
}

/// The message for a number outside the port range.
pub open spec fn port_range_message() -> Seq<char> {
    "port not in range 1-65535"@
}

/// What `parse_port` returns on `s`: the port, or the message of the error.
pub open spec fn spec_parse_port(s: Seq<char>) -> Result<u16, Seq<char>> {
    match spec_parse_usize(s) {
        Some(n) => if PORT_MIN <= n <= PORT_MAX {
            Ok(n as u16)
        } else {
            Err(port_range_message())
        },
        None => Err(invalid_port_message(s)),
    }
}

proof fn lemma_digits_value_step(ds: Seq<char>, i: int)
    requires
        0 <= i < ds.len(),
    ensures
        digits_value(ds.subrange(0, i + 1)) == digits_value(ds.subrange(0, i)) * 10 + ((ds[i] as nat)
            - ('0' as nat)) as nat,
{
    assert(ds.subrange(0, i + 1).drop_last() =~= ds.subrange(0, i));
}

proof fn lemma_digits_value_monotone(ds: Seq<char>, i: int, j: int)
    requires
        0 <= i <= j <= ds.len(),
        forall|k: int| 0 <= k < ds.len() ==> is_decimal_digit(#[trigger] ds[k]),
    ensures
        digits_value(ds.subrange(0, i)) <= digits_value(ds.subrange(0, j)),
    decreases j - i,
{
    if i < j {
        lemma_digits_value_monotone(ds, i, j - 1);
        lemma_digits_value_step(ds, j - 1);
    }
}

/// Reads an unsigned decimal the way `usize::from_str` does.
pub fn parse_usize(s: &str) -> (r: Option<usize>)
    ensures
        match r {
            Some(n) => spec_parse_usize(s@) == Some(n as nat),
            None => spec_parse_usize(s@) is None,
        },
{
    let len = s.unicode_len();
    let start: usize = if len > 0 && s.get_char(0) == '+' {
        1
    } else {
        0
    };
    let ghost ds = unsigned_digits(s@);
    assert(ds =~= s@.subrange(start as int, len as int));
    if start >= len {
        return None;
    }
    let mut i: usize = start;
    while i < len
        invariant
            len == s@.len(),
            start <= i <= len,
            ds =~= s@.subrange(start as int, len as int),
            ds == unsigned_digits(s@),
            forall|k: int| start <= k < i ==> is_decimal_digit(#[trigger] s@[k]),
        decreases len - i,
    {
        let c = s.get_char(i);
        if !('0' <= c && c <= '9') {
            assert(!is_decimal_digit(ds[i - start]));
            return None;
        }
        i = i + 1;
    }
    assert(forall|k: int| 0 <= k < ds.len() ==> is_decimal_digit(#[trigger] ds[k])) by {
        assert forall|k: int| 0 <= k < ds.len() implies is_decimal_digit(#[trigger] ds[k]) by {
            assert(ds[k] == s@[start + k]);
        }
    }
    let mut acc: usize = 0;
    let mut i: usize = start;
    while i < len
        invariant
            len == s@.len(),
            start <= i <= len,
            ds =~= s@.subrange(start as int, len as int),
            ds == unsigned_digits(s@),
            ds.len() > 0,
            forall|k: int| 0 <= k < ds.len() ==> is_decimal_digit(#[trigger] ds[k]),
            acc as nat == digits_value(ds.subrange(0, i - start)),
        decreases len - i,
    {
        let c = s.get_char(i);
        proof {
            assert(ds[i - start] == c);
            assert(is_decimal_digit(ds[i - start]));
        }
        let d = ((c as u32) - ('0' as u32)) as usize;
        proof {
            lemma_digits_value_step(ds, i - start);
            lemma_digits_value_monotone(ds, i - start + 1, ds.len() as int);
            assert(ds.subrange(0, ds.len() as int) =~= ds);
        }
        let scaled = match acc.checked_mul(10) {
            Some(v) => v,
            None => {
                return None;
            },
        };
        acc = match scaled.checked_add(d) {
            Some(v) => v,
            None => {
                return None;
            },
        };
        i = i + 1;
    }
    assert(ds.subrange(0, len - start) =~= ds);
    Some(acc)
}

/// Parses a port number between 1 and 65535.
pub fn parse_port(s: &str) -> (r: Result<u16, String>)
    ensures
        match r {
            Ok(p) => spec_parse_port(s@) == Ok::<u16, Seq<char>>(p),
            Err(e) => spec_parse_port(s@) == Err::<u16, Seq<char>>(e@),
        },
{
    match parse_usize(s) {
        Some(port) => {
            if PORT_MIN <= port && port <= PORT_MAX {
                Ok(port as u16)
            } else {
                Err("port not in range 1-65535".to_owned())
            }
        },
        None => Err(concat3("`", s, "` isn't a valid port number")),
    }
}

/// The lowercase form of a string as `str::to_lowercase` gives it: the Unicode `Lowercase`
/// mapping of each character, except that a capital sigma ending a word becomes a final sigma.
pub uninterp spec fn unicode_lowercase(s: Seq<char>) -> Seq<char>;

/// Calls `str::to_lowercase`; the result is named `unicode_lowercase` of the argument.
#[verifier::external_body]
fn to_lowercase(s: &str) -> (r: String)
    ensures
        r@ == unicode_lowercase(s@),
{
    s.to_lowercase()
}

/// The level that a lowercase level name stands for.
pub open spec fn spec_level_named(lower: Seq<char>) -> Option<LogLevel> {
    if lower == "trace"@ {
        Some(LogLevel::Trace)
    } else if lower == "debug"@ {
        Some(LogLevel::Debug)
    } else if lower == "info"@ {
        Some(LogLevel::Info)
    } else if lower == "warn"@ || lower == "warning"@ {
        Some(LogLevel::Warn)
    } else if lower == "error"@ {
        Some(LogLevel::Error)
    } else {
        None
    }
}

/// The message for a string that names no level.
pub open spec fn invalid_level_message(s: Seq<char>) -> Seq<char> {
    "Invalid log level: "@ + s + ". Valid values: trace, debug, info, warn, error"@
}

/// What `parse_log_level` returns on `s`, case being ignored.
pub open spec fn spec_parse_log_level(s: Seq<char>) -> Result<LogLevel, Seq<char>> {
    match spec_level_named(unicode_lowercase(s)) {
        Some(level) => Ok(level),
        None => Err(invalid_level_message(s)),
    }
}

/// Maps the lowercase form `lower` of `text` to a level;
/// the error message quotes `text`.
pub fn level_from_lowercase(lower: &str, text: &str) -> (r: Result<LogLevel, String>)
    ensures
        match r {
            Ok(level) => spec_level_named(lower@) == Some(level),
            Err(e) => spec_level_named(lower@) is None && e@ == invalid_level_message(text@),
        },
{
    if str_equals(lower, "trace") {
        Ok(LogLevel::Trace)
    } else if str_equals(lower, "debug") {
        Ok(LogLevel::Debug)
    } else if str_equals(lower, "info") {
        Ok(LogLevel::Info)
    } else if str_equals(lower, "warn") || str_equals(lower, "warning") {
        Ok(LogLevel::Warn)
    } else if str_equals(lower, "error") {
        Ok(LogLevel::Error)
    } else {
        Err(concat3("Invalid log level: ", text, ". Valid values: trace, debug, info, warn, error"))
    }
}

/// Parses a log level name (trace, debug, info, warn or warning, error), ignoring case.
pub fn parse_log_level(s: &str) -> (r: Result<LogLevel, String>)
    ensures
        match r {
            Ok(level) => spec_parse_log_level(s@) == Ok::<LogLevel, Seq<char>>(level),
            Err(e) => spec_parse_log_level(s@) == Err::<LogLevel, Seq<char>>(e@),
        },
{
    let lower = to_lowercase(s);
    level_from_lowercase(lower.as_str(), s)
}

/// Settings of the bridge, as given on the command line or by default.
#[derive(Debug, Clone)]
pub struct Args {
    /// MQTT broker hostname
    pub mqtt_host: String,
    /// MQTT broker port
    pub mqtt_port: u16,
    /// MQTT username
    pub mqtt_username: Option<String>,
    /// MQTT password
    pub mqtt_password: Option<String>,
    /// HTTP server port for metrics endpoint
    pub http_port: u16,
    /// Log level (trace, debug, info, warn, error)
    pub log_level: LogLevel,
}

/// The text given for a setting, or its default.
pub open spec fn given_or(given: Option<String>, default: Seq<char>) -> Seq<char> {
    match given {
        Some(s) => s@,
        None => default,
    }
}

/// Where the values of the checked settings were given on the command line: the position of
/// each value among the arguments, or `None` when it came from the environment or a default.
#[derive(Debug, Clone, Copy, PartialEq, Eq, Structural)]
pub struct SettingPositions {
    pub mqtt_port: Option<usize>,
    pub http_port: Option<usize>,
    pub log_level: Option<usize>,
}

/// The position of checked setting `k` (0: MQTT port, 1: HTTP port, 2: log level).
pub open spec fn position_of(k: usize, at: SettingPositions) -> Option<usize> {
    if k == 0 {
        at.mqtt_port
    } else if k == 1 {
        at.http_port
    } else {
        at.log_level
    }
}

/// Setting `i` is checked before setting `j`: values given on the command line first, in the
/// order they were given, then the others in the order MQTT port, HTTP port, log level.
pub open spec fn checked_before(p: Option<usize>, i: usize, q: Option<usize>, j: usize) -> bool {
    match (p, q) {
        (Some(a), Some(b)) => a < b || (a == b && i < j),
        (Some(_), None) => true,
        (None, Some(_)) => false,
        (None, None) => i < j,
    }
}

/// Of two failing settings (if failing), the one checked first.
pub open spec fn spec_earlier(a: Option<usize>, b: Option<usize>, at: SettingPositions) -> Option<usize> {
    match (a, b) {
        (None, _) => b,
        (_, None) => a,
        (Some(i), Some(j)) => if checked_before(position_of(i, at), i, position_of(j, at), j) {
            Some(i)
        } else {
            Some(j)
        },
    }
}

/// The setting whose error is reported: the failing one that is checked first.
pub open spec fn spec_reported_setting(
    mqtt_port: Seq<char>,
    http_port: Seq<char>,
    log_level: Seq<char>,
    at: SettingPositions,
) -> Option<usize> {
    let f0 = if spec_parse_port(mqtt_port) is Err { Some(0usize) } else { None };
    let f1 = if spec_parse_port(http_port) is Err { Some(1usize) } else { None };
    let f2 = if spec_parse_log_level(log_level) is Err { Some(2usize) } else { None };
    spec_earlier(spec_earlier(f0, f1, at), f2, at)
}

/// The error reported for the settings, if any: that of the failing setting checked first.
pub open spec fn spec_args_error(
    mqtt_port: Seq<char>,
    http_port: Seq<char>,
    log_level: Seq<char>,
    at: SettingPositions,
) -> Option<Seq<char>> {
    match spec_reported_setting(mqtt_port, http_port, log_level, at) {
        Some(k) => if k == 0 {
            Some(spec_parse_port(mqtt_port)->Err_0)
        } else if k == 1 {
            Some(spec_parse_port(http_port)->Err_0)
        } else {
            Some(spec_parse_log_level(log_level)->Err_0)
        },
        None => None,
    }
}

fn position(k: usize, at: &SettingPositions) -> (r: Option<usize>)
    ensures
        r == position_of(k, *at),
{
    if k == 0 {
        at.mqtt_port
    } else if k == 1 {
        at.http_port
    } else {
        at.log_level
    }
}

fn earlier(a: Option<usize>, b: Option<usize>, at: &SettingPositions) -> (r: Option<usize>)
    ensures
        r == spec_earlier(a, b, *at),
{
    match (a, b) {
        (None, _) => b,
        (_, None) => a,
        (Some(i), Some(j)) => {
            let before = match (position(i, at), position(j, at)) {
                (Some(p), Some(q)) => p < q || (p == q && i < j),
                (Some(_), None) => true,
                (None, Some(_)) => false,
                (None, None) => i < j,
            };
            if before {
                Some(i)
            } else {
                Some(j)
            }
        },
    }
}

/// A setting that is checked.
#[derive(Debug, Clone, Copy, PartialEq, Eq, Structural)]
pub enum CheckedSetting {
    MqttPort,
    HttpPort,
    LogLevel,
}

/// The number of a checked setting (0: MQTT port, 1: HTTP port, 2: log level).
pub open spec fn setting_number(s: CheckedSetting) -> usize {
    match s {
        CheckedSetting::MqttPort => 0,
        CheckedSetting::HttpPort => 1,
        CheckedSetting::LogLevel => 2,
    }
}

/// A rejected setting: which one, the text it was given, and why it was rejected.
#[derive(Debug, Clone, PartialEq, Eq)]
pub struct SettingError {
    pub setting: CheckedSetting,
    pub value: String,
    pub message: String,
}

/// The text of checked setting `k` among the texts of the three.
pub open spec fn setting_text(k: usize, mqtt_port: Seq<char>, http_port: Seq<char>, log_level: Seq<char>) -> Seq<char> {
    if k == 0 {
        mqtt_port
    } else if k == 1 {
        http_port
    } else {
        log_level
    }
}

fn text_or_default(given: Option<String>, default: &str) -> (r: String)
    ensures
        r@ == given_or(given, default@),
{
    match given {
        Some(s) => s,
        None => default.to_owned(),
    }
}

impl Args {
    /// Builds the settings from the values given for them; a value not given takes its default.
    /// Ports and the log level are checked as `parse_port` and `parse_log_level` check them;
    /// when several are invalid, the error of the one checked first is returned (values given on
    /// the command line first, in the order of `at`, then the others), with that setting and
    /// the text it was given.
    pub fn from_values(
        mqtt_host: Option<String>,
        mqtt_port: Option<String>,
        mqtt_username: Option<String>,
        mqtt_password: Option<String>,
        http_port: Option<String>,
        log_level: Option<String>,
        at: SettingPositions,
    ) -> (r: Result<Args, SettingError>)
        ensures
            ({
                let mp = given_or(mqtt_port, DEFAULT_MQTT_PORT@);
                let hp = given_or(http_port, DEFAULT_HTTP_PORT@);
                let ll = given_or(log_level, DEFAULT_LOG_LEVEL@);
                match r {
                    Ok(args) => {
                        &&& spec_args_error(mp, hp, ll, at) is None
                        &&& args.mqtt_host@ == given_or(mqtt_host, DEFAULT_MQTT_HOST@)
                        &&& spec_parse_port(mp) == Ok::<u16, Seq<char>>(args.mqtt_port)
                        &&& spec_parse_port(hp) == Ok::<u16, Seq<char>>(args.http_port)
                        &&& spec_parse_log_level(ll) == Ok::<LogLevel, Seq<char>>(args.log_level)
                        &&& args.mqtt_username == mqtt_username
                        &&& args.mqtt_password == mqtt_password
                    },
                    Err(e) => {
                        &&& spec_args_error(mp, hp, ll, at) == Some(e.message@)
                        &&& spec_reported_setting(mp, hp, ll, at) == Some(setting_number(e.setting))
                        &&& e.value@ == setting_text(setting_number(e.setting), mp, hp, ll)
                    },
                }
            }),
    {
        let mqtt_port_text = text_or_default(mqtt_port, DEFAULT_MQTT_PORT);
        let http_port_text = text_or_default(http_port, DEFAULT_HTTP_PORT);
        let log_level_text = text_or_default(log_level, DEFAULT_LOG_LEVEL);
        let mqtt_port_r = parse_port(mqtt_port_text.as_str());
        let http_port_r = parse_port(http_port_text.as_str());
        let log_level_r = parse_log_level(log_level_text.as_str());
        let f0 = if mqtt_port_r.is_err() { Some(0usize) } else { None };
        let f1 = if http_port_r.is_err() { Some(1usize) } else { None };
        let f2 = if log_level_r.is_err() { Some(2usize) } else { None };
        let reported = earlier(earlier(f0, f1, &at), f2, &at);
        match (mqtt_port_r, http_port_r, log_level_r) {
            (Ok(mqtt_port), Ok(http_port), Ok(log_level)) => Ok(Args {
                mqtt_host: text_or_default(mqtt_host, DEFAULT_MQTT_HOST),
                mqtt_port,
                mqtt_username,
                mqtt_password,
                http_port,
                log_level,
            }),
            (mqtt_port_r, http_port_r, log_level_r) => {
                if reported == Some(0usize) {
                    let message = match mqtt_port_r {
                        Err(e) => e,
                        Ok(_) => String::new(),
                    };
                    Err(SettingError { setting: CheckedSetting::MqttPort, value: mqtt_port_text, message })
                } else if reported == Some(1usize) {
                    let message = match http_port_r {
                        Err(e) => e,
                        Ok(_) => String::new(),
                    };
                    Err(SettingError { setting: CheckedSetting::HttpPort, value: http_port_text, message })
                } else {
                    let message = match log_level_r {
                        Err(e) => e,
                        Ok(_) => String::new(),
                    };
                    Err(SettingError { setting: CheckedSetting::LogLevel, value: log_level_text, message })
                }
            },
        }
    }
}

} // verus!
