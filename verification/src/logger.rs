//! Log-line formatting. The sinks — append-only files — live with the
//! caller; the library renders the lines and obtains the timestamps.

use vstd::prelude::*;
use vstd::string::StrSliceExecFns;
use vstd::string::StringExecFns;

use crate::http_types::Method;
use crate::http_types::method_str;
use crate::http_types::Version;
use crate::http_types::version_str;
use crate::strutil::dec_str;
use crate::strutil::usize_to_string;

verus! {

/// The access- and error-log sink is an append-only line writer owned by
/// the caller; nothing of it is modelled here.
pub struct Logger {}

/// Severity of an error-log line.
#[derive(Debug, Clone, Copy, PartialEq, Eq, Structural)]
pub enum LogLevel {
    INFO,
    WARN,
    ERROR,
}

/// The spelling of a log level.
pub open spec fn level_str(level: LogLevel) -> Seq<char> {
    match level {
        LogLevel::INFO => "INFO"@,
        LogLevel::WARN => "WARN"@,
        LogLevel::ERROR => "ERROR"@,
    }
}

/// The spelling of a log level, as the error log prints it.
pub fn log_level_to_string(level: LogLevel) -> (r: String)
    ensures
        r@ == level_str(level),
{
    match level {
        LogLevel::INFO => "INFO".to_owned(),
        LogLevel::WARN => "WARN".to_owned(),
        LogLevel::ERROR => "ERROR".to_owned(),
    }
}

/// Relies on chrono's `Local::now` and `DelayedFormat`: the current
/// local date as `DD-MM-YYYY` and time as `HH:MM:SS`. The result depends
/// on the clock, so nothing is promised of it.
#[verifier::external_body]
fn current_date_time() -> (String, String) {
    let local: chrono::DateTime<chrono::Local> = chrono::Local::now();
    (local.format("%d-%m-%Y").to_string(), local.format("%H:%M:%S").to_string())
}

/// Writes access-log lines: `[<date> <time>] <message>`.
pub struct AccessLogger {}

impl AccessLogger {
    /// An access-log line from its parts.
    pub fn format_line(date: &str, time: &str, message: &str) -> (r: String)
        ensures
            r@ == "["@ + date@ + " "@ + time@ + "] "@ + message@,
    {
        let mut out = "[".to_owned();
        out.append(date);
        out.append(" ");
        out.append(time);
        out.append("] ");
        out.append(message);
        proof {
            assert(out@ =~= "["@ + date@ + " "@ + time@ + "] "@ + message@);
        }
        out
    }

    /// The access-log message for one completed response: method,
    /// version, `/`-prefixed path, status, and body byte length.
    pub fn request_message(
        method: Method,
        version: Version,
        path: &str,
        status: u16,
        body_len: usize,
    ) -> (r: String)
        ensures
            r@ == method_str(method) + " "@ + version_str(version) + " /"@ + path@ + " "@
                + dec_str(status as nat) + " "@ + dec_str(body_len as nat),
    {
        let mut out = method.as_str().to_owned();
        out.append(" ");
        out.append(version.as_str());
        out.append(" /");
        out.append(path);
        out.append(" ");
        out.append(usize_to_string(status as usize).as_str());
        out.append(" ");
        out.append(usize_to_string(body_len).as_str());
        proof {
            assert(out@ =~= method_str(method) + " "@ + version_str(version) + " /"@ + path@
                + " "@ + dec_str(status as nat) + " "@ + dec_str(body_len as nat));
        }
        out
    }

    /// An access-log line for the message, stamped with the current
    /// local date and time.
    pub fn log_line(message: &str) -> (r: String)
        ensures
            exists|d: Seq<char>, t: Seq<char>| r@ == "["@ + d + " "@ + t + "] "@ + message@,
    {
        let (date, time) = current_date_time();
        let r = Self::format_line(date.as_str(), time.as_str(), message);
        proof {
            assert(r@ == "["@ + date@ + " "@ + time@ + "] "@ + message@);
        }
        r
    }
}

/// Writes error-log lines: `[<LEVEL>] <date> <time> - <message>`.
pub struct ErrorLogger {}

impl ErrorLogger {
    /// An error-log line from its parts.
    pub fn format_line(level: LogLevel, date: &str, time: &str, message: &str) -> (r: String)
        ensures
            r@ == "["@ + level_str(level) + "] "@ + date@ + " "@ + time@ + " - "@ + message@,
    {
        let mut out = "[".to_owned();
        out.append(log_level_to_string(level).as_str());
        out.append("] ");
        out.append(date);
        out.append(" ");
        out.append(time);
        out.append(" - ");
        out.append(message);
        proof {
            assert(out@ =~= "["@ + level_str(level) + "] "@ + date@ + " "@ + time@ + " - "@
                + message@);
        }
        out
    }

    /// An error-log line for the level and message, stamped with the
    /// current local date and time.
    pub fn log_line(level: LogLevel, message: &str) -> (r: String)
        ensures
            exists|d: Seq<char>, t: Seq<char>|
                r@ == "["@ + level_str(level) + "] "@ + d + " "@ + t + " - "@ + message@,
    {
        let (date, time) = current_date_time();
        let r = Self::format_line(level, date.as_str(), time.as_str(), message);
        proof {
            assert(r@ == "["@ + level_str(level) + "] "@ + date@ + " "@ + time@ + " - "@
                + message@);
        }
        r
    }
}

} // verus!
