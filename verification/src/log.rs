//! Log files: their names, their lines, and which old ones are removed.
use vstd::prelude::*;

use crate::text::{chars_eq, push_all, str_chars, string_from_chars};

verus! {

/// Days a log file is kept.
pub const LOG_RETENTION_DAYS: u64 = 7;

/// Who wrote a log line.
pub enum LogSource {
    /// The front end, through the `write_log` command.
    Frontend,
    /// The back end itself.
    Backend,
}

impl LogSource {
    pub open spec fn prefix_spec(&self) -> Seq<char> {
        match self {
            LogSource::Frontend => "frontend"@,
            LogSource::Backend => "backend"@,
        }
    }

    /// The prefix of this source's log files.
    pub fn prefix(&self) -> (r: &'static str)
        ensures
            r@ == self.prefix_spec(),
    {
        match self {
            LogSource::Frontend => "frontend",
            LogSource::Backend => "backend",
        }
    }
}

/// The log file of a source for a day (`date` as `YYYY-MM-DD`):
/// `<prefix>_<date>.log`.
pub fn log_file_name(source: &LogSource, date: &str) -> (r: String)
    ensures
        r@ == source.prefix_spec() + "_"@ + date@ + ".log"@,
{
    let mut v = str_chars(source.prefix());
    push_all(&mut v, str_chars("_").as_slice());
    push_all(&mut v, str_chars(date).as_slice());
    push_all(&mut v, str_chars(".log").as_slice());
    string_from_chars(v.as_slice())
}

/// A log line (without its line break): `[<time>] [<level>] <message>`.
pub fn log_line(time: &str, level: &str, message: &str) -> (r: String)
    ensures
        r@ == "["@ + time@ + "] ["@ + level@ + "] "@ + message@,
{
    let mut v = str_chars("[");
    push_all(&mut v, str_chars(time).as_slice());
    push_all(&mut v, str_chars("] [").as_slice());
    push_all(&mut v, str_chars(level).as_slice());
    push_all(&mut v, str_chars("] ").as_slice());
    push_all(&mut v, str_chars(message).as_slice());
    string_from_chars(v.as_slice())
}

/// A file's age as seconds and nanoseconds.
pub struct FileAge {
    pub secs: u64,
    pub nanos: u32,
}

/// Whether a file is removed when old logs are cleaned: a `.log` file whose
/// age (when known) is more than the retention period.
pub open spec fn expired_spec(extension: Option<Seq<char>>, age: Option<FileAge>) -> bool {
    extension == Some("log"@) && (age matches Some(a)
        && (a.secs > LOG_RETENTION_DAYS * 86400 || (a.secs == LOG_RETENTION_DAYS * 86400 && a.nanos > 0)))
}

/// Decides whether an old log file is removed.
pub fn is_expired_log(extension: Option<&str>, age: Option<FileAge>) -> (b: bool)
    ensures
        b == expired_spec(match extension { Some(e) => Some(e@), None => None }, age),
{
    let is_log = match extension {
        Some(e) => chars_eq(str_chars(e).as_slice(), str_chars("log").as_slice()),
        None => false,
    };
    if !is_log {
        return false;
    }
    match age {
        Some(a) => {
            let cutoff: u64 = LOG_RETENTION_DAYS * 86400;
            a.secs > cutoff || (a.secs == cutoff && a.nanos > 0)
        },
        None => false,
    }
}

} // verus!
