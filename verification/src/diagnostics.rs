//! Classification of a child process's diagnostic output.
//!
//! Each line read from the child's error stream is classified by keyword
//! into a severity and forwarded to the log sink; empty lines are dropped.

use vstd::prelude::*;

use crate::strutil::{contains_ci, contains_ci_chars, str_to_chars};

verus! {

/// The severity of one log entry.
#[derive(Clone, Copy, PartialEq, Eq, Structural, Debug)]
pub enum LogLevel {
    Error,
    Warn,
    Debug,
    Info,
}

/// Where a log entry came from.
#[derive(Clone, Copy, PartialEq, Eq, Structural, Debug)]
pub enum LogSource {
    /// The connection state machine itself.
    Connection,
    /// The child process's error stream.
    Stderr,
}

/// One entry handed to the log sink.
pub struct ServerLog {
    pub level: LogLevel,
    pub source: LogSource,
    pub message: String,
}

impl ServerLog {
    /// A log entry with the given severity, source and text.
    pub fn new(level: LogLevel, source: LogSource, message: String) -> (r: ServerLog)
        ensures
            r.level == level,
            r.source == source,
            r.message@ == message@,
    {
        ServerLog { level, source, message }
    }
}

/// The severity of one line of diagnostic output: lines mentioning an
/// error, panic or fatal condition rank highest, then warnings, then
/// debug or trace chatter; everything else is informational.  Matching
/// ignores ASCII case.
pub open spec fn classify_spec(line: Seq<char>) -> LogLevel {
    if contains_ci(line, "error"@) || contains_ci(line, "panic"@) || contains_ci(
        line,
        "fatal"@,
    ) {
        LogLevel::Error
    } else if contains_ci(line, "warn"@) {
        LogLevel::Warn
    } else if contains_ci(line, "debug"@) || contains_ci(line, "trace"@) {
        LogLevel::Debug
    } else {
        LogLevel::Info
    }
}

/// Classify one line of the child's error output by keyword.
pub fn classify_stderr_line(line: &str) -> (r: LogLevel)
    ensures
        r == classify_spec(line@),
{
    let chars = str_to_chars(line);
    let error_kw = str_to_chars("error");
    let panic_kw = str_to_chars("panic");
    let fatal_kw = str_to_chars("fatal");
    if contains_ci_chars(&chars, &error_kw) || contains_ci_chars(&chars, &panic_kw)
        || contains_ci_chars(&chars, &fatal_kw) {
        return LogLevel::Error;
    }
    let warn_kw = str_to_chars("warn");
    if contains_ci_chars(&chars, &warn_kw) {
        return LogLevel::Warn;
    }
    let debug_kw = str_to_chars("debug");
    let trace_kw = str_to_chars("trace");
    if contains_ci_chars(&chars, &debug_kw) || contains_ci_chars(&chars, &trace_kw) {
        return LogLevel::Debug;
    }
    LogLevel::Info
}

/// Handle one line read from the child's error stream: empty lines are
/// dropped, every other line is classified and tagged as stderr output.
pub fn process_stderr_line(line: &str) -> (r: Option<ServerLog>)
    ensures
        line@.len() == 0 ==> r is None,
        line@.len() > 0 ==> (r matches Some(l) && l.level == classify_spec(line@) && l.source
            == LogSource::Stderr && l.message@ == line@),
{
    if line.is_empty() {
        return None;
    }
    let level = classify_stderr_line(line);
    Some(ServerLog::new(level, LogSource::Stderr, line.to_owned()))
}

} // verus!
