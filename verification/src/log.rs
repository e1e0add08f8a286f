//! The launcher's log line format:
//! `<colour><time> | <target> | <LEVEL> | <fields><reset>`.

use vstd::prelude::*;

use crate::text::push_str;

verus! {

/// The levels of log records.
#[derive(Clone, Copy, Debug, PartialEq, Eq, Structural)]
pub enum LogLevel {
    Trace,
    Debug,
    Info,
    Warn,
    Error,
}

/// ANSI reset.
pub const RESET: &'static str = "\x1b[0m";
/// ANSI blue (trace records).
pub const BLUE: &'static str = "\x1b[34m";
/// ANSI green (debug records).
pub const GREEN: &'static str = "\x1b[32m";
/// ANSI yellow (warnings).
pub const YELLOW: &'static str = "\x1b[33m";
/// ANSI red (errors).
pub const RED: &'static str = "\x1b[31m";

/// The colour a record starts with: plain for info, green for debug,
/// yellow for warnings, red for errors, blue for trace.
pub open spec fn level_colour(l: LogLevel) -> Seq<char> {
    match l {
        LogLevel::Info => RESET@,
        LogLevel::Debug => GREEN@,
        LogLevel::Warn => YELLOW@,
        LogLevel::Error => RED@,
        LogLevel::Trace => BLUE@,
    }
}

/// A level's name padded to five characters.
pub open spec fn level_label(l: LogLevel) -> Seq<char> {
    match l {
        LogLevel::Trace => "TRACE"@,
        LogLevel::Debug => "DEBUG"@,
        LogLevel::Info => "INFO "@,
        LogLevel::Warn => "WARN "@,
        LogLevel::Error => "ERROR"@,
    }
}

/// The colour of a level.
pub fn colour_of(level: LogLevel) -> (c: &'static str)
    ensures
        c@ == level_colour(level),
{
    match level {
        LogLevel::Info => RESET,
        LogLevel::Debug => GREEN,
        LogLevel::Warn => YELLOW,
        LogLevel::Error => RED,
        LogLevel::Trace => BLUE,
    }
}

fn label_of(level: LogLevel) -> (s: &'static str)
    ensures
        s@ == level_label(level),
{
    match level {
        LogLevel::Trace => "TRACE",
        LogLevel::Debug => "DEBUG",
        LogLevel::Info => "INFO ",
        LogLevel::Warn => "WARN ",
        LogLevel::Error => "ERROR",
    }
}

/// One log line (with its line feed).
pub fn format_log_line(level: LogLevel, time: &str, target: &str, fields: &str) -> (r: String)
    ensures
        r@ == level_colour(level) + time@ + " | "@ + target@ + " | "@ + level_label(level) + " | "@
            + fields@ + RESET@ + "\n"@,
{
    let mut s = colour_of(level).to_owned();
    push_str(&mut s, time);
    push_str(&mut s, " | ");
    push_str(&mut s, target);
    push_str(&mut s, " | ");
    push_str(&mut s, label_of(level));
    push_str(&mut s, " | ");
    push_str(&mut s, fields);
    push_str(&mut s, RESET);
    push_str(&mut s, "\n");
    s
}

} // verus!
