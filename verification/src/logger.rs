//! Log lines on standard error: `seconds.millis level=LEVEL target=TARGET message`.

use vstd::prelude::*;

use std::io::Write;

use crate::clock::{clock_now, since_unix_epoch, subsecond_millis, whole_seconds};
use crate::text::{decimal, push_char, push_decimal};

verus! {

broadcast use vstd::string::group_string_axioms;

/// Milliseconds written with at least three digits.
pub open spec fn millis_text(millis: nat) -> Seq<char> {
    if millis < 10 {
        seq!['0', '0'] + decimal(millis)
    } else if millis < 100 {
        seq!['0'] + decimal(millis)
    } else {
        decimal(millis)
    }
}

/// A log line.
pub open spec fn log_line_spec(
    seconds: u64,
    millis: u32,
    level: Seq<char>,
    target: Seq<char>,
    message: Seq<char>,
) -> Seq<char> {
    decimal(seconds as nat) + seq!['.'] + millis_text(millis as nat) + " level="@ + level
        + " target="@ + target + seq![' '] + message
}

/// Formats a log line for a time given in seconds and milliseconds.
pub fn format_log_line(
    seconds: u64,
    millis: u32,
    level: &str,
    target: &str,
    message: &str,
) -> (line: String)
    ensures
        line@ == log_line_spec(seconds, millis, level@, target@, message@),
{
    let mut line = String::new();
    push_decimal(&mut line, seconds);
    push_char(&mut line, '.');
    if millis < 10 {
        push_char(&mut line, '0');
        push_char(&mut line, '0');
    } else if millis < 100 {
        push_char(&mut line, '0');
    }
    let ghost before = line@;
    push_decimal(&mut line, millis as u64);
    assert(line@ =~= decimal(seconds as nat) + seq!['.'] + millis_text(millis as nat));
    line.append(" level=");
    line.append(level);
    line.append(" target=");
    line.append(target);
    push_char(&mut line, ' ');
    line.append(message);
    assert(line@ =~= log_line_spec(seconds, millis, level@, target@, message@));
    line
}

#[verifier::external_type_specification]
#[verifier::external_body]
pub struct ExStderr(std::io::Stderr);

/// The process's standard error stream (`std::io::stderr`).
#[verifier::external_body]
fn standard_error() -> (out: std::io::Stderr) {
    std::io::stderr()
}

/// Writes a line to a stream (`writeln!`); a failed write is ignored.
#[verifier::external_body]
fn write_line(out: &mut std::io::Stderr, line: &str) {
    let _ = writeln!(out, "{}", line);
}

/// The time since the Unix epoch in seconds and milliseconds; a clock set
/// before the epoch reads as zero.
fn timestamp() -> (t: (u64, u32))
    ensures
        t.1 < 1000,
{
    match since_unix_epoch(&clock_now()) {
        Ok(duration) => (whole_seconds(&duration), subsecond_millis(&duration)),
        Err(_) => (0, 0),
    }
}

fn log(level: &str, target: &str, message: &str) {
    let (seconds, millis) = timestamp();
    let line = format_log_line(seconds, millis, level, target, message);
    let mut out = standard_error();
    write_line(&mut out, line.as_str());
}

/// Logs at level INFO.
pub fn info(target: &str, message: &str) {
    log("INFO", target, message);
}

/// Logs at level WARN.
pub fn warn(target: &str, message: &str) {
    log("WARN", target, message);
}

/// Logs at level ERROR.
pub fn error(target: &str, message: &str) {
    log("ERROR", target, message);
}

} // verus!
