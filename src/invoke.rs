//! Settings of a run: how the compiler is invoked on a program, and how much is logged.
use vstd::prelude::*;

use crate::text::{contains, has, to_chars};

verus! {

/// The comment by which a program asks to be compiled as edition 2024.
pub open spec fn edition_2024_marker() -> Seq<char> {
    "// @compile-flags: --edition=2024"@
}

/// Whether the program `code` asks to be compiled as edition 2024.
pub fn wants_edition_2024(code: &str) -> (r: bool)
    ensures
        r == contains(code@, edition_2024_marker()),
{
    has(&to_chars(code), &to_chars("// @compile-flags: --edition=2024"))
}

/// How much a run logs, from least to most.
#[derive(PartialEq, Eq, Structural, Clone, Copy, Debug)]
pub enum LogLevel {
    Warn,
    Info,
    Debug,
    Trace,
}

/// The log level for a count of verbosity flags.
pub fn verbosity_to_log_level(verbosity: u8) -> (r: LogLevel)
    ensures
        verbosity == 0 ==> r == LogLevel::Warn,
        verbosity == 1 ==> r == LogLevel::Info,
        verbosity == 2 ==> r == LogLevel::Debug,
        verbosity >= 3 ==> r == LogLevel::Trace,
{
    match verbosity {
        0 => LogLevel::Warn,
        1 => LogLevel::Info,
        2 => LogLevel::Debug,
        _ => LogLevel::Trace,
    }
}

} // verus!
