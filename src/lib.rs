//! Triage of compiler crash reports: tells an internal compiler error from an ordinary
//! failure, reduces a report to a fingerprint (location, message, redacted query stack),
//! decides whether two reports show the same crash, and sorts a corpus of crashing programs
//! into known, repeated and new crashes.
pub mod classify;
pub mod compare;
pub mod dedup;
pub mod fingerprint;
pub mod invoke;
pub mod issue;
pub mod order;
pub mod text;
pub mod widgets;
