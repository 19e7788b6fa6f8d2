//! Verified core of a failed-systemd-unit mail notifier.
//!
//! The library collects the names of failed units out of the text that the
//! service manager's listing prints, keeps them aligned with the diagnostic
//! text fetched for each unit, and assembles the report mail. All parsing and
//! string assembly is verified; the calls that leave the process (the mail
//! message construction, the host name lookup) stand behind trusted wrappers.

pub mod parse;
pub mod report;
pub mod units;
