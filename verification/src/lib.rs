//! A multi-participant date-polling engine.
//!
//! An owner opens a poll over a set of candidate dates; respondents submit
//! which dates they can attend; the poll aggregates responses into a tally,
//! supports owner-defined blackout dates excluded from results, and keeps an
//! optional reposted copy of the tally in sync with the original.
//!
//! Calendar dates are carried as day numbers counted from the first day of
//! the common era, the same numbering that the `chrono` crate exposes through
//! `num_days_from_ce`; weekday arithmetic on such numbers is plain modular
//! arithmetic, while rendering a day number as text is delegated to `chrono`.

pub mod dates;
pub mod response;
pub mod scheduler;
pub mod session;
pub mod surface;
pub mod tally;
pub mod textgen;
