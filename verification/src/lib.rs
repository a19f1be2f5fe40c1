//! A small date/time library: calendar timestamps with an explicit zone
//! offset, conversion to and from Unix epoch seconds, duration arithmetic,
//! and a fixed Japanese-locale textual date format with weekday kanji.
//!
//! The library covers the proleptic Gregorian years 0 through 9999 — the
//! span the four-digit textual format can carry. The system's zone and
//! clock are consulted only at the edges: `epoch::local_from_epoch` asks
//! the zone for its offset, and everything else is a pure function of its
//! arguments.

pub mod calendar;
pub mod datetime;
pub mod epoch;
pub mod format;
pub mod parse;
