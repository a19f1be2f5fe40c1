//! Conversion between calendar timestamps and Unix epoch time, kept as an
//! integer pair of whole seconds and nanoseconds, plus duration arithmetic.

use vstd::prelude::*;

use crate::calendar::{
    civil_of_day_number, day_number, day_number_of, days_before_year,
    lemma_day_number_in_year, lemma_days_before_year_bounds, lemma_days_before_year_monotone,
};
use crate::datetime::Timestamp;
use chrono::TimeZone;

verus! {

/// Seconds since 1970-01-01T00:00:00Z, with a separate nanosecond part.
/// `nanos` always counts forward from the whole second `secs`, so an
/// instant half a second before the epoch is `secs: -1, nanos: 500000000`.
/// (A single floating-point epoch value is ambiguous there: splitting it by
/// truncation gives a negative fraction for negative inputs. Callers that
/// convert from such a value choose their own policy; this type carries
/// none of that ambiguity.)
#[derive(Clone, Copy, Debug, PartialEq, Eq, Structural)]
pub struct EpochValue {
    pub secs: i64,
    pub nanos: u32,
}

/// The Unix epoch second of a timestamp: seconds from 1970-01-01T00:00:00Z
/// to the instant whose local reading is the timestamp's calendar fields.
pub open spec fn epoch_secs_of(t: Timestamp) -> int {
    (day_number(t.year as int, t.month as int, t.day as int) - days_before_year(1970)) * 86400
        + t.hour * 3600 + t.minute * 60 + t.second - t.offset
}

/// Whether epoch second `s`, read with zone offset `off`, falls on a date
/// of the years this library covers (0 through 9999).
pub open spec fn epoch_in_range(s: int, off: int) -> bool {
    0 <= s + off + days_before_year(1970) * 86400 < days_before_year(10000) * 86400
}

/// Whether epoch second `s` stays in range under every zone offset of less
/// than a day in either direction.
pub open spec fn epoch_in_safe_range(s: int) -> bool {
    &&& 86400 <= s + days_before_year(1970) * 86400
    &&& s + days_before_year(1970) * 86400 < days_before_year(10000) * 86400 - 86400
}

/// Relies on chrono: `TimeZone::timestamp_opt` on `Local` returns
/// `Single` for every in-range Unix timestamp (chrono documents `None`
/// only for out-of-range seconds or an invalid nanosecond), and the
/// seconds of the resulting `FixedOffset`, read with
/// `FixedOffset::local_minus_utc`, are strictly between -86400 and 86400
/// by that type's constructors. Which offset comes back depends on the
/// machine's zone configuration, so nothing more is claimed of the value.
#[verifier::external_body]
fn local_offset_at(secs: i64) -> (off: i32)
    requires
        -8_000_000_000_000 <= secs <= 8_000_000_000_000,
    ensures
        -86400 < off < 86400,
{
    chrono::Local.timestamp_opt(secs, 0).unwrap().offset().local_minus_utc()
}

/// The epoch value of a timestamp; the whole seconds are determined by the
/// calendar fields and the offset, and the nanoseconds carry over.
pub fn epoch_from_datetime(t: &Timestamp) -> (e: EpochValue)
    requires
        t.wf(),
    ensures
        e.secs == epoch_secs_of(*t),
        e.nanos == t.nanos,
{
    proof {
        lemma_day_number_in_year(t.year as int, t.month as int, t.day as int);
        lemma_days_before_year_bounds(t.year as int);
        lemma_days_before_year_bounds(t.year as int + 1);
        lemma_days_before_year_bounds(1970);
        lemma_days_before_year_bounds(10000);
    }
    let n = day_number_of(t.year, t.month, t.day);
    let base = days_before_year_num_1970();
    let secs = (n - base) * 86400 + t.hour as i64 * 3600 + t.minute as i64 * 60 + t.second as i64
        - t.offset as i64;
    EpochValue { secs, nanos: t.nanos }
}

/// The number of days from the first day of year 0 to 1970-01-01.
fn days_before_year_num_1970() -> (n: i64)
    ensures
        n == days_before_year(1970),
{
    crate::calendar::days_before_year_num(1970)
}

/// The timestamp whose reading at the given zone offset is the given epoch
/// value: the deterministic core of epoch-to-calendar conversion.
pub fn datetime_from_epoch_with_offset(secs: i64, nanos: u32, offset: i32) -> (t: Timestamp)
    requires
        nanos < 1_000_000_000,
        -86400 < offset < 86400,
        epoch_in_range(secs as int, offset as int),
    ensures
        t.wf(),
        epoch_secs_of(t) == secs,
        t.nanos == nanos,
        t.offset == offset,
{
    proof {
        lemma_days_before_year_bounds(1970);
        lemma_days_before_year_bounds(10000);
    }
    let base = days_before_year_num_1970();
    let local: i64 = secs + offset as i64 + base * 86400;
    let days: i64 = local / 86400;
    let sod: i64 = local % 86400;
    proof {
        assert(local == 86400 * (local / 86400) + local % 86400 && 0 <= local % 86400 < 86400)
            by (nonlinear_arith)
            requires
                local >= 0,
        ;
        assert(days < days_before_year(10000)) by (nonlinear_arith)
            requires
                local < days_before_year(10000) * 86400,
                local == 86400 * days + sod,
                0 <= sod < 86400,
                days_before_year(10000) >= 0,
        ;
    }
    let ymd = civil_of_day_number(days);
    let hour: u8 = (sod / 3600) as u8;
    let minute: u8 = ((sod % 3600) / 60) as u8;
    let second: u8 = (sod % 60) as u8;
    proof {
        lemma_second_of_day_split(sod as int);
    }
    let t = Timestamp {
        year: ymd.0,
        month: ymd.1,
        day: ymd.2,
        hour,
        minute,
        second,
        nanos,
        offset,
    };
    proof {
        assert((day_number(t.year as int, t.month as int, t.day as int) - days_before_year(1970))
            * 86400 == days * 86400 - days_before_year(1970) * 86400) by (nonlinear_arith)
            requires
                day_number(t.year as int, t.month as int, t.day as int) == days,
        ;
    }
    t
}

/// A second-of-day below 86400 splits uniquely into hour, minute and second.
proof fn lemma_second_of_day_split(sod: int)
    requires
        0 <= sod < 86400,
    ensures
        0 <= sod / 3600 < 24,
        0 <= (sod % 3600) / 60 < 60,
        0 <= sod % 60 < 60,
        (sod / 3600) * 3600 + ((sod % 3600) / 60) * 60 + sod % 60 == sod,
{
    assert(0 <= sod / 3600 < 24 && 0 <= sod % 3600 < 3600 && sod == 3600 * (sod / 3600) + sod
        % 3600) by (nonlinear_arith)
        requires
            0 <= sod < 86400,
    ;
    let r = sod % 3600;
    assert(0 <= r / 60 < 60 && 0 <= r % 60 < 60 && r == 60 * (r / 60) + r % 60) by (nonlinear_arith)
        requires
            0 <= r < 3600,
    ;
    assert(sod % 60 == r % 60) by (nonlinear_arith)
        requires
            r == sod % 3600,
            0 <= sod,
    ;
}

/// The local-zone reading of an epoch value: asks the system's zone for its
/// offset at that instant, then converts. Which offset applies depends on
/// the machine's configuration; whatever it is, the result reads back to
/// the same epoch second.
pub fn local_from_epoch(e: &EpochValue) -> (t: Timestamp)
    requires
        e.nanos < 1_000_000_000,
        epoch_in_safe_range(e.secs as int),
    ensures
        t.wf(),
        epoch_secs_of(t) == e.secs,
        t.nanos == e.nanos,
{
    proof {
        lemma_days_before_year_bounds(1970);
        lemma_days_before_year_bounds(10000);
    }
    let off = local_offset_at(e.secs);
    datetime_from_epoch_with_offset(e.secs, e.nanos, off)
}

/// The timestamp a given number of seconds later (or earlier, if negative),
/// read at the same zone offset; its epoch second moves by exactly `delta`.
pub fn add_seconds(t: &Timestamp, delta: i64) -> (r: Timestamp)
    requires
        t.wf(),
        epoch_in_range(epoch_secs_of(*t) + delta, t.offset as int),
    ensures
        r.wf(),
        epoch_secs_of(r) == epoch_secs_of(*t) + delta,
        r.nanos == t.nanos,
        r.offset == t.offset,
{
    proof {
        lemma_epoch_secs_bounds(*t);
        lemma_days_before_year_bounds(1970);
        lemma_days_before_year_bounds(10000);
    }
    let e = epoch_from_datetime(t);
    datetime_from_epoch_with_offset(e.secs + delta, t.nanos, t.offset)
}

/// The timestamp `n` whole days later (or earlier, if negative): its epoch
/// second moves by exactly `n * 86400`.
pub fn add_days(t: &Timestamp, n: i64) -> (r: Timestamp)
    requires
        t.wf(),
        -4000000 <= n <= 4000000,
        epoch_in_range(epoch_secs_of(*t) + n * 86400, t.offset as int),
    ensures
        r.wf(),
        epoch_secs_of(r) == epoch_secs_of(*t) + n * 86400,
        r.nanos == t.nanos,
        r.offset == t.offset,
{
    add_seconds(t, n * 86400)
}

/// The signed difference in whole epoch seconds between two timestamps.
pub fn diff_seconds(a: &Timestamp, b: &Timestamp) -> (d: i64)
    requires
        a.wf(),
        b.wf(),
    ensures
        d == epoch_secs_of(*a) - epoch_secs_of(*b),
{
    proof {
        lemma_epoch_secs_bounds(*a);
        lemma_epoch_secs_bounds(*b);
    }
    let ea = epoch_from_datetime(a);
    let eb = epoch_from_datetime(b);
    ea.secs - eb.secs
}

/// Epoch conversion is one-to-one: two well-formed timestamps read at the
/// same zone offset with the same epoch second carry the same calendar
/// fields. So the epoch form of a timestamp, together with its offset and
/// sub-second part, loses nothing.
pub proof fn lemma_epoch_secs_injective(a: Timestamp, b: Timestamp)
    requires
        a.wf(),
        b.wf(),
        a.offset == b.offset,
        epoch_secs_of(a) == epoch_secs_of(b),
    ensures
        a.year == b.year,
        a.month == b.month,
        a.day == b.day,
        a.hour == b.hour,
        a.minute == b.minute,
        a.second == b.second,
{
    let na = day_number(a.year as int, a.month as int, a.day as int);
    let nb = day_number(b.year as int, b.month as int, b.day as int);
    let sa = a.hour * 3600 + a.minute * 60 + a.second;
    let sb = b.hour * 3600 + b.minute * 60 + b.second;
    assert(0 <= sa < 86400 && 0 <= sb < 86400);
    assert((na - days_before_year(1970)) * 86400 - (nb - days_before_year(1970)) * 86400 == (na
        - nb) * 86400) by (nonlinear_arith);
    assert((na - nb) * 86400 == sb - sa);
    assert(na == nb) by (nonlinear_arith)
        requires
            (na - nb) * 86400 == sb - sa,
            -86400 < sb - sa < 86400,
    ;
    crate::calendar::lemma_day_number_injective(
        a.year as int,
        a.month as int,
        a.day as int,
        b.year as int,
        b.month as int,
        b.day as int,
    );
}

/// Every well-formed timestamp's epoch second lies within fixed bounds.
pub proof fn lemma_epoch_secs_bounds(t: Timestamp)
    requires
        t.wf(),
    ensures
        -63_000_000_000 < epoch_secs_of(t) < 320_000_000_000,
{
    lemma_day_number_in_year(t.year as int, t.month as int, t.day as int);
    lemma_days_before_year_bounds(t.year as int);
    lemma_days_before_year_bounds(t.year as int + 1);
    lemma_days_before_year_bounds(1970);
    lemma_days_before_year_monotone(t.year as int + 1, 10000);
    lemma_days_before_year_bounds(10000);
    let n = day_number(t.year as int, t.month as int, t.day as int);
    assert(-721020 <= n - days_before_year(1970) < 3_660_000);
    assert((n - days_before_year(1970)) * 86400 <= 3_660_000 * 86400) by (nonlinear_arith)
        requires
            n - days_before_year(1970) < 3_660_000,
    ;
    assert((n - days_before_year(1970)) * 86400 >= -721020 * 86400) by (nonlinear_arith)
        requires
            n - days_before_year(1970) >= -721020,
    ;
}

} // verus!
