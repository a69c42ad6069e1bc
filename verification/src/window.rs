//! Week-window derivation: anchor the query window at the most recent
//! Monday at or before "now", so the window always aligns to a calendar
//! week boundary regardless of what day "now" falls on.

use vstd::prelude::*;

verus! {

/// Milliseconds in one day.
pub const MILLIS_PER_DAY: i64 = 86400000;

/// The calendar day of a millisecond timestamp, as days since the epoch.
pub open spec fn day_index(t: int) -> int {
    t / 86400000
}

/// Days since the most recent Monday: the epoch day (1970-01-01) was a
/// Thursday, three days after a Monday.
pub open spec fn days_since_monday(t: int) -> int {
    (day_index(t) + 3) % 7
}

/// A half-open-by-day query window, in millisecond timestamps.
#[derive(Debug)]
pub struct WeekWindow {
    pub start_millis: i64,
    pub end_millis: i64,
}

/// Computes the window for a query of `weeks` weeks: the start keeps the
/// time of day of "now" but moves back to the most recent Monday, and the
/// end is one day short of `weeks` whole weeks later.
pub fn derive_week_window(now_millis: i64, weeks: i8) -> (w: WeekWindow)
    requires
        604800000 <= now_millis <= 100000000000000,
        1 <= weeks <= 5,
    ensures
        w.start_millis == now_millis - days_since_monday(now_millis as int) * 86400000,
        w.end_millis == w.start_millis + (weeks * 7 - 1) * 86400000,
        days_since_monday(w.start_millis as int) == 0,
        w.end_millis - w.start_millis + 86400000 == weeks * 7 * 86400000,
        0 < w.start_millis <= now_millis,
        w.end_millis <= now_millis + 35 * 86400000,
{
    let day: i64 = now_millis / MILLIS_PER_DAY;
    let dsm: i64 = (day + 3) % 7;
    let start = now_millis - dsm * MILLIS_PER_DAY;
    let end = start + ((weeks as i64) * 7 - 1) * MILLIS_PER_DAY;
    proof {
        let mpd: int = 86400000;
        let d = now_millis as int / mpd;
        let r = now_millis as int % mpd;
        assert(now_millis as int == d * mpd + r && 0 <= r < mpd) by (nonlinear_arith)
            requires
                now_millis >= 0,
                d == now_millis as int / mpd,
                r == now_millis as int % mpd,
                mpd == 86400000,
        ;
        let dsmg = (d + 3) % 7;
        assert(0 <= dsmg < 7);
        assert(start as int == (d - dsmg) * mpd + r);
        assert(((d - dsmg) * mpd + r) / mpd == d - dsmg) by (nonlinear_arith)
            requires
                0 <= r < mpd,
                mpd == 86400000,
        ;
        assert(day_index(start as int) == d - dsmg);
        let q2 = (d + 3) / 7;
        assert(d + 3 == 7 * q2 + dsmg) by (nonlinear_arith)
            requires
                q2 == (d + 3) / 7,
                dsmg == (d + 3) % 7,
        ;
        assert(d - dsmg + 3 == 7 * q2);
        assert((7 * q2) % 7 == 0) by (nonlinear_arith);
        assert(days_since_monday(start as int) == 0);
    }
    WeekWindow { start_millis: start, end_millis: end }
}

} // verus!
