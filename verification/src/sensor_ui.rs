//! State of the sensor windows of the application: the altitude window and
//! the pitot (airspeed) window, each with an adjustable time range.

use vstd::prelude::*;

use crate::cursor::{freshness, window_start, Cursor, Freshness};

verus! {

/// Smallest time range, in seconds, that the range slider offers.
pub const RANGE_MIN_S: i64 = 10;

/// Largest time range, in seconds, that the range slider offers.
pub const RANGE_MAX_S: i64 = 7200;

/// Milliseconds per second.
pub const MS_PER_S: i64 = 1000;

/// A time range in seconds whose value in milliseconds fits an `i64`.
pub open spec fn range_fits(range_s: i64) -> bool {
    i64::MIN <= range_s * 1000 <= i64::MAX
}

/// Sets the window of `cursor` to `range_s` seconds ending at `now`.
fn refresh_window(cursor: &mut Cursor, range_s: i64, timestamps: &[i64], now: i64)
    requires
        range_fits(range_s),
    ensures
        final(cursor).range == range_s * 1000,
        final(cursor).index == window_start(timestamps@, Some(now), (range_s * 1000) as i64),
{
    cursor.range = range_s * MS_PER_S;
    cursor.update(timestamps, Some(now));
}

/// The altitude (ultrasonic) window.
pub struct AltitudeUI {
    pub cursor: Cursor,
    /// Time range shown, in seconds.
    pub range: i64,
}

impl AltitudeUI {
    /// A window over the last 30 seconds.
    pub fn new() -> (ui: Self)
        ensures
            ui.cursor.range == 30000,
            ui.cursor.index == 0,
            ui.range == 30,
    {
        AltitudeUI { cursor: Cursor::new(30000, 0), range: 30 }
    }

    /// Whether the newest sample, taken at `last`, is shown as out of range.
    pub fn status(&self, last: Option<i64>, now: i64) -> (f: Freshness)
        requires
            last matches Some(t) ==> i64::MIN <= now - t <= i64::MAX,
        ensures
            f == match last {
                None => Freshness::NoData,
                Some(t) => if now - t > self.cursor.range {
                    Freshness::Stale
                } else {
                    Freshness::Fresh
                },
            },
    {
        freshness(last, now, self.cursor.range)
    }

    /// Sets the plotted window to the chosen range, ending at `now`.
    pub fn refresh(&mut self, timestamps: &[i64], now: i64)
        requires
            range_fits(old(self).range),
        ensures
            final(self).range == old(self).range,
            final(self).cursor.range == old(self).range * 1000,
            final(self).cursor.index == window_start(
                timestamps@,
                Some(now),
                (old(self).range * 1000) as i64,
            ),
    {
        refresh_window(&mut self.cursor, self.range, timestamps, now);
    }
}

/// The pitot (indicated airspeed) window.
pub struct PitotUI {
    pub cursor: Cursor,
    /// Time range shown, in seconds.
    pub range: i64,
}

impl PitotUI {
    /// A window over the last 300 seconds.
    pub fn new() -> (ui: Self)
        ensures
            ui.cursor.range == 300000,
            ui.cursor.index == 0,
            ui.range == 300,
    {
        PitotUI { cursor: Cursor::new(300 * MS_PER_S, 0), range: 300 }
    }

    /// Sets the plotted window to the chosen range, ending at `now`.
    pub fn refresh(&mut self, timestamps: &[i64], now: i64)
        requires
            range_fits(old(self).range),
        ensures
            final(self).range == old(self).range,
            final(self).cursor.range == old(self).range * 1000,
            final(self).cursor.index == window_start(
                timestamps@,
                Some(now),
                (old(self).range * 1000) as i64,
            ),
    {
        refresh_window(&mut self.cursor, self.range, timestamps, now);
    }
}

} // verus!
