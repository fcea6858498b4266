//! State of the control panel shown while logging, and of its altitude and
//! barometer windows.

use vstd::prelude::*;

use crate::cursor::{freshness, window_start, Cursor, Freshness};
use crate::query::Query;

verus! {

/// Number of samples a series must exceed before the altitude window plots it.
pub const MIN_PLOT_SAMPLES: usize = 100;

/// The altitude (ultrasonic) window of the control panel.
pub struct AltitudeUI {
    pub cursor: Cursor,
}

impl AltitudeUI {
    /// A window over the 30 seconds up to the newest sample.
    pub fn new() -> (ui: Self)
        ensures
            ui.cursor.range == 30000,
            ui.cursor.index == 0,
    {
        AltitudeUI { cursor: Cursor::new(30000, 0) }
    }

    /// Moves the window to end at the newest sample when the series holds
    /// more than `MIN_PLOT_SAMPLES` samples; returns whether to plot.
    pub fn refresh(&mut self, timestamps: &[i64]) -> (plot: bool)
        ensures
            plot == (timestamps@.len() > MIN_PLOT_SAMPLES),
            final(self).cursor.range == old(self).cursor.range,
            plot ==> final(self).cursor.index == window_start(
                timestamps@,
                None,
                old(self).cursor.range,
            ),
            !plot ==> final(self).cursor.index == old(self).cursor.index,
    {
        if timestamps.len() > MIN_PLOT_SAMPLES {
            self.cursor.update(timestamps, None);
            true
        } else {
            false
        }
    }

    /// The time span of the plot: the window ending at the newest sample `last`.
    pub fn span(&self, last: i64) -> (s: (i64, i64))
        requires
            i64::MIN <= last - self.cursor.range <= i64::MAX,
        ensures
            s.0 == last - self.cursor.range,
            s.1 == last,
    {
        (last - self.cursor.range, last)
    }
}

/// The barometer window of the control panel.
pub struct BarometerUI {
    pub cursor: Cursor,
}

impl BarometerUI {
    /// A window over the last 30 seconds.
    pub fn new() -> (ui: Self)
        ensures
            ui.cursor.range == 30000,
            ui.cursor.index == 0,
    {
        BarometerUI { cursor: Cursor::new(30000, 0) }
    }

    /// Whether the newest sample, taken at `last`, is shown as out of range.
    pub fn status(&self, last: Option<i64>, now: i64) -> (f: Freshness)
        requires
            last matches Some(t) ==> i64::MIN <= now - t <= i64::MAX,
        ensures
            f == match last {
                None => Freshness::NoData,
                Some(t) => if now - t > self.cursor.range {
                    Freshness::Stale
                } else {
                    Freshness::Fresh
                },
            },
    {
        freshness(last, now, self.cursor.range)
    }

    /// Moves the window to end at `now`.
    pub fn refresh(&mut self, timestamps: &[i64], now: i64)
        ensures
            final(self).cursor.range == old(self).cursor.range,
            final(self).cursor.index == window_start(timestamps@, Some(now), old(self).cursor.range),
    {
        self.cursor.update(timestamps, Some(now));
    }
}

/// The control panel: it holds the shared database handle `D` once the
/// backend handed it out, and the sensor windows.
pub struct ControlPanelUI<D> {
    pub database: Option<D>,
    pub altitude_ui: AltitudeUI,
    pub barometer_ui: BarometerUI,
}

impl<D> ControlPanelUI<D> {
    /// A panel with no database yet and fresh sensor windows.
    pub fn new() -> (p: Self)
        ensures
            p.database is None,
            p.altitude_ui.cursor.range == 30000,
            p.altitude_ui.cursor.index == 0,
            p.barometer_ui.cursor.range == 30000,
            p.barometer_ui.cursor.index == 0,
    {
        ControlPanelUI {
            database: None,
            altitude_ui: AltitudeUI::new(),
            barometer_ui: BarometerUI::new(),
        }
    }

    /// Takes the database handle that the backend replied with, if any, and
    /// turns a click on "Stop logging" into a request to close the port. The
    /// button is there only once a database is held.
    pub fn update(&mut self, received: Option<D>, stop_clicked: bool) -> (q: Option<Query>)
        ensures
            final(self).database == (match received {
                Some(d) => Some(d),
                None => old(self).database,
            }),
            final(self).altitude_ui == old(self).altitude_ui,
            final(self).barometer_ui == old(self).barometer_ui,
            (final(self).database is Some && stop_clicked) ==> q == Some(Query::ClosePort),
            !(final(self).database is Some && stop_clicked) ==> q is None,
    {
        if let Some(d) = received {
            self.database = Some(d);
        }
        if self.database.is_some() && stop_clicked {
            Some(Query::ClosePort)
        } else {
            None
        }
    }

    /// The database handle, once the backend handed it out.
    pub fn database(&self) -> (d: Option<&D>)
        ensures
            match self.database {
                Some(x) => d == Some(&x),
                None => d is None,
            },
    {
        self.database.as_ref()
    }
}

} // verus!
