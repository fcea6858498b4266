//! The time window of a plotted series.
//!
//! A series is a list of sample timestamps in milliseconds, oldest first.
//! A cursor keeps the width of the window (`range`) and the index of the
//! first sample inside it (`index`); the samples from `index` on are plotted.

use vstd::prelude::*;

verus! {

/// Number of leading timestamps of `ts` that are older than `lo`.
pub open spec fn leading_older(ts: Seq<i64>, lo: int) -> nat
    decreases ts.len(),
{
    if ts.len() == 0 || ts[0] >= lo {
        0
    } else {
        1 + leading_older(ts.drop_first(), lo)
    }
}

/// The time the window ends at: `now` when given, else the newest sample.
pub open spec fn window_end(ts: Seq<i64>, now: Option<i64>) -> Option<int> {
    match now {
        Some(n) => Some(n as int),
        None => if ts.len() > 0 {
            Some(ts.last() as int)
        } else {
            None
        },
    }
}

/// Index of the first sample of the window of width `range` that ends at
/// `window_end(ts, now)`; 0 when there is nothing to end at.
pub open spec fn window_start(ts: Seq<i64>, now: Option<i64>, range: i64) -> nat {
    match window_end(ts, now) {
        Some(end) => leading_older(ts, end - range),
        None => 0,
    }
}

/// The timestamps before the window start are older than its lower bound, the
/// one at the start (if any) is not, and the start is within the series.
pub proof fn lemma_leading_older(ts: Seq<i64>, lo: int)
    ensures
        leading_older(ts, lo) <= ts.len(),
        forall|j: int| 0 <= j < leading_older(ts, lo) ==> ts[j] < lo,
        leading_older(ts, lo) < ts.len() ==> ts[leading_older(ts, lo) as int] >= lo,
    decreases ts.len(),
{
    if ts.len() != 0 && ts[0] < lo {
        lemma_leading_older(ts.drop_first(), lo);
        assert forall|j: int| 0 <= j < leading_older(ts, lo) implies ts[j] < lo by {
            if j > 0 {
                assert(ts[j] == ts.drop_first()[j - 1]);
            }
        }
    }
}

/// Law: in a series whose timestamps never decrease, the samples from the
/// window start on are exactly those at or after the window's lower bound.
pub proof fn lemma_window_of_sorted(ts: Seq<i64>, lo: int)
    requires
        forall|i: int, j: int| 0 <= i <= j < ts.len() ==> ts[i] <= ts[j],
    ensures
        forall|j: int|
            0 <= j < ts.len() ==> (j >= leading_older(ts, lo) <==> #[trigger] ts[j] >= lo),
{
    lemma_leading_older(ts, lo);
    let k = leading_older(ts, lo) as int;
    assert forall|j: int| 0 <= j < ts.len() implies (j >= k <==> #[trigger] ts[j] >= lo) by {
        if j >= k {
            assert(ts[k] <= ts[j]);
        }
    }
}

/// The plotting window of a series.
pub struct Cursor {
    /// Width of the window in milliseconds.
    pub range: i64,
    /// Index of the first sample inside the window.
    pub index: usize,
}

impl Cursor {
    pub fn new(range: i64, index: usize) -> (c: Self)
        ensures
            c.range == range,
            c.index == index,
    {
        Cursor { range, index }
    }

    /// Moves the window so that it ends at `now`, or at the newest sample
    /// when `now` is `None`, and starts `range` milliseconds earlier.
    pub fn update(&mut self, timestamps: &[i64], now: Option<i64>)
        ensures
            final(self).range == old(self).range,
            final(self).index == window_start(timestamps@, now, old(self).range),
            final(self).index <= timestamps@.len(),
            window_end(timestamps@, now) is None ==> final(self).index == 0,
            forall|end: int|
                window_end(timestamps@, now) == Some(end) ==> {
                    let idx = final(self).index as int;
                    let lo = end - old(self).range;
                    &&& forall|j: int| 0 <= j < idx ==> #[trigger] timestamps@[j] < lo
                    &&& idx < timestamps@.len() ==> timestamps@[idx] >= lo
                    &&& (forall|a: int, b: int|
                        0 <= a <= b < timestamps@.len() ==> timestamps@[a] <= timestamps@[b])
                        ==> forall|j: int|
                        0 <= j < timestamps@.len() ==> (j >= idx <==> #[trigger] timestamps@[j]
                            >= lo)
                },
    {
        let len = timestamps.len();
        let end: i64 = match now {
            Some(n) => n,
            None => {
                if len == 0 {
                    self.index = 0;
                    return;
                }
                timestamps[len - 1]
            },
        };
        let lo: i128 = end as i128 - self.range as i128;
        let mut i: usize = 0;
        while i < len && (timestamps[i] as i128) < lo
            invariant
                i <= len,
                len == timestamps@.len(),
                lo == end - self.range,
                forall|j: int| 0 <= j < i ==> timestamps@[j] < lo,
            decreases len - i,
        {
            i = i + 1;
        }
        proof {
            let ts = timestamps@;
            lemma_leading_older(ts, lo as int);
            let k = leading_older(ts, lo as int);
            if k < i {
                assert(ts[k as int] < lo);
            }
            if k > i {
                assert(ts[i as int] < lo);
            }
        }
        proof {
            let ts = timestamps@;
            if forall|a: int, b: int| 0 <= a <= b < ts.len() ==> ts[a] <= ts[b] {
                lemma_window_of_sorted(ts, lo as int);
            }
        }
        self.index = i;
    }
}

/// How recent the newest sample of a series is.
#[derive(Debug, Clone, Copy, PartialEq, Eq, Structural)]
pub enum Freshness {
    /// The series holds no sample.
    NoData,
    /// The newest sample lies within the window.
    Fresh,
    /// The newest sample is older than the window.
    Stale,
}

/// Whether the newest sample `last` (if any) is more than `range`
/// milliseconds older than `now`.
pub fn freshness(last: Option<i64>, now: i64, range: i64) -> (f: Freshness)
    requires
        last matches Some(t) ==> i64::MIN <= now - t <= i64::MAX,
    ensures
        f == match last {
            None => Freshness::NoData,
            Some(t) => if now - t > range {
                Freshness::Stale
            } else {
                Freshness::Fresh
            },
        },
{
    match last {
        None => Freshness::NoData,
        Some(t) => if now - t > range {
            Freshness::Stale
        } else {
            Freshness::Fresh
        },
    }
}

} // verus!
