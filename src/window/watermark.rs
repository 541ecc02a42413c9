//! The watermark of one window: `max(rowtime) - allowed_delay`.
use vstd::prelude::*;
use crate::time::{EventDuration, Timestamp, MIN_TIMESTAMP_NANOS};

verus! {

/// A watermark is held by each window.
#[derive(Clone, Copy, Debug, PartialEq, Eq, Structural)]
pub struct Watermark {
    pub max_rowtime: Timestamp,
    pub allowed_delay: EventDuration,
}

impl Watermark {
    pub open spec fn wf(self) -> bool {
        self.max_rowtime.wf() && self.allowed_delay.wf()
    }

    /// The watermark's position in event time, in nanoseconds.
    pub open spec fn view(self) -> int {
        self.max_rowtime@ - self.allowed_delay@
    }

    /// The watermark after a row with `rowtime` arrived.
    pub open spec fn updated(self, rowtime: Timestamp) -> Watermark {
        if rowtime@ > self.max_rowtime@ {
            Watermark { max_rowtime: rowtime, ..self }
        } else {
            self
        }
    }

    /// A watermark that has seen no row yet: its maximum rowtime is the designated minimum.
    pub fn new(allowed_delay: EventDuration) -> (r: Watermark)
        requires
            allowed_delay.wf(),
        ensures
            r.wf(),
            r.max_rowtime.nanos == MIN_TIMESTAMP_NANOS,
            r.allowed_delay == allowed_delay,
    {
        Watermark { max_rowtime: Timestamp::min(), allowed_delay }
    }

    /// The watermark in nanoseconds; it may lie before the smallest timestamp.
    pub fn as_nanos(&self) -> (r: i64)
        requires
            self.wf(),
        ensures
            r == self@,
    {
        self.max_rowtime.nanos - self.allowed_delay.nanos
    }

    /// Takes a row's rowtime into account: the maximum rowtime never goes back.
    pub fn update(&mut self, rowtime: Timestamp)
        requires
            old(self).wf(),
            rowtime.wf(),
        ensures
            final(self).wf(),
            *final(self) == old(self).updated(rowtime),
            final(self)@ >= old(self)@,
    {
        if rowtime.nanos > self.max_rowtime.nanos {
            self.max_rowtime = rowtime;
        }
    }
}

/// The watermark after a run of rowtimes, one update each.
pub open spec fn watermark_after(w: Watermark, rowtimes: Seq<Timestamp>) -> Watermark
    decreases rowtimes.len(),
{
    if rowtimes.len() == 0 {
        w
    } else {
        watermark_after(w, rowtimes.drop_last()).updated(rowtimes.last())
    }
}

/// The watermark never decreases: along any run of rowtimes, in whatever
/// order they come, the watermark after a longer prefix is at or above the
/// watermark after a shorter one, and at or above every rowtime seen minus
/// the allowed delay.
pub proof fn lemma_watermark_monotonic(w: Watermark, rowtimes: Seq<Timestamp>, i: int, j: int)
    requires
        w.wf(),
        forall|k: int| 0 <= k < rowtimes.len() ==> (#[trigger] rowtimes[k]).wf(),
        0 <= i <= j <= rowtimes.len(),
    ensures
        watermark_after(w, rowtimes.subrange(0, i))@ <= watermark_after(w, rowtimes.subrange(0, j))@,
        watermark_after(w, rowtimes.subrange(0, j)).wf(),
        i < j ==> rowtimes[i]@ - w.allowed_delay@ <= watermark_after(w, rowtimes.subrange(0, j))@,
    decreases j - i,
{
    let pj = rowtimes.subrange(0, j);
    lemma_watermark_after_wf(w, pj);
    if i < j {
        lemma_watermark_monotonic(w, rowtimes, i, j - 1);
        assert(pj.drop_last() =~= rowtimes.subrange(0, j - 1));
        assert(pj.last() == rowtimes[j - 1]);
    }
}

proof fn lemma_watermark_after_wf(w: Watermark, rowtimes: Seq<Timestamp>)
    requires
        w.wf(),
        forall|k: int| 0 <= k < rowtimes.len() ==> (#[trigger] rowtimes[k]).wf(),
    ensures
        watermark_after(w, rowtimes).wf(),
        watermark_after(w, rowtimes).allowed_delay == w.allowed_delay,
    decreases rowtimes.len(),
{
    if rowtimes.len() > 0 {
        lemma_watermark_after_wf(w, rowtimes.drop_last());
        assert(rowtimes.last() == rowtimes[rowtimes.len() - 1]);
    }
}

} // verus!
