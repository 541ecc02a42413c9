//! The window state of one windowed pump: watermark and panes together.
use vstd::prelude::*;
use crate::error::SpringError;
use crate::time::Timestamp;
use crate::value::{fits_i64, SqlValue};
use crate::window::pane::{aggregatable, aggregate_of, contribution, fold_row, group_full, pane_result, AggregateFunction, GroupView, Pane};
use crate::window::panes::{before_content, lemma_open_ats_exact, has_open_at, Panes, WindowParameter};
use crate::window::watermark::Watermark;

verus! {

/// The results of one closed pane: one `(group key, aggregate)` per group.
pub struct WindowOutput {
    pub open_at: i64,
    pub close_at: i64,
    pub groups: Vec<(SqlValue, SqlValue)>,
}

/// What became of a row handed to a window.
pub enum WindowDispatch {
    /// The row was older than the watermark and was dropped.
    Dropped,
    /// The row was admitted; these panes closed as a result, in increasing `close_at`.
    Admitted(Vec<WindowOutput>),
}

/// A windowed pump's state.
pub struct Window {
    pub watermark: Watermark,
    pub panes: Panes,
    /// The `open_at` of every pane emitted so far.
    pub emitted: Ghost<Set<int>>,
    /// How many rows came too late and were dropped (it stops at `u64::MAX`).
    pub dropped: u64,
}

impl Window {
    pub open spec fn wf(&self) -> bool {
        &&& self.watermark.wf()
        &&& self.panes.wf()
        &&& self.watermark.allowed_delay == self.panes.window_param.allowed_delay
        &&& forall|j: int| 0 <= j < self.panes.panes@.len() ==> (#[trigger] self.panes.panes@[j]).close_at
            > self.watermark@
        &&& forall|o: int| #[trigger] self.emitted@.contains(o) ==> o + self.panes.window_param.length@
            <= self.watermark@
    }

    pub fn new(window_param: WindowParameter, function: AggregateFunction) -> (r: Window)
        requires
            window_param.wf(),
        ensures
            r.wf(),
            r.panes.window_param == window_param,
            r.panes.function == function,
            r.panes.panes@.len() == 0,
            r.emitted@ == Set::<int>::empty(),
            r.dropped == 0,
    {
        Window {
            watermark: Watermark::new(window_param.allowed_delay),
            panes: Panes::new(window_param, function),
            emitted: Ghost(Set::empty()),
            dropped: 0,
        }
    }

    /// Handles one row: a row older than the watermark is dropped; otherwise
    /// it is folded into every pane that holds its rowtime, the watermark
    /// moves forward, and every pane whose `close_at` is now at or before
    /// the watermark is closed and emitted.
    pub fn dispatch(&mut self, rowtime: Timestamp, key: &SqlValue, value: &SqlValue) -> (r: Result<
        WindowDispatch,
        SpringError,
    >)
        requires
            old(self).wf(),
            rowtime.wf(),
            aggregatable(*value),
        ensures
            final(self).wf(),
            final(self).panes.window_param == old(self).panes.window_param,
            rowtime@ < old(self).watermark@ ==> (r matches Ok(WindowDispatch::Dropped))
                && final(self).watermark == old(self).watermark
                && final(self).emitted@ == old(self).emitted@
                && final(self).dropped == if old(self).dropped < u64::MAX { (old(self).dropped + 1) as u64 } else { old(self).dropped },
            rowtime@ >= old(self).watermark@ ==> final(self).dropped == old(self).dropped,
            rowtime@ < old(self).watermark@ ==> final(self).panes == old(self).panes,
            rowtime@ >= old(self).watermark@ ==> r is Err || r is Ok && r->Ok_0 is Admitted,
            r is Ok && rowtime@ >= old(self).watermark@ ==> final(self).watermark == old(self).watermark.updated(rowtime),
            r matches Ok(WindowDispatch::Admitted(out)) ==> {
                &&& forall|j: int| 0 <= j < out@.len() ==> (#[trigger] out@[j]).close_at <= final(self).watermark@
                    && !old(self).emitted@.contains(out@[j].open_at as int)
                    && final(self).emitted@.contains(out@[j].open_at as int)
                &&& forall|i: int, j: int| 0 <= i < j < out@.len() ==> (#[trigger] out@[i]).close_at
                    < (#[trigger] out@[j]).close_at
                &&& forall|j: int| 0 <= j < out@.len() ==> (#[trigger] out@[j]).close_at == out@[j].open_at
                    + old(self).panes.window_param.length@
                    && out@[j].groups@ == pane_result(old(self).panes.function, content_after(
                        old(self).panes.panes@, out@[j].open_at as int, old(self).panes.window_param.length@,
                        rowtime@, *key, *value))
            },
            r is Err ==> r == Err::<WindowDispatch, SpringError>(SpringError::Unavailable)
                || r == Err::<WindowDispatch, SpringError>(SpringError::Sql),
            r == Err::<WindowDispatch, SpringError>(SpringError::Unavailable) ==> contribution(*value) is Some
                && exists|j: int| 0 <= j < old(self).panes.panes@.len() && group_full(#[trigger] old(self).panes.panes@[j]@, *key),
            r == Err::<WindowDispatch, SpringError>(SpringError::Sql) ==> exists|o: int| #[trigger] overflows(
                old(self).panes.function, content_after(old(self).panes.panes@, o, old(self).panes.window_param.length@,
                rowtime@, *key, *value)),
    {
        let wm = self.watermark.as_nanos();
        if rowtime.nanos < wm {
            if self.dropped < u64::MAX {
                self.dropped = self.dropped + 1;
            }
            return Ok(WindowDispatch::Dropped);
        }
        let ghost old_ps = self.panes.panes@;
        let ghost l = self.panes.window_param.length@;
        let ghost p = self.panes.window_param.period@;
        let res = self.panes.dispatch_row(rowtime, key, value);
        proof {
            assert forall|j: int| 0 <= j < self.panes.panes@.len() implies (#[trigger] self.panes.panes@[j]).close_at
                > self.watermark@ && !self.emitted@.contains(self.panes.panes@[j].open_at as int) by {
                let pj = self.panes.panes@[j];
                assert(has_open_at(self.panes.panes@, pj.open_at as int));
                if has_open_at(old_ps, pj.open_at as int) {
                    let t = choose|t: int| 0 <= t < old_ps.len() && (#[trigger] old_ps[t]).open_at == pj.open_at;
                    assert(old_ps[t].close_at > self.watermark@);
                } else {
                    lemma_open_ats_exact(rowtime@, l, p, pj.open_at as int);
                }
            }
        }
        if res.is_err() {
            return Err(SpringError::Unavailable);
        }
        let ghost wm_before = self.watermark;
        self.watermark.update(rowtime);
        let ghost mid = self.panes.panes@;
        let new_wm = self.watermark.as_nanos();
        let closed = self.panes.remove_panes_to_close(new_wm);
        let ghost before_emit = self.emitted@;
        proof {
            assert forall|j: int| 0 <= j < mid.len() implies (#[trigger] mid[j])@ == content_after(
                old_ps, mid[j].open_at as int, l, rowtime@, *key, *value) by {
                assert(self.panes.pane_ok(mid[j]));
            }
            assert forall|j: int| 0 <= j < closed@.len() implies (#[trigger] closed@[j])@ == content_after(
                old_ps, closed@[j].open_at as int, l, rowtime@, *key, *value) by {
                assert(closed@[j] == mid[j]);
            }
        }
        proof {
            assert forall|j: int| 0 <= j < closed@.len() implies self.panes.pane_ok(#[trigger] closed@[j]) by {
                assert(closed@[j] == mid[j]);
            }
        }

        let mut out: Vec<WindowOutput> = Vec::new();
        let mut i: usize = 0;
        while i < closed.len()
            invariant
                0 <= i <= closed@.len(),
                out@.len() == i,
                forall|j: int| 0 <= j < i ==> (#[trigger] out@[j]).open_at == closed@[j].open_at
                    && out@[j].close_at == closed@[j].close_at,
                forall|j: int| 0 <= j < closed@.len() ==> self.panes.pane_ok(#[trigger] closed@[j]),
                self.panes.window_param == old(self).panes.window_param,
                rowtime@ >= old(self).watermark@,
                self.panes.function == old(self).panes.function,
                self.wf(),
                self.emitted@ == before_emit,
                forall|j: int| 0 <= j < i ==> (#[trigger] out@[j]).groups@ == pane_result(self.panes.function, closed@[j]@),
                old_ps == old(self).panes.panes@,
                l == old(self).panes.window_param.length@,
                self.dropped == old(self).dropped,
                forall|j: int| 0 <= j < closed@.len() ==> (#[trigger] closed@[j])@ == content_after(
                    old_ps, closed@[j].open_at as int, l, rowtime@, *key, *value),
            decreases closed@.len() - i,
        {
            let pane = &closed[i];
            assert(self.panes.pane_ok(closed@[i as int]));
            let groups = match pane.close(self.panes.function) {
                Ok(g) => g,
                Err(e) => {
                    proof {
                        let o = closed@[i as int].open_at as int;
                        assert(overflows(self.panes.function, content_after(old_ps, o, l, rowtime@, *key, *value)));
                    }
                    return Err(e);
                },
            };
            out.push(WindowOutput { open_at: pane.open_at, close_at: pane.close_at, groups });
            i = i + 1;
        }
        let ghost closed_set = Set::new(|o: int| exists|j: int| 0 <= j < closed@.len() && (#[trigger] closed@[j]).open_at == o);
        self.emitted = Ghost(before_emit.union(closed_set));
        proof {
            assert forall|o: int| #[trigger] self.emitted@.contains(o) implies o + l <= self.watermark@ by {
                if closed_set.contains(o) {
                    let j = choose|j: int| 0 <= j < closed@.len() && (#[trigger] closed@[j]).open_at == o;
                    assert(self.panes.pane_ok(closed@[j]));
                }
            }
            assert forall|j: int| 0 <= j < out@.len() implies !before_emit.contains((#[trigger] out@[j]).open_at as int)
                && self.emitted@.contains(out@[j].open_at as int) by {
                assert(closed@[j] == mid[j]);
                assert(closed_set.contains(closed@[j].open_at as int));
            }
            assert forall|a: int, b: int| 0 <= a < b < out@.len() implies (#[trigger] out@[a]).close_at
                < (#[trigger] out@[b]).close_at by {
                assert(closed@[a] == mid[a] && closed@[b] == mid[b]);
            }
        }
        Ok(WindowDispatch::Admitted(out))
    }
}

/// The groups a pane that opens at `o` holds after a row arrived: those it
/// had (none for a new pane), with the row folded in when the pane holds
/// its rowtime.
pub open spec fn content_after(
    old_panes: Seq<Pane>,
    o: int,
    length: int,
    rowtime: int,
    key: SqlValue,
    value: SqlValue,
) -> Seq<GroupView> {
    if o <= rowtime < o + length {
        fold_row(before_content(old_panes, o), key, contribution(value))
    } else {
        before_content(old_panes, o)
    }
}

/// Some group's aggregate does not fit a BIGINT.
pub open spec fn overflows(f: AggregateFunction, gs: Seq<GroupView>) -> bool {
    exists|i: int| 0 <= i < gs.len() && (aggregate_of(f, (#[trigger] gs[i]).1) matches Some(x) && !fits_i64(x))
}

} // verus!
