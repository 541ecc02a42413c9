//! The panes of one windowed pump, kept sorted by `open_at`.
use vstd::prelude::*;
use vstd::arithmetic::div_mod::lemma_fundamental_div_mod_converse;
use crate::error::SpringError;
use crate::time::{EventDuration, Timestamp, MAX_DURATION_NANOS, MAX_TIMESTAMP_NANOS, MIN_TIMESTAMP_NANOS};
use crate::value::SqlValue;
use crate::window::pane::{
    aggregatable, contribution, fold_row, group_full, AggregateFunction, GroupView, Pane,
};

verus! {

/// A timed sliding window: each pane spans `length`, a new pane opens every
/// `period`, and rows may arrive up to `allowed_delay` late.
#[derive(Clone, Copy, Debug, PartialEq, Eq, Structural)]
pub struct WindowParameter {
    pub length: EventDuration,
    pub period: EventDuration,
    pub allowed_delay: EventDuration,
}

impl WindowParameter {
    pub open spec fn wf(self) -> bool {
        &&& self.length.wf()
        &&& self.period.wf()
        &&& self.allowed_delay.wf()
        &&& self.length@ > 0
        &&& self.period@ > 0
    }

    /// Whether the parameter can be used: positive length and period, and
    /// every duration in range.
    pub fn is_valid(&self) -> (r: bool)
        ensures
            r == self.wf(),
    {
        0 < self.length.nanos && self.length.nanos <= MAX_DURATION_NANOS && 0 < self.period.nanos
            && self.period.nanos <= MAX_DURATION_NANOS && 0 <= self.allowed_delay.nanos
            && self.allowed_delay.nanos <= MAX_DURATION_NANOS
    }
}

/// Index of the first pane that holds `rowtime`: the first multiple of the
/// period strictly after `rowtime - length`.
pub open spec fn first_pane_index(rowtime: int, length: int, period: int) -> int {
    (rowtime - length) / period + 1
}

/// Index of the last pane that holds `rowtime`: the last multiple of the
/// period at or before `rowtime`.
pub open spec fn last_pane_index(rowtime: int, period: int) -> int {
    rowtime / period
}

/// The `open_at` of every pane that holds `rowtime`, in increasing order:
/// the multiples of `period` in `(rowtime - length, rowtime]`.
pub open spec fn open_ats(rowtime: int, length: int, period: int) -> Seq<int> {
    let lo = first_pane_index(rowtime, length, period);
    let hi = last_pane_index(rowtime, period);
    Seq::new(if hi >= lo { (hi - lo + 1) as nat } else { 0 }, |i: int| (lo + i) * period)
}

/// `open_ats` holds exactly the multiples of the period in `(rowtime - length, rowtime]`.
pub proof fn lemma_open_ats_exact(rowtime: int, length: int, period: int, x: int)
    requires
        period > 0,
        length > 0,
    ensures
        open_ats(rowtime, length, period).contains(x) <==> (x % period == 0 && rowtime - length < x
            <= rowtime),
{
    let lo = first_pane_index(rowtime, length, period);
    let hi = last_pane_index(rowtime, period);
    let s = open_ats(rowtime, length, period);
    lemma_floor_div(rowtime - length, period);
    lemma_floor_div(rowtime, period);
    if s.contains(x) {
        let i = choose|i: int| 0 <= i < s.len() && s[i] == x;
        assert(x == (lo + i) * period);
        lemma_fundamental_div_mod_converse(x, period, lo + i, 0);
        assert((lo + i) * period >= lo * period) by (nonlinear_arith)
            requires i >= 0, period > 0;
        assert(lo * period > rowtime - length) by (nonlinear_arith)
            requires lo == (rowtime - length) / period + 1,
                ((rowtime - length) / period) * period + period > rowtime - length;
        assert((lo + i) * period <= hi * period) by (nonlinear_arith)
            requires lo + i <= hi, period > 0;
    }
    if x % period == 0 && rowtime - length < x <= rowtime {
        let q = x / period;
        vstd::arithmetic::div_mod::lemma_fundamental_div_mod(x, period);
        assert(x == q * period) by (nonlinear_arith)
            requires x == period * q + x % period, x % period == 0;
        // lo - 1 is the floor of (rowtime - length) / period, so q > lo - 1.
        assert(q >= lo) by (nonlinear_arith)
            requires x == q * period, (lo - 1) * period <= rowtime - length, rowtime - length < x,
                period > 0;
        assert(q <= hi) by (nonlinear_arith)
            requires x == q * period, hi * period <= rowtime, rowtime < hi * period + period, x <= rowtime,
                period > 0;
        assert(0 <= q - lo < s.len());
        assert(s[q - lo] == x);
    }
}

proof fn lemma_floor_div(x: int, p: int)
    requires
        p > 0,
    ensures
        (x / p) * p <= x < (x / p) * p + p,
{
    vstd::arithmetic::div_mod::lemma_fundamental_div_mod(x, p);
    assert(x % p >= 0 && x % p < p) by {
        vstd::arithmetic::div_mod::lemma_mod_bound(x, p);
    }
    assert(p * (x / p) == (x / p) * p) by (nonlinear_arith);
}

/// Floor division by a positive divisor.
fn floor_div(x: i64, p: i64) -> (q: i64)
    requires
        p > 0,
        x > i64::MIN,
    ensures
        q == x as int / p as int,
        x >= 0 ==> 0 <= q <= x,
        x < 0 ==> x <= q < 0,
{
    if x >= 0 {
        let q = ((x as u64) / (p as u64)) as i64;
        assert(q == x as int / p as int);
        assert(q <= x) by (nonlinear_arith)
            requires q == x as int / p as int, x >= 0, p > 0;
        q
    } else {
        let n = (((-x) as u64) - 1) / (p as u64);
        let q = -(n as i64) - 1;
        proof {
            let m = -(x as int) - 1;
            lemma_floor_div(m, p as int);
            assert(n as int == m / p as int);
            // x = -(m + 1), and q = -n - 1 satisfies q * p <= x < q * p + p.
            assert(q * p <= x) by (nonlinear_arith)
                requires q == -(n as int) - 1, m < n * p + p, x == -m - 1, p > 0;
            assert(x < q * p + p) by (nonlinear_arith)
                requires q == -(n as int) - 1, n * p <= m, x == -m - 1, p > 0;
            assert(n <= m) by (nonlinear_arith)
                requires n * p <= m, p > 0, n >= 0;
            lemma_fundamental_div_mod_converse(x as int, p as int, q as int, x - q * p);
        }
        q
    }
}

/// The panes of one windowed pump.
pub struct Panes {
    /// Sorted by `open_at`, without two panes at the same `open_at`.
    pub panes: Vec<Pane>,
    pub window_param: WindowParameter,
    pub function: AggregateFunction,
}

/// Whether a pane of `ps` opens at `o` with the groups `content`.
pub open spec fn has_pane(ps: Seq<Pane>, o: int, content: Seq<GroupView>) -> bool {
    exists|j: int| 0 <= j < ps.len() && (#[trigger] ps[j]).open_at == o && ps[j]@ == content
}

pub open spec fn has_open_at(ps: Seq<Pane>, o: int) -> bool {
    exists|j: int| 0 <= j < ps.len() && (#[trigger] ps[j]).open_at == o
}

impl Panes {
    pub open spec fn pane_ok(&self, p: Pane) -> bool {
        &&& p.wf()
        &&& p.open_at as int % self.window_param.period@ == 0
        &&& p.close_at as int == p.open_at + self.window_param.length@
        &&& MIN_TIMESTAMP_NANOS - MAX_DURATION_NANOS < p.open_at <= MAX_TIMESTAMP_NANOS
    }

    pub open spec fn wf(&self) -> bool {
        &&& self.window_param.wf()
        &&& forall|i: int| 0 <= i < self.panes@.len() ==> self.pane_ok(#[trigger] self.panes@[i])
        &&& forall|i: int, j: int| 0 <= i < j < self.panes@.len()
            ==> (#[trigger] self.panes@[i]).open_at < (#[trigger] self.panes@[j]).open_at
    }

    pub fn new(window_param: WindowParameter, function: AggregateFunction) -> (r: Panes)
        requires
            window_param.wf(),
        ensures
            r.wf(),
            r.panes@.len() == 0,
            r.window_param == window_param,
            r.function == function,
    {
        Panes { panes: Vec::new(), window_param, function }
    }

    /// The `open_at` of every pane that holds `rowtime`.
    pub fn valid_open_at_s(&self, rowtime: Timestamp) -> (r: Vec<i64>)
        requires
            self.wf(),
            rowtime.wf(),
        ensures
            r@.len() == open_ats(rowtime@, self.window_param.length@, self.window_param.period@).len(),
            forall|i: int| 0 <= i < r@.len() ==> r@[i] as int == #[trigger] open_ats(
                rowtime@,
                self.window_param.length@,
                self.window_param.period@,
            )[i],
    {
        let l = self.window_param.length.nanos;
        let p = self.window_param.period.nanos;
        let lq = floor_div(rowtime.nanos - l, p);
        let lo = lq + 1;
        let hi = floor_div(rowtime.nanos, p);
        let ghost s = open_ats(rowtime@, l as int, p as int);
        proof {
            lemma_floor_div(rowtime.nanos - l, p as int);
            lemma_floor_div(rowtime.nanos as int, p as int);
            assert(lo * p > rowtime.nanos - l && lo * p <= rowtime.nanos - l + p) by (nonlinear_arith)
                requires lo == lq + 1, lq * p + p > rowtime.nanos - l, lq * p <= rowtime.nanos - l;
        }
        let mut ret: Vec<i64> = Vec::new();
        let mut k = lo;
        let mut open_at: i64 = lo * p;
        while k <= hi
            invariant
                lo <= k,
                k <= hi + 1 || hi < lo,
                hi < lo ==> k == lo,
                open_at == k * p,
                open_at > rowtime.nanos - l,
                ret@.len() == k - lo,
                forall|i: int| 0 <= i < ret@.len() ==> ret@[i] as int == #[trigger] s[i],
                s == open_ats(rowtime@, l as int, p as int),
                lo == first_pane_index(rowtime@, l as int, p as int),
                hi == last_pane_index(rowtime@, p as int),
                hi * p <= rowtime.nanos,
                0 < p <= MAX_DURATION_NANOS,
                0 < l <= MAX_DURATION_NANOS,
                MIN_TIMESTAMP_NANOS <= rowtime.nanos <= MAX_TIMESTAMP_NANOS,
            decreases hi + 1 - k,
        {
            assert(open_at <= rowtime.nanos) by (nonlinear_arith)
                requires open_at == k * p, k <= hi, hi * p <= rowtime.nanos, p > 0;
            ret.push(open_at);
            assert(s[k - lo] == k * p);
            open_at = open_at + p;
            k = k + 1;
            assert(open_at == k * p) by (nonlinear_arith)
                requires open_at == (k - 1) * p + p;
        }
        proof {
            if hi < lo {
                assert(k == lo);
            }
        }
        ret
    }

    /// Opens the panes that hold `rowtime` and do not exist yet; existing
    /// panes are kept as they are. A sort-merge over two sorted sequences.
    pub fn generate_panes_if_not_exist(&mut self, rowtime: Timestamp)
        requires
            old(self).wf(),
            rowtime.wf(),
        ensures
            final(self).wf(),
            final(self).window_param == old(self).window_param,
            final(self).function == old(self).function,
            forall|o: int| #![trigger has_open_at(final(self).panes@, o)] #![trigger has_open_at(old(self).panes@, o)] #![trigger open_ats(rowtime@, old(self).window_param.length@, old(self).window_param.period@).contains(o)]
                has_open_at(final(self).panes@, o) <==> (has_open_at(old(self).panes@, o) || open_ats(rowtime@, old(self).window_param.length@, old(self).window_param.period@).contains(o)),
            forall|j: int| 0 <= j < final(self).panes@.len() ==> (#[trigger] final(self).panes@[j])@
                == before_content(old(self).panes@, final(self).panes@[j].open_at as int),
    {
        let ghost old_ps = self.panes@;
        let ghost l = self.window_param.length@;
        let ghost p = self.window_param.period@;
        let ghost s = open_ats(rowtime@, l, p);
        let opens = self.valid_open_at_s(rowtime);
        proof {
            assert forall|j: int| 0 <= j < old_ps.len() implies (#[trigger] old_ps[j])@ == before_content(
                old_ps,
                old_ps[j].open_at as int,
            ) by {
                lemma_before_content(old_ps, j);
            }
        }
        let mut k: usize = 0;
        while k < opens.len()
            invariant
                self.wf(),
                self.window_param == old(self).window_param,
                self.function == old(self).function,
                0 <= k <= opens@.len(),
                opens@.len() == s.len(),
                forall|i: int| 0 <= i < opens@.len() ==> opens@[i] as int == #[trigger] s[i],
                s == open_ats(rowtime@, l, p),
                l == self.window_param.length@,
                p == self.window_param.period@,
                old_ps == old(self).panes@,
                forall|o: int| #![trigger has_open_at(self.panes@, o)] #![trigger has_open_at(old_ps, o)] #![trigger s.subrange(0, k as int).contains(o)] has_open_at(self.panes@, o) <==> (has_open_at(old_ps, o) || s.subrange(0, k as int).contains(o)),
                rowtime.wf(),
                forall|j: int| 0 <= j < self.panes@.len() ==> (#[trigger] self.panes@[j])@
                    == before_content(old_ps, self.panes@[j].open_at as int),
            decreases opens@.len() - k,
        {
            let o = opens[k];
            proof {
                assert(s[k as int] == o);
                assert(s.contains(o as int));
                lemma_open_ats_exact(rowtime@, l, p, o as int);
            }
            let n = self.panes.len();
            let idx = self.first_pane_from(o);
            if idx < n && self.panes[idx].open_at == o {
                proof {
                    lemma_extend_open_ats(self.panes@, old_ps, s, k as int, idx as int);
                }
            } else {
                let ghost before = self.panes@;
                proof {
                    assert(!has_open_at(before, o as int)) by {
                        if has_open_at(before, o as int) {
                            let t = choose|t: int| 0 <= t < before.len() && (#[trigger] before[t]).open_at == o;
                            if t >= idx {
                                assert(before[idx as int].open_at <= before[t].open_at);
                            }
                        }
                    }
                    assert(!has_open_at(old_ps, o as int));
                }
                let pane = self.generate_pane(o);
                self.panes.insert(idx, pane);
                proof {
                    let after = self.panes@;
                    assert(after == before.insert(idx as int, pane));
                    assert forall|a: int, b: int| 0 <= a < b < after.len()
                        implies (#[trigger] after[a]).open_at < (#[trigger] after[b]).open_at by {
                        if b < idx {
                            assert(after[a] == before[a] && after[b] == before[b]);
                        } else if b == idx {
                            assert(after[a] == before[a]);
                        } else if a < idx {
                            assert(after[a] == before[a] && after[b] == before[b - 1]);
                            if idx < n {
                                assert(before[idx as int].open_at <= before[b - 1].open_at);
                            }
                        } else if a == idx {
                            assert(after[b] == before[b - 1]);
                            assert(before[idx as int].open_at <= before[b - 1].open_at);
                        } else {
                            assert(after[a] == before[a - 1] && after[b] == before[b - 1]);
                        }
                    }
                    assert forall|t: int| 0 <= t < after.len() implies self.pane_ok(#[trigger] after[t]) by {
                        if t < idx {
                            assert(after[t] == before[t]);
                        } else if t > idx {
                            assert(after[t] == before[t - 1]);
                        }
                    }
                    assert forall|t: int| 0 <= t < after.len() implies (#[trigger] after[t])@
                        == before_content(old_ps, after[t].open_at as int) by {
                        if t < idx {
                            assert(after[t] == before[t]);
                        } else if t > idx {
                            assert(after[t] == before[t - 1]);
                        } else {
                            assert(after[t]@ =~= Seq::<GroupView>::empty());
                        }
                    }
                    lemma_insert_open_at(before, idx as int, pane);
                    lemma_grow_open_ats(before, after, old_ps, s, k as int);
                }
            }
            k = k + 1;
        }
        proof {
            assert(k == s.len());
            lemma_all_open_ats(self.panes@, old_ps, s, k as int);
        }
    }

    /// Opens the panes that hold `rowtime` if needed, then folds the row's
    /// group key and aggregated value into every pane that holds `rowtime`.
    pub fn dispatch_row(&mut self, rowtime: Timestamp, key: &SqlValue, value: &SqlValue) -> (r: Result<(), SpringError>)
        requires
            old(self).wf(),
            rowtime.wf(),
            aggregatable(*value),
        ensures
            final(self).wf(),
            final(self).window_param == old(self).window_param,
            final(self).function == old(self).function,
            forall|o: int| #![trigger has_open_at(final(self).panes@, o)] #![trigger has_open_at(old(self).panes@, o)] #![trigger open_ats(rowtime@, old(self).window_param.length@, old(self).window_param.period@).contains(o)]
                has_open_at(final(self).panes@, o) <==> (has_open_at(old(self).panes@, o) || open_ats(rowtime@, old(self).window_param.length@, old(self).window_param.period@).contains(o)),
            r is Ok ==> forall|j: int| 0 <= j < final(self).panes@.len() ==> (#[trigger] final(self).panes@[j])@
                == dispatched(
                    before_content(old(self).panes@, final(self).panes@[j].open_at as int),
                    final(self).panes@[j],
                    rowtime@,
                    *key,
                    *value,
                ),
            r is Err ==> r == Err::<(), SpringError>(SpringError::Unavailable),
            r is Err ==> contribution(*value) is Some && exists|j: int| 0 <= j < old(self).panes@.len()
                && group_full(#[trigger] old(self).panes@[j]@, *key),
    {
        self.generate_panes_if_not_exist(rowtime);
        let ghost mid = self.panes@;
        let n = self.panes.len();
        let mut i: usize = 0;
        while i < n
            invariant
                self.wf(),
                self.window_param == old(self).window_param,
                self.function == old(self).function,
                0 <= i <= n,
                n == self.panes@.len(),
                mid.len() == n,
                aggregatable(*value),
                forall|j: int| 0 <= j < n ==> (#[trigger] mid[j])@ == before_content(old(self).panes@, mid[j].open_at as int),
                forall|o: int| #![trigger has_open_at(mid, o)] #![trigger has_open_at(old(self).panes@, o)] #![trigger open_ats(rowtime@, old(self).window_param.length@, old(self).window_param.period@).contains(o)]
                    has_open_at(mid, o) <==> (has_open_at(old(self).panes@, o) || open_ats(rowtime@, old(self).window_param.length@, old(self).window_param.period@).contains(o)),
                forall|j: int| 0 <= j < n ==> (#[trigger] self.panes@[j]).open_at == mid[j].open_at
                    && self.panes@[j].close_at == mid[j].close_at,
                forall|j: int| i <= j < n ==> (#[trigger] self.panes@[j])@ == mid[j]@,
                forall|j: int| 0 <= j < i ==> (#[trigger] self.panes@[j])@ == dispatched(
                    mid[j]@,
                    mid[j],
                    rowtime@,
                    *key,
                    *value,
                ),
            decreases n - i,
        {
            if self.panes[i].is_acceptable(rowtime.nanos) {
                let ghost before = self.panes@;
                let res = self.panes[i].dispatch(key, value);
                proof {
                    assert forall|j: int| 0 <= j < n && j != i implies #[trigger] self.panes@[j] == before[j] by {}
                }
                if res.is_err() {
                    proof {
                        let o = mid[i as int].open_at as int;
                        assert(mid[i as int]@ == before_content(old(self).panes@, o));
                        if has_open_at(old(self).panes@, o) {
                            let t = choose|t: int| 0 <= t < old(self).panes@.len() && (#[trigger] old(self).panes@[t]).open_at == o;
                            assert(group_full(old(self).panes@[t]@, *key));
                        } else {
                            assert(!group_full(Seq::<GroupView>::empty(), *key));
                        }
                        assert forall|a: int, b: int| 0 <= a < b < n
                            implies (#[trigger] self.panes@[a]).open_at < (#[trigger] self.panes@[b]).open_at by {
                            assert(before[a].open_at < before[b].open_at);
                        }
                        assert forall|t: int| 0 <= t < n implies self.pane_ok(#[trigger] self.panes@[t]) by {
                            assert(self.pane_ok(before[t]));
                        }
                        assert forall|o: int| has_open_at(self.panes@, o) <==> has_open_at(mid, o) by {
                            if has_open_at(self.panes@, o) {
                                let t = choose|t: int| 0 <= t < n && (#[trigger] self.panes@[t]).open_at == o;
                                assert(mid[t].open_at == o);
                            }
                            if has_open_at(mid, o) {
                                let t = choose|t: int| 0 <= t < n && (#[trigger] mid[t]).open_at == o;
                                assert(self.panes@[t].open_at == o);
                            }
                        }
                    }
                    return res;
                }
                proof {
                    assert forall|a: int, b: int| 0 <= a < b < n
                        implies (#[trigger] self.panes@[a]).open_at < (#[trigger] self.panes@[b]).open_at by {
                        assert(before[a].open_at < before[b].open_at);
                    }
                    assert forall|t: int| 0 <= t < n implies self.pane_ok(#[trigger] self.panes@[t]) by {
                        assert(self.pane_ok(before[t]));
                    }
                }
            }
            i = i + 1;
        }
        proof {
            assert forall|o: int| has_open_at(self.panes@, o) <==> has_open_at(mid, o) by {
                if has_open_at(self.panes@, o) {
                    let t = choose|t: int| 0 <= t < n && (#[trigger] self.panes@[t]).open_at == o;
                    assert(mid[t].open_at == o);
                }
                if has_open_at(mid, o) {
                    let t = choose|t: int| 0 <= t < n && (#[trigger] mid[t]).open_at == o;
                    assert(self.panes@[t].open_at == o);
                }
            }
        }
        Ok(())
    }

    /// Takes out the panes whose `close_at` is at or before the watermark;
    /// as panes are sorted by `open_at`, these form a prefix, and they come
    /// out in increasing `close_at` order.
    pub fn remove_panes_to_close(&mut self, watermark: i64) -> (r: Vec<Pane>)
        requires
            old(self).wf(),
        ensures
            final(self).wf(),
            final(self).window_param == old(self).window_param,
            final(self).function == old(self).function,
            r@ + final(self).panes@ == old(self).panes@,
            forall|j: int| 0 <= j < r@.len() ==> (#[trigger] r@[j]).close_at <= watermark,
            forall|j: int| 0 <= j < final(self).panes@.len() ==> (#[trigger] final(self).panes@[j]).close_at
                > watermark,
    {
        let ghost ps = self.panes@;
        let n = self.panes.len();
        let mut k: usize = 0;
        while k < n && self.panes[k].should_close(watermark)
            invariant
                0 <= k <= n,
                n == self.panes@.len(),
                self.panes@ == ps,
                forall|t: int| 0 <= t < k ==> (#[trigger] ps[t]).close_at <= watermark,
            decreases n - k,
        {
            k = k + 1;
        }
        let mut rest = self.panes.split_off(k);
        std::mem::swap(&mut self.panes, &mut rest);
        proof {
            assert(rest@ + self.panes@ =~= ps);
            assert forall|j: int| 0 <= j < self.panes@.len() implies (#[trigger] self.panes@[j]).close_at
                > watermark by {
                assert(self.panes@[j] == ps[j + k]);
                if k < n {
                    assert(ps[k as int].open_at <= ps[j + k].open_at);
                }
            }
            assert forall|a: int, b: int| 0 <= a < b < self.panes@.len()
                implies (#[trigger] self.panes@[a]).open_at < (#[trigger] self.panes@[b]).open_at by {
                assert(self.panes@[a] == ps[a + k] && self.panes@[b] == ps[b + k]);
            }
            assert forall|t: int| 0 <= t < self.panes@.len() implies self.pane_ok(#[trigger] self.panes@[t]) by {
                assert(self.panes@[t] == ps[t + k]);
            }
        }
        rest
    }

    /// Position of the first pane that opens at or after `o`.
    fn first_pane_from(&self, o: i64) -> (idx: usize)
        ensures
            idx <= self.panes@.len(),
            forall|t: int| 0 <= t < idx ==> (#[trigger] self.panes@[t]).open_at < o,
            idx < self.panes@.len() ==> self.panes@[idx as int].open_at >= o,
    {
        let n = self.panes.len();
        let mut idx: usize = 0;
        while idx < n && self.panes[idx].open_at < o
            invariant
                0 <= idx <= n,
                n == self.panes@.len(),
                forall|t: int| 0 <= t < idx ==> (#[trigger] self.panes@[t]).open_at < o,
            decreases n - idx,
        {
            idx = idx + 1;
        }
        idx
    }

    fn generate_pane(&self, open_at: i64) -> (r: Pane)
        requires
            self.wf(),
            open_at as int % self.window_param.period@ == 0,
            MIN_TIMESTAMP_NANOS - MAX_DURATION_NANOS < open_at <= MAX_TIMESTAMP_NANOS,
        ensures
            self.pane_ok(r),
            r.open_at == open_at,
            r@ == Seq::<GroupView>::empty(),
    {
        Pane::new(open_at, open_at + self.window_param.length.nanos)
    }
}

/// The groups of the pane of `ps` that opens at `o`; none if there is no such pane.
pub open spec fn before_content(ps: Seq<Pane>, o: int) -> Seq<GroupView> {
    if has_open_at(ps, o) {
        ps[choose|j: int| 0 <= j < ps.len() && (#[trigger] ps[j]).open_at == o]@
    } else {
        Seq::empty()
    }
}

/// The groups of a pane after a row arrived: folded in when the pane holds the rowtime.
pub open spec fn dispatched(gs: Seq<GroupView>, p: Pane, rowtime: int, key: SqlValue, value: SqlValue) -> Seq<GroupView> {
    if p.open_at <= rowtime < p.close_at {
        fold_row(gs, key, contribution(value))
    } else {
        gs
    }
}

proof fn lemma_before_content(ps: Seq<Pane>, j: int)
    requires
        0 <= j < ps.len(),
        forall|a: int, b: int| 0 <= a < b < ps.len() ==> (#[trigger] ps[a]).open_at < (#[trigger] ps[b]).open_at,
    ensures
        before_content(ps, ps[j].open_at as int) == ps[j]@,
{
    assert(has_open_at(ps, ps[j].open_at as int));
    let t = choose|t: int| 0 <= t < ps.len() && (#[trigger] ps[t]).open_at == ps[j].open_at;
    if t < j {
        assert(ps[t].open_at < ps[j].open_at);
    } else if t > j {
        assert(ps[j].open_at < ps[t].open_at);
    }
}

proof fn lemma_extend_open_ats(ps: Seq<Pane>, old_ps: Seq<Pane>, s: Seq<int>, k: int, idx: int)
    requires
        0 <= k < s.len(),
        0 <= idx < ps.len(),
        ps[idx].open_at == s[k],
        forall|o: int| #![trigger has_open_at(ps, o)] #![trigger has_open_at(old_ps, o)] #![trigger s.subrange(0, k).contains(o)] has_open_at(ps, o) <==> (has_open_at(old_ps, o) || s.subrange(0, k).contains(o)),
    ensures
        forall|o: int| #![trigger has_open_at(ps, o)] #![trigger has_open_at(old_ps, o)] #![trigger s.subrange(0, k + 1).contains(o)] has_open_at(ps, o) <==> (has_open_at(old_ps, o) || s.subrange(0, k + 1).contains(o)),
{
    assert forall|x: int| #![trigger has_open_at(ps, x)] #![trigger has_open_at(old_ps, x)] #![trigger s.subrange(0, k + 1).contains(x)] has_open_at(ps, x) <==> (has_open_at(old_ps, x) || s.subrange(0, k + 1).contains(x)) by {
        lemma_subrange_grow(s, k, x);
        if x == s[k] {
            assert(ps[idx].open_at == x);
        }
    }
}

proof fn lemma_all_open_ats(ps: Seq<Pane>, old_ps: Seq<Pane>, s: Seq<int>, k: int)
    requires
        k == s.len(),
        forall|o: int| #![trigger has_open_at(ps, o)] #![trigger has_open_at(old_ps, o)] #![trigger s.subrange(0, k).contains(o)] has_open_at(ps, o) <==> (has_open_at(old_ps, o) || s.subrange(0, k).contains(o)),
    ensures
        forall|o: int| #![trigger has_open_at(ps, o)] #![trigger has_open_at(old_ps, o)] #![trigger s.contains(o)] has_open_at(ps, o) <==> (has_open_at(old_ps, o) || s.contains(o)),
{
    assert(s.subrange(0, k) =~= s);
}

proof fn lemma_insert_open_at(before: Seq<Pane>, idx: int, pane: Pane)
    requires
        0 <= idx <= before.len(),
    ensures
        forall|x: int| has_open_at(before.insert(idx, pane), x) <==> (has_open_at(before, x) || x == pane.open_at),
{
    let after = before.insert(idx, pane);
    assert forall|x: int| has_open_at(after, x) <==> (has_open_at(before, x) || x == pane.open_at) by {
        if has_open_at(after, x) {
            let t = choose|t: int| 0 <= t < after.len() && (#[trigger] after[t]).open_at == x;
            if t < idx {
                assert(before[t].open_at == x);
            } else if t > idx {
                assert(before[t - 1].open_at == x);
            }
        }
        if has_open_at(before, x) {
            let t = choose|t: int| 0 <= t < before.len() && (#[trigger] before[t]).open_at == x;
            if t < idx {
                assert(after[t].open_at == x);
            } else {
                assert(after[t + 1].open_at == x);
            }
        }
        if x == pane.open_at {
            assert(after[idx].open_at == x);
        }
    }
}

proof fn lemma_grow_open_ats(before: Seq<Pane>, after: Seq<Pane>, old_ps: Seq<Pane>, s: Seq<int>, k: int)
    requires
        0 <= k < s.len(),
        forall|o: int| #![trigger has_open_at(before, o)] #![trigger has_open_at(old_ps, o)] #![trigger s.subrange(0, k).contains(o)] has_open_at(before, o) <==> (has_open_at(old_ps, o) || s.subrange(0, k).contains(o)),
        forall|x: int| has_open_at(after, x) <==> (has_open_at(before, x) || x == s[k]),
    ensures
        forall|o: int| #![trigger has_open_at(after, o)] #![trigger has_open_at(old_ps, o)] #![trigger s.subrange(0, k + 1).contains(o)] has_open_at(after, o) <==> (has_open_at(old_ps, o) || s.subrange(0, k + 1).contains(o)),
{
    assert forall|x: int| #![trigger has_open_at(after, x)] #![trigger has_open_at(old_ps, x)] #![trigger s.subrange(0, k + 1).contains(x)] has_open_at(after, x) <==> (has_open_at(old_ps, x) || s.subrange(0, k + 1).contains(x)) by {
        lemma_subrange_grow(s, k, x);
    }
}

proof fn lemma_subrange_grow(s: Seq<int>, k: int, x: int)
    requires
        0 <= k < s.len(),
    ensures
        s.subrange(0, k + 1).contains(x) <==> (s.subrange(0, k).contains(x) || x == s[k]),
{
    let a = s.subrange(0, k);
    let b = s.subrange(0, k + 1);
    if b.contains(x) {
        let m = choose|m: int| 0 <= m < b.len() && b[m] == x;
        if m < k {
            assert(a[m] == x);
        }
    }
    if a.contains(x) {
        let m = choose|m: int| 0 <= m < a.len() && a[m] == x;
        assert(b[m] == x);
    }
    if x == s[k] {
        assert(b[k] == x);
    }
}

} // verus!
