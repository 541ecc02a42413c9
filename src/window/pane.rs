//! A pane: one window instance `[open_at, close_at)` with its accumulators.
use vstd::prelude::*;
use crate::error::SpringError;
use crate::value::{fits_i64, NnSqlValue, SqlValue};

verus! {

/// Aggregate functions of a windowed pump.
#[derive(Clone, Copy, Debug, PartialEq, Eq, Structural)]
pub enum AggregateFunction {
    Avg,
    Sum,
    Count,
    Min,
    Max,
}

pub open spec fn sum_of(s: Seq<int>) -> int
    decreases s.len(),
{
    if s.len() == 0 {
        0
    } else {
        sum_of(s.drop_last()) + s.last()
    }
}

pub open spec fn min_of(s: Seq<int>) -> int
    decreases s.len(),
{
    if s.len() <= 1 {
        if s.len() == 1 { s[0] } else { 0 }
    } else if s.last() < min_of(s.drop_last()) {
        s.last()
    } else {
        min_of(s.drop_last())
    }
}

pub open spec fn max_of(s: Seq<int>) -> int
    decreases s.len(),
{
    if s.len() <= 1 {
        if s.len() == 1 { s[0] } else { 0 }
    } else if s.last() > max_of(s.drop_last()) {
        s.last()
    } else {
        max_of(s.drop_last())
    }
}

/// Integer division rounding toward zero.
pub open spec fn trunc_div(a: int, b: int) -> int {
    if a >= 0 { a / b } else { -((-a) / b) }
}

/// The result of an aggregate over the non-NULL values of a group:
/// `None` (NULL) for a group without values.
pub open spec fn aggregate_of(f: AggregateFunction, vals: Seq<int>) -> Option<int> {
    if vals.len() == 0 {
        None
    } else {
        match f {
            AggregateFunction::Avg => Some(trunc_div(sum_of(vals), vals.len() as int)),
            AggregateFunction::Sum => Some(sum_of(vals)),
            AggregateFunction::Count => Some(vals.len() as int),
            AggregateFunction::Min => Some(min_of(vals)),
            AggregateFunction::Max => Some(max_of(vals)),
        }
    }
}

proof fn lemma_sum_bound(s: Seq<int>)
    requires
        forall|k: int| 0 <= k < s.len() ==> fits_i64(#[trigger] s[k]),
    ensures
        -(s.len() * 0x8000_0000_0000_0000) <= sum_of(s) <= s.len() * 0x7fff_ffff_ffff_ffff,
    decreases s.len(),
{
    if s.len() > 0 {
        lemma_sum_bound(s.drop_last());
        assert(s.last() == s[s.len() - 1]);
        assert((s.len() - 1) * 0x8000_0000_0000_0000 + 0x8000_0000_0000_0000 == s.len()
            * 0x8000_0000_0000_0000) by (nonlinear_arith);
        assert((s.len() - 1) * 0x7fff_ffff_ffff_ffff + 0x7fff_ffff_ffff_ffff == s.len()
            * 0x7fff_ffff_ffff_ffff) by (nonlinear_arith);
    }
}

proof fn lemma_min_max_bounds(s: Seq<int>)
    requires
        s.len() > 0,
    ensures
        exists|k: int| 0 <= k < s.len() && s[k] == min_of(s),
        exists|k: int| 0 <= k < s.len() && s[k] == max_of(s),
        min_of(s) <= max_of(s),
    decreases s.len(),
{
    if s.len() > 1 {
        lemma_min_max_bounds(s.drop_last());
        let a = choose|k: int| 0 <= k < s.len() - 1 && s.drop_last()[k] == min_of(s.drop_last());
        let b = choose|k: int| 0 <= k < s.len() - 1 && s.drop_last()[k] == max_of(s.drop_last());
        assert(s[a] == s.drop_last()[a]);
        assert(s[b] == s.drop_last()[b]);
        assert(s[s.len() - 1] == s.last());
    } else {
        assert(s[0] == min_of(s));
    }
}

/// The accumulator of one group key within a pane.
pub struct GroupAccumulator {
    pub key: SqlValue,
    pub count: u64,
    pub sum: i128,
    pub min: i64,
    pub max: i64,
    /// The non-NULL values folded in so far, in arrival order.
    pub values: Ghost<Seq<int>>,
}

impl GroupAccumulator {
    pub open spec fn wf(&self) -> bool {
        &&& self.count as int == self.values@.len()
        &&& self.sum as int == sum_of(self.values@)
        &&& forall|k: int| 0 <= k < self.values@.len() ==> fits_i64(#[trigger] self.values@[k])
        &&& self.values@.len() > 0 ==> self.min as int == min_of(self.values@)
            && self.max as int == max_of(self.values@)
    }

    pub fn new(key: SqlValue) -> (r: GroupAccumulator)
        ensures
            r.wf(),
            r.key == key,
            r.values@ == Seq::<int>::empty(),
    {
        GroupAccumulator { key, count: 0, sum: 0, min: 0, max: 0, values: Ghost(Seq::empty()) }
    }

    /// Folds in one value. Fails with `Unavailable` only when the group's
    /// counter is exhausted.
    pub fn add(&mut self, v: i64) -> (r: Result<(), SpringError>)
        requires
            old(self).wf(),
        ensures
            final(self).wf(),
            final(self).key == old(self).key,
            r is Ok <==> old(self).count < u64::MAX,
            r is Ok ==> final(self).values@ == old(self).values@.push(v as int),
            r is Err ==> final(self).values@ == old(self).values@ && r == Err::<(), SpringError>(SpringError::Unavailable),
    {
        if self.count == u64::MAX {
            return Err(SpringError::Unavailable);
        }
        let ghost vals = self.values@;
        let ghost nv = vals.push(v as int);
        proof {
            lemma_sum_bound(vals);
            assert(vals.len() * 0x8000_0000_0000_0000 < 0x7fff_ffff_ffff_ffff_8000_0000_0000_0000)
                by (nonlinear_arith)
                requires vals.len() < 0xffff_ffff_ffff_ffff;
            assert(nv.drop_last() =~= vals);
        }
        if self.count == 0 {
            self.min = v;
            self.max = v;
        } else {
            if v < self.min {
                self.min = v;
            }
            if v > self.max {
                self.max = v;
            }
        }
        self.sum = self.sum + v as i128;
        self.count = self.count + 1;
        self.values = Ghost(nv);
        proof {
            assert forall|k: int| 0 <= k < nv.len() implies fits_i64(#[trigger] nv[k]) by {
                if k < vals.len() {
                    assert(nv[k] == vals[k]);
                }
            }
        }
        Ok(())
    }

    /// The aggregate's value for this group: NULL when no value arrived;
    /// `Sql` when a sum does not fit a BIGINT.
    pub fn finalize(&self, f: AggregateFunction) -> (r: Result<SqlValue, SpringError>)
        requires
            self.wf(),
        ensures
            aggregate_of(f, self.values@) is None ==> r == Ok::<SqlValue, SpringError>(SqlValue::Null),
            aggregate_of(f, self.values@) matches Some(x) ==> (if fits_i64(x) {
                r == Ok::<SqlValue, SpringError>(SqlValue::NotNull(NnSqlValue::BigInt(x as i64)))
            } else {
                r == Err::<SqlValue, SpringError>(SpringError::Sql)
            }),
    {
        if self.count == 0 {
            return Ok(SqlValue::Null);
        }
        proof {
            lemma_sum_bound(self.values@);
            lemma_min_max_bounds(self.values@);
        }
        match f {
            AggregateFunction::Count => {
                if self.count <= i64::MAX as u64 {
                    Ok(SqlValue::NotNull(NnSqlValue::BigInt(self.count as i64)))
                } else {
                    Err(SpringError::Sql)
                }
            },
            AggregateFunction::Sum => {
                if i64::MIN as i128 <= self.sum && self.sum <= i64::MAX as i128 {
                    Ok(SqlValue::NotNull(NnSqlValue::BigInt(self.sum as i64)))
                } else {
                    Err(SpringError::Sql)
                }
            },
            AggregateFunction::Min => Ok(SqlValue::NotNull(NnSqlValue::BigInt(self.min))),
            AggregateFunction::Max => Ok(SqlValue::NotNull(NnSqlValue::BigInt(self.max))),
            AggregateFunction::Avg => {
                let c = self.count as i128;
                let ghost s = self.sum as int;
                let ghost n = self.count as int;
                proof {
                    assert(-(n * 0x8000_0000_0000_0000) <= s <= n * 0x7fff_ffff_ffff_ffff);
                }
                let q: i128 = if self.sum >= 0 {
                    self.sum / c
                } else {
                    -((-self.sum) / c)
                };
                proof {
                    lemma_avg_fits(s, n);
                }
                Ok(SqlValue::NotNull(NnSqlValue::BigInt(q as i64)))
            },
        }
    }
}

proof fn lemma_avg_fits(s: int, n: int)
    requires
        n > 0,
        -(n * 0x8000_0000_0000_0000) <= s <= n * 0x7fff_ffff_ffff_ffff,
    ensures
        fits_i64(trunc_div(s, n)),
{
    if s >= 0 {
        assert(s / n <= 0x7fff_ffff_ffff_ffff) by (nonlinear_arith)
            requires s <= n * 0x7fff_ffff_ffff_ffff, n > 0, s >= 0;
        assert(s / n >= 0) by (nonlinear_arith) requires s >= 0, n > 0;
    } else {
        assert((-s) / n <= 0x8000_0000_0000_0000) by (nonlinear_arith)
            requires -s <= n * 0x8000_0000_0000_0000, n > 0, -s > 0;
        assert((-s) / n >= 0) by (nonlinear_arith) requires -s > 0, n > 0;
    }
}

/// What a group holds: its key and the values folded in.
pub type GroupView = (SqlValue, Seq<int>);

pub open spec fn groups_view(groups: Seq<GroupAccumulator>) -> Seq<GroupView> {
    groups.map_values(|g: GroupAccumulator| (g.key, g.values@))
}

/// No two groups have the same key.
pub open spec fn keys_distinct(gs: Seq<GroupView>) -> bool {
    forall|i: int, j: int| 0 <= i < gs.len() && 0 <= j < gs.len() && i != j
        ==> !(#[trigger] gs[i]).0.same_spec(&(#[trigger] gs[j]).0)
}

/// The integer that a value contributes to an aggregate: nothing for NULL.
pub open spec fn contribution(v: SqlValue) -> Option<int> {
    match v {
        SqlValue::Null => None,
        SqlValue::NotNull(nn) => nn.as_int_spec(),
    }
}

/// A value can be aggregated: NULL or an integer.
pub open spec fn aggregatable(v: SqlValue) -> bool {
    v is Null || v->NotNull_0.as_int_spec() is Some
}

/// The groups after a row with group key `key` and aggregated value `v`
/// arrived: the row joins the group with the same key, or starts one.
pub open spec fn fold_row(gs: Seq<GroupView>, key: SqlValue, v: Option<int>) -> Seq<GroupView> {
    if exists|i: int| 0 <= i < gs.len() && (#[trigger] gs[i]).0.same_spec(&key) {
        let i = choose|i: int| 0 <= i < gs.len() && (#[trigger] gs[i]).0.same_spec(&key);
        gs.update(i, (gs[i].0, match v { Some(x) => gs[i].1.push(x), None => gs[i].1 }))
    } else {
        gs.push((key, match v { Some(x) => seq![x], None => Seq::empty() }))
    }
}

/// The group of `key` already holds as many values as its counter can count.
pub open spec fn group_full(gs: Seq<GroupView>, key: SqlValue) -> bool {
    exists|i: int| 0 <= i < gs.len() && (#[trigger] gs[i]).0.same_spec(&key) && gs[i].1.len() >= u64::MAX
}

/// The result rows of a closed pane: each group's key and its aggregate.
pub open spec fn pane_result(f: AggregateFunction, gs: Seq<GroupView>) -> Seq<(SqlValue, SqlValue)> {
    gs.map_values(|g: GroupView| (g.0, result_value(aggregate_of(f, g.1))))
}

/// One window instance `[open_at, close_at)` and its accumulators.
pub struct Pane {
    pub open_at: i64,
    pub close_at: i64,
    pub groups: Vec<GroupAccumulator>,
}

impl Pane {
    pub open spec fn wf(&self) -> bool {
        &&& forall|i: int| 0 <= i < self.groups@.len() ==> (#[trigger] self.groups@[i]).wf()
        &&& keys_distinct(self.view())
    }

    pub open spec fn view(&self) -> Seq<GroupView> {
        groups_view(self.groups@)
    }

    pub fn new(open_at: i64, close_at: i64) -> (r: Pane)
        ensures
            r.wf(),
            r.open_at == open_at,
            r.close_at == close_at,
            r@ == Seq::<GroupView>::empty(),
    {
        let r = Pane { open_at, close_at, groups: Vec::new() };
        assert(r@ =~= Seq::<GroupView>::empty());
        r
    }

    pub fn is_acceptable(&self, rowtime: i64) -> (r: bool)
        ensures
            r == (self.open_at <= rowtime < self.close_at),
    {
        self.open_at <= rowtime && rowtime < self.close_at
    }

    pub fn should_close(&self, watermark: i64) -> (r: bool)
        ensures
            r == (self.close_at <= watermark),
    {
        self.close_at <= watermark
    }

    /// Folds one row into the pane.
    pub fn dispatch(&mut self, key: &SqlValue, value: &SqlValue) -> (r: Result<(), SpringError>)
        requires
            old(self).wf(),
            aggregatable(*value),
        ensures
            final(self).wf(),
            final(self).open_at == old(self).open_at,
            final(self).close_at == old(self).close_at,
            r is Ok ==> final(self)@ == fold_row(old(self)@, *key, contribution(*value)),
            r is Err <==> contribution(*value) is Some && group_full(old(self)@, *key),
            r is Err ==> r == Err::<(), SpringError>(SpringError::Unavailable),
    {
        let ghost gs = self@;
        let n = self.groups.len();
        let mut i: usize = 0;
        while i < n && !self.groups[i].key.same_as(key)
            invariant
                0 <= i <= n,
                n == self.groups@.len(),
                gs == self@,
                forall|j: int| 0 <= j < i ==> !(#[trigger] gs[j]).0.same_spec(key),
            decreases n - i,
        {
            i = i + 1;
        }
        let folded_in: Option<i64> = match value {
            SqlValue::Null => None,
            SqlValue::NotNull(nn) => nn.as_i64(),
        };
        if i == n {
            proof {
                lemma_same_spec_symmetric(*key);
                assert(!group_full(gs, *key));
            }
            let mut g = GroupAccumulator::new(key.copy_value());
            match folded_in {
                Some(x) => {
                    let _ = g.add(x);
                    assert(g.values@ =~= seq![x as int]);
                },
                None => {},
            }
            self.groups.push(g);
            proof {
                assert(!(exists|j: int| 0 <= j < gs.len() && (#[trigger] gs[j]).0.same_spec(key)));
                assert(self@ =~= fold_row(gs, *key, contribution(*value)));
                lemma_same_spec_symmetric(*key);
            }
            Ok(())
        } else {
            proof {
                assert(gs[i as int].0.same_spec(key));
                lemma_unique_group(gs, *key, i as int);
                lemma_same_spec_symmetric(*key);
                assert(self.groups@[i as int].wf());
                if group_full(gs, *key) {
                    let j = choose|j: int| 0 <= j < gs.len() && (#[trigger] gs[j]).0.same_spec(key) && gs[j].1.len() >= u64::MAX;
                    if j != i {
                        assert(gs[j].0.same_spec(&gs[i as int].0));
                    }
                }
            }
            let res = match folded_in {
                Some(x) => self.groups[i].add(x),
                None => Ok(()),
            };
            proof {
                assert(self@ =~= if res is Ok { fold_row(gs, *key, contribution(*value)) } else { gs });
            }
            res
        }
    }

    /// The aggregate of each group, in the order the groups were opened.
    pub fn close(&self, f: AggregateFunction) -> (r: Result<Vec<(SqlValue, SqlValue)>, SpringError>)
        requires
            self.wf(),
        ensures
            r matches Ok(out) ==> out@ == pane_result(f, self@),
            r matches Err(e) ==> e == SpringError::Sql,
            r is Err <==> exists|i: int| 0 <= i < self@.len()
                && (aggregate_of(f, (#[trigger] self@[i]).1) matches Some(x) && !fits_i64(x)),
    {
        let mut out: Vec<(SqlValue, SqlValue)> = Vec::new();
        let mut i: usize = 0;
        while i < self.groups.len()
            invariant
                self.wf(),
                0 <= i <= self.groups@.len(),
                out@.len() == i,
                forall|j: int| 0 <= j < i ==> (#[trigger] out@[j]).0 == self@[j].0
                    && out@[j].1 == result_value(aggregate_of(f, self@[j].1)),
                forall|j: int| 0 <= j < i ==> !(aggregate_of(f, (#[trigger] self@[j]).1) matches Some(x) && !fits_i64(x)),
            decreases self.groups@.len() - i,
        {
            let g = &self.groups[i];
            assert(g.wf());
            match g.finalize(f) {
                Ok(v) => {
                    out.push((g.key.copy_value(), v));
                },
                Err(e) => {
                    assert(self@[i as int].1 == g.values@);
                    return Err(e);
                },
            }
            i = i + 1;
        }
        assert(out@ =~= pane_result(f, self@));
        Ok(out)
    }
}

/// The value of an aggregate result: NULL for none.
pub open spec fn result_value(x: Option<int>) -> SqlValue {
    match x {
        None => SqlValue::Null,
        Some(v) => SqlValue::NotNull(NnSqlValue::BigInt(v as i64)),
    }
}

proof fn lemma_same_spec_symmetric(k: SqlValue)
    ensures
        forall|a: SqlValue, b: SqlValue| a.same_spec(&b) ==> b.same_spec(&a),
        forall|a: SqlValue, b: SqlValue, c: SqlValue| a.same_spec(&b) && b.same_spec(&c) ==> a.same_spec(&c),
        k.same_spec(&k),
{
}

proof fn lemma_unique_group(gs: Seq<GroupView>, key: SqlValue, i: int)
    requires
        keys_distinct(gs),
        0 <= i < gs.len(),
        gs[i].0.same_spec(&key),
    ensures
        (choose|j: int| 0 <= j < gs.len() && (#[trigger] gs[j]).0.same_spec(&key)) == i,
{
    lemma_same_spec_symmetric(key);
    let j = choose|j: int| 0 <= j < gs.len() && (#[trigger] gs[j]).0.same_spec(&key);
    if j != i {
        assert(!gs[i].0.same_spec(&gs[j].0));
    }
}

} // verus!
