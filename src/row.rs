//! Stream shapes, schema-bound rows, and schemaless rows.
use vstd::prelude::*;
use crate::error::SpringError;
use crate::time::{text_timestamp, Timestamp};
use crate::value::{NnSqlValue, SqlType, SqlValue};

verus! {

/// A column's name, type and nullability.
#[derive(Clone, Debug, PartialEq, Eq)]
pub struct ColumnDataType {
    pub column: String,
    pub sql_type: SqlType,
    pub nullable: bool,
}

impl ColumnDataType {
    pub fn new(column: String, sql_type: SqlType, nullable: bool) -> (r: ColumnDataType)
        ensures
            r.column == column,
            r.sql_type == sql_type,
            r.nullable == nullable,
    {
        ColumnDataType { column, sql_type, nullable }
    }
}

/// A column of a stream.
#[derive(Clone, Debug, PartialEq, Eq)]
pub struct ColumnDefinition {
    pub column_data_type: ColumnDataType,
}

impl ColumnDefinition {
    pub fn new(column_data_type: ColumnDataType) -> (r: ColumnDefinition)
        ensures
            r.column_data_type == column_data_type,
    {
        ColumnDefinition { column_data_type }
    }
}

/// The ordered columns of a stream and its optional ROWTIME column.
#[derive(Clone, Debug, PartialEq, Eq)]
pub struct StreamShape {
    pub cols: Vec<ColumnDefinition>,
    pub rowtime: Option<String>,
}

/// Column names of a shape.
pub open spec fn shape_names(cols: Seq<ColumnDefinition>) -> Seq<Seq<char>> {
    cols.map_values(|c: ColumnDefinition| c.column_data_type.column@)
}

/// Whether the shape has a column named `name`.
pub open spec fn has_column(cols: Seq<ColumnDefinition>, name: Seq<char>) -> bool {
    exists|i: int| 0 <= i < cols.len() && (#[trigger] cols[i]).column_data_type.column@ == name
}

/// A ROWTIME column must be a TIMESTAMP NOT NULL column of the shape.
pub open spec fn rowtime_ok(cols: Seq<ColumnDefinition>, rowtime: Option<String>) -> bool {
    match rowtime {
        None => true,
        Some(name) => exists|i: int| 0 <= i < cols.len()
            && (#[trigger] cols[i]).column_data_type.column@ == name@
            && cols[i].column_data_type.sql_type == SqlType::Timestamp
            && !cols[i].column_data_type.nullable,
    }
}

impl StreamShape {
    /// A shape; fails with `Sql` when the ROWTIME column is not a
    /// TIMESTAMP NOT NULL column of it.
    pub fn new(cols: Vec<ColumnDefinition>, rowtime: Option<String>) -> (r: Result<StreamShape, SpringError>)
        ensures
            r is Ok <==> rowtime_ok(cols@, rowtime),
            r matches Ok(s) ==> s.cols == cols && s.rowtime == rowtime,
            r matches Err(e) ==> e == SpringError::Sql,
    {
        match &rowtime {
            None => Ok(StreamShape { cols, rowtime }),
            Some(name) => {
                let mut i: usize = 0;
                while i < cols.len()
                    invariant
                        0 <= i <= cols@.len(),
                        rowtime == Some(*name),
                        forall|j: int| 0 <= j < i ==> !((#[trigger] cols@[j]).column_data_type.column@ == name@
                            && cols@[j].column_data_type.sql_type == SqlType::Timestamp
                            && !cols@[j].column_data_type.nullable),
                    decreases cols@.len() - i,
                {
                    let c = &cols[i].column_data_type;
                    if c.column == *name && c.sql_type == SqlType::Timestamp && !c.nullable {
                        assert(cols@[i as int].column_data_type.column@ == name@);
                        return Ok(StreamShape { cols, rowtime });
                    }
                    i = i + 1;
                }
                Err(SpringError::Sql)
            },
        }
    }
}

/// Column values in the order of a stream shape.
#[derive(Clone, Debug, PartialEq, Eq)]
pub struct StreamColumns {
    pub shape: StreamShape,
    pub values: Vec<SqlValue>,
}

/// A mapping from column name to value, before binding to a schema.
#[derive(Clone, Debug, PartialEq, Eq)]
pub struct SchemalessRow {
    pub columns: Vec<(String, SqlValue)>,
}

/// A schemaless row as names and values.
pub open spec fn entries_view(es: Seq<(String, SqlValue)>) -> Seq<(Seq<char>, SqlValue)> {
    es.map_values(|e: (String, SqlValue)| (e.0@, e.1))
}

/// The value under the first entry named `name`.
pub open spec fn lookup(es: Seq<(Seq<char>, SqlValue)>, name: Seq<char>) -> Option<SqlValue>
    decreases es.len(),
{
    if es.len() == 0 {
        None
    } else if es[0].0 == name {
        Some(es[0].1)
    } else {
        lookup(es.drop_first(), name)
    }
}

/// A value coerced to a column's type: same tag as is, integers when they
/// fit, texts into timestamps when they parse; NULL only where nullable.
pub open spec fn coerce(v: SqlValue, ty: SqlType, nullable: bool) -> Option<SqlValue> {
    match v {
        SqlValue::Null => if nullable { Some(SqlValue::Null) } else { None },
        SqlValue::NotNull(nn) => match coerce_nn(nn, ty) {
            Some(x) => Some(SqlValue::NotNull(x)),
            None => None,
        },
    }
}

pub open spec fn coerce_nn(nn: NnSqlValue, ty: SqlType) -> Option<NnSqlValue> {
    if nn.sql_type_spec() == ty {
        Some(nn)
    } else {
        match (nn.as_int_spec(), ty) {
            (Some(i), SqlType::SmallInt) => if i16::MIN <= i <= i16::MAX { Some(NnSqlValue::SmallInt(i as i16)) } else { None },
            (Some(i), SqlType::Integer) => if i32::MIN <= i <= i32::MAX { Some(NnSqlValue::Integer(i as i32)) } else { None },
            (Some(i), SqlType::BigInt) => Some(NnSqlValue::BigInt(i as i64)),
            _ => match (nn, ty) {
                (NnSqlValue::Text(s), SqlType::Timestamp) => match text_timestamp(s@) {
                    Some(n) => Some(NnSqlValue::Timestamp(Timestamp { nanos: n as i64 })),
                    None => None,
                },
                _ => None,
            },
        }
    }
}

/// The values of a schemaless row bound to a shape's columns, in the shape's
/// order; `None` when a name is unknown to the shape, a NOT NULL column is
/// missing, or a value does not coerce.
pub open spec fn bind_spec(es: Seq<(Seq<char>, SqlValue)>, cols: Seq<ColumnDefinition>) -> Option<Seq<SqlValue>> {
    if (forall|k: int| 0 <= k < es.len() ==> #[trigger] has_column(cols, es[k].0))
        && (forall|i: int| 0 <= i < cols.len() ==> #[trigger] bind_column(es, cols[i]) is Some) {
        Some(Seq::new(cols.len(), |i: int| bind_column(es, cols[i]).unwrap()))
    } else {
        None
    }
}

/// One column's value from a schemaless row.
pub open spec fn bind_column(es: Seq<(Seq<char>, SqlValue)>, c: ColumnDefinition) -> Option<SqlValue> {
    let t = c.column_data_type;
    match lookup(es, t.column@) {
        Some(v) => coerce(v, t.sql_type, t.nullable),
        None => if t.nullable { Some(SqlValue::Null) } else { None },
    }
}

/// A row's columns as a schemaless row: each value under its column's name.
pub open spec fn unbind_spec(cols: Seq<ColumnDefinition>, values: Seq<SqlValue>) -> Seq<(Seq<char>, SqlValue)> {
    Seq::new(cols.len(), |i: int| (cols[i].column_data_type.column@, values[i]))
}

/// The value under the first entry named `name`.
pub fn lookup_value(es: &Vec<(String, SqlValue)>, name: &String) -> (r: Option<SqlValue>)
    ensures
        r == lookup(entries_view(es@), name@),
{
    let ghost ev = entries_view(es@);
    assert(ev.subrange(0, ev.len() as int) =~= ev);
    let mut i: usize = 0;
    while i < es.len()
        invariant
            0 <= i <= es@.len(),
            ev == entries_view(es@),
            lookup(ev, name@) == lookup(ev.subrange(i as int, ev.len() as int), name@),
        decreases es@.len() - i,
    {
        let ghost rest = ev.subrange(i as int, ev.len() as int);
        assert(rest[0] == ev[i as int]);
        if es[i].0 == *name {
            return Some(es[i].1.copy_value());
        }
        assert(rest.drop_first() =~= ev.subrange(i + 1, ev.len() as int));
        i = i + 1;
    }
    None
}

/// Whether the shape has a column named `name`.
pub fn has_column_named(cols: &Vec<ColumnDefinition>, name: &String) -> (r: bool)
    ensures
        r == has_column(cols@, name@),
{
    let mut i: usize = 0;
    while i < cols.len()
        invariant
            0 <= i <= cols@.len(),
            forall|j: int| 0 <= j < i ==> (#[trigger] cols@[j]).column_data_type.column@ != name@,
        decreases cols@.len() - i,
    {
        if cols[i].column_data_type.column == *name {
            assert(cols@[i as int].column_data_type.column@ == name@);
            return true;
        }
        i = i + 1;
    }
    false
}

/// Coerces a value to a column's type.
pub fn coerce_value(v: &SqlValue, ty: SqlType, nullable: bool) -> (r: Option<SqlValue>)
    ensures
        r == coerce(*v, ty, nullable),
{
    match v {
        SqlValue::Null => if nullable { Some(SqlValue::Null) } else { None },
        SqlValue::NotNull(nn) => {
            if nn.sql_type() == ty {
                return Some(SqlValue::NotNull(nn.copy_value()));
            }
            match (nn.as_i64(), ty) {
                (Some(i), SqlType::SmallInt) => if -32768 <= i && i <= 32767 {
                    Some(SqlValue::NotNull(NnSqlValue::SmallInt(i as i16)))
                } else {
                    None
                },
                (Some(i), SqlType::Integer) => if -2147483648 <= i && i <= 2147483647 {
                    Some(SqlValue::NotNull(NnSqlValue::Integer(i as i32)))
                } else {
                    None
                },
                (Some(i), SqlType::BigInt) => Some(SqlValue::NotNull(NnSqlValue::BigInt(i))),
                (Some(_), _) => None,
                (None, _) => match (nn, ty) {
                    (NnSqlValue::Text(s), SqlType::Timestamp) => match Timestamp::parse(s.as_str()) {
                        Some(t) => Some(SqlValue::NotNull(NnSqlValue::Timestamp(t))),
                        None => None,
                    },
                    _ => None,
                },
            }
        },
    }
}

impl StreamColumns {
    pub open spec fn wf(&self) -> bool {
        self.values@.len() == self.shape.cols@.len()
    }

    /// Binds a schemaless row to a shape. Fails with `InvalidFormat` when a
    /// name is not a column of the shape, a NOT NULL column is missing, or a
    /// value does not coerce to its column's type.
    pub fn from_schemaless(row: &SchemalessRow, shape: StreamShape) -> (r: Result<StreamColumns, SpringError>)
        ensures
            r is Ok <==> bind_spec(entries_view(row.columns@), shape.cols@) is Some,
            r matches Ok(c) ==> c.wf() && c.shape == shape
                && c.values@ == bind_spec(entries_view(row.columns@), shape.cols@).unwrap(),
            r matches Err(e) ==> e == SpringError::InvalidFormat,
    {
        let ghost es = entries_view(row.columns@);
        let ghost cols = shape.cols@;
        let mut k: usize = 0;
        while k < row.columns.len()
            invariant
                0 <= k <= row.columns@.len(),
                es == entries_view(row.columns@),
                cols == shape.cols@,
                forall|j: int| 0 <= j < k ==> #[trigger] has_column(cols, es[j].0),
            decreases row.columns@.len() - k,
        {
            if !has_column_named(&shape.cols, &row.columns[k].0) {
                assert(!has_column(cols, es[k as int].0));
                return Err(SpringError::InvalidFormat);
            }
            k = k + 1;
        }
        let mut values: Vec<SqlValue> = Vec::new();
        let mut i: usize = 0;
        while i < shape.cols.len()
            invariant
                0 <= i <= shape.cols@.len(),
                es == entries_view(row.columns@),
                cols == shape.cols@,
                forall|j: int| 0 <= j < es.len() ==> #[trigger] has_column(cols, es[j].0),
                values@.len() == i,
                forall|j: int| 0 <= j < i ==> #[trigger] bind_column(es, cols[j]) == Some(values@[j]),
            decreases shape.cols@.len() - i,
        {
            let t = &shape.cols[i].column_data_type;
            let v = match lookup_value(&row.columns, &t.column) {
                Some(v) => coerce_value(&v, t.sql_type, t.nullable),
                None => if t.nullable { Some(SqlValue::Null) } else { None },
            };
            match v {
                Some(v) => values.push(v),
                None => {
                    assert(bind_column(es, cols[i as int]) is None);
                    return Err(SpringError::InvalidFormat);
                },
            }
            i = i + 1;
        }
        proof {
            assert(bind_spec(es, cols) is Some);
            assert(values@ =~= bind_spec(es, cols).unwrap());
        }
        Ok(StreamColumns { shape, values })
    }

    /// The columns as a schemaless row: each value under its column's name.
    pub fn to_schemaless(&self) -> (r: SchemalessRow)
        requires
            self.wf(),
        ensures
            entries_view(r.columns@) == unbind_spec(self.shape.cols@, self.values@),
    {
        let mut columns: Vec<(String, SqlValue)> = Vec::new();
        let mut i: usize = 0;
        while i < self.values.len()
            invariant
                self.wf(),
                0 <= i <= self.values@.len(),
                columns@.len() == i,
                forall|j: int| 0 <= j < i ==> (#[trigger] columns@[j]).0@ == self.shape.cols@[j].column_data_type.column@
                    && columns@[j].1 == self.values@[j],
            decreases self.values@.len() - i,
        {
            columns.push((self.shape.cols[i].column_data_type.column.clone(), self.values[i].copy_value()));
            i = i + 1;
        }
        let r = SchemalessRow { columns };
        assert(entries_view(r.columns@) =~= unbind_spec(self.shape.cols@, self.values@));
        r
    }
}

/// A schemaless row fits a shape exactly: the same names in the same order,
/// no name twice, and each value NULL (where nullable) or of its column's type.
pub open spec fn compatible(es: Seq<(Seq<char>, SqlValue)>, cols: Seq<ColumnDefinition>) -> bool {
    &&& es.len() == cols.len()
    &&& forall|i: int| 0 <= i < es.len() ==> (#[trigger] es[i]).0 == cols[i].column_data_type.column@
    &&& forall|i: int, j: int| 0 <= i < j < es.len() ==> (#[trigger] es[i]).0 != (#[trigger] es[j]).0
    &&& forall|i: int| 0 <= i < es.len() ==> match (#[trigger] es[i]).1 {
        SqlValue::Null => cols[i].column_data_type.nullable,
        SqlValue::NotNull(nn) => nn.sql_type_spec() == cols[i].column_data_type.sql_type,
    }
}

proof fn lemma_lookup_at(es: Seq<(Seq<char>, SqlValue)>, i: int)
    requires
        0 <= i < es.len(),
        forall|j: int| 0 <= j < i ==> (#[trigger] es[j]).0 != es[i].0,
    ensures
        lookup(es, es[i].0) == Some(es[i].1),
    decreases i,
{
    if i > 0 {
        let rest = es.drop_first();
        assert forall|j: int| 0 <= j < i - 1 implies (#[trigger] rest[j]).0 != rest[i - 1].0 by {
            assert(rest[j] == es[j + 1]);
        }
        lemma_lookup_at(rest, i - 1);
        assert(rest[i - 1] == es[i]);
        assert(es[0].0 != es[i].0);
    }
}

/// Binding a schemaless row that fits a shape exactly and turning the row
/// back into a schemaless row gives the same names and values again.
pub proof fn lemma_schemaless_round_trip(es: Seq<(Seq<char>, SqlValue)>, cols: Seq<ColumnDefinition>)
    requires
        compatible(es, cols),
    ensures
        bind_spec(es, cols) is Some,
        unbind_spec(cols, bind_spec(es, cols).unwrap()) == es,
{
    assert forall|i: int| 0 <= i < cols.len() implies #[trigger] bind_column(es, cols[i]) == Some(es[i].1) by {
        assert forall|j: int| 0 <= j < i implies (#[trigger] es[j]).0 != es[i].0 by {
            assert(es[j].0 != es[i].0);
        }
        lemma_lookup_at(es, i);
        assert(es[i].0 == cols[i].column_data_type.column@);
    }
    assert forall|k: int| 0 <= k < es.len() implies #[trigger] has_column(cols, es[k].0) by {
        assert(cols[k].column_data_type.column@ == es[k].0);
    }
    let vals = bind_spec(es, cols).unwrap();
    assert(unbind_spec(cols, vals) =~= es) by {
        assert forall|i: int| 0 <= i < es.len() implies unbind_spec(cols, vals)[i] == es[i] by {
            assert(bind_column(es, cols[i]) == Some(es[i].1));
        }
    }
}

/// A schema-bound row with the time it entered the engine.
#[derive(Clone, Debug, PartialEq, Eq)]
pub struct Row {
    pub columns: StreamColumns,
    pub arrival_rowtime: Timestamp,
}

impl Row {
    pub open spec fn view(&self) -> RowView {
        (self.columns.shape.cols@, self.columns.shape.rowtime, self.columns.values@, self.arrival_rowtime)
    }

    pub fn new(columns: StreamColumns, arrival_rowtime: Timestamp) -> (r: Row)
        ensures
            r.columns == columns,
            r.arrival_rowtime == arrival_rowtime,
    {
        Row { columns, arrival_rowtime }
    }

    /// The value of column `i`; `Unavailable` when out of range.
    pub fn get(&self, i: usize) -> (r: Result<SqlValue, SpringError>)
        requires
            self.columns.wf(),
        ensures
            i < self.columns.values@.len() ==> r == Ok::<SqlValue, SpringError>(self.columns.values@[i as int]),
            i >= self.columns.values@.len() ==> r == Err::<SqlValue, SpringError>(SpringError::Unavailable),
    {
        if i < self.columns.values.len() {
            Ok(self.columns.values[i].copy_value())
        } else {
            Err(SpringError::Unavailable)
        }
    }

    /// The value of the first column named `name`; `Unavailable` when there is none.
    pub fn get_by_name(&self, name: &String) -> (r: Result<SqlValue, SpringError>)
        ensures
            self.columns.wf() ==> (r is Ok <==> has_column(self.columns.shape.cols@, name@)),
            r is Err ==> forall|i: int| #[trigger] first_column(self.columns.shape.cols@, name@, i)
                ==> i >= self.columns.values@.len(),
            r matches Ok(v) ==> exists|i: int| 0 <= i < self.columns.values@.len() && i < self.columns.shape.cols@.len()
                && (#[trigger] self.columns.shape.cols@[i]).column_data_type.column@ == name@
                && v == self.columns.values@[i]
                && forall|j: int| 0 <= j < i ==> (#[trigger] self.columns.shape.cols@[j]).column_data_type.column@ != name@,
            r matches Err(e) ==> e == SpringError::Unavailable,
    {
        let cols = &self.columns.shape.cols;
        let mut i: usize = 0;
        while i < cols.len()
            invariant
                0 <= i <= cols@.len(),
                cols == &self.columns.shape.cols,
                forall|j: int| 0 <= j < i ==> (#[trigger] cols@[j]).column_data_type.column@ != name@,
            decreases cols@.len() - i,
        {
            if cols[i].column_data_type.column == *name {
                assert(cols@[i as int].column_data_type.column@ == name@);
                if i < self.columns.values.len() {
                    return Ok(self.columns.values[i].copy_value());
                }
                proof {
                    assert forall|i2: int| #[trigger] first_column(cols@, name@, i2) implies i2 >= self.columns.values@.len() by {
                        if i2 < i { assert(cols@[i2].column_data_type.column@ != name@); }
                        if i2 > i { assert(cols@[i as int].column_data_type.column@ != name@); }
                    }
                }
                return Err(SpringError::Unavailable);
            }
            i = i + 1;
        }
        proof {
            assert forall|i2: int| #[trigger] first_column(cols@, name@, i2) implies i2 >= self.columns.values@.len() by {
                assert(cols@[i2].column_data_type.column@ == name@);
            }
        }
        Err(SpringError::Unavailable)
    }

    /// The row's event time: its ROWTIME column when the shape declares one
    /// holding a timestamp, else the time it entered the engine.
    pub fn rowtime(&self) -> (r: Timestamp)
        ensures
            r == event_time(self@),
    {
        match &self.columns.shape.rowtime {
            None => self.arrival_rowtime,
            Some(name) => {
                let v = self.get_by_name(name);
                proof {
                    let cols = self.columns.shape.cols@;
                    if v is Ok {
                        let i = choose|i: int| 0 <= i < self.columns.values@.len() && i < self.columns.shape.cols@.len()
                            && (#[trigger] cols[i]).column_data_type.column@ == name@
                            && v->Ok_0 == self.columns.values@[i]
                            && forall|j: int| 0 <= j < i ==> (#[trigger] cols[j]).column_data_type.column@ != name@;
                        assert(first_column(cols, name@, i));
                        assert forall|i2: int| #[trigger] first_column(cols, name@, i2) implies i2 == i by {
                            if i2 < i { assert(cols[i2].column_data_type.column@ != name@); }
                            if i2 > i { assert(cols[i].column_data_type.column@ != name@); }
                        }
                    }
                }
                match v {
                    Ok(SqlValue::NotNull(NnSqlValue::Timestamp(t))) => t,
                    _ => self.arrival_rowtime,
                }
            },
        }
    }
}

/// Column `i` is the first one named `name`.
pub open spec fn first_column(cols: Seq<ColumnDefinition>, name: Seq<char>, i: int) -> bool {
    &&& 0 <= i < cols.len()
    &&& cols[i].column_data_type.column@ == name
    &&& forall|j: int| 0 <= j < i ==> (#[trigger] cols[j]).column_data_type.column@ != name
}

/// A row's event time: the timestamp in its first column named as its
/// ROWTIME column, if there is one and it holds a timestamp; else the time
/// the row entered the engine.
pub open spec fn event_time(v: RowView) -> Timestamp {
    match v.1 {
        None => v.3,
        Some(name) => if exists|i: int| #[trigger] first_column(v.0, name@, i) {
            let i = choose|i: int| #[trigger] first_column(v.0, name@, i);
            if i < v.2.len() {
                match v.2[i] {
                    SqlValue::NotNull(NnSqlValue::Timestamp(t)) => t,
                    _ => v.3,
                }
            } else {
                v.3
            }
        } else {
            v.3
        },
    }
}

/// The bytes a value takes: its fixed size, or its characters for a text.
pub open spec fn value_bytes(v: SqlValue) -> int {
    match v {
        SqlValue::Null => 1,
        SqlValue::NotNull(NnSqlValue::Boolean(_)) => 1,
        SqlValue::NotNull(NnSqlValue::SmallInt(_)) => 2,
        SqlValue::NotNull(NnSqlValue::Integer(_)) => 4,
        SqlValue::NotNull(NnSqlValue::BigInt(_)) => 8,
        SqlValue::NotNull(NnSqlValue::Text(s)) => s@.len() as int,
        SqlValue::NotNull(NnSqlValue::Timestamp(_)) => 8,
    }
}

pub open spec fn values_bytes(vs: Seq<SqlValue>) -> int
    decreases vs.len(),
{
    if vs.len() == 0 {
        0
    } else {
        values_bytes(vs.drop_last()) + value_bytes(vs.last())
    }
}

/// The bytes a row takes (its values and its arrival time), capped at `u64::MAX`.
pub open spec fn row_bytes(v: RowView) -> u64 {
    let b = 8 + values_bytes(v.2);
    if b <= u64::MAX { b as u64 } else { u64::MAX }
}

proof fn lemma_values_bytes_nonneg(vs: Seq<SqlValue>)
    ensures
        values_bytes(vs) >= 0,
    decreases vs.len(),
{
    if vs.len() > 0 {
        lemma_values_bytes_nonneg(vs.drop_last());
    }
}

impl Row {
    /// The memory the row's values take, as counted by the queues' metrics.
    pub fn mem_size(&self) -> (r: u64)
        ensures
            r == row_bytes(self@),
    {
        let vs = &self.columns.values;
        let mut acc: u64 = 8;
        let mut i: usize = 0;
        while i < vs.len()
            invariant
                0 <= i <= vs@.len(),
                acc == (if 8 + values_bytes(vs@.subrange(0, i as int)) <= u64::MAX {
                    (8 + values_bytes(vs@.subrange(0, i as int))) as u64
                } else {
                    u64::MAX
                }),
            decreases vs@.len() - i,
        {
            let size: u64 = match &vs[i] {
                SqlValue::Null => 1,
                SqlValue::NotNull(NnSqlValue::Boolean(_)) => 1,
                SqlValue::NotNull(NnSqlValue::SmallInt(_)) => 2,
                SqlValue::NotNull(NnSqlValue::Integer(_)) => 4,
                SqlValue::NotNull(NnSqlValue::BigInt(_)) => 8,
                SqlValue::NotNull(NnSqlValue::Text(s)) => s.as_str().unicode_len() as u64,
                SqlValue::NotNull(NnSqlValue::Timestamp(_)) => 8,
            };
            proof {
                let pre = vs@.subrange(0, i + 1);
                assert(pre.drop_last() =~= vs@.subrange(0, i as int));
                assert(pre.last() == vs@[i as int]);
                lemma_values_bytes_nonneg(vs@.subrange(0, i as int));
            }
            acc = if acc == u64::MAX {
                u64::MAX
            } else {
                match acc.checked_add(size) {
                    Some(x) => x,
                    None => u64::MAX,
                }
            };
            i = i + 1;
        }
        assert(vs@.subrange(0, vs@.len() as int) =~= vs@);
        acc
    }
}

impl ColumnDataType {
    pub fn copy_value(&self) -> (r: ColumnDataType)
        ensures
            r == *self,
    {
        ColumnDataType { column: self.column.clone(), sql_type: self.sql_type, nullable: self.nullable }
    }
}

impl StreamShape {
    /// An equal copy of the shape.
    pub fn copy_value(&self) -> (r: StreamShape)
        ensures
            r.cols@ == self.cols@,
            r.rowtime == self.rowtime,
    {
        let mut cols: Vec<ColumnDefinition> = Vec::new();
        let mut i: usize = 0;
        while i < self.cols.len()
            invariant
                0 <= i <= self.cols@.len(),
                cols@ == self.cols@.subrange(0, i as int),
            decreases self.cols@.len() - i,
        {
            cols.push(ColumnDefinition { column_data_type: self.cols[i].column_data_type.copy_value() });
            assert(cols@ =~= self.cols@.subrange(0, i + 1));
            i = i + 1;
        }
        assert(cols@ =~= self.cols@);
        let rowtime = match &self.rowtime {
            None => None,
            Some(n) => Some(n.clone()),
        };
        StreamShape { cols, rowtime }
    }
}

/// Equal copies of values.
pub fn copy_values(vs: &Vec<SqlValue>) -> (r: Vec<SqlValue>)
    ensures
        r@ == vs@,
{
    let mut out: Vec<SqlValue> = Vec::new();
    let mut i: usize = 0;
    while i < vs.len()
        invariant
            0 <= i <= vs@.len(),
            out@ == vs@.subrange(0, i as int),
        decreases vs@.len() - i,
    {
        out.push(vs[i].copy_value());
        assert(out@ =~= vs@.subrange(0, i + 1));
        i = i + 1;
    }
    assert(out@ =~= vs@);
    out
}

impl Row {
    /// A copy of the row with the same shape, values and arrival time.
    pub fn copy_row(&self) -> (r: Row)
        ensures
            r@ == self@,
    {
        Row {
            columns: StreamColumns { shape: self.columns.shape.copy_value(), values: copy_values(&self.columns.values) },
            arrival_rowtime: self.arrival_rowtime,
        }
    }
}

/// What a row holds: its columns, ROWTIME column, values and arrival time.
pub type RowView = (Seq<ColumnDefinition>, Option<String>, Seq<SqlValue>, Timestamp);

} // verus!
