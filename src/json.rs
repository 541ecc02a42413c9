//! JSON rows at the engine's foreign boundary.
use vstd::prelude::*;
use crate::error::SpringError;
use crate::row::{entries_view, coerce, Row, SchemalessRow, StreamColumns};
use crate::time::{formatted_timestamp, TIMESTAMP_FORMAT};
use crate::value::{NnSqlValue, SqlValue};

verus! {

/// A JSON member value as the engine reads it: scalars as they are, a
/// number as its value when it is an integer that fits an `i64`, and an
/// array or object as `Nested`.
#[derive(Clone, Debug, PartialEq, Eq)]
pub enum JsonValue {
    Null,
    Bool(bool),
    Number(Option<i64>),
    Text(String),
    Nested,
}

/// What serde_json reads from a text: the members of its top-level object,
/// or nothing when the text is not a JSON object.
pub uninterp spec fn json_members_of(s: Seq<char>) -> Option<Vec<(String, JsonValue)>>;

/// Relies on `serde_json::from_str` into a `serde_json::Value`, and on the
/// variants of that value: the members of a top-level object.
#[verifier::external_body]
fn parse_json_members(s: &str) -> (r: Option<Vec<(String, JsonValue)>>)
    ensures
        r == json_members_of(s@),
{
    match serde_json::from_str::<serde_json::Value>(s) {
        Ok(serde_json::Value::Object(m)) => Some(m.into_iter().map(|(k, v)| (k, match v {
            serde_json::Value::Null => JsonValue::Null,
            serde_json::Value::Bool(b) => JsonValue::Bool(b),
            serde_json::Value::Number(n) => JsonValue::Number(n.as_i64()),
            serde_json::Value::String(t) => JsonValue::Text(t),
            serde_json::Value::Array(_) | serde_json::Value::Object(_) => JsonValue::Nested,
        })).collect()),
        _ => None,
    }
}

/// A JSON object, member by member.
#[derive(Clone, Debug, PartialEq, Eq)]
pub struct JsonObject {
    pub members: Vec<(String, JsonValue)>,
}

/// The SQL value a JSON member stands for: integers as BIGINT; other
/// numbers and nested values have none.
pub open spec fn json_to_value(j: JsonValue) -> Option<SqlValue> {
    match j {
        JsonValue::Null => Some(SqlValue::Null),
        JsonValue::Bool(b) => Some(SqlValue::NotNull(NnSqlValue::Boolean(b))),
        JsonValue::Number(Some(i)) => Some(SqlValue::NotNull(NnSqlValue::BigInt(i))),
        JsonValue::Number(None) => None,
        JsonValue::Text(s) => Some(SqlValue::NotNull(NnSqlValue::Text(s))),
        JsonValue::Nested => None,
    }
}

/// Whether `j` is the JSON form of a non-NULL value: integers as numbers,
/// timestamps as their text, the rest as they are.
pub open spec fn json_of(v: NnSqlValue, j: JsonValue) -> bool {
    match (v, j) {
        (NnSqlValue::Boolean(b), JsonValue::Bool(c)) => b == c,
        (NnSqlValue::SmallInt(i), JsonValue::Number(Some(n))) => n == i as i64,
        (NnSqlValue::Integer(i), JsonValue::Number(Some(n))) => n == i as i64,
        (NnSqlValue::BigInt(i), JsonValue::Number(Some(n))) => n == i,
        (NnSqlValue::Text(s), JsonValue::Text(t)) => s@ == t@,
        (NnSqlValue::Timestamp(ts), JsonValue::Text(t)) => t@ == formatted_timestamp(ts@, TIMESTAMP_FORMAT@),
        _ => false,
    }
}

/// The JSON form of a non-NULL value.
pub fn to_json_value(v: &NnSqlValue) -> (r: JsonValue)
    ensures
        json_of(*v, r),
{
    match v {
        NnSqlValue::Boolean(b) => JsonValue::Bool(*b),
        NnSqlValue::SmallInt(i) => JsonValue::Number(Some(*i as i64)),
        NnSqlValue::Integer(i) => JsonValue::Number(Some(*i as i64)),
        NnSqlValue::BigInt(i) => JsonValue::Number(Some(*i)),
        NnSqlValue::Text(s) => JsonValue::Text(s.clone()),
        NnSqlValue::Timestamp(t) => JsonValue::Text(t.to_text()),
    }
}

/// The SQL value of a JSON member.
pub fn from_json_value(j: &JsonValue) -> (r: Option<SqlValue>)
    ensures
        r == json_to_value(*j),
{
    match j {
        JsonValue::Null => Some(SqlValue::Null),
        JsonValue::Bool(b) => Some(SqlValue::NotNull(NnSqlValue::Boolean(*b))),
        JsonValue::Number(Some(i)) => Some(SqlValue::NotNull(NnSqlValue::BigInt(*i))),
        JsonValue::Number(None) => None,
        JsonValue::Text(s) => Some(SqlValue::NotNull(NnSqlValue::Text(s.clone()))),
        JsonValue::Nested => None,
    }
}

/// Members as names and values; `None` when a member has no SQL value.
pub open spec fn members_to_entries(ms: Seq<(String, JsonValue)>) -> Option<Seq<(Seq<char>, SqlValue)>> {
    if forall|i: int| 0 <= i < ms.len() ==> #[trigger] json_to_value(ms[i].1) is Some {
        Some(Seq::new(ms.len(), |i: int| (ms[i].0@, json_to_value(ms[i].1).unwrap())))
    } else {
        None
    }
}

impl JsonObject {
    /// Parses a JSON text; `InvalidFormat` when it is not a JSON object.
    pub fn parse(s: &str) -> (r: Result<JsonObject, SpringError>)
        ensures
            r is Ok <==> json_members_of(s@) is Some,
            r matches Ok(o) ==> Some(o.members) == json_members_of(s@),
            r matches Err(e) ==> e == SpringError::InvalidFormat,
    {
        match parse_json_members(s) {
            Some(members) => Ok(JsonObject { members }),
            None => Err(SpringError::InvalidFormat),
        }
    }

    /// The members as a schemaless row. Fails with `InvalidFormat` when a
    /// member is nested, or a number that is not an integer fitting an `i64`.
    pub fn into_column_values(&self) -> (r: Result<SchemalessRow, SpringError>)
        ensures
            r is Ok <==> members_to_entries(self.members@) is Some,
            r matches Ok(row) ==> Some(entries_view(row.columns@)) == members_to_entries(self.members@),
            r matches Err(e) ==> e == SpringError::InvalidFormat,
    {
        let mut columns: Vec<(String, SqlValue)> = Vec::new();
        let mut i: usize = 0;
        while i < self.members.len()
            invariant
                0 <= i <= self.members@.len(),
                columns@.len() == i,
                forall|j: int| 0 <= j < i ==> #[trigger] json_to_value(self.members@[j].1) is Some,
                forall|j: int| 0 <= j < i ==> (#[trigger] columns@[j]).0@ == self.members@[j].0@
                    && Some(columns@[j].1) == json_to_value(self.members@[j].1),
            decreases self.members@.len() - i,
        {
            match from_json_value(&self.members[i].1) {
                Some(v) => columns.push((self.members[i].0.clone(), v)),
                None => return Err(SpringError::InvalidFormat),
            }
            i = i + 1;
        }
        let row = SchemalessRow { columns };
        assert(entries_view(row.columns@) =~= members_to_entries(self.members@).unwrap());
        Ok(row)
    }
}

/// Input row from a foreign source, turned into a row at the engine's boundary.
#[derive(Clone, Debug, PartialEq, Eq)]
pub enum SourceRow {
    Json(JsonObject),
    Raw(SchemalessRow),
}

impl SourceRow {
    /// A source row from a JSON text; `InvalidFormat` when the text is not a JSON object.
    pub fn from_json(json: &str) -> (r: Result<SourceRow, SpringError>)
        ensures
            r is Ok <==> json_members_of(json@) is Some,
            r matches Ok(row) ==> row matches SourceRow::Json(o) && Some(o.members) == json_members_of(json@),
            r matches Err(e) ==> e == SpringError::InvalidFormat,
    {
        let o = JsonObject::parse(json)?;
        Ok(SourceRow::Json(o))
    }

    /// The row as a schemaless row.
    pub fn into_schemaless(self) -> (r: Result<SchemalessRow, SpringError>)
        ensures
            self matches SourceRow::Raw(sr) ==> r == Ok::<SchemalessRow, SpringError>(sr),
            self matches SourceRow::Json(o) ==> (r is Ok <==> members_to_entries(o.members@) is Some)
                && (r matches Ok(row) ==> Some(entries_view(row.columns@)) == members_to_entries(o.members@)),
            r matches Err(e) ==> e == SpringError::InvalidFormat,
    {
        match self {
            SourceRow::Json(o) => o.into_column_values(),
            SourceRow::Raw(sr) => Ok(sr),
        }
    }
}

/// Name of the member that carries a row's arrival time when its stream has
/// no ROWTIME column.
pub const ARRIVAL_ROWTIME_COLUMN: &'static str = "_arrival_rowtime";

/// Output row to a foreign sink: the row's non-NULL columns as JSON members.
#[derive(Clone, Debug, PartialEq, Eq)]
pub struct ForeignSinkRow {
    pub json: JsonObject,
}

impl ForeignSinkRow {
    /// Each non-NULL column of the row becomes a member under its column's
    /// name, in column order; NULL columns are left out. A row whose stream
    /// has no ROWTIME column also carries its arrival time, as text, under
    /// `ARRIVAL_ROWTIME_COLUMN`.
    pub fn from_row(row: &Row) -> (r: ForeignSinkRow)
        requires
            row.columns.wf(),
        ensures
            row.columns.shape.rowtime is Some ==> sink_members_of(row.columns, r.json.members@),
            row.columns.shape.rowtime is None ==> r.json.members@.len() > 0
                && sink_members_of(row.columns, r.json.members@.drop_last())
                && r.json.members@.last().0@ == ARRIVAL_ROWTIME_COLUMN@
                && (r.json.members@.last().1 matches JsonValue::Text(t)
                && t@ == formatted_timestamp(row.arrival_rowtime@, TIMESTAMP_FORMAT@)),
    {
        let cols = &row.columns;
        let mut members: Vec<(String, JsonValue)> = Vec::new();
        let ghost mut idx: Seq<int> = Seq::empty();
        let mut i: usize = 0;
        while i < cols.values.len()
            invariant
                cols == &row.columns,
                cols.wf(),
                0 <= i <= cols.values@.len(),
                members@.len() == idx.len(),
                forall|k: int| 0 <= k < idx.len() ==> 0 <= #[trigger] idx[k] < i,
                forall|a: int, b: int| 0 <= a < b < idx.len() ==> #[trigger] idx[a] < #[trigger] idx[b],
                forall|k: int| 0 <= k < idx.len() ==> (cols.values@[#[trigger] idx[k]] matches SqlValue::NotNull(nn)
                    && json_of(nn, members@[k].1) && members@[k].0@ == cols.shape.cols@[idx[k]].column_data_type.column@),
                forall|c: int| 0 <= c < i && cols.values@[c] is NotNull ==> exists|k: int| 0 <= k < idx.len() && #[trigger] idx[k] == c,
            decreases cols.values@.len() - i,
        {
            match &cols.values[i] {
                SqlValue::Null => {},
                SqlValue::NotNull(nn) => {
                    members.push((cols.shape.cols[i].column_data_type.column.clone(), to_json_value(nn)));
                    proof {
                        let old_idx = idx;
                        idx = idx.push(i as int);
                        assert forall|c: int| 0 <= c < i + 1 && cols.values@[c] is NotNull implies exists|k: int|
                            0 <= k < idx.len() && #[trigger] idx[k] == c by {
                            if c == i {
                                assert(idx[old_idx.len() as int] == c);
                            } else {
                                let k = choose|k: int| 0 <= k < old_idx.len() && #[trigger] old_idx[k] == c;
                                assert(idx[k] == c);
                            }
                        }
                    }
                },
            }
            i = i + 1;
        }
        if row.columns.shape.rowtime.is_none() {
            let ghost before = members@;
            let name = ARRIVAL_ROWTIME_COLUMN.to_string();
            proof {
                broadcast use vstd::string::to_string_from_display_ensures_for_str;
            }
            members.push((name, JsonValue::Text(row.arrival_rowtime.to_text())));
            assert(members@.drop_last() =~= before);
        }
        ForeignSinkRow { json: JsonObject { members } }
    }
}

/// `ms` holds, in column order, one member per non-NULL column of `cols`:
/// the column's name and the JSON form of its value.
pub open spec fn sink_members_of(cols: StreamColumns, ms: Seq<(String, JsonValue)>) -> bool {
    exists|idx: Seq<int>| {
        &&& idx.len() == ms.len()
        &&& forall|k: int| 0 <= k < idx.len() ==> 0 <= #[trigger] idx[k] < cols.values@.len()
        &&& forall|a: int, b: int| 0 <= a < b < idx.len() ==> #[trigger] idx[a] < #[trigger] idx[b]
        &&& forall|k: int| 0 <= k < idx.len() ==> (cols.values@[#[trigger] idx[k]] matches SqlValue::NotNull(nn)
            && json_of(nn, ms[k].1) && ms[k].0@ == cols.shape.cols@[idx[k]].column_data_type.column@)
        &&& forall|c: int| 0 <= c < cols.values@.len() && cols.values@[c] is NotNull ==> exists|k: int| 0 <= k < idx.len() && #[trigger] idx[k] == c
    }
}

/// A non-NULL value other than a timestamp, written as JSON, read back and
/// coerced to its own type, is the same value again.
pub proof fn lemma_value_json_round_trip(v: NnSqlValue, j: JsonValue)
    requires
        !(v is Timestamp),
        json_of(v, j),
    ensures
        json_to_value(j) matches Some(w) && coerce(w, v.sql_type_spec(), false) matches Some(SqlValue::NotNull(u))
            && u.same_spec(&v),
{
}

} // verus!
