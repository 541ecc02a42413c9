//! SQL values and their mapping to and from Rust types.
use vstd::prelude::*;
use crate::error::SpringError;
use crate::time::Timestamp;

verus! {

/// Whether an integer fits a BIGINT.
pub open spec fn fits_i64(x: int) -> bool {
    i64::MIN <= x <= i64::MAX
}

/// SQL column types.
#[derive(Clone, Copy, Debug, PartialEq, Eq, Structural)]
pub enum SqlType {
    Boolean,
    SmallInt,
    Integer,
    BigInt,
    Text,
    Timestamp,
}

impl SqlType {
    pub fn boolean() -> (r: SqlType)
        ensures
            r == SqlType::Boolean,
    {
        SqlType::Boolean
    }

    pub fn small_int() -> (r: SqlType)
        ensures
            r == SqlType::SmallInt,
    {
        SqlType::SmallInt
    }

    pub fn integer() -> (r: SqlType)
        ensures
            r == SqlType::Integer,
    {
        SqlType::Integer
    }

    pub fn big_int() -> (r: SqlType)
        ensures
            r == SqlType::BigInt,
    {
        SqlType::BigInt
    }

    pub fn text() -> (r: SqlType)
        ensures
            r == SqlType::Text,
    {
        SqlType::Text
    }

    pub fn timestamp() -> (r: SqlType)
        ensures
            r == SqlType::Timestamp,
    {
        SqlType::Timestamp
    }
}

/// A value that is not NULL.
#[derive(Clone, Debug, PartialEq, Eq)]
pub enum NnSqlValue {
    Boolean(bool),
    SmallInt(i16),
    Integer(i32),
    BigInt(i64),
    Text(String),
    Timestamp(Timestamp),
}

/// A SQL value: NULL is a carrier of its own, not a sentinel.
#[derive(Clone, Debug, PartialEq, Eq)]
pub enum SqlValue {
    Null,
    NotNull(NnSqlValue),
}

impl NnSqlValue {
    /// The SQL type whose tag this value carries.
    pub open spec fn sql_type_spec(&self) -> SqlType {
        match self {
            NnSqlValue::Boolean(_) => SqlType::Boolean,
            NnSqlValue::SmallInt(_) => SqlType::SmallInt,
            NnSqlValue::Integer(_) => SqlType::Integer,
            NnSqlValue::BigInt(_) => SqlType::BigInt,
            NnSqlValue::Text(_) => SqlType::Text,
            NnSqlValue::Timestamp(_) => SqlType::Timestamp,
        }
    }

    pub fn sql_type(&self) -> (r: SqlType)
        ensures
            r == self.sql_type_spec(),
    {
        match self {
            NnSqlValue::Boolean(_) => SqlType::Boolean,
            NnSqlValue::SmallInt(_) => SqlType::SmallInt,
            NnSqlValue::Integer(_) => SqlType::Integer,
            NnSqlValue::BigInt(_) => SqlType::BigInt,
            NnSqlValue::Text(_) => SqlType::Text,
            NnSqlValue::Timestamp(_) => SqlType::Timestamp,
        }
    }

    /// The integer an integral value stands for.
    pub open spec fn as_int_spec(&self) -> Option<int> {
        match self {
            NnSqlValue::SmallInt(v) => Some(*v as int),
            NnSqlValue::Integer(v) => Some(*v as int),
            NnSqlValue::BigInt(v) => Some(*v as int),
            _ => None,
        }
    }

    pub fn as_i64(&self) -> (r: Option<i64>)
        ensures
            r matches Some(v) ==> self.as_int_spec() == Some(v as int),
            r is None <==> self.as_int_spec() is None,
    {
        match self {
            NnSqlValue::SmallInt(v) => Some(*v as i64),
            NnSqlValue::Integer(v) => Some(*v as i64),
            NnSqlValue::BigInt(v) => Some(*v),
            _ => None,
        }
    }

    /// A copy of this value that equals it.
    pub fn copy_value(&self) -> (r: NnSqlValue)
        ensures
            r == *self,
    {
        match self {
            NnSqlValue::Boolean(v) => NnSqlValue::Boolean(*v),
            NnSqlValue::SmallInt(v) => NnSqlValue::SmallInt(*v),
            NnSqlValue::Integer(v) => NnSqlValue::Integer(*v),
            NnSqlValue::BigInt(v) => NnSqlValue::BigInt(*v),
            NnSqlValue::Text(s) => NnSqlValue::Text(s.clone()),
            NnSqlValue::Timestamp(t) => NnSqlValue::Timestamp(*t),
        }
    }

    /// Two values are the same: same tag, same payload (texts by their characters).
    pub open spec fn same_spec(&self, other: &NnSqlValue) -> bool {
        match (self, other) {
            (NnSqlValue::Text(a), NnSqlValue::Text(b)) => a@ == b@,
            _ => *self == *other,
        }
    }

    /// Whether two values are the same.
    pub fn same_as(&self, other: &NnSqlValue) -> (r: bool)
        ensures
            r == self.same_spec(other),
    {
        match (self, other) {
            (NnSqlValue::Boolean(a), NnSqlValue::Boolean(b)) => *a == *b,
            (NnSqlValue::SmallInt(a), NnSqlValue::SmallInt(b)) => *a == *b,
            (NnSqlValue::Integer(a), NnSqlValue::Integer(b)) => *a == *b,
            (NnSqlValue::BigInt(a), NnSqlValue::BigInt(b)) => *a == *b,
            (NnSqlValue::Text(a), NnSqlValue::Text(b)) => *a == *b,
            (NnSqlValue::Timestamp(a), NnSqlValue::Timestamp(b)) => a.nanos == b.nanos,
            _ => false,
        }
    }
}

impl SqlValue {
    pub fn copy_value(&self) -> (r: SqlValue)
        ensures
            r == *self,
    {
        match self {
            SqlValue::Null => SqlValue::Null,
            SqlValue::NotNull(v) => SqlValue::NotNull(v.copy_value()),
        }
    }

    /// Identity of values, not SQL comparison: NULL is the same as NULL.
    pub open spec fn same_spec(&self, other: &SqlValue) -> bool {
        match (self, other) {
            (SqlValue::Null, SqlValue::Null) => true,
            (SqlValue::NotNull(a), SqlValue::NotNull(b)) => a.same_spec(b),
            _ => false,
        }
    }

    /// Whether two values are the same.
    pub fn same_as(&self, other: &SqlValue) -> (r: bool)
        ensures
            r == self.same_spec(other),
    {
        match (self, other) {
            (SqlValue::Null, SqlValue::Null) => true,
            (SqlValue::NotNull(a), SqlValue::NotNull(b)) => a.same_as(b),
            _ => false,
        }
    }
}

/// Rust values with a bidirectional mapping to one SQL value tag.
pub trait SqlConvertible: Sized {
    /// The value that `self` maps to.
    spec fn to_sql_spec(&self) -> NnSqlValue;

    /// Converts into the strictly matching SQL value.
    fn into_sql_value(self) -> (r: NnSqlValue)
        ensures
            r == self.to_sql_spec(),
    ;

    /// Converts back from a SQL value. Fails with `Sql` when the value's tag
    /// is not the one of this type.
    fn unpack(v: &NnSqlValue) -> (r: Result<Self, SpringError>)
        ensures
            r matches Ok(x) ==> x.to_sql_spec() == *v,
            r matches Err(e) ==> e == SpringError::Sql,
            (exists|x: Self| x.to_sql_spec() == *v) ==> r is Ok,
    ;
}

/// The error of a conversion between types that do not share a tag.
pub fn default_err<T>() -> (r: Result<T, SpringError>)
    ensures
        r == Err::<T, SpringError>(SpringError::Sql),
{
    Err(SpringError::Sql)
}

impl SqlConvertible for bool {
    open spec fn to_sql_spec(&self) -> NnSqlValue {
        NnSqlValue::Boolean(*self)
    }

    fn into_sql_value(self) -> (r: NnSqlValue) {
        NnSqlValue::Boolean(self)
    }

    fn unpack(v: &NnSqlValue) -> (r: Result<bool, SpringError>) {
        match v {
            NnSqlValue::Boolean(b) => Ok(*b),
            _ => default_err(),
        }
    }
}

impl SqlConvertible for i16 {
    open spec fn to_sql_spec(&self) -> NnSqlValue {
        NnSqlValue::SmallInt(*self)
    }

    fn into_sql_value(self) -> (r: NnSqlValue) {
        NnSqlValue::SmallInt(self)
    }

    fn unpack(v: &NnSqlValue) -> (r: Result<i16, SpringError>) {
        match v {
            NnSqlValue::SmallInt(x) => Ok(*x),
            _ => default_err(),
        }
    }
}

impl SqlConvertible for i32 {
    open spec fn to_sql_spec(&self) -> NnSqlValue {
        NnSqlValue::Integer(*self)
    }

    fn into_sql_value(self) -> (r: NnSqlValue) {
        NnSqlValue::Integer(self)
    }

    fn unpack(v: &NnSqlValue) -> (r: Result<i32, SpringError>) {
        match v {
            NnSqlValue::Integer(x) => Ok(*x),
            _ => default_err(),
        }
    }
}

impl SqlConvertible for i64 {
    open spec fn to_sql_spec(&self) -> NnSqlValue {
        NnSqlValue::BigInt(*self)
    }

    fn into_sql_value(self) -> (r: NnSqlValue) {
        NnSqlValue::BigInt(self)
    }

    fn unpack(v: &NnSqlValue) -> (r: Result<i64, SpringError>) {
        match v {
            NnSqlValue::BigInt(x) => Ok(*x),
            _ => default_err(),
        }
    }
}

impl SqlConvertible for String {
    open spec fn to_sql_spec(&self) -> NnSqlValue {
        NnSqlValue::Text(*self)
    }

    fn into_sql_value(self) -> (r: NnSqlValue) {
        NnSqlValue::Text(self)
    }

    fn unpack(v: &NnSqlValue) -> (r: Result<String, SpringError>) {
        match v {
            NnSqlValue::Text(s) => Ok(s.clone()),
            _ => default_err(),
        }
    }
}

impl SqlConvertible for Timestamp {
    open spec fn to_sql_spec(&self) -> NnSqlValue {
        NnSqlValue::Timestamp(*self)
    }

    fn into_sql_value(self) -> (r: NnSqlValue) {
        NnSqlValue::Timestamp(self)
    }

    fn unpack(v: &NnSqlValue) -> (r: Result<Timestamp, SpringError>) {
        match v {
            NnSqlValue::Timestamp(t) => Ok(*t),
            _ => default_err(),
        }
    }
}

} // verus!
