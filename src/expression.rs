//! Scalar expressions over a row's values, with SQL three-valued logic.
use vstd::prelude::*;
use crate::error::SpringError;
use crate::value::{fits_i64, NnSqlValue, SqlValue};

verus! {

/// AND, OR, NOT.
#[derive(Debug, PartialEq, Eq)]
pub enum LogicalFunction {
    AndVariant { left: Box<ValueExpr>, right: Box<ValueExpr> },
    OrVariant { left: Box<ValueExpr>, right: Box<ValueExpr> },
    NotVariant { operand: Box<ValueExpr> },
}

/// Comparisons between integers (and equality of texts and booleans).
#[derive(Debug, PartialEq, Eq)]
pub enum ComparisonFunction {
    EqualVariant { left: Box<ValueExpr>, right: Box<ValueExpr> },
    LessThanVariant { left: Box<ValueExpr>, right: Box<ValueExpr> },
    GreaterThanVariant { left: Box<ValueExpr>, right: Box<ValueExpr> },
}

/// Integer arithmetic.
#[derive(Debug, PartialEq, Eq)]
pub enum NumericalFunction {
    AddVariant { left: Box<ValueExpr>, right: Box<ValueExpr> },
    MulVariant { left: Box<ValueExpr>, right: Box<ValueExpr> },
}

/// Boolean-valued and numerical operators.
#[derive(Debug, PartialEq, Eq)]
pub enum BinaryExpr {
    LogicalFunctionVariant(LogicalFunction),
    ComparisonFunctionVariant(ComparisonFunction),
    NumericalFunctionVariant(NumericalFunction),
}

/// An expression tree: a literal, a column of the input row, or an operator.
#[derive(Debug, PartialEq, Eq)]
pub enum ValueExpr {
    Constant(SqlValue),
    Column(usize),
    Binary(Box<BinaryExpr>),
}

/// Three-valued truth: `None` is SQL's UNKNOWN (NULL).
pub open spec fn truth(v: SqlValue) -> Option<Option<bool>> {
    match v {
        SqlValue::Null => Some(None),
        SqlValue::NotNull(NnSqlValue::Boolean(b)) => Some(Some(b)),
        _ => None,
    }
}

pub open spec fn from_truth(t: Option<bool>) -> SqlValue {
    match t {
        None => SqlValue::Null,
        Some(b) => SqlValue::NotNull(NnSqlValue::Boolean(b)),
    }
}

/// The value of an expression on a row; `Err` for a column out of range
/// (`Unavailable`), an operand of the wrong type or an integer overflow (`Sql`).
pub open spec fn eval_spec(e: ValueExpr, row: Seq<SqlValue>) -> Result<SqlValue, SpringError>
    decreases e,
{
    match e {
        ValueExpr::Constant(v) => Ok(v),
        ValueExpr::Column(i) => if i < row.len() { Ok(row[i as int]) } else { Err(SpringError::Unavailable) },
        ValueExpr::Binary(b) => match *b {
            BinaryExpr::LogicalFunctionVariant(f) => match f {
                LogicalFunction::NotVariant { operand } => match eval_spec(*operand, row) {
                    Err(err) => Err(err),
                    Ok(v) => match truth(v) {
                        None => Err(SpringError::Sql),
                        Some(t) => Ok(from_truth(match t { None => None, Some(x) => Some(!x) })),
                    },
                },
                LogicalFunction::AndVariant { left, right } => match eval_spec(*left, row) {
                    Err(err) => Err(err),
                    Ok(l) => match truth(l) {
                        None => Err(SpringError::Sql),
                        Some(Some(false)) => Ok(from_truth(Some(false))),
                        Some(lt) => match eval_spec(*right, row) {
                            Err(err) => Err(err),
                            Ok(r) => match truth(r) {
                                None => Err(SpringError::Sql),
                                Some(Some(false)) => Ok(from_truth(Some(false))),
                                Some(rt) => Ok(from_truth(if lt is None || rt is None { None } else { Some(true) })),
                            },
                        },
                    },
                },
                LogicalFunction::OrVariant { left, right } => match eval_spec(*left, row) {
                    Err(err) => Err(err),
                    Ok(l) => match truth(l) {
                        None => Err(SpringError::Sql),
                        Some(Some(true)) => Ok(from_truth(Some(true))),
                        Some(lt) => match eval_spec(*right, row) {
                            Err(err) => Err(err),
                            Ok(r) => match truth(r) {
                                None => Err(SpringError::Sql),
                                Some(Some(true)) => Ok(from_truth(Some(true))),
                                Some(rt) => Ok(from_truth(if lt is None || rt is None { None } else { Some(false) })),
                            },
                        },
                    },
                },
            },
            BinaryExpr::ComparisonFunctionVariant(f) => {
                let (left, right) = match f {
                    ComparisonFunction::EqualVariant { left, right } => (left, right),
                    ComparisonFunction::LessThanVariant { left, right } => (left, right),
                    ComparisonFunction::GreaterThanVariant { left, right } => (left, right),
                };
                match eval_spec(*left, row) {
                    Err(err) => Err(err),
                    Ok(l) => match eval_spec(*right, row) {
                        Err(err) => Err(err),
                        Ok(r) => compare_spec(f, l, r),
                    },
                }
            },
            BinaryExpr::NumericalFunctionVariant(f) => {
                let (left, right) = match f {
                    NumericalFunction::AddVariant { left, right } => (left, right),
                    NumericalFunction::MulVariant { left, right } => (left, right),
                };
                match eval_spec(*left, row) {
                    Err(err) => Err(err),
                    Ok(l) => match eval_spec(*right, row) {
                        Err(err) => Err(err),
                        Ok(r) => arith_spec(f is AddVariant, l, r),
                    },
                }
            },
        },
    }
}

/// A comparison: NULL when either side is NULL; integers by value, texts
/// and booleans by equality only; other pairs are a type error.
pub open spec fn compare_spec(f: ComparisonFunction, l: SqlValue, r: SqlValue) -> Result<SqlValue, SpringError> {
    match (l, r) {
        (SqlValue::NotNull(a), SqlValue::NotNull(b)) => match (a.as_int_spec(), b.as_int_spec()) {
            (Some(x), Some(y)) => Ok(from_truth(Some(match f {
                ComparisonFunction::EqualVariant { .. } => x == y,
                ComparisonFunction::LessThanVariant { .. } => x < y,
                ComparisonFunction::GreaterThanVariant { .. } => x > y,
            }))),
            _ => match (f, a, b) {
                (ComparisonFunction::EqualVariant { .. }, NnSqlValue::Text(s), NnSqlValue::Text(t)) => Ok(from_truth(Some(s@ == t@))),
                (ComparisonFunction::EqualVariant { .. }, NnSqlValue::Boolean(s), NnSqlValue::Boolean(t)) => Ok(from_truth(Some(s == t))),
                _ => Err(SpringError::Sql),
            },
        },
        (SqlValue::Null, _) => Ok(SqlValue::Null),
        (_, SqlValue::Null) => Ok(SqlValue::Null),
    }
}

/// Integer addition or multiplication as BIGINT: NULL propagates; a
/// non-integer operand or an overflow is an error.
pub open spec fn arith_spec(add: bool, l: SqlValue, r: SqlValue) -> Result<SqlValue, SpringError> {
    match (l, r) {
        (SqlValue::NotNull(a), SqlValue::NotNull(b)) => match (a.as_int_spec(), b.as_int_spec()) {
            (Some(x), Some(y)) => {
                let z = if add { x + y } else { x * y };
                if fits_i64(z) { Ok(SqlValue::NotNull(NnSqlValue::BigInt(z as i64))) } else { Err(SpringError::Sql) }
            },
            _ => Err(SpringError::Sql),
        },
        (SqlValue::Null, SqlValue::NotNull(b)) => if b.as_int_spec() is Some { Ok(SqlValue::Null) } else { Err(SpringError::Sql) },
        (SqlValue::NotNull(a), SqlValue::Null) => if a.as_int_spec() is Some { Ok(SqlValue::Null) } else { Err(SpringError::Sql) },
        (SqlValue::Null, SqlValue::Null) => Ok(SqlValue::Null),
    }
}

fn truth_of(v: &SqlValue) -> (r: Option<Option<bool>>)
    ensures
        r == truth(*v),
{
    match v {
        SqlValue::Null => Some(None),
        SqlValue::NotNull(NnSqlValue::Boolean(b)) => Some(Some(*b)),
        _ => None,
    }
}

fn compare(f: &ComparisonFunction, l: &SqlValue, r: &SqlValue) -> (res: Result<SqlValue, SpringError>)
    ensures
        res == compare_spec(*f, *l, *r),
{
    match (l, r) {
        (SqlValue::NotNull(a), SqlValue::NotNull(b)) => match (a.as_i64(), b.as_i64()) {
            (Some(x), Some(y)) => {
                let t = match f {
                    ComparisonFunction::EqualVariant { .. } => x == y,
                    ComparisonFunction::LessThanVariant { .. } => x < y,
                    ComparisonFunction::GreaterThanVariant { .. } => x > y,
                };
                Ok(SqlValue::NotNull(NnSqlValue::Boolean(t)))
            },
            _ => match (f, a, b) {
                (ComparisonFunction::EqualVariant { .. }, NnSqlValue::Text(s), NnSqlValue::Text(t)) => {
                    Ok(SqlValue::NotNull(NnSqlValue::Boolean(*s == *t)))
                },
                (ComparisonFunction::EqualVariant { .. }, NnSqlValue::Boolean(s), NnSqlValue::Boolean(t)) => {
                    Ok(SqlValue::NotNull(NnSqlValue::Boolean(*s == *t)))
                },
                _ => Err(SpringError::Sql),
            },
        },
        (SqlValue::Null, _) => Ok(SqlValue::Null),
        (_, SqlValue::Null) => Ok(SqlValue::Null),
    }
}

fn arith(add: bool, l: &SqlValue, r: &SqlValue) -> (res: Result<SqlValue, SpringError>)
    ensures
        res == arith_spec(add, *l, *r),
{
    match (l, r) {
        (SqlValue::NotNull(a), SqlValue::NotNull(b)) => match (a.as_i64(), b.as_i64()) {
            (Some(x), Some(y)) => {
                let z = if add { x.checked_add(y) } else { x.checked_mul(y) };
                match z {
                    Some(z) => Ok(SqlValue::NotNull(NnSqlValue::BigInt(z))),
                    None => Err(SpringError::Sql),
                }
            },
            _ => Err(SpringError::Sql),
        },
        (SqlValue::Null, SqlValue::NotNull(b)) => if b.as_i64().is_some() { Ok(SqlValue::Null) } else { Err(SpringError::Sql) },
        (SqlValue::NotNull(a), SqlValue::Null) => if a.as_i64().is_some() { Ok(SqlValue::Null) } else { Err(SpringError::Sql) },
        (SqlValue::Null, SqlValue::Null) => Ok(SqlValue::Null),
    }
}

impl ValueExpr {
    /// Evaluates the expression on a row's values. Strict, but AND and OR
    /// do not evaluate their right side once the left side decides.
    pub fn eval(&self, row: &Vec<SqlValue>) -> (r: Result<SqlValue, SpringError>)
        ensures
            r == eval_spec(*self, row@),
        decreases self,
    {
        match self {
            ValueExpr::Constant(v) => Ok(v.copy_value()),
            ValueExpr::Column(i) => if *i < row.len() { Ok(row[*i].copy_value()) } else { Err(SpringError::Unavailable) },
            ValueExpr::Binary(b) => match &**b {
                BinaryExpr::LogicalFunctionVariant(f) => match f {
                    LogicalFunction::NotVariant { operand } => {
                        let v = operand.eval(row)?;
                        match truth_of(&v) {
                            None => Err(SpringError::Sql),
                            Some(None) => Ok(SqlValue::Null),
                            Some(Some(x)) => Ok(SqlValue::NotNull(NnSqlValue::Boolean(!x))),
                        }
                    },
                    LogicalFunction::AndVariant { left, right } => {
                        let l = left.eval(row)?;
                        match truth_of(&l) {
                            None => Err(SpringError::Sql),
                            Some(Some(false)) => Ok(SqlValue::NotNull(NnSqlValue::Boolean(false))),
                            Some(lt) => {
                                let r = right.eval(row)?;
                                match truth_of(&r) {
                                    None => Err(SpringError::Sql),
                                    Some(Some(false)) => Ok(SqlValue::NotNull(NnSqlValue::Boolean(false))),
                                    Some(rt) => if lt.is_none() || rt.is_none() {
                                        Ok(SqlValue::Null)
                                    } else {
                                        Ok(SqlValue::NotNull(NnSqlValue::Boolean(true)))
                                    },
                                }
                            },
                        }
                    },
                    LogicalFunction::OrVariant { left, right } => {
                        let l = left.eval(row)?;
                        match truth_of(&l) {
                            None => Err(SpringError::Sql),
                            Some(Some(true)) => Ok(SqlValue::NotNull(NnSqlValue::Boolean(true))),
                            Some(lt) => {
                                let r = right.eval(row)?;
                                match truth_of(&r) {
                                    None => Err(SpringError::Sql),
                                    Some(Some(true)) => Ok(SqlValue::NotNull(NnSqlValue::Boolean(true))),
                                    Some(rt) => if lt.is_none() || rt.is_none() {
                                        Ok(SqlValue::Null)
                                    } else {
                                        Ok(SqlValue::NotNull(NnSqlValue::Boolean(false)))
                                    },
                                }
                            },
                        }
                    },
                },
                BinaryExpr::ComparisonFunctionVariant(f) => {
                    let (left, right) = match f {
                        ComparisonFunction::EqualVariant { left, right } => (left, right),
                        ComparisonFunction::LessThanVariant { left, right } => (left, right),
                        ComparisonFunction::GreaterThanVariant { left, right } => (left, right),
                    };
                    let l = left.eval(row)?;
                    let r = right.eval(row)?;
                    compare(f, &l, &r)
                },
                BinaryExpr::NumericalFunctionVariant(f) => {
                    let (left, right) = match f {
                        NumericalFunction::AddVariant { left, right } => (left, right),
                        NumericalFunction::MulVariant { left, right } => (left, right),
                    };
                    let add = match f {
                        NumericalFunction::AddVariant { .. } => true,
                        NumericalFunction::MulVariant { .. } => false,
                    };
                    let l = left.eval(row)?;
                    let r = right.eval(row)?;
                    arith(add, &l, &r)
                },
            },
        }
    }
}

} // verus!
