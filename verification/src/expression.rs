//! Value expressions and their evaluation over a tuple.

use vstd::prelude::*;
use crate::error::SpringError;
use crate::name::ColumnName;
use crate::row::Field;
use crate::sql_value::SqlValue;
use crate::tuple::lookup;
use crate::tuple::Tuple;

verus! {

/// The arithmetic operators of value expressions.
#[derive(Clone, Copy, Debug, PartialEq, Eq, Structural)]
pub enum BinaryOperator {
    Add,
    Sub,
    Mul,
    Div,
}

/// An expression over the fields of a tuple.
#[derive(Debug)]
pub enum ValueExpr {
    /// The value of the field with this label.
    Field(ColumnName),
    /// A constant.
    Constant(SqlValue),
    /// Integer arithmetic on two operands.
    Binary(BinaryOperator, Box<ValueExpr>, Box<ValueExpr>),
}

/// The magnitude of an integer.
pub open spec fn magnitude(a: int) -> int {
    if a < 0 {
        -a
    } else {
        a
    }
}

/// The quotient of `a` by `b`, rounded toward zero.
pub open spec fn div_trunc(a: int, b: int) -> int {
    if (a >= 0) == (b > 0) {
        magnitude(a) / magnitude(b)
    } else {
        -(magnitude(a) / magnitude(b))
    }
}

/// The exact result of an operator on two integers; `None` for a division
/// by zero.
pub open spec fn exact(op: BinaryOperator, x: int, y: int) -> Option<int> {
    match op {
        BinaryOperator::Add => Some(x + y),
        BinaryOperator::Sub => Some(x - y),
        BinaryOperator::Mul => Some(x * y),
        BinaryOperator::Div => if y == 0 {
            None
        } else {
            Some(div_trunc(x, y))
        },
    }
}

/// What an operator yields on two values. Two integers give their exact
/// result where that is defined and fits 64 bits; NULL with NULL or with an
/// integer gives NULL; every other pair, a division by zero and an overflow
/// fail with `Sql`.
pub open spec fn apply(op: BinaryOperator, a: SqlValue, b: SqlValue) -> Result<SqlValue, SpringError> {
    match (a, b) {
        (SqlValue::Integer(x), SqlValue::Integer(y)) => match exact(op, x as int, y as int) {
            Some(r) => if i64::MIN <= r <= i64::MAX {
                Ok(SqlValue::Integer(r as i64))
            } else {
                Err(SpringError::Sql)
            },
            None => Err(SpringError::Sql),
        },
        (SqlValue::Null, SqlValue::Null) => Ok(SqlValue::Null),
        (SqlValue::Null, SqlValue::Integer(_)) => Ok(SqlValue::Null),
        (SqlValue::Integer(_), SqlValue::Null) => Ok(SqlValue::Null),
        _ => Err(SpringError::Sql),
    }
}

fn magnitude_of(a: i64) -> (res: u64)
    ensures
        res == magnitude(a as int),
{
    if a < 0 {
        (-(a as i128)) as u64
    } else {
        a as u64
    }
}

fn narrow(wide: i128) -> (res: Result<SqlValue, SpringError>)
    ensures
        res == (if i64::MIN <= wide <= i64::MAX {
            Ok::<SqlValue, SpringError>(SqlValue::Integer(wide as i64))
        } else {
            Err(SpringError::Sql)
        }),
{
    if wide < i64::MIN as i128 || wide > i64::MAX as i128 {
        Err(SpringError::Sql)
    } else {
        Ok(SqlValue::Integer(wide as i64))
    }
}

/// Applies an operator to two values.
pub fn apply_operator(op: BinaryOperator, a: &SqlValue, b: &SqlValue) -> (res: Result<
    SqlValue,
    SpringError,
>)
    ensures
        res == apply(op, *a, *b),
{
    match (a, b) {
        (SqlValue::Integer(x), SqlValue::Integer(y)) => {
            let x: i64 = *x;
            let y: i64 = *y;
            match op {
                BinaryOperator::Add => narrow(x as i128 + y as i128),
                BinaryOperator::Sub => narrow(x as i128 - y as i128),
                BinaryOperator::Mul => {
                    assert(-0x4000_0000_0000_0000_0000_0000_0000_0000 <= (x as int) * (y as int)
                        <= 0x4000_0000_0000_0000_0000_0000_0000_0000) by (nonlinear_arith)
                        requires
                            -0x8000_0000_0000_0000 <= x <= 0x7fff_ffff_ffff_ffff,
                            -0x8000_0000_0000_0000 <= y <= 0x7fff_ffff_ffff_ffff,
                    ;
                    narrow((x as i128) * (y as i128))
                },
                BinaryOperator::Div => {
                    if y == 0 {
                        Err(SpringError::Sql)
                    } else {
                        let q: u64 = magnitude_of(x) / magnitude_of(y);
                        let wide: i128 = if (x >= 0) == (y > 0) {
                            q as i128
                        } else {
                            -(q as i128)
                        };
                        narrow(wide)
                    }
                },
            }
        },
        (SqlValue::Null, SqlValue::Null) => Ok(SqlValue::Null),
        (SqlValue::Null, SqlValue::Integer(_)) => Ok(SqlValue::Null),
        (SqlValue::Integer(_), SqlValue::Null) => Ok(SqlValue::Null),
        _ => Err(SpringError::Sql),
    }
}

impl ValueExpr {
    /// The value of the expression over the given fields: a field reference
    /// fails with `Sql` where no field carries the label, a constant is
    /// itself, and an operator applies to the values of its operands, left
    /// first, failing where either fails.
    pub open spec fn value(self, fields: Seq<Field>) -> Result<SqlValue, SpringError>
        decreases self,
    {
        match self {
            ValueExpr::Field(label) => match lookup(fields, label@) {
                Some(v) => Ok(v),
                None => Err(SpringError::Sql),
            },
            ValueExpr::Constant(v) => Ok(v),
            ValueExpr::Binary(op, left, right) => match left.value(fields) {
                Err(e) => Err(e),
                Ok(a) => match right.value(fields) {
                    Err(e) => Err(e),
                    Ok(b) => apply(op, a, b),
                },
            },
        }
    }

    /// Evaluates the expression over a tuple.
    pub fn eval(&self, tuple: &Tuple) -> (res: Result<SqlValue, SpringError>)
        ensures
            res == self.value(tuple.fields@),
        decreases self,
    {
        match self {
            ValueExpr::Field(label) => tuple.get_value(label),
            ValueExpr::Constant(v) => Ok(v.duplicate()),
            ValueExpr::Binary(op, left, right) => {
                let a = match left.eval(tuple) {
                    Err(e) => {
                        return Err(e);
                    },
                    Ok(a) => a,
                };
                let b = match right.eval(tuple) {
                    Err(e) => {
                        return Err(e);
                    },
                    Ok(b) => b,
                };
                apply_operator(*op, &a, &b)
            },
        }
    }
}

} // verus!
