//! Streams and their shapes.

use vstd::prelude::*;
use crate::error::SpringError;
use crate::name::ColumnName;
use crate::name::StreamName;
use crate::sql_value::SqlType;

verus! {

/// One column of a stream: its name, its type and whether it admits NULL.
#[derive(Debug)]
pub struct ColumnDefinition {
    pub name: ColumnName,
    pub sql_type: SqlType,
    pub nullable: bool,
}

/// The ordered columns of a stream, one of which may carry the event time.
#[derive(Debug)]
pub struct StreamShape {
    pub columns: Vec<ColumnDefinition>,
    /// The position of the ROWTIME column, if the shape designates one.
    pub rowtime: Option<usize>,
}

/// Whether no two columns share a name.
pub open spec fn distinct_columns(columns: Seq<ColumnDefinition>) -> bool {
    forall|i: int, j: int|
        0 <= i < j < columns.len() ==> (#[trigger] columns[i]).name@ != (#[trigger] columns[j]).name@
}

/// Whether some column has the name `name`.
pub open spec fn has_column(columns: Seq<ColumnDefinition>, name: Seq<char>) -> bool {
    exists|i: int| 0 <= i < columns.len() && (#[trigger] columns[i]).name@ == name
}

/// Whether position `r` holds a column fit to carry the event time: a
/// TIMESTAMP that does not admit NULL.
pub open spec fn rowtime_column(columns: Seq<ColumnDefinition>, r: int) -> bool {
    0 <= r < columns.len() && columns[r].sql_type == SqlType::Timestamp && !columns[r].nullable
}

impl StreamShape {
    /// Column names are distinct, and the ROWTIME column, if any, is a
    /// non-null TIMESTAMP column of the shape.
    pub open spec fn wf(self) -> bool {
        &&& distinct_columns(self.columns@)
        &&& self.rowtime matches Some(r) ==> rowtime_column(self.columns@, r as int)
    }

    /// Builds a shape. Fails with `Sql` exactly when two columns share a
    /// name or `rowtime` names no non-null TIMESTAMP column.
    pub fn new(columns: Vec<ColumnDefinition>, rowtime: Option<ColumnName>) -> (res: Result<
        StreamShape,
        SpringError,
    >)
        ensures
            res matches Ok(shape) ==> shape.wf() && shape.columns == columns && (rowtime matches Some(
                n,
            ) ==> shape.rowtime matches Some(r) && columns@[r as int].name@ == n@) && (rowtime is None
                ==> shape.rowtime is None),
            res matches Err(e) ==> e == SpringError::Sql,
            res is Ok <==> distinct_columns(columns@) && (rowtime matches Some(n) ==> exists|r: int|
                rowtime_column(columns@, r) && (#[trigger] columns@[r]).name@ == n@),
    {
        if !all_distinct(&columns) {
            return Err(SpringError::Sql);
        }
        match rowtime {
            None => Ok(StreamShape { columns, rowtime: None }),
            Some(n) => {
                match find_column(&columns, &n) {
                    None => Err(SpringError::Sql),
                    Some(r) => {
                        if columns[r].sql_type == SqlType::Timestamp && !columns[r].nullable {
                            Ok(StreamShape { columns, rowtime: Some(r) })
                        } else {
                            Err(SpringError::Sql)
                        }
                    },
                }
            },
        }
    }

    /// Whether the shape is well formed.
    pub fn is_valid(&self) -> (res: bool)
        ensures
            res == self.wf(),
    {
        if !all_distinct(&self.columns) {
            return false;
        }
        match self.rowtime {
            None => true,
            Some(r) => r < self.columns.len() && self.columns[r].sql_type == SqlType::Timestamp
                && !self.columns[r].nullable,
        }
    }

    /// The number of columns.
    pub fn len(&self) -> (res: usize)
        ensures
            res == self.columns@.len(),
    {
        self.columns.len()
    }

    /// The position of the column named `name`.
    pub fn position(&self, name: &ColumnName) -> (res: Option<usize>)
        ensures
            res matches Some(i) ==> i < self.columns@.len() && self.columns@[i as int].name@ == name@ && forall|
                k: int,
            | 0 <= k < i ==> (#[trigger] self.columns@[k]).name@ != name@,
            res is None ==> !has_column(self.columns@, name@),
    {
        find_column(&self.columns, name)
    }
}

/// The first position at which a column named `name` stands.
pub fn find_column(columns: &Vec<ColumnDefinition>, name: &ColumnName) -> (res: Option<usize>)
    ensures
        res matches Some(i) ==> i < columns@.len() && columns@[i as int].name@ == name@ && forall|
            k: int,
        | 0 <= k < i ==> (#[trigger] columns@[k]).name@ != name@,
        res is None ==> !has_column(columns@, name@),
{
    let mut i: usize = 0;
    while i < columns.len()
        invariant
            i <= columns.len(),
            forall|k: int| 0 <= k < i ==> (#[trigger] columns@[k]).name@ != name@,
        decreases columns.len() - i,
    {
        if columns[i].name.same(name) {
            return Some(i);
        }
        i = i + 1;
    }
    None
}

/// Whether no two columns share a name.
pub fn all_distinct(columns: &Vec<ColumnDefinition>) -> (res: bool)
    ensures
        res == distinct_columns(columns@),
{
    let mut j: usize = 0;
    while j < columns.len()
        invariant
            j <= columns.len(),
            forall|a: int, b: int|
                0 <= a < b < j ==> (#[trigger] columns@[a]).name@ != (#[trigger] columns@[b]).name@,
        decreases columns.len() - j,
    {
        let mut i: usize = 0;
        while i < j
            invariant
                i <= j,
                j < columns.len(),
                forall|a: int| 0 <= a < i ==> (#[trigger] columns@[a]).name@ != columns@[j as int].name@,
            decreases j - i,
        {
            if columns[i].name.same(&columns[j].name) {
                return false;
            }
            i = i + 1;
        }
        j = j + 1;
    }
    true
}

/// A named stream with its shape. The shape never changes after creation.
#[derive(Debug)]
pub struct StreamModel {
    pub name: StreamName,
    pub shape: StreamShape,
}

impl StreamModel {
    /// The shape is well formed.
    pub open spec fn wf(self) -> bool {
        self.shape.wf()
    }

    /// A stream called `name` with the shape `shape`.
    pub fn new(name: StreamName, shape: StreamShape) -> (res: StreamModel)
        ensures
            res.name == name,
            res.shape == shape,
    {
        StreamModel { name, shape }
    }

    /// The name of the stream.
    pub fn name(&self) -> (res: &StreamName)
        ensures
            *res == self.name,
    {
        &self.name
    }

    /// The shape of the stream.
    pub fn shape(&self) -> (res: &StreamShape)
        ensures
            *res == self.shape,
    {
        &self.shape
    }
}

} // verus!
