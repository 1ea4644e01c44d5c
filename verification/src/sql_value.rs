//! Typed value cells.

use vstd::prelude::*;

verus! {

/// The SQL types a column can have.
#[derive(Clone, Copy, Debug, PartialEq, Eq, Structural)]
pub enum SqlType {
    Integer,
    Text,
    Boolean,
    /// An instant, in nanoseconds since the Unix epoch.
    Timestamp,
}

/// One typed cell of a row or tuple.
#[derive(Clone, Debug, PartialEq, Eq)]
pub enum SqlValue {
    Null,
    Integer(i64),
    Text(String),
    Boolean(bool),
    /// Nanoseconds since the Unix epoch.
    Timestamp(i64),
}

/// What a cell holds, as a mathematical value.
pub enum SqlValueView {
    Null,
    Integer(int),
    Text(Seq<char>),
    Boolean(bool),
    Timestamp(int),
}

impl View for SqlValue {
    type V = SqlValueView;

    open spec fn view(&self) -> SqlValueView {
        match *self {
            SqlValue::Null => SqlValueView::Null,
            SqlValue::Integer(i) => SqlValueView::Integer(i as int),
            SqlValue::Text(s) => SqlValueView::Text(s@),
            SqlValue::Boolean(b) => SqlValueView::Boolean(b),
            SqlValue::Timestamp(t) => SqlValueView::Timestamp(t as int),
        }
    }
}

/// Lexicographic order of texts by code point: `a` comes strictly before `b`
/// when they agree on a prefix after which `a` ends or holds the smaller
/// character.
pub open spec fn text_lt(a: Seq<char>, b: Seq<char>) -> bool {
    exists|k: int|
        0 <= k <= a.len() && k < b.len() && #[trigger] a.take(k) == b.take(k) && (k == a.len() || (
        a[k] as int) < (b[k] as int))
}

/// The position of a value's type in the order of values of mixed types.
pub open spec fn type_rank(v: SqlValueView) -> int {
    match v {
        SqlValueView::Null => 0,
        SqlValueView::Boolean(_) => 1,
        SqlValueView::Integer(_) => 2,
        SqlValueView::Timestamp(_) => 3,
        SqlValueView::Text(_) => 4,
    }
}

/// The strict order in which grouped results are emitted: first by type,
/// then by value; `false` before `true`, texts lexicographically.
pub open spec fn value_lt(a: SqlValueView, b: SqlValueView) -> bool {
    if type_rank(a) != type_rank(b) {
        type_rank(a) < type_rank(b)
    } else {
        match (a, b) {
            (SqlValueView::Boolean(x), SqlValueView::Boolean(y)) => !x && y,
            (SqlValueView::Integer(x), SqlValueView::Integer(y)) => x < y,
            (SqlValueView::Timestamp(x), SqlValueView::Timestamp(y)) => x < y,
            (SqlValueView::Text(x), SqlValueView::Text(y)) => text_lt(x, y),
            _ => false,
        }
    }
}

/// Compares two texts lexicographically by code point.
pub fn text_precedes(a: &str, b: &str) -> (res: bool)
    ensures
        res == text_lt(a@, b@),
{
    let la = a.unicode_len();
    let lb = b.unicode_len();
    let mut i: usize = 0;
    while i < la && i < lb
        invariant
            la == a@.len(),
            lb == b@.len(),
            i <= la,
            i <= lb,
            a@.take(i as int) == b@.take(i as int),
        decreases la - i,
    {
        let ca = a.get_char(i);
        let cb = b.get_char(i);
        if ca != cb {
            proof {
                if (ca as int) < (cb as int) {
                    assert(a@.take(i as int) == b@.take(i as int));
                } else {
                    assert forall|k: int|
                        0 <= k <= a@.len() && k < b@.len() && #[trigger] a@.take(k) == b@.take(k)
                        implies !(k == a@.len() || (a@[k] as int) < (b@[k] as int)) by {
                        if k > i {
                            assert(a@.take(k)[i as int] == b@.take(k)[i as int]);
                        } else if k < i {
                            assert(a@.take(i as int)[k] == b@.take(i as int)[k]);
                        }
                    }
                }
            }
            return ca < cb;
        }
        proof {
            assert(a@.take(i + 1) =~= a@.take(i as int).push(ca));
            assert(b@.take(i + 1) =~= b@.take(i as int).push(cb));
        }
        i = i + 1;
    }
    proof {
        if la < lb {
            assert(a@.take(i as int) == b@.take(i as int));
        } else {
            assert forall|k: int|
                0 <= k <= a@.len() && k < b@.len() && #[trigger] a@.take(k) == b@.take(k)
                implies !(k == a@.len() || (a@[k] as int) < (b@[k] as int)) by {
                assert(a@.take(i as int)[k] == b@.take(i as int)[k]);
            }
        }
    }
    la < lb
}

impl SqlValue {
    /// The type of the value; `None` for NULL, which has every type.
    pub open spec fn type_of(self) -> Option<SqlType> {
        match self {
            SqlValue::Null => None,
            SqlValue::Integer(_) => Some(SqlType::Integer),
            SqlValue::Text(_) => Some(SqlType::Text),
            SqlValue::Boolean(_) => Some(SqlType::Boolean),
            SqlValue::Timestamp(_) => Some(SqlType::Timestamp),
        }
    }

    /// Whether the value may stand in a column of type `ty`: NULL only in a
    /// nullable column, any other value only in a column of its own type.
    pub open spec fn conforms(self, ty: SqlType, nullable: bool) -> bool {
        match self.type_of() {
            None => nullable,
            Some(t) => t == ty,
        }
    }

    /// The type of the value; `None` for NULL.
    pub fn sql_type(&self) -> (res: Option<SqlType>)
        ensures
            res == self.type_of(),
    {
        match self {
            SqlValue::Null => None,
            SqlValue::Integer(_) => Some(SqlType::Integer),
            SqlValue::Text(_) => Some(SqlType::Text),
            SqlValue::Boolean(_) => Some(SqlType::Boolean),
            SqlValue::Timestamp(_) => Some(SqlType::Timestamp),
        }
    }

    /// Tests whether the value may stand in a column of type `ty`.
    pub fn conforms_to(&self, ty: SqlType, nullable: bool) -> (res: bool)
        ensures
            res == self.conforms(ty, nullable),
    {
        match self.sql_type() {
            None => nullable,
            Some(t) => t == ty,
        }
    }

    /// A copy of the value.
    pub fn duplicate(&self) -> (res: SqlValue)
        ensures
            res == *self,
    {
        match self {
            SqlValue::Null => SqlValue::Null,
            SqlValue::Integer(i) => SqlValue::Integer(*i),
            SqlValue::Text(s) => SqlValue::Text(s.clone()),
            SqlValue::Boolean(b) => SqlValue::Boolean(*b),
            SqlValue::Timestamp(t) => SqlValue::Timestamp(*t),
        }
    }

    /// Whether both cells hold the same value.
    pub fn same(&self, other: &SqlValue) -> (res: bool)
        ensures
            res == (self@ == other@),
    {
        match (self, other) {
            (SqlValue::Null, SqlValue::Null) => true,
            (SqlValue::Integer(x), SqlValue::Integer(y)) => *x == *y,
            (SqlValue::Text(x), SqlValue::Text(y)) => *x == *y,
            (SqlValue::Boolean(x), SqlValue::Boolean(y)) => *x == *y,
            (SqlValue::Timestamp(x), SqlValue::Timestamp(y)) => *x == *y,
            _ => false,
        }
    }

    fn rank(&self) -> (res: u8)
        ensures
            res == type_rank(self@),
    {
        match self {
            SqlValue::Null => 0,
            SqlValue::Boolean(_) => 1,
            SqlValue::Integer(_) => 2,
            SqlValue::Timestamp(_) => 3,
            SqlValue::Text(_) => 4,
        }
    }

    /// Whether this value comes strictly before `other` in the emission
    /// order of grouped results.
    pub fn precedes(&self, other: &SqlValue) -> (res: bool)
        ensures
            res == value_lt(self@, other@),
    {
        let ra = self.rank();
        let rb = other.rank();
        if ra != rb {
            return ra < rb;
        }
        match (self, other) {
            (SqlValue::Boolean(x), SqlValue::Boolean(y)) => !*x && *y,
            (SqlValue::Integer(x), SqlValue::Integer(y)) => *x < *y,
            (SqlValue::Timestamp(x), SqlValue::Timestamp(y)) => *x < *y,
            (SqlValue::Text(x), SqlValue::Text(y)) => text_precedes(x.as_str(), y.as_str()),
            _ => false,
        }
    }
}

/// The size of a cell in bytes: eight for an integer or a timestamp, one for
/// a boolean, the length of its UTF-8 encoding for a text, none for NULL.
pub open spec fn value_bytes(v: SqlValue) -> nat {
    match v {
        SqlValue::Null => 0,
        SqlValue::Integer(_) => 8,
        SqlValue::Text(s) => (vstd::utf8::encode_utf8(s@).len() as usize) as nat,
        SqlValue::Boolean(_) => 1,
        SqlValue::Timestamp(_) => 8,
    }
}

/// The size of a list of cells in bytes.
pub open spec fn total_bytes(values: Seq<SqlValue>) -> nat
    decreases values.len(),
{
    if values.len() == 0 {
        0
    } else {
        total_bytes(values.drop_last()) + value_bytes(values.last())
    }
}

/// The size of a list of cells in bytes, or `u64::MAX` where it exceeds that.
pub fn byte_size(values: &Vec<SqlValue>) -> (res: u64)
    ensures
        res == (if total_bytes(values@) <= u64::MAX {
            total_bytes(values@)
        } else {
            u64::MAX as nat
        }),
{
    let mut acc: u64 = 0;
    let mut i: usize = 0;
    proof {
        assert(values@.take(0).len() == 0);
    }
    while i < values.len()
        invariant
            i <= values.len(),
            acc == (if total_bytes(values@.take(i as int)) <= u64::MAX {
                total_bytes(values@.take(i as int))
            } else {
                u64::MAX as nat
            }),
        decreases values.len() - i,
    {
        let size: u64 = match &values[i] {
            SqlValue::Null => 0,
            SqlValue::Integer(_) => 8,
            SqlValue::Text(s) => s.as_str().len() as u64,
            SqlValue::Boolean(_) => 1,
            SqlValue::Timestamp(_) => 8,
        };
        proof {
            assert(values@.take(i + 1).drop_last() =~= values@.take(i as int));
            assert(values@.take(i + 1).last() == values@[i as int]);
            assert(size == value_bytes(values@[i as int]));
        }
        acc = if acc > u64::MAX - size {
            u64::MAX
        } else {
            acc + size
        };
        i = i + 1;
    }
    proof {
        assert(values@.take(values@.len() as int) =~= values@);
    }
    acc
}

/// Copies a list of cells.
pub fn duplicate_values(values: &Vec<SqlValue>) -> (res: Vec<SqlValue>)
    ensures
        res@ == values@,
{
    let mut out: Vec<SqlValue> = Vec::new();
    let mut i: usize = 0;
    while i < values.len()
        invariant
            i <= values.len(),
            out@ == values@.take(i as int),
        decreases values.len() - i,
    {
        out.push(values[i].duplicate());
        proof {
            assert(values@.take(i + 1) =~= values@.take(i as int).push(values@[i as int]));
        }
        i = i + 1;
    }
    proof {
        assert(values@.take(values.len() as int) =~= values@);
    }
    out
}

/// Of two texts that differ, one comes before the other.
pub proof fn lemma_text_total(a: Seq<char>, b: Seq<char>, k: int)
    requires
        0 <= k <= a.len(),
        k <= b.len(),
        a.take(k) == b.take(k),
    ensures
        a == b || text_lt(a, b) || text_lt(b, a),
    decreases a.len() - k,
{
    if k == a.len() {
        if k == b.len() {
            assert(a.take(k) =~= a);
            assert(b.take(k) =~= b);
        } else {
            assert(a.take(k) == b.take(k));
        }
    } else if k == b.len() {
        assert(b.take(k) == a.take(k));
    } else if a[k] != b[k] {
        assert(a.take(k) == b.take(k));
        assert(b.take(k) == a.take(k));
        assert((a[k] as int) != (b[k] as int));
    } else {
        assert(a.take(k + 1) =~= a.take(k).push(a[k]));
        assert(b.take(k + 1) =~= b.take(k).push(b[k]));
        lemma_text_total(a, b, k + 1);
    }
}

/// Of two values that differ, one comes before the other.
pub proof fn lemma_value_total(a: SqlValueView, b: SqlValueView)
    ensures
        a == b || value_lt(a, b) || value_lt(b, a),
{
    if type_rank(a) == type_rank(b) {
        match (a, b) {
            (SqlValueView::Text(x), SqlValueView::Text(y)) => {
                assert(x.take(0) =~= y.take(0));
                lemma_text_total(x, y, 0);
            },
            _ => {},
        }
    }
}

} // verus!
