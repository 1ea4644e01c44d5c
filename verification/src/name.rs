//! Identifiers of pipeline objects.
//!
//! Two names denote the same object when their texts are equal, so every
//! contract compares names by their view, a `Seq<char>`.

use vstd::prelude::*;
use vstd::string::StringExecFns;

verus! {

/// Whether two texts are equal.
pub fn same_text(a: &str, b: &str) -> (res: bool)
    ensures
        res == (a@ == b@),
{
    let x = String::from_str(a);
    let y = String::from_str(b);
    x == y
}

/// The name of a stream.
#[derive(Clone, Debug, PartialEq, Eq)]
pub struct StreamName(pub String);

impl View for StreamName {
    type V = Seq<char>;

    open spec fn view(&self) -> Seq<char> {
        self.0@
    }
}

impl StreamName {
    /// Wraps a text as the name of a stream.
    pub fn new(name: String) -> (res: Self)
        ensures
            res@ == name@,
            res.0 == name,
    {
        StreamName(name)
    }

    /// The text of the name.
    pub fn as_str(&self) -> (res: &str)
        ensures
            res@ == self@,
    {
        self.0.as_str()
    }

    /// Whether both names have the same text.
    pub fn same(&self, other: &Self) -> (res: bool)
        ensures
            res == (self@ == other@),
    {
        self.0 == other.0
    }

    /// A copy of the name.
    pub fn duplicate(&self) -> (res: Self)
        ensures
            res == *self,
    {
        StreamName(self.0.clone())
    }
}

/// The name of a pump.
#[derive(Clone, Debug, PartialEq, Eq)]
pub struct PumpName(pub String);

impl View for PumpName {
    type V = Seq<char>;

    open spec fn view(&self) -> Seq<char> {
        self.0@
    }
}

impl PumpName {
    /// Wraps a text as the name of a pump.
    pub fn new(name: String) -> (res: Self)
        ensures
            res@ == name@,
            res.0 == name,
    {
        PumpName(name)
    }

    /// The text of the name.
    pub fn as_str(&self) -> (res: &str)
        ensures
            res@ == self@,
    {
        self.0.as_str()
    }

    /// Whether both names have the same text.
    pub fn same(&self, other: &Self) -> (res: bool)
        ensures
            res == (self@ == other@),
    {
        self.0 == other.0
    }

    /// A copy of the name.
    pub fn duplicate(&self) -> (res: Self)
        ensures
            res == *self,
    {
        PumpName(self.0.clone())
    }
}

/// The name of an in-memory queue.
#[derive(Clone, Debug, PartialEq, Eq)]
pub struct QueueName(pub String);

impl View for QueueName {
    type V = Seq<char>;

    open spec fn view(&self) -> Seq<char> {
        self.0@
    }
}

impl QueueName {
    /// Wraps a text as the name of an in-memory queue.
    pub fn new(name: String) -> (res: Self)
        ensures
            res@ == name@,
            res.0 == name,
    {
        QueueName(name)
    }

    /// The text of the name.
    pub fn as_str(&self) -> (res: &str)
        ensures
            res@ == self@,
    {
        self.0.as_str()
    }

    /// Whether both names have the same text.
    pub fn same(&self, other: &Self) -> (res: bool)
        ensures
            res == (self@ == other@),
    {
        self.0 == other.0
    }

    /// A copy of the name.
    pub fn duplicate(&self) -> (res: Self)
        ensures
            res == *self,
    {
        QueueName(self.0.clone())
    }
}

/// The name of a column.
#[derive(Clone, Debug, PartialEq, Eq)]
pub struct ColumnName(pub String);

impl View for ColumnName {
    type V = Seq<char>;

    open spec fn view(&self) -> Seq<char> {
        self.0@
    }
}

impl ColumnName {
    /// Wraps a text as the name of a column.
    pub fn new(name: String) -> (res: Self)
        ensures
            res@ == name@,
            res.0 == name,
    {
        ColumnName(name)
    }

    /// The text of the name.
    pub fn as_str(&self) -> (res: &str)
        ensures
            res@ == self@,
    {
        self.0.as_str()
    }

    /// Whether both names have the same text.
    pub fn same(&self, other: &Self) -> (res: bool)
        ensures
            res == (self@ == other@),
    {
        self.0 == other.0
    }

    /// A copy of the name.
    pub fn duplicate(&self) -> (res: Self)
        ensures
            res == *self,
    {
        ColumnName(self.0.clone())
    }
}

/// The name of a source reader.
#[derive(Clone, Debug, PartialEq, Eq)]
pub struct SourceReaderName(pub String);

impl View for SourceReaderName {
    type V = Seq<char>;

    open spec fn view(&self) -> Seq<char> {
        self.0@
    }
}

impl SourceReaderName {
    /// Wraps a text as the name of a source reader.
    pub fn new(name: String) -> (res: Self)
        ensures
            res@ == name@,
            res.0 == name,
    {
        SourceReaderName(name)
    }

    /// The text of the name.
    pub fn as_str(&self) -> (res: &str)
        ensures
            res@ == self@,
    {
        self.0.as_str()
    }

    /// Whether both names have the same text.
    pub fn same(&self, other: &Self) -> (res: bool)
        ensures
            res == (self@ == other@),
    {
        self.0 == other.0
    }

    /// A copy of the name.
    pub fn duplicate(&self) -> (res: Self)
        ensures
            res == *self,
    {
        SourceReaderName(self.0.clone())
    }
}

/// The name of a sink writer.
#[derive(Clone, Debug, PartialEq, Eq)]
pub struct SinkWriterName(pub String);

impl View for SinkWriterName {
    type V = Seq<char>;

    open spec fn view(&self) -> Seq<char> {
        self.0@
    }
}

impl SinkWriterName {
    /// Wraps a text as the name of a sink writer.
    pub fn new(name: String) -> (res: Self)
        ensures
            res@ == name@,
            res.0 == name,
    {
        SinkWriterName(name)
    }

    /// The text of the name.
    pub fn as_str(&self) -> (res: &str)
        ensures
            res@ == self@,
    {
        self.0.as_str()
    }

    /// Whether both names have the same text.
    pub fn same(&self, other: &Self) -> (res: bool)
        ensures
            res == (self@ == other@),
    {
        self.0 == other.0
    }

    /// A copy of the name.
    pub fn duplicate(&self) -> (res: Self)
        ensures
            res == *self,
    {
        SinkWriterName(self.0.clone())
    }
}

} // verus!
