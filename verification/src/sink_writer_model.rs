//! Sink writers: where rows leave the pipeline.

use vstd::prelude::*;
use crate::error::SpringError;
use crate::name::QueueName;
use crate::name::SinkWriterName;
use crate::name::StreamName;
use crate::option::first_with_key;
use crate::option::has_key;
use crate::option::Options;

verus! {

/// The kinds of sink writer.
#[derive(Clone, Copy, Debug, PartialEq, Eq, Structural)]
pub enum SinkWriterType {
    /// Rows go to a named queue that the host drains.
    InMemoryQueue,
    /// Rows go to a remote peer.
    NetClient,
}

/// A sink writer: its name, its kind, the stream it drains and its options.
#[derive(Debug)]
pub struct SinkWriterModel {
    pub name: SinkWriterName,
    pub writer_type: SinkWriterType,
    pub from_stream: StreamName,
    pub options: Options,
}

impl SinkWriterModel {
    /// A writer to an in-memory queue names its queue in the option `NAME`.
    pub open spec fn wf(self) -> bool {
        self.writer_type == SinkWriterType::InMemoryQueue ==> has_key(self.options.entries@, "NAME"@)
    }

    /// The name of the queue that a writer to an in-memory queue feeds: the
    /// value of its first option `NAME`.
    pub open spec fn queue_text(self) -> Seq<char> {
        self.options.entries@[choose|i: int| first_with_key(self.options.entries@, "NAME"@, i)].value@
    }

    /// A sink writer that drains `from_stream`. Fails with `InvalidOption`
    /// exactly when it writes to an in-memory queue and no option `NAME`
    /// names the queue.
    pub fn new(name: SinkWriterName, writer_type: SinkWriterType, from_stream: StreamName, options: Options) -> (res:
        Result<SinkWriterModel, SpringError>)
        ensures
            res is Ok <==> (SinkWriterModel { name, writer_type, from_stream, options }).wf(),
            res matches Ok(m) ==> m == (SinkWriterModel { name, writer_type, from_stream, options }),
            res matches Err(e) ==> e == SpringError::InvalidOption,
    {
        if writer_type == SinkWriterType::InMemoryQueue {
            if options.get("NAME").is_err() {
                return Err(SpringError::InvalidOption);
            }
        }
        Ok(SinkWriterModel { name, writer_type, from_stream, options })
    }

    /// Whether the writer is well formed.
    pub fn is_valid(&self) -> (res: bool)
        ensures
            res == self.wf(),
    {
        match self.writer_type {
            SinkWriterType::InMemoryQueue => self.options.get("NAME").is_ok(),
            SinkWriterType::NetClient => true,
        }
    }

    /// The name of the writer.
    pub fn name(&self) -> (res: &SinkWriterName)
        ensures
            *res == self.name,
    {
        &self.name
    }

    /// The stream the writer drains.
    pub fn from_stream(&self) -> (res: &StreamName)
        ensures
            *res == self.from_stream,
    {
        &self.from_stream
    }

    /// The queue that a writer to an in-memory queue feeds: the value of its
    /// first option `NAME`. `None` for the other kinds.
    pub fn queue_name(&self) -> (res: Option<QueueName>)
        requires
            self.wf(),
        ensures
            res is Some <==> self.writer_type == SinkWriterType::InMemoryQueue,
            res matches Some(q) ==> q@ == self.queue_text(),
    {
        if self.writer_type == SinkWriterType::InMemoryQueue {
            match self.options.get("NAME") {
                Ok(v) => {
                    proof {
                        let entries = self.options.entries@;
                        let i = choose|i: int| first_with_key(entries, "NAME"@, i) && *v == entries[i].value;
                        let c = choose|c: int| first_with_key(entries, "NAME"@, c);
                        assert(first_with_key(entries, "NAME"@, c));
                        if c < i {
                            assert(entries[c].key@ != "NAME"@);
                        } else if i < c {
                            assert(entries[i].key@ != "NAME"@);
                        }
                    }
                    Some(QueueName::new(v.clone()))
                },
                Err(_) => None,
            }
        } else {
            None
        }
    }
}

} // verus!
