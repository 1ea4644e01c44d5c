//! Source readers: where rows enter the pipeline.

use vstd::prelude::*;
use crate::name::SourceReaderName;
use crate::name::StreamName;
use crate::option::Options;

verus! {

/// The kinds of source reader.
#[derive(Clone, Copy, Debug, PartialEq, Eq, Structural)]
pub enum SourceReaderType {
    NetClient,
    NetServer,
}

/// A source reader: its name, its kind, the stream it feeds and its options.
#[derive(Debug)]
pub struct SourceReaderModel {
    pub name: SourceReaderName,
    pub reader_type: SourceReaderType,
    pub dest_stream: StreamName,
    pub options: Options,
}

impl SourceReaderModel {
    /// A source reader that feeds `dest_stream`.
    pub fn new(name: SourceReaderName, reader_type: SourceReaderType, dest_stream: StreamName, options: Options) -> (res:
        SourceReaderModel)
        ensures
            res.name == name,
            res.reader_type == reader_type,
            res.dest_stream == dest_stream,
            res.options == options,
    {
        SourceReaderModel { name, reader_type, dest_stream, options }
    }

    /// The name of the reader.
    pub fn name(&self) -> (res: &SourceReaderName)
        ensures
            *res == self.name,
    {
        &self.name
    }

    /// The stream the reader feeds.
    pub fn dest_stream(&self) -> (res: &StreamName)
        ensures
            *res == self.dest_stream,
    {
        &self.dest_stream
    }
}

} // verus!
