//! Commands: what a compiled statement asks of the engine.

use std::sync::Arc;
use vstd::prelude::*;
use crate::name::PumpName;
use crate::pipeline::Pipeline;
use crate::pipeline_graph::has_pump;
use crate::pipeline_graph::has_stream;
use crate::pump_model::PumpModel;
use crate::pump_model::PumpState;
use crate::sink_writer_model::SinkWriterModel;
use crate::source_reader_model::SourceReaderModel;
use crate::stream_model::StreamModel;

verus! {

/// A change of the pipeline.
pub enum AlterPipelineCommand {
    /// `CREATE SOURCE STREAM`
    CreateSourceStream(Arc<StreamModel>),
    /// `CREATE SINK STREAM`
    CreateSinkStream(Arc<StreamModel>),
    /// `CREATE STREAM`
    CreateStream(Arc<StreamModel>),
    /// `CREATE PUMP ... AS SELECT ...`
    CreatePump(PumpModel),
    /// `CREATE SOURCE READER`
    CreateSourceReader(SourceReaderModel),
    /// `CREATE SINK WRITER`
    CreateSinkWriter(SinkWriterModel),
    /// `ALTER PUMP ... START` or `ALTER PUMP ... STOP`
    AlterPump { name: PumpName, state: PumpState },
}

/// What a statement compiles to.
pub enum Command {
    AlterPipeline(AlterPipelineCommand),
}

impl AlterPipelineCommand {
    /// The object the command carries is well formed.
    pub open spec fn wf(self) -> bool {
        match self {
            AlterPipelineCommand::CreateSourceStream(s) => s.wf(),
            AlterPipelineCommand::CreateSinkStream(s) => s.wf(),
            AlterPipelineCommand::CreateStream(s) => s.wf(),
            AlterPipelineCommand::CreatePump(p) => p.wf(),
            AlterPipelineCommand::CreateSourceReader(_) => true,
            AlterPipelineCommand::CreateSinkWriter(w) => w.wf(),
            AlterPipelineCommand::AlterPump { .. } => true,
        }
    }

    /// Whether the command creates an object.
    pub open spec fn creates(self) -> bool {
        !(self is AlterPump)
    }

    /// The name of the object that the command creates or alters.
    pub open spec fn object_name(self) -> Seq<char> {
        match self {
            AlterPipelineCommand::CreateSourceStream(s) => s.name@,
            AlterPipelineCommand::CreateSinkStream(s) => s.name@,
            AlterPipelineCommand::CreateStream(s) => s.name@,
            AlterPipelineCommand::CreatePump(p) => p.name@,
            AlterPipelineCommand::CreateSourceReader(r) => r.name@,
            AlterPipelineCommand::CreateSinkWriter(w) => w.name@,
            AlterPipelineCommand::AlterPump { name, .. } => name@,
        }
    }

    /// Whether the pipeline accepts the command: a created object takes a
    /// free name and finds the streams it refers to; an altered pump exists.
    pub open spec fn applies_to(self, pipeline: Pipeline) -> bool {
        let free = !pipeline.names().contains(self.object_name());
        let streams = pipeline.graph.streams@;
        match self {
            AlterPipelineCommand::CreateSourceStream(_) => free,
            AlterPipelineCommand::CreateSinkStream(_) => free,
            AlterPipelineCommand::CreateStream(_) => free,
            AlterPipelineCommand::CreatePump(p) => free && has_stream(streams, p.upstream_name()) && has_stream(
                streams,
                p.downstream_name(),
            ),
            AlterPipelineCommand::CreateSourceReader(r) => free && has_stream(streams, r.dest_stream@),
            AlterPipelineCommand::CreateSinkWriter(w) => free && has_stream(streams, w.from_stream@),
            AlterPipelineCommand::AlterPump { name, .. } => has_pump(pipeline.graph.pumps@, name@),
        }
    }
}

impl AlterPipelineCommand {
    /// Whether the object the command carries is well formed.
    pub fn is_valid(&self) -> (res: bool)
        ensures
            res == self.wf(),
    {
        match self {
            AlterPipelineCommand::CreateSourceStream(s) => s.shape.is_valid(),
            AlterPipelineCommand::CreateSinkStream(s) => s.shape.is_valid(),
            AlterPipelineCommand::CreateStream(s) => s.shape.is_valid(),
            AlterPipelineCommand::CreatePump(p) => {
                proof {
                    use_type_invariant(&*p.query_plan);
                }
                true
            },
            AlterPipelineCommand::CreateSourceReader(_) => true,
            AlterPipelineCommand::CreateSinkWriter(w) => w.is_valid(),
            AlterPipelineCommand::AlterPump { .. } => true,
        }
    }

    /// Whether the pipeline accepts the command.
    pub fn applies(&self, pipeline: &Pipeline) -> (res: bool)
        ensures
            res == self.applies_to(*pipeline),
    {
        let graph = pipeline.as_graph();
        match self {
            AlterPipelineCommand::CreateSourceStream(s) => !pipeline.is_taken(s.name.as_str()),
            AlterPipelineCommand::CreateSinkStream(s) => !pipeline.is_taken(s.name.as_str()),
            AlterPipelineCommand::CreateStream(s) => !pipeline.is_taken(s.name.as_str()),
            AlterPipelineCommand::CreatePump(p) => !pipeline.is_taken(p.name.as_str()) && graph.find_stream(
                p.upstream(),
            ).is_some() && graph.find_stream(p.downstream()).is_some(),
            AlterPipelineCommand::CreateSourceReader(r) => !pipeline.is_taken(r.name.as_str())
                && graph.find_stream(&r.dest_stream).is_some(),
            AlterPipelineCommand::CreateSinkWriter(w) => !pipeline.is_taken(w.name.as_str())
                && graph.find_stream(&w.from_stream).is_some(),
            AlterPipelineCommand::AlterPump { name, .. } => graph.find_pump(name).is_some(),
        }
    }
}

} // verus!
