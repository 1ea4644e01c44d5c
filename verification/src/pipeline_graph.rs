//! The pipeline graph: streams as nodes; pumps, source readers and sink
//! writers as edges.

use std::sync::Arc;
use vstd::prelude::*;
use crate::error::SpringError;
use crate::name::PumpName;
use crate::name::SinkWriterName;
use crate::name::SourceReaderName;
use crate::name::StreamName;
use crate::pump_model::PumpModel;
use crate::pump_model::PumpState;
use crate::row::share;
use crate::sink_writer_model::SinkWriterModel;
use crate::source_reader_model::SourceReaderModel;
use crate::stream_model::StreamModel;

verus! {

/// Whether some stream is called `name`.
pub open spec fn has_stream(streams: Seq<Arc<StreamModel>>, name: Seq<char>) -> bool {
    exists|i: int| 0 <= i < streams.len() && (#[trigger] streams[i]).name@ == name
}

/// Whether some pump is called `name`.
pub open spec fn has_pump(pumps: Seq<PumpModel>, name: Seq<char>) -> bool {
    exists|i: int| 0 <= i < pumps.len() && (#[trigger] pumps[i]).name@ == name
}

/// Whether some source reader is called `name`.
pub open spec fn has_source(sources: Seq<Arc<SourceReaderModel>>, name: Seq<char>) -> bool {
    exists|i: int| 0 <= i < sources.len() && (#[trigger] sources[i]).name@ == name
}

/// Whether some sink writer is called `name`.
pub open spec fn has_sink(sinks: Seq<Arc<SinkWriterModel>>, name: Seq<char>) -> bool {
    exists|i: int| 0 <= i < sinks.len() && (#[trigger] sinks[i]).name@ == name
}

/// A directed multigraph whose nodes are streams and whose edges are pumps
/// (from a stream to a stream), source readers (into a stream) and sink
/// writers (out of a stream).
pub struct PipelineGraph {
    pub streams: Vec<Arc<StreamModel>>,
    pub pumps: Vec<PumpModel>,
    pub sources: Vec<Arc<SourceReaderModel>>,
    pub sinks: Vec<Arc<SinkWriterModel>>,
}

impl PipelineGraph {
    /// Every stream is well formed and no two share a name.
    pub open spec fn streams_wf(self) -> bool {
        &&& forall|i: int| 0 <= i < self.streams@.len() ==> (#[trigger] self.streams@[i]).wf()
        &&& forall|i: int, j: int|
            0 <= i < j < self.streams@.len() ==> (#[trigger] self.streams@[i]).name@ != (
            #[trigger] self.streams@[j]).name@
    }

    /// Every pump is well formed and links two streams of the graph, and no
    /// two share a name.
    pub open spec fn pumps_wf(self) -> bool {
        &&& forall|i: int|
            0 <= i < self.pumps@.len() ==> (#[trigger] self.pumps@[i]).wf() && has_stream(
                self.streams@,
                self.pumps@[i].upstream_name(),
            ) && has_stream(self.streams@, self.pumps@[i].downstream_name())
        &&& forall|i: int, j: int|
            0 <= i < j < self.pumps@.len() ==> (#[trigger] self.pumps@[i]).name@ != (
            #[trigger] self.pumps@[j]).name@
    }

    /// Every source reader feeds a stream of the graph, and no two share a
    /// name.
    pub open spec fn sources_wf(self) -> bool {
        &&& forall|i: int|
            0 <= i < self.sources@.len() ==> has_stream(
                self.streams@,
                (#[trigger] self.sources@[i]).dest_stream@,
            )
        &&& forall|i: int, j: int|
            0 <= i < j < self.sources@.len() ==> (#[trigger] self.sources@[i]).name@ != (
            #[trigger] self.sources@[j]).name@
    }

    /// Every sink writer is well formed and drains a stream of the graph,
    /// and no two share a name.
    pub open spec fn sinks_wf(self) -> bool {
        &&& forall|i: int|
            0 <= i < self.sinks@.len() ==> (#[trigger] self.sinks@[i]).wf() && has_stream(
                self.streams@,
                self.sinks@[i].from_stream@,
            )
        &&& forall|i: int, j: int|
            0 <= i < j < self.sinks@.len() ==> (#[trigger] self.sinks@[i]).name@ != (
            #[trigger] self.sinks@[j]).name@
    }

    /// Every edge ends at streams of the graph, and names are distinct
    /// within each kind of object.
    pub open spec fn wf(self) -> bool {
        &&& self.streams_wf()
        &&& self.pumps_wf()
        &&& self.sources_wf()
        &&& self.sinks_wf()
    }

    /// Whether some object of the graph is called `name`.
    pub open spec fn object_named(self, name: Seq<char>) -> bool {
        ||| has_stream(self.streams@, name)
        ||| has_pump(self.pumps@, name)
        ||| has_source(self.sources@, name)
        ||| has_sink(self.sinks@, name)
    }

    /// A graph without nodes or edges.
    pub fn new() -> (res: PipelineGraph)
        ensures
            res.wf(),
            res.streams@.len() == 0,
            res.pumps@.len() == 0,
            res.sources@.len() == 0,
            res.sinks@.len() == 0,
    {
        PipelineGraph { streams: Vec::new(), pumps: Vec::new(), sources: Vec::new(), sinks: Vec::new() }
    }

    /// The position of the stream called `name`.
    pub fn find_stream(&self, name: &StreamName) -> (res: Option<usize>)
        ensures
            res matches Some(i) ==> i < self.streams@.len() && self.streams@[i as int].name@ == name@ && forall|
                k: int,
            | 0 <= k < i ==> (#[trigger] self.streams@[k]).name@ != name@,
            res is None ==> !has_stream(self.streams@, name@),
    {
        let mut i: usize = 0;
        while i < self.streams.len()
            invariant
                i <= self.streams.len(),
                forall|k: int| 0 <= k < i ==> (#[trigger] self.streams@[k]).name@ != name@,
            decreases self.streams.len() - i,
        {
            if self.streams[i].name.same(name) {
                return Some(i);
            }
            i = i + 1;
        }
        None
    }

    /// The position of the pump called `name`.
    pub fn find_pump(&self, name: &PumpName) -> (res: Option<usize>)
        ensures
            res matches Some(i) ==> i < self.pumps@.len() && self.pumps@[i as int].name@ == name@ && forall|
                k: int,
            | 0 <= k < i ==> (#[trigger] self.pumps@[k]).name@ != name@,
            res is None ==> !has_pump(self.pumps@, name@),
    {
        let mut i: usize = 0;
        while i < self.pumps.len()
            invariant
                i <= self.pumps.len(),
                forall|k: int| 0 <= k < i ==> (#[trigger] self.pumps@[k]).name@ != name@,
            decreases self.pumps.len() - i,
        {
            if self.pumps[i].name.same(name) {
                return Some(i);
            }
            i = i + 1;
        }
        None
    }

    /// The position of the source reader called `name`.
    pub fn find_source(&self, name: &SourceReaderName) -> (res: Option<usize>)
        ensures
            res matches Some(i) ==> i < self.sources@.len() && self.sources@[i as int].name@ == name@ && forall|
                k: int,
            | 0 <= k < i ==> (#[trigger] self.sources@[k]).name@ != name@,
            res is None ==> !has_source(self.sources@, name@),
    {
        let mut i: usize = 0;
        while i < self.sources.len()
            invariant
                i <= self.sources.len(),
                forall|k: int| 0 <= k < i ==> (#[trigger] self.sources@[k]).name@ != name@,
            decreases self.sources.len() - i,
        {
            if self.sources[i].name.same(name) {
                return Some(i);
            }
            i = i + 1;
        }
        None
    }

    /// The position of the sink writer called `name`.
    pub fn find_sink(&self, name: &SinkWriterName) -> (res: Option<usize>)
        ensures
            res matches Some(i) ==> i < self.sinks@.len() && self.sinks@[i as int].name@ == name@ && forall|
                k: int,
            | 0 <= k < i ==> (#[trigger] self.sinks@[k]).name@ != name@,
            res is None ==> !has_sink(self.sinks@, name@),
    {
        let mut i: usize = 0;
        while i < self.sinks.len()
            invariant
                i <= self.sinks.len(),
                forall|k: int| 0 <= k < i ==> (#[trigger] self.sinks@[k]).name@ != name@,
            decreases self.sinks.len() - i,
        {
            if self.sinks[i].name.same(name) {
                return Some(i);
            }
            i = i + 1;
        }
        None
    }

    /// The stream called `stream`. Fails with `Sql` exactly when the graph
    /// has no such stream.
    pub fn get_stream(&self, stream: &StreamName) -> (res: Result<Arc<StreamModel>, SpringError>)
        ensures
            res is Ok <==> has_stream(self.streams@, stream@),
            res matches Ok(model) ==> model.name@ == stream@ && exists|i: int|
                0 <= i < self.streams@.len() && #[trigger] self.streams@[i] == model,
            res matches Err(e) ==> e == SpringError::Sql,
    {
        match self.find_stream(stream) {
            Some(i) => Ok(share(&self.streams[i])),
            None => Err(SpringError::Sql),
        }
    }

    /// Adds a stream. Fails with `Sql`, changing nothing, exactly when a
    /// stream of that name exists.
    pub fn add_stream(&mut self, stream: Arc<StreamModel>) -> (res: Result<(), SpringError>)
        requires
            old(self).wf(),
            stream.wf(),
        ensures
            final(self).wf(),
            res is Ok <==> !has_stream(old(self).streams@, stream.name@),
            res is Ok ==> final(self).streams@ == old(self).streams@.push(stream),
            res matches Err(e) ==> e == SpringError::Sql && *final(self) == *old(self),
            final(self).pumps@ == old(self).pumps@,
            final(self).sources@ == old(self).sources@,
            final(self).sinks@ == old(self).sinks@,
    {
        if self.find_stream(&stream.name).is_some() {
            return Err(SpringError::Sql);
        }
        let ghost before = self.streams@;
        self.streams.push(stream);
        proof {
            let after = self.streams@;
            assert forall|name: Seq<char>| has_stream(before, name) implies has_stream(after, name) by {
                let i = choose|i: int| 0 <= i < before.len() && (#[trigger] before[i]).name@ == name;
                assert(after[i].name@ == name);
            }
            assert forall|i: int, j: int| 0 <= i < j < after.len() implies (#[trigger] after[i]).name@ != (
            #[trigger] after[j]).name@ by {
                if j < before.len() {
                    assert(before[i].name@ != before[j].name@);
                } else {
                    assert(before[i].name@ != stream.name@);
                }
            }
            assert forall|i: int| 0 <= i < after.len() implies (#[trigger] after[i]).wf() by {
                if i < before.len() {
                    assert(before[i].wf());
                }
            }
        }
        Ok(())
    }

    /// Adds a pump, stopped whatever the model says: a pump runs only once
    /// it was started. Fails with `Sql`, changing nothing, exactly when a
    /// pump of that name exists or the graph lacks the stream the pump reads
    /// or the stream it writes.
    pub fn add_pump(&mut self, pump: PumpModel) -> (res: Result<(), SpringError>)
        requires
            old(self).wf(),
            pump.wf(),
        ensures
            final(self).wf(),
            res is Ok <==> !has_pump(old(self).pumps@, pump.name@) && has_stream(
                old(self).streams@,
                pump.upstream_name(),
            ) && has_stream(old(self).streams@, pump.downstream_name()),
            res is Ok ==> final(self).pumps@ == old(self).pumps@.push(
                PumpModel { state: PumpState::Stopped, ..pump },
            ),
            res matches Err(e) ==> e == SpringError::Sql && *final(self) == *old(self),
            final(self).streams@ == old(self).streams@,
            final(self).sources@ == old(self).sources@,
            final(self).sinks@ == old(self).sinks@,
    {
        if self.find_pump(&pump.name).is_some() {
            return Err(SpringError::Sql);
        }
        if self.find_stream(pump.upstream()).is_none() {
            return Err(SpringError::Sql);
        }
        if self.find_stream(pump.downstream()).is_none() {
            return Err(SpringError::Sql);
        }
        let ghost before = self.pumps@;
        let mut pump = pump;
        pump.state = PumpState::Stopped;
        self.pumps.push(pump);
        proof {
            let after = self.pumps@;
            assert forall|i: int, j: int| 0 <= i < j < after.len() implies (#[trigger] after[i]).name@ != (
            #[trigger] after[j]).name@ by {
                if j < before.len() {
                    assert(before[i].name@ != before[j].name@);
                } else {
                    assert(before[i].name@ != pump.name@);
                }
            }
            assert forall|i: int| 0 <= i < after.len() implies (#[trigger] after[i]).wf() && has_stream(
                self.streams@,
                after[i].upstream_name(),
            ) && has_stream(self.streams@, after[i].downstream_name()) by {
                if i < before.len() {
                    assert(before[i].wf());
                }
            }
        }
        Ok(())
    }

    /// Adds a source reader. Fails with `Sql`, changing nothing, exactly
    /// when a source reader of that name exists or the graph lacks the
    /// stream it feeds.
    pub fn add_source_reader(&mut self, source_reader: SourceReaderModel) -> (res: Result<(), SpringError>)
        requires
            old(self).wf(),
        ensures
            final(self).wf(),
            res is Ok <==> !has_source(old(self).sources@, source_reader.name@) && has_stream(
                old(self).streams@,
                source_reader.dest_stream@,
            ),
            res is Ok ==> final(self).sources@.len() == old(self).sources@.len() + 1 && final(self).sources@.drop_last() == old(self).sources@ && *final(self).sources@.last() == source_reader,
            res matches Err(e) ==> e == SpringError::Sql && *final(self) == *old(self),
            final(self).streams@ == old(self).streams@,
            final(self).pumps@ == old(self).pumps@,
            final(self).sinks@ == old(self).sinks@,
    {
        if self.find_source(&source_reader.name).is_some() {
            return Err(SpringError::Sql);
        }
        if self.find_stream(&source_reader.dest_stream).is_none() {
            return Err(SpringError::Sql);
        }
        let ghost before = self.sources@;
        self.sources.push(Arc::new(source_reader));
        proof {
            let after = self.sources@;
            assert(after.drop_last() =~= before);
            assert forall|i: int, j: int| 0 <= i < j < after.len() implies (#[trigger] after[i]).name@ != (
            #[trigger] after[j]).name@ by {
                if j < before.len() {
                    assert(before[i].name@ != before[j].name@);
                } else {
                    assert(before[i].name@ != source_reader.name@);
                }
            }
            assert forall|i: int| 0 <= i < after.len() implies has_stream(
                self.streams@,
                (#[trigger] after[i]).dest_stream@,
            ) by {
                if i < before.len() {
                    assert(has_stream(self.streams@, before[i].dest_stream@));
                }
            }
        }
        Ok(())
    }

    /// Adds a sink writer. Fails with `Sql`, changing nothing, exactly when
    /// a sink writer of that name exists or the graph lacks the stream it
    /// drains.
    pub fn add_sink_writer(&mut self, sink_writer: SinkWriterModel) -> (res: Result<(), SpringError>)
        requires
            old(self).wf(),
            sink_writer.wf(),
        ensures
            final(self).wf(),
            res is Ok <==> !has_sink(old(self).sinks@, sink_writer.name@) && has_stream(
                old(self).streams@,
                sink_writer.from_stream@,
            ),
            res is Ok ==> final(self).sinks@.len() == old(self).sinks@.len() + 1 && final(self).sinks@.drop_last() == old(self).sinks@ && *final(self).sinks@.last() == sink_writer,
            res matches Err(e) ==> e == SpringError::Sql && *final(self) == *old(self),
            final(self).streams@ == old(self).streams@,
            final(self).pumps@ == old(self).pumps@,
            final(self).sources@ == old(self).sources@,
    {
        if self.find_sink(&sink_writer.name).is_some() {
            return Err(SpringError::Sql);
        }
        if self.find_stream(&sink_writer.from_stream).is_none() {
            return Err(SpringError::Sql);
        }
        let ghost before = self.sinks@;
        self.sinks.push(Arc::new(sink_writer));
        proof {
            let after = self.sinks@;
            assert(after.drop_last() =~= before);
            assert forall|i: int, j: int| 0 <= i < j < after.len() implies (#[trigger] after[i]).name@ != (
            #[trigger] after[j]).name@ by {
                if j < before.len() {
                    assert(before[i].name@ != before[j].name@);
                } else {
                    assert(before[i].name@ != sink_writer.name@);
                }
            }
            assert forall|i: int| 0 <= i < after.len() implies (#[trigger] after[i]).wf() && has_stream(
                self.streams@,
                after[i].from_stream@,
            ) by {
                if i < before.len() {
                    assert(before[i].wf());
                }
            }
        }
        Ok(())
    }

    /// Puts the pump called `name` into the given state. Fails with `Sql`,
    /// changing nothing, exactly when the graph has no such pump.
    pub fn set_pump_state(&mut self, name: &PumpName, state: PumpState) -> (res: Result<(), SpringError>)
        requires
            old(self).wf(),
        ensures
            final(self).wf(),
            res is Ok <==> has_pump(old(self).pumps@, name@),
            res is Ok ==> exists|i: int|
                0 <= i < old(self).pumps@.len() && (#[trigger] old(self).pumps@[i]).name@ == name@ && final(self).pumps@ == old(self).pumps@.update(i, PumpModel { state, ..old(self).pumps@[i] }),
            res matches Err(e) ==> e == SpringError::Sql && *final(self) == *old(self),
            final(self).streams@ == old(self).streams@,
            final(self).sources@ == old(self).sources@,
            final(self).sinks@ == old(self).sinks@,
    {
        match self.find_pump(name) {
            None => Err(SpringError::Sql),
            Some(i) => {
                let ghost before = self.pumps@;
                let next = self.pumps[i].with_state(state);
                self.pumps[i] = next;
                proof {
                    let after = self.pumps@;
                    assert(after =~= before.update(i as int, next));
                    assert forall|a: int, b: int| 0 <= a < b < after.len() implies (#[trigger] after[a]).name@ != (
                    #[trigger] after[b]).name@ by {
                        assert(before[a].name@ != before[b].name@);
                    }
                    assert forall|a: int| 0 <= a < after.len() implies (#[trigger] after[a]).wf() && has_stream(
                        self.streams@,
                        after[a].upstream_name(),
                    ) && has_stream(self.streams@, after[a].downstream_name()) by {
                        assert(before[a].wf());
                    }
                }
                Ok(())
            },
        }
    }

    /// Every source reader, in the order of creation.
    pub fn all_sources(&self) -> (res: Vec<&SourceReaderModel>)
        ensures
            res@.len() == self.sources@.len(),
            forall|i: int| 0 <= i < res@.len() ==> *(#[trigger] res@[i]) == *self.sources@[i],
    {
        let mut out: Vec<&SourceReaderModel> = Vec::new();
        let mut i: usize = 0;
        while i < self.sources.len()
            invariant
                i <= self.sources.len(),
                out@.len() == i,
                forall|k: int| 0 <= k < i ==> *(#[trigger] out@[k]) == *self.sources@[k],
            decreases self.sources.len() - i,
        {
            let model: &SourceReaderModel = &self.sources[i];
            out.push(model);
            i = i + 1;
        }
        out
    }

    /// Every sink writer, in the order of creation.
    pub fn all_sinks(&self) -> (res: Vec<&SinkWriterModel>)
        ensures
            res@.len() == self.sinks@.len(),
            forall|i: int| 0 <= i < res@.len() ==> *(#[trigger] res@[i]) == *self.sinks@[i],
    {
        let mut out: Vec<&SinkWriterModel> = Vec::new();
        let mut i: usize = 0;
        while i < self.sinks.len()
            invariant
                i <= self.sinks.len(),
                out@.len() == i,
                forall|k: int| 0 <= k < i ==> *(#[trigger] out@[k]) == *self.sinks@[k],
            decreases self.sinks.len() - i,
        {
            let model: &SinkWriterModel = &self.sinks[i];
            out.push(model);
            i = i + 1;
        }
        out
    }

    /// A copy of the graph that shares its models with this one.
    pub fn duplicate(&self) -> (res: PipelineGraph)
        ensures
            res.streams@ == self.streams@,
            res.pumps@ == self.pumps@,
            res.sources@ == self.sources@,
            res.sinks@ == self.sinks@,
    {
        let mut streams: Vec<Arc<StreamModel>> = Vec::new();
        let mut i: usize = 0;
        while i < self.streams.len()
            invariant
                i <= self.streams.len(),
                streams@ == self.streams@.take(i as int),
            decreases self.streams.len() - i,
        {
            streams.push(share(&self.streams[i]));
            proof {
                assert(self.streams@.take(i + 1) =~= self.streams@.take(i as int).push(self.streams@[i as int]));
            }
            i = i + 1;
        }
        let mut pumps: Vec<PumpModel> = Vec::new();
        let mut i: usize = 0;
        while i < self.pumps.len()
            invariant
                i <= self.pumps.len(),
                pumps@ == self.pumps@.take(i as int),
            decreases self.pumps.len() - i,
        {
            pumps.push(self.pumps[i].duplicate());
            proof {
                assert(self.pumps@.take(i + 1) =~= self.pumps@.take(i as int).push(self.pumps@[i as int]));
            }
            i = i + 1;
        }
        let mut sources: Vec<Arc<SourceReaderModel>> = Vec::new();
        let mut i: usize = 0;
        while i < self.sources.len()
            invariant
                i <= self.sources.len(),
                sources@ == self.sources@.take(i as int),
            decreases self.sources.len() - i,
        {
            sources.push(share(&self.sources[i]));
            proof {
                assert(self.sources@.take(i + 1) =~= self.sources@.take(i as int).push(self.sources@[i as int]));
            }
            i = i + 1;
        }
        let mut sinks: Vec<Arc<SinkWriterModel>> = Vec::new();
        let mut i: usize = 0;
        while i < self.sinks.len()
            invariant
                i <= self.sinks.len(),
                sinks@ == self.sinks@.take(i as int),
            decreases self.sinks.len() - i,
        {
            sinks.push(share(&self.sinks[i]));
            proof {
                assert(self.sinks@.take(i + 1) =~= self.sinks@.take(i as int).push(self.sinks@[i as int]));
            }
            i = i + 1;
        }
        proof {
            assert(self.streams@.take(self.streams@.len() as int) =~= self.streams@);
            assert(self.pumps@.take(self.pumps@.len() as int) =~= self.pumps@);
            assert(self.sources@.take(self.sources@.len() as int) =~= self.sources@);
            assert(self.sinks@.take(self.sinks@.len() as int) =~= self.sinks@);
        }
        PipelineGraph { streams, pumps, sources, sinks }
    }
}

} // verus!
