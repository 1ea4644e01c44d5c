//! The pipeline: the running topology of an engine, as a versioned value.

use std::sync::Arc;
use vstd::prelude::*;
use vstd::string::StringExecFns;
use crate::error::SpringError;
use crate::name::same_text;
use crate::name::PumpName;
use crate::name::StreamName;
use crate::pipeline_graph::has_pump;
use crate::pipeline_graph::has_stream;
use crate::pipeline_graph::PipelineGraph;
use crate::pump_model::PumpModel;
use crate::pump_model::PumpState;
use crate::sink_writer_model::SinkWriterModel;
use crate::source_reader_model::SourceReaderModel;
use crate::stream_model::StreamModel;

verus! {

/// The version of a pipeline: it grows by one with every mutation.
#[derive(Clone, Copy, Debug, PartialEq, Eq, Structural)]
pub struct PipelineVersion(pub u64);

impl PipelineVersion {
    /// The version of a pipeline that was never changed.
    pub fn new() -> (res: PipelineVersion)
        ensures
            res.0 == 1,
    {
        PipelineVersion(1)
    }

    /// Moves on to the next version.
    pub fn up(&mut self)
        requires
            old(self).0 < u64::MAX,
        ensures
            final(self).0 == old(self).0 + 1,
    {
        self.0 = self.0 + 1;
    }
}

/// Whether the list holds the text `name`.
pub open spec fn has_name(names: Seq<String>, name: Seq<char>) -> bool {
    exists|i: int| 0 <= i < names.len() && (#[trigger] names[i])@ == name
}

/// The streams, pumps, source readers and sink writers of an engine, with
/// the names they took and the version of the whole.
pub struct Pipeline {
    pub version: PipelineVersion,
    pub object_names: Vec<String>,
    pub graph: PipelineGraph,
}

/// Whether a mutator that adds an object called `name` led the pipeline
/// from `pre` to `post` with the outcome `res`: success takes the name and
/// raises the version by one; failure leaves the pipeline as it was.
pub open spec fn mutated(pre: Pipeline, name: Seq<char>, res: Result<(), SpringError>, post: Pipeline) -> bool {
    match res {
        Ok(_) => post.version.0 == pre.version.0 + 1 && post.names() == pre.names().insert(name),
        Err(e) => post == pre && (e == SpringError::Sql || e == SpringError::Unavailable),
    }
}

impl Pipeline {
    /// The names taken by the objects of the pipeline.
    pub open spec fn names(self) -> Set<Seq<char>> {
        Set::new(|name: Seq<char>| has_name(self.object_names@, name))
    }

    /// The graph is well formed, no name is listed twice, and every object
    /// of the graph has its name listed.
    pub open spec fn wf(self) -> bool {
        &&& self.graph.wf()
        &&& forall|i: int, j: int|
            0 <= i < j < self.object_names@.len() ==> (#[trigger] self.object_names@[i])@ != (
            #[trigger] self.object_names@[j])@
        &&& forall|name: Seq<char>| #[trigger] self.graph.object_named(name) ==> self.names().contains(name)
    }

    /// A pipeline without objects.
    pub fn new(version: PipelineVersion) -> (res: Pipeline)
        ensures
            res.wf(),
            res.version == version,
            res.names() == Set::<Seq<char>>::empty(),
            res.graph.streams@.len() == 0,
            res.graph.pumps@.len() == 0,
            res.graph.sources@.len() == 0,
            res.graph.sinks@.len() == 0,
    {
        let res = Pipeline { version, object_names: Vec::new(), graph: PipelineGraph::new() };
        proof {
            assert(res.names() =~= Set::<Seq<char>>::empty());
        }
        res
    }

    /// The version of the pipeline.
    pub fn version(&self) -> (res: PipelineVersion)
        ensures
            res == self.version,
    {
        self.version
    }

    /// The graph of the pipeline.
    pub fn as_graph(&self) -> (res: &PipelineGraph)
        ensures
            *res == self.graph,
    {
        &self.graph
    }

    /// The stream called `stream`. Fails with `Sql` exactly when the
    /// pipeline has no such stream.
    pub fn get_stream(&self, stream: &StreamName) -> (res: Result<Arc<StreamModel>, SpringError>)
        ensures
            res is Ok <==> has_stream(self.graph.streams@, stream@),
            res matches Ok(model) ==> model.name@ == stream@ && exists|i: int|
                0 <= i < self.graph.streams@.len() && #[trigger] self.graph.streams@[i] == model,
            res matches Err(e) ==> e == SpringError::Sql,
    {
        self.graph.get_stream(stream)
    }

    /// Adds a pump. The pump joins the graph stopped, its name is taken
    /// and the version grows by one. Fails, changing nothing, with `Sql`
    /// exactly when the name is taken or the pipeline lacks the stream the
    /// pump reads or the stream it writes, and else with `Unavailable`
    /// exactly when the pipeline has run out of versions.
    pub fn add_pump(&mut self, pump: PumpModel) -> (res: Result<(), SpringError>)
        requires
            old(self).wf(),
            pump.wf(),
        ensures
            final(self).wf(),
            mutated(*old(self), pump.name@, res, *final(self)),
            res is Ok <==> !old(self).names().contains(pump.name@) && has_stream(
                old(self).graph.streams@,
                pump.upstream_name(),
            ) && has_stream(old(self).graph.streams@, pump.downstream_name()) && old(self).version.0
                < u64::MAX,
            res matches Err(e) ==> (e == SpringError::Unavailable <==> !old(self).names().contains(pump.name@)
                && has_stream(old(self).graph.streams@, pump.upstream_name()) && has_stream(
                old(self).graph.streams@,
                pump.downstream_name(),
            )),
            res is Ok ==> final(self).graph.pumps@ == old(self).graph.pumps@.push(
                PumpModel { state: PumpState::Stopped, ..pump },
            ) && final(self).graph.streams@ == old(self).graph.streams@ && final(self).graph.sources@ == old(self).graph.sources@ && final(self).graph.sinks@ == old(self).graph.sinks@,
    {
        if self.is_taken(pump.name().as_str()) {
            return Err(SpringError::Sql);
        }
        if self.graph.find_stream(pump.upstream()).is_none() || self.graph.find_stream(
            pump.downstream(),
        ).is_none() {
            return Err(SpringError::Sql);
        }
        if self.version.0 == u64::MAX {
            return Err(SpringError::Unavailable);
        }
        let ghost named = pump.name@;
        proof {
            assert(self.graph.object_named(named) ==> self.names().contains(named));
        }
        let reserved = self.register_name(pump.name().as_str());
        let attached = self.graph.add_pump(pump);
        self.update_version();
        proof {
            assert(reserved is Ok && attached is Ok);
            self.lemma_objects_named(*old(self), named);
        }
        Ok(())
    }

    /// Adds a stream. The stream joins the graph, its name is taken and
    /// the version grows by one. Fails, changing nothing, with `Sql`
    /// exactly when the name is taken, and else with `Unavailable` exactly
    /// when the pipeline has run out of versions.
    pub fn add_stream(&mut self, stream: Arc<StreamModel>) -> (res: Result<(), SpringError>)
        requires
            old(self).wf(),
            stream.wf(),
        ensures
            final(self).wf(),
            mutated(*old(self), stream.name@, res, *final(self)),
            res is Ok <==> !old(self).names().contains(stream.name@) && old(self).version.0 < u64::MAX,
            res matches Err(e) ==> (e == SpringError::Unavailable <==> !old(self).names().contains(
                stream.name@,
            )),
            res is Ok ==> final(self).graph.streams@ == old(self).graph.streams@.push(stream) && final(self).graph.pumps@ == old(self).graph.pumps@ && final(self).graph.sources@ == old(self).graph.sources@ && final(self).graph.sinks@ == old(self).graph.sinks@,
    {
        if self.is_taken(stream.name().as_str()) {
            return Err(SpringError::Sql);
        }
        if self.version.0 == u64::MAX {
            return Err(SpringError::Unavailable);
        }
        let ghost named = stream.name@;
        proof {
            assert(self.graph.object_named(named) ==> self.names().contains(named));
        }
        let reserved = self.register_name(stream.name().as_str());
        let attached = self.graph.add_stream(stream);
        self.update_version();
        proof {
            assert(reserved is Ok && attached is Ok);
            self.lemma_objects_named(*old(self), named);
        }
        Ok(())
    }

    /// Adds a source reader. The reader joins the graph, its name is taken
    /// and the version grows by one. Fails, changing nothing, with `Sql`
    /// exactly when the name is taken or the pipeline lacks the stream the
    /// reader feeds, and else with `Unavailable` exactly when the pipeline
    /// has run out of versions.
    pub fn add_source_reader(&mut self, source_reader: SourceReaderModel) -> (res: Result<(), SpringError>)
        requires
            old(self).wf(),
        ensures
            final(self).wf(),
            mutated(*old(self), source_reader.name@, res, *final(self)),
            res is Ok <==> !old(self).names().contains(source_reader.name@) && has_stream(
                old(self).graph.streams@,
                source_reader.dest_stream@,
            ) && old(self).version.0 < u64::MAX,
            res matches Err(e) ==> (e == SpringError::Unavailable <==> !old(self).names().contains(
                source_reader.name@,
            ) && has_stream(old(self).graph.streams@, source_reader.dest_stream@)),
            res is Ok ==> final(self).graph.sources@.len() == old(self).graph.sources@.len() + 1 && final(self).graph.sources@.drop_last() == old(self).graph.sources@ && *final(self).graph.sources@.last()
                == source_reader && final(self).graph.streams@ == old(self).graph.streams@ && final(self).graph.pumps@ == old(self).graph.pumps@ && final(self).graph.sinks@ == old(self).graph.sinks@,
    {
        if self.is_taken(source_reader.name().as_str()) {
            return Err(SpringError::Sql);
        }
        if self.graph.find_stream(source_reader.dest_stream()).is_none() {
            return Err(SpringError::Sql);
        }
        if self.version.0 == u64::MAX {
            return Err(SpringError::Unavailable);
        }
        let ghost named = source_reader.name@;
        let ghost before = self.graph.sources@;
        proof {
            assert(self.graph.object_named(named) ==> self.names().contains(named));
        }
        let reserved = self.register_name(source_reader.name().as_str());
        let attached = self.graph.add_source_reader(source_reader);
        self.update_version();
        proof {
            assert(reserved is Ok && attached is Ok);
            assert(self.graph.sources@ =~= before.push(self.graph.sources@.last()));
            self.lemma_objects_named(*old(self), named);
        }
        Ok(())
    }

    /// Adds a sink writer. The writer joins the graph, its name is taken
    /// and the version grows by one. Fails, changing nothing, with `Sql`
    /// exactly when the name is taken or the pipeline lacks the stream the
    /// writer drains, and else with `Unavailable` exactly when the pipeline
    /// has run out of versions.
    pub fn add_sink_writer(&mut self, sink_writer: SinkWriterModel) -> (res: Result<(), SpringError>)
        requires
            old(self).wf(),
            sink_writer.wf(),
        ensures
            final(self).wf(),
            mutated(*old(self), sink_writer.name@, res, *final(self)),
            res is Ok <==> !old(self).names().contains(sink_writer.name@) && has_stream(
                old(self).graph.streams@,
                sink_writer.from_stream@,
            ) && old(self).version.0 < u64::MAX,
            res matches Err(e) ==> (e == SpringError::Unavailable <==> !old(self).names().contains(
                sink_writer.name@,
            ) && has_stream(old(self).graph.streams@, sink_writer.from_stream@)),
            res is Ok ==> final(self).graph.sinks@.len() == old(self).graph.sinks@.len() + 1 && final(self).graph.sinks@.drop_last() == old(self).graph.sinks@ && *final(self).graph.sinks@.last()
                == sink_writer && final(self).graph.streams@ == old(self).graph.streams@ && final(self).graph.pumps@ == old(self).graph.pumps@ && final(self).graph.sources@ == old(self).graph.sources@,
    {
        if self.is_taken(sink_writer.name().as_str()) {
            return Err(SpringError::Sql);
        }
        if self.graph.find_stream(sink_writer.from_stream()).is_none() {
            return Err(SpringError::Sql);
        }
        if self.version.0 == u64::MAX {
            return Err(SpringError::Unavailable);
        }
        let ghost named = sink_writer.name@;
        let ghost before = self.graph.sinks@;
        proof {
            assert(self.graph.object_named(named) ==> self.names().contains(named));
        }
        let reserved = self.register_name(sink_writer.name().as_str());
        let attached = self.graph.add_sink_writer(sink_writer);
        self.update_version();
        proof {
            assert(reserved is Ok && attached is Ok);
            assert(self.graph.sinks@ =~= before.push(self.graph.sinks@.last()));
            self.lemma_objects_named(*old(self), named);
        }
        Ok(())
    }

    /// Starts or stops the pump called `name`; the version grows by one.
    /// Fails, changing nothing, with `Sql` exactly when the pipeline has no
    /// such pump, and else with `Unavailable` exactly when the pipeline has
    /// run out of versions.
    pub fn alter_pump(&mut self, name: &PumpName, state: PumpState) -> (res: Result<(), SpringError>)
        requires
            old(self).wf(),
        ensures
            final(self).wf(),
            res is Ok <==> has_pump(old(self).graph.pumps@, name@) && old(self).version.0 < u64::MAX,
            res matches Err(e) ==> *final(self) == *old(self) && e == (if has_pump(
                old(self).graph.pumps@,
                name@,
            ) {
                SpringError::Unavailable
            } else {
                SpringError::Sql
            }),
            res is Ok ==> final(self).version.0 == old(self).version.0 + 1 && final(self).names() == old(self).names() && final(self).graph.streams@ == old(self).graph.streams@ && final(self).graph.sources@ == old(self).graph.sources@ && final(self).graph.sinks@ == old(self).graph.sinks@ && exists|i: int|
                0 <= i < old(self).graph.pumps@.len() && (#[trigger] old(self).graph.pumps@[i]).name@ == name@
                    && final(self).graph.pumps@ == old(self).graph.pumps@.update(
                    i,
                    PumpModel { state, ..old(self).graph.pumps@[i] },
                ),
    {
        if self.graph.find_pump(name).is_none() {
            return Err(SpringError::Sql);
        }
        if self.version.0 == u64::MAX {
            return Err(SpringError::Unavailable);
        }
        let altered = self.graph.set_pump_state(name, state);
        self.update_version();
        proof {
            assert(altered is Ok);
            let before = old(self).graph.pumps@;
            let after = self.graph.pumps@;
            assert forall|n: Seq<char>| has_pump(after, n) implies has_pump(before, n) by {
                let k = choose|k: int| 0 <= k < after.len() && (#[trigger] after[k]).name@ == n;
                assert(before[k].name@ == n);
            }
            assert forall|n: Seq<char>| #[trigger] self.graph.object_named(n) implies self.names().contains(
                n,
            ) by {
                assert(old(self).graph.object_named(n));
            }
        }
        Ok(())
    }

    /// Every source reader, in the order of creation.
    pub fn all_sources(&self) -> (res: Vec<&SourceReaderModel>)
        ensures
            res@.len() == self.graph.sources@.len(),
            forall|i: int| 0 <= i < res@.len() ==> *(#[trigger] res@[i]) == *self.graph.sources@[i],
    {
        self.graph.all_sources()
    }

    /// Every sink writer, in the order of creation.
    pub fn all_sinks(&self) -> (res: Vec<&SinkWriterModel>)
        ensures
            res@.len() == self.graph.sinks@.len(),
            forall|i: int| 0 <= i < res@.len() ==> *(#[trigger] res@[i]) == *self.graph.sinks@[i],
    {
        self.graph.all_sinks()
    }

    /// A copy of the pipeline that shares its models with this one.
    pub fn duplicate(&self) -> (res: Pipeline)
        ensures
            res.version == self.version,
            res.object_names@ == self.object_names@,
            res.graph.streams@ == self.graph.streams@,
            res.graph.pumps@ == self.graph.pumps@,
            res.graph.sources@ == self.graph.sources@,
            res.graph.sinks@ == self.graph.sinks@,
            self.wf() ==> res.wf(),
            res.names() == self.names(),
    {
        let mut object_names: Vec<String> = Vec::new();
        let mut i: usize = 0;
        while i < self.object_names.len()
            invariant
                i <= self.object_names.len(),
                object_names@ == self.object_names@.take(i as int),
            decreases self.object_names.len() - i,
        {
            object_names.push(self.object_names[i].clone());
            proof {
                assert(self.object_names@.take(i + 1) =~= self.object_names@.take(i as int).push(
                    self.object_names@[i as int],
                ));
            }
            i = i + 1;
        }
        proof {
            assert(self.object_names@.take(self.object_names@.len() as int) =~= self.object_names@);
        }
        let res = Pipeline { version: self.version, object_names, graph: self.graph.duplicate() };
        proof {
            assert(res.names() =~= self.names());
            if self.wf() {
                assert forall|name: Seq<char>| #[trigger] res.graph.object_named(name) implies res.names().contains(
                    name,
                ) by {
                    assert(self.graph.object_named(name));
                }
            }
        }
        res
    }

    /// Where a graph grew by at most one object called `named`, and the
    /// names by `named`, every object still has its name listed.
    proof fn lemma_objects_named(self, before: Pipeline, named: Seq<char>)
        requires
            before.wf(),
            self.names() == before.names().insert(named),
            forall|n: Seq<char>| #[trigger] self.graph.object_named(n) ==> before.graph.object_named(n) || n == named,
        ensures
            forall|n: Seq<char>| #[trigger] self.graph.object_named(n) ==> self.names().contains(n),
    {
        assert forall|n: Seq<char>| #[trigger] self.graph.object_named(n) implies self.names().contains(n) by {
            if n != named {
                assert(before.graph.object_named(n));
                assert(before.names().contains(n));
            }
        }
    }

    /// Whether the name is taken.
    pub fn is_taken(&self, name: &str) -> (res: bool)
        ensures
            res == self.names().contains(name@),
    {
        let mut i: usize = 0;
        while i < self.object_names.len()
            invariant
                i <= self.object_names.len(),
                forall|k: int| 0 <= k < i ==> (#[trigger] self.object_names@[k])@ != name@,
            decreases self.object_names.len() - i,
        {
            if same_text(self.object_names[i].as_str(), name) {
                return true;
            }
            i = i + 1;
        }
        false
    }

    /// Reserves a name. Fails with `Sql`, changing nothing, exactly when the
    /// name is taken.
    fn register_name(&mut self, name: &str) -> (res: Result<(), SpringError>)
        requires
            forall|i: int, j: int|
                0 <= i < j < old(self).object_names@.len() ==> (#[trigger] old(self).object_names@[i])@ != (
                #[trigger] old(self).object_names@[j])@,
        ensures
            forall|i: int, j: int|
                0 <= i < j < final(self).object_names@.len() ==> (#[trigger] final(self).object_names@[i])@ != (
                #[trigger] final(self).object_names@[j])@,
            res is Ok <==> !old(self).names().contains(name@),
            res is Ok ==> final(self).names() == old(self).names().insert(name@),
            res matches Err(e) ==> e == SpringError::Sql && *final(self) == *old(self),
            final(self).version == old(self).version,
            final(self).graph == old(self).graph,
    {
        if self.is_taken(name) {
            return Err(SpringError::Sql);
        }
        let ghost before = self.object_names@;
        self.object_names.push(String::from_str(name));
        proof {
            let after = self.object_names@;
            assert forall|n: Seq<char>| self.names().contains(n) <==> old(self).names().insert(name@).contains(
                n,
            ) by {
                if has_name(after, n) {
                    let k = choose|k: int| 0 <= k < after.len() && (#[trigger] after[k])@ == n;
                    if k < before.len() {
                        assert(before[k]@ == n);
                    }
                }
                if has_name(before, n) {
                    let k = choose|k: int| 0 <= k < before.len() && (#[trigger] before[k])@ == n;
                    assert(after[k]@ == n);
                }
                assert(after[before.len() as int]@ == name@);
            }
            assert(self.names() =~= old(self).names().insert(name@));
            assert forall|a: int, b: int| 0 <= a < b < after.len() implies (#[trigger] after[a])@ != (
            #[trigger] after[b])@ by {
                if b < before.len() {
                    assert(before[a]@ != before[b]@);
                } else {
                    assert(before[a]@ != name@);
                }
            }
        }
        Ok(())
    }

    /// Moves on to the next version.
    fn update_version(&mut self)
        requires
            old(self).version.0 < u64::MAX,
        ensures
            final(self).version.0 == old(self).version.0 + 1,
            final(self).object_names == old(self).object_names,
            final(self).graph == old(self).graph,
    {
        self.version.up();
    }
}

} // verus!
