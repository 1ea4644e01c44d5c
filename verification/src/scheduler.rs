//! The scheduler: which task a worker runs next.

use vstd::prelude::*;
use crate::name::PumpName;
use crate::name::SinkWriterName;
use crate::name::SourceReaderName;
use crate::name::StreamName;
use crate::pump_model::PumpState;
use crate::sink_writer_model::SinkWriterType;
use crate::stream_engine::feeds_pump;
use crate::stream_engine::feeds_sink;
use crate::stream_engine::StreamEngine;
use crate::task::pump_targets_below;
use crate::task::room_downstream;
use crate::task::sink_targets_below;

verus! {

/// A task: one source read, one pump quantum or one sink write.
#[derive(Debug)]
pub enum TaskId {
    Source(SourceReaderName),
    Pump(PumpName),
    Sink(SinkWriterName),
}

/// How far position `i` lies behind the cursor in a round of `n`
/// positions that starts at the cursor.
pub open spec fn turn(cursor: int, i: int, n: int) -> int {
    if i >= cursor {
        i - cursor
    } else {
        i + n - cursor
    }
}

/// Whether `p` is the candidate to pick: it has a score, no candidate has
/// a greater one, and among the candidates of the same score it comes
/// first in the round that starts at the cursor.
pub open spec fn is_pick(scores: Seq<Option<i128>>, cursor: int, p: int) -> bool {
    &&& 0 <= p < scores.len()
    &&& scores[p] is Some
    &&& forall|j: int|
        0 <= j < scores.len() && (#[trigger] scores[j]) is Some ==> scores[j]->Some_0 <= scores[p]->Some_0
    &&& forall|j: int|
        0 <= j < scores.len() && j != p && (#[trigger] scores[j]) == scores[p] ==> turn(
            cursor,
            p,
            scores.len() as int,
        ) < turn(cursor, j, scores.len() as int)
}

/// Whether no position has a score.
pub open spec fn no_candidate(scores: Seq<Option<i128>>) -> bool {
    forall|j: int| 0 <= j < scores.len() ==> (#[trigger] scores[j]) is None
}

/// Picks the candidate with the greatest score; ties go to the one that
/// comes first at or after the cursor, going round.
pub fn pick(scores: &Vec<Option<i128>>, cursor: usize) -> (res: Option<usize>)
    requires
        cursor <= scores@.len(),
    ensures
        res matches Some(p) ==> is_pick(scores@, cursor as int, p as int),
        res is None ==> no_candidate(scores@),
{
    let n = scores.len();
    let mut best: Option<usize> = None;
    let mut k: usize = 0;
    while k < n
        invariant
            k <= n,
            n == scores@.len(),
            cursor <= n,
            best matches Some(b) ==> b < n && scores@[b as int] is Some && turn(cursor as int, b as int, n as int)
                < k,
            best is None ==> forall|j: int|
                0 <= j < n && turn(cursor as int, j, n as int) < k ==> (#[trigger] scores@[j]) is None,
            best matches Some(b) ==> forall|j: int|
                0 <= j < n && turn(cursor as int, j, n as int) < k && (#[trigger] scores@[j]) is Some
                    ==> scores@[j]->Some_0 <= scores@[b as int]->Some_0,
            best matches Some(b) ==> forall|j: int|
                0 <= j < n && turn(cursor as int, j, n as int) < k && j != b && (#[trigger] scores@[j])
                    == scores@[b as int] ==> turn(cursor as int, b as int, n as int) < turn(
                    cursor as int,
                    j,
                    n as int,
                ),
        decreases n - k,
    {
        let idx: usize = if k < n - cursor {
            cursor + k
        } else {
            k - (n - cursor)
        };
        assert(turn(cursor as int, idx as int, n as int) == k);
        proof {
            assert forall|j: int| 0 <= j < n && turn(cursor as int, j, n as int) == k implies j == idx by {}
        }
        match scores[idx] {
            None => {},
            Some(score) => {
                let better = match best {
                    None => true,
                    Some(b) => match scores[b] {
                        Some(held) => score > held,
                        None => false,
                    },
                };
                if better {
                    best = Some(idx);
                }
            },
        }
        k = k + 1;
    }
    proof {
        assert forall|j: int| 0 <= j < n implies turn(cursor as int, j, n as int) < n by {}
    }
    best
}

/// Which kind of task the scheduler picked, and its position among the
/// tasks of that kind.
#[derive(Clone, Copy, Debug, PartialEq, Eq, Structural)]
pub enum Slot {
    Sink(usize),
    Pump(usize),
    Source(usize),
}

/// The scheduler of one worker: where the round of each kind of task
/// starts.
#[derive(Clone, Copy, Debug, PartialEq, Eq, Structural)]
pub struct Scheduler {
    pub sink_cursor: usize,
    pub pump_cursor: usize,
    pub source_cursor: usize,
}

/// Whether `d` is the depth of the fullest queue that a row of `stream`
/// goes to; zero where it goes to none.
pub open spec fn is_downstream_depth(engine: StreamEngine, stream: Seq<char>, d: int) -> bool {
    let graph = engine.pipeline.graph;
    &&& 0 <= d
    &&& forall|o: Seq<char>|
        #![trigger engine.pump_queues.depth_of(o)]
        feeds_pump(graph, stream, o) ==> engine.pump_queues.depth_of(o) <= d
    &&& forall|o: Seq<char>|
        #![trigger engine.sink_queues.depth_of(o)]
        feeds_sink(graph, stream, o) ==> engine.sink_queues.depth_of(o) <= d
    &&& d > 0 ==> (exists|o: Seq<char>|
        #![trigger engine.pump_queues.depth_of(o)]
        feeds_pump(graph, stream, o) && engine.pump_queues.depth_of(o) == d) || (exists|o: Seq<char>|
        #![trigger engine.sink_queues.depth_of(o)]
        feeds_sink(graph, stream, o) && engine.sink_queues.depth_of(o) == d)
}

/// The depth of the fullest queue that a row of `stream` goes to.
pub open spec fn downstream_depth(engine: StreamEngine, stream: Seq<char>) -> int {
    choose|d: int| is_downstream_depth(engine, stream, d)
}

/// Only one number is the depth of the fullest queue downstream.
pub proof fn lemma_downstream_depth(engine: StreamEngine, stream: Seq<char>, d: int)
    requires
        is_downstream_depth(engine, stream, d),
    ensures
        downstream_depth(engine, stream) == d,
{
    let c = downstream_depth(engine, stream);
    assert(is_downstream_depth(engine, stream, c));
    if c < d {
        assert(d > 0);
    } else if d < c {
        assert(c > 0);
    }
}

/// The score of the sink writer at `i`: the depth of its input queue less
/// that of the in-memory queue it feeds, if it feeds one. A writer without
/// input has no score.
pub open spec fn sink_score(engine: StreamEngine, i: int) -> Option<i128> {
    let writer = engine.pipeline.graph.sinks@[i];
    let up = engine.sink_queues.depth_of(writer.name@);
    let down = if writer.writer_type == SinkWriterType::InMemoryQueue {
        engine.in_memory_queues.depth_of(writer.queue_text())
    } else {
        0
    };
    if up > 0 {
        Some((up - down) as i128)
    } else {
        None
    }
}

/// The score of the pump at `i`: the depth of its input queue less that of
/// the fullest queue it feeds. A pump that is stopped, has no input or
/// feeds a full queue has no score.
pub open spec fn pump_score(engine: StreamEngine, i: int) -> Option<i128> {
    let pump = engine.pipeline.graph.pumps@[i];
    let up = engine.pump_queues.depth_of(pump.name@);
    if pump.state == PumpState::Started && up > 0 && room_downstream(engine, pump.downstream_name()) {
        Some((up - downstream_depth(engine, pump.downstream_name())) as i128)
    } else {
        None
    }
}

/// The score of the source reader at `i`: the negated depth of the fullest
/// queue it feeds. A reader that feeds a full queue has no score, and no
/// reader has one where the queues take as many bytes as the memory limit
/// allows.
pub open spec fn source_score(engine: StreamEngine, i: int) -> Option<i128> {
    let reader = engine.pipeline.graph.sources@[i];
    if room_downstream(engine, reader.dest_stream@) && crate::stream_engine::within_memory(engine) {
        Some((-downstream_depth(engine, reader.dest_stream@)) as i128)
    } else {
        None
    }
}

/// The scores of the sink writers, in the order of the graph.
pub open spec fn sink_scores(engine: StreamEngine) -> Seq<Option<i128>> {
    Seq::new(engine.pipeline.graph.sinks@.len(), |i: int| sink_score(engine, i))
}

/// The scores of the pumps, in the order of the graph.
pub open spec fn pump_scores(engine: StreamEngine) -> Seq<Option<i128>> {
    Seq::new(engine.pipeline.graph.pumps@.len(), |i: int| pump_score(engine, i))
}

/// The scores of the source readers, in the order of the graph.
pub open spec fn source_scores(engine: StreamEngine) -> Seq<Option<i128>> {
    Seq::new(engine.pipeline.graph.sources@.len(), |i: int| source_score(engine, i))
}

/// The cursor, brought back to the start where it lies beyond the `n`
/// positions of a round.
pub open spec fn within(cursor: usize, n: nat) -> int {
    if cursor <= n {
        cursor as int
    } else {
        0
    }
}

/// Whether the scheduler, in the state `pre`, picks `slot` and moves on to
/// the state `post`.
///
/// Sink writers go before pumps and pumps before source readers: a kind is
/// considered only where no task of a kind before it has a score. Within a
/// kind the pick is the task with the greatest score, ties going round
/// from the cursor. The cursor of the picked kind moves behind the pick;
/// where nothing has a score nothing is picked and nothing moves.
pub open spec fn scheduled(pre: Scheduler, engine: StreamEngine, post: Scheduler, slot: Option<Slot>) -> bool {
    let sinks = sink_scores(engine);
    let pumps = pump_scores(engine);
    let sources = source_scores(engine);
    match slot {
        Some(Slot::Sink(p)) => is_pick(sinks, within(pre.sink_cursor, sinks.len()), p as int) && post == (
        Scheduler { sink_cursor: (p + 1) as usize, ..pre }),
        Some(Slot::Pump(p)) => no_candidate(sinks) && is_pick(
            pumps,
            within(pre.pump_cursor, pumps.len()),
            p as int,
        ) && post == (Scheduler { pump_cursor: (p + 1) as usize, ..pre }),
        Some(Slot::Source(p)) => no_candidate(sinks) && no_candidate(pumps) && is_pick(
            sources,
            within(pre.source_cursor, sources.len()),
            p as int,
        ) && post == (Scheduler { source_cursor: (p + 1) as usize, ..pre }),
        None => no_candidate(sinks) && no_candidate(pumps) && no_candidate(sources) && post == pre,
    }
}

impl StreamEngine {
    /// The depth of the fullest queue that a row of `stream` goes to.
    pub fn fullest_downstream(&self, stream: &StreamName) -> (res: usize)
        requires
            self.wf(),
        ensures
            res == downstream_depth(*self, stream@),
    {
        let graph = &self.pipeline.graph;
        let mut best: usize = 0;
        let ghost mut from_pump: bool = false;
        let ghost mut witness: Seq<char> = Seq::empty();
        let mut i: usize = 0;
        while i < graph.pumps.len()
            invariant
                self.wf(),
                *graph == self.pipeline.graph,
                i <= graph.pumps.len(),
                forall|o: Seq<char>|
                    #![trigger self.pump_queues.depth_of(o)]
                    pump_targets_below(*graph, stream@, i as int)(o) ==> self.pump_queues.depth_of(o) <= best,
                best > 0 ==> feeds_pump(*graph, stream@, witness) && self.pump_queues.depth_of(witness) == best,
            decreases graph.pumps.len() - i,
        {
            let pump = &graph.pumps[i];
            if pump.state == PumpState::Started && pump.upstream().same(stream) {
                let depth = self.pump_queues.depth(pump.name.as_str());
                if depth > best {
                    best = depth;
                    proof {
                        witness = pump.name@;
                    }
                }
            }
            i = i + 1;
        }
        let ghost pump_best = best;
        let mut j: usize = 0;
        while j < graph.sinks.len()
            invariant
                self.wf(),
                *graph == self.pipeline.graph,
                j <= graph.sinks.len(),
                pump_best <= best,
                forall|o: Seq<char>|
                    #![trigger self.pump_queues.depth_of(o)]
                    feeds_pump(*graph, stream@, o) ==> self.pump_queues.depth_of(o) <= pump_best,
                forall|o: Seq<char>|
                    #![trigger self.sink_queues.depth_of(o)]
                    sink_targets_below(*graph, stream@, j as int)(o) ==> self.sink_queues.depth_of(o) <= best,
                best > 0 ==> (!from_pump ==> feeds_pump(*graph, stream@, witness) && self.pump_queues.depth_of(
                    witness,
                ) == best) && (from_pump ==> feeds_sink(*graph, stream@, witness)
                    && self.sink_queues.depth_of(witness) == best),
            decreases graph.sinks.len() - j,
        {
            let sink = &graph.sinks[j];
            if sink.from_stream.same(stream) {
                let depth = self.sink_queues.depth(sink.name.as_str());
                if depth > best {
                    best = depth;
                    proof {
                        witness = sink.name@;
                        from_pump = true;
                    }
                }
            }
            j = j + 1;
        }
        proof {
            assert(is_downstream_depth(*self, stream@, best as int)) by {
                if best > 0 {
                    if from_pump {
                        assert(feeds_sink(*graph, stream@, witness) && self.sink_queues.depth_of(witness) == best);
                    } else {
                        assert(feeds_pump(*graph, stream@, witness) && self.pump_queues.depth_of(witness) == best);
                    }
                }
            }
            lemma_downstream_depth(*self, stream@, best as int);
        }
        best
    }
}

impl StreamEngine {
    /// The scores of the sink writers, in the order of the graph.
    pub fn score_sinks(&self) -> (res: Vec<Option<i128>>)
        requires
            self.wf(),
        ensures
            res@ == sink_scores(*self),
    {
        let mut scores: Vec<Option<i128>> = Vec::new();
        let mut i: usize = 0;
        while i < self.pipeline.graph.sinks.len()
            invariant
                self.wf(),
                i <= self.pipeline.graph.sinks.len(),
                scores@ == sink_scores(*self).take(i as int),
            decreases self.pipeline.graph.sinks.len() - i,
        {
            let writer = &self.pipeline.graph.sinks[i];
            let up = self.sink_queues.depth(writer.name.as_str());
            assert(writer.wf());
            let down = match writer.queue_name() {
                Some(q) => self.in_memory_queues.depth(q.as_str()),
                None => 0,
            };
            let score: Option<i128> = if up > 0 {
                Some(up as i128 - down as i128)
            } else {
                None
            };
            scores.push(score);
            proof {
                let all = sink_scores(*self);
                assert(all.take(i + 1) =~= all.take(i as int).push(all[i as int]));
            }
            i = i + 1;
        }
        proof {
            let all = sink_scores(*self);
            assert(all.take(all.len() as int) =~= all);
        }
        scores
    }

    /// The scores of the pumps, in the order of the graph.
    pub fn score_pumps(&self) -> (res: Vec<Option<i128>>)
        requires
            self.wf(),
        ensures
            res@ == pump_scores(*self),
    {
        let mut scores: Vec<Option<i128>> = Vec::new();
        let mut i: usize = 0;
        while i < self.pipeline.graph.pumps.len()
            invariant
                self.wf(),
                i <= self.pipeline.graph.pumps.len(),
                scores@ == pump_scores(*self).take(i as int),
            decreases self.pipeline.graph.pumps.len() - i,
        {
            let pump = &self.pipeline.graph.pumps[i];
            let up = self.pump_queues.depth(pump.name.as_str());
            let score: Option<i128> = if pump.state == PumpState::Started && up > 0
                && self.has_room_downstream(pump.downstream()) {
                Some(up as i128 - self.fullest_downstream(pump.downstream()) as i128)
            } else {
                None
            };
            scores.push(score);
            proof {
                let all = pump_scores(*self);
                assert(all.take(i + 1) =~= all.take(i as int).push(all[i as int]));
            }
            i = i + 1;
        }
        proof {
            let all = pump_scores(*self);
            assert(all.take(all.len() as int) =~= all);
        }
        scores
    }

    /// The scores of the source readers, in the order of the graph.
    pub fn score_sources(&self) -> (res: Vec<Option<i128>>)
        requires
            self.wf(),
        ensures
            res@ == source_scores(*self),
    {
        let mut scores: Vec<Option<i128>> = Vec::new();
        let mut i: usize = 0;
        while i < self.pipeline.graph.sources.len()
            invariant
                self.wf(),
                i <= self.pipeline.graph.sources.len(),
                scores@ == source_scores(*self).take(i as int),
            decreases self.pipeline.graph.sources.len() - i,
        {
            let reader = &self.pipeline.graph.sources[i];
            let score: Option<i128> = if self.has_room_downstream(&reader.dest_stream) && self.has_memory() {
                Some(-(self.fullest_downstream(&reader.dest_stream) as i128))
            } else {
                None
            };
            scores.push(score);
            proof {
                let all = source_scores(*self);
                assert(all.take(i + 1) =~= all.take(i as int).push(all[i as int]));
            }
            i = i + 1;
        }
        proof {
            let all = source_scores(*self);
            assert(all.take(all.len() as int) =~= all);
        }
        scores
    }
}

/// The task that stands in a slot.
pub open spec fn task_at(engine: StreamEngine, slot: Option<Slot>) -> Option<TaskId> {
    match slot {
        Some(Slot::Sink(p)) => Some(TaskId::Sink(engine.pipeline.graph.sinks@[p as int].name)),
        Some(Slot::Pump(p)) => Some(TaskId::Pump(engine.pipeline.graph.pumps@[p as int].name)),
        Some(Slot::Source(p)) => Some(TaskId::Source(engine.pipeline.graph.sources@[p as int].name)),
        None => None,
    }
}

impl Scheduler {
    /// A scheduler whose rounds start at the first task of each kind.
    pub fn new() -> (res: Scheduler)
        ensures
            res == (Scheduler { sink_cursor: 0, pump_cursor: 0, source_cursor: 0 }),
    {
        Scheduler { sink_cursor: 0, pump_cursor: 0, source_cursor: 0 }
    }

    /// Picks the task to run next, by its kind and its position among the
    /// tasks of that kind.
    pub fn next_slot(&mut self, engine: &StreamEngine) -> (res: Option<Slot>)
        requires
            engine.wf(),
        ensures
            scheduled(*old(self), *engine, *final(self), res),
    {
        let sinks = engine.score_sinks();
        let cursor = if self.sink_cursor <= sinks.len() {
            self.sink_cursor
        } else {
            0
        };
        if let Some(p) = pick(&sinks, cursor) {
            self.sink_cursor = p + 1;
            return Some(Slot::Sink(p));
        }
        let pumps = engine.score_pumps();
        let cursor = if self.pump_cursor <= pumps.len() {
            self.pump_cursor
        } else {
            0
        };
        if let Some(p) = pick(&pumps, cursor) {
            self.pump_cursor = p + 1;
            return Some(Slot::Pump(p));
        }
        let sources = engine.score_sources();
        let cursor = if self.source_cursor <= sources.len() {
            self.source_cursor
        } else {
            0
        };
        if let Some(p) = pick(&sources, cursor) {
            self.source_cursor = p + 1;
            return Some(Slot::Source(p));
        }
        None
    }

    /// Picks the task to run next, by name.
    pub fn next_task(&mut self, engine: &StreamEngine) -> (res: Option<TaskId>)
        requires
            engine.wf(),
        ensures
            exists|slot: Option<Slot>| #[trigger]
                scheduled(*old(self), *engine, *final(self), slot) && res == task_at(*engine, slot),
    {
        match self.next_slot(engine) {
            Some(Slot::Sink(p)) => Some(TaskId::Sink(engine.pipeline.graph.sinks[p].name.duplicate())),
            Some(Slot::Pump(p)) => Some(TaskId::Pump(engine.pipeline.graph.pumps[p].name.duplicate())),
            Some(Slot::Source(p)) => Some(TaskId::Source(engine.pipeline.graph.sources[p].name.duplicate())),
            None => None,
        }
    }
}

} // verus!
