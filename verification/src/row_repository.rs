//! Row queues: the medium by which tasks exchange rows.

use std::collections::VecDeque;
use std::sync::Arc;
use vstd::prelude::*;
use vstd::string::StringExecFns;
use crate::error::SpringError;
use crate::name::same_text;
use crate::row::Row;
use crate::sql_value::byte_size;
use crate::sql_value::total_bytes;

verus! {

/// A first-in first-out queue of rows, named after the task or the host
/// queue it feeds.
#[derive(Debug)]
pub struct RowQueue {
    pub owner: String,
    pub rows: VecDeque<Arc<Row>>,
}

/// Whether some queue belongs to `owner`.
pub open spec fn has_queue(queues: Seq<RowQueue>, owner: Seq<char>) -> bool {
    exists|i: int| 0 <= i < queues.len() && (#[trigger] queues[i]).owner@ == owner
}

/// A position whose queue belongs to `owner`.
pub open spec fn queue_at(queues: Seq<RowQueue>, owner: Seq<char>) -> int {
    choose|i: int| 0 <= i < queues.len() && (#[trigger] queues[i]).owner@ == owner
}

/// The queues as a map from owner to the rows waiting, oldest first.
pub open spec fn queues_model(queues: Seq<RowQueue>) -> Map<Seq<char>, Seq<Arc<Row>>> {
    Map::new(|o: Seq<char>| has_queue(queues, o), |o: Seq<char>| queues[queue_at(queues, o)].rows@)
}

/// No two queues share an owner, and every row is well formed.
pub open spec fn queues_wf(queues: Seq<RowQueue>) -> bool {
    &&& forall|i: int, j: int|
        0 <= i < j < queues.len() ==> (#[trigger] queues[i]).owner@ != (#[trigger] queues[j]).owner@
    &&& forall|i: int, k: int|
        0 <= i < queues.len() && 0 <= k < queues[i].rows@.len() ==> (#[trigger] queues[i].rows@[k]).wf()
}

/// Where owners are distinct, a queue is found at its own position.
pub proof fn lemma_queue_at(queues: Seq<RowQueue>, i: int)
    requires
        queues_wf(queues),
        0 <= i < queues.len(),
    ensures
        has_queue(queues, queues[i].owner@),
        queue_at(queues, queues[i].owner@) == i,
        queues_model(queues).dom().contains(queues[i].owner@),
        queues_model(queues)[queues[i].owner@] == queues[i].rows@,
{
    let o = queues[i].owner@;
    let c = queue_at(queues, o);
    assert(0 <= c < queues.len() && queues[c].owner@ == o);
    if c < i {
        assert(queues[c].owner@ != queues[i].owner@);
    } else if i < c {
        assert(queues[i].owner@ != queues[c].owner@);
    }
}

/// Replacing the rows of one queue replaces them in the map.
pub proof fn lemma_rows_replaced(before: Seq<RowQueue>, after: Seq<RowQueue>, i: int)
    requires
        queues_wf(before),
        0 <= i < before.len(),
        after.len() == before.len(),
        after[i].owner@ == before[i].owner@,
        forall|k: int| 0 <= k < before.len() && k != i ==> after[k] == before[k],
        forall|k: int| 0 <= k < after[i].rows@.len() ==> (#[trigger] after[i].rows@[k]).wf(),
    ensures
        queues_wf(after),
        queues_model(after) == queues_model(before).insert(before[i].owner@, after[i].rows@),
{
    assert forall|a: int, b: int| 0 <= a < b < after.len() implies (#[trigger] after[a]).owner@ != (
    #[trigger] after[b]).owner@ by {
        assert(before[a].owner@ != before[b].owner@);
    }
    assert forall|a: int, k: int| 0 <= a < after.len() && 0 <= k < after[a].rows@.len() implies (
    #[trigger] after[a].rows@[k]).wf() by {
        if a != i {
            assert(before[a].rows@[k].wf());
        }
    }
    let m1 = queues_model(after);
    let want = queues_model(before).insert(before[i].owner@, after[i].rows@);
    assert forall|o: Seq<char>| m1.dom().contains(o) <==> want.dom().contains(o) by {
        if has_queue(after, o) {
            let c = queue_at(after, o);
            assert(before[c].owner@ == o);
        }
        if has_queue(before, o) {
            let c = queue_at(before, o);
            assert(after[c].owner@ == o);
        }
        assert(after[i].owner@ == before[i].owner@);
    }
    assert forall|o: Seq<char>| #[trigger] m1.dom().contains(o) implies m1[o] == want[o] by {
        let c = queue_at(after, o);
        assert(0 <= c < after.len() && after[c].owner@ == o);
        lemma_queue_at(after, c);
        if c != i {
            lemma_queue_at(before, c);
            assert(before[c].owner@ != before[i].owner@);
        }
    }
    assert(m1 =~= want);
}

/// Appending an empty queue for a new owner adds it to the map.
pub proof fn lemma_queue_added(before: Seq<RowQueue>, queue: RowQueue)
    requires
        queues_wf(before),
        !has_queue(before, queue.owner@),
        queue.rows@.len() == 0,
    ensures
        queues_wf(before.push(queue)),
        queues_model(before.push(queue)) == queues_model(before).insert(queue.owner@, queue.rows@),
{
    let after = before.push(queue);
    assert forall|a: int, b: int| 0 <= a < b < after.len() implies (#[trigger] after[a]).owner@ != (
    #[trigger] after[b]).owner@ by {
        if b == before.len() {
            assert(before[a].owner@ != queue.owner@);
        } else {
            assert(before[a].owner@ != before[b].owner@);
        }
    }
    assert forall|a: int, k: int| 0 <= a < after.len() && 0 <= k < after[a].rows@.len() implies (
    #[trigger] after[a].rows@[k]).wf() by {
        assert(before[a].rows@[k].wf());
    }
    let m1 = queues_model(after);
    let want = queues_model(before).insert(queue.owner@, queue.rows@);
    assert forall|o: Seq<char>| m1.dom().contains(o) <==> want.dom().contains(o) by {
        if has_queue(after, o) {
            let c = queue_at(after, o);
            if c < before.len() {
                assert(before[c].owner@ == o);
            }
        }
        if has_queue(before, o) {
            let c = queue_at(before, o);
            assert(after[c].owner@ == o);
        }
        assert(after[before.len() as int].owner@ == queue.owner@);
    }
    assert forall|o: Seq<char>| #[trigger] m1.dom().contains(o) implies m1[o] == want[o] by {
        let c = queue_at(after, o);
        assert(0 <= c < after.len() && after[c].owner@ == o);
        lemma_queue_at(after, c);
        if c < before.len() {
            lemma_queue_at(before, c);
        }
    }
    assert(m1 =~= want);
}

/// The size in bytes of the rows of a queue.
pub open spec fn rows_bytes(rows: Seq<Arc<Row>>) -> nat
    decreases rows.len(),
{
    if rows.len() == 0 {
        0
    } else {
        rows_bytes(rows.drop_last()) + total_bytes(rows.last().values@)
    }
}

/// The size in bytes of the rows of all the queues.
pub open spec fn queues_bytes(queues: Seq<RowQueue>) -> nat
    decreases queues.len(),
{
    if queues.len() == 0 {
        0
    } else {
        queues_bytes(queues.drop_last()) + rows_bytes(queues.last().rows@)
    }
}

/// A size in bytes, or `u64::MAX` where it exceeds that.
pub open spec fn capped(bytes: nat) -> u64 {
    if bytes <= u64::MAX {
        bytes as u64
    } else {
        u64::MAX
    }
}

/// The sum of two sizes, or `u64::MAX` where it exceeds that.
pub fn add_capped(a: u64, b: u64) -> (res: u64)
    ensures
        res == capped((a + b) as nat),
{
    if a > u64::MAX - b {
        u64::MAX
    } else {
        a + b
    }
}

/// The row queues of an engine, each found by the name of its owner.
#[derive(Debug)]
pub struct RowRepository {
    pub queues: Vec<RowQueue>,
}

impl View for RowRepository {
    type V = Map<Seq<char>, Seq<Arc<Row>>>;

    open spec fn view(&self) -> Map<Seq<char>, Seq<Arc<Row>>> {
        queues_model(self.queues@)
    }
}

impl RowRepository {
    /// No two queues share an owner, and every row is well formed.
    pub open spec fn wf(self) -> bool {
        queues_wf(self.queues@)
    }

    /// The number of rows waiting for `owner`; zero where it has no queue.
    pub open spec fn depth_of(self, owner: Seq<char>) -> int {
        if self@.dom().contains(owner) {
            self@[owner].len() as int
        } else {
            0
        }
    }

    /// A repository without queues.
    pub fn new() -> (res: RowRepository)
        ensures
            res.wf(),
            res@ == Map::<Seq<char>, Seq<Arc<Row>>>::empty(),
    {
        let res = RowRepository { queues: Vec::new() };
        proof {
            assert(res@ =~= Map::<Seq<char>, Seq<Arc<Row>>>::empty());
        }
        res
    }

    /// The position of the queue of `owner`.
    pub fn find(&self, owner: &str) -> (res: Option<usize>)
        requires
            self.wf(),
        ensures
            res matches Some(i) ==> i < self.queues@.len() && self.queues@[i as int].owner@ == owner@
                && self@.dom().contains(owner@) && self@[owner@] == self.queues@[i as int].rows@ && forall|
                k: int,
            | 0 <= k < self.queues@.len() && (#[trigger] self.queues@[k]).owner@ == owner@ ==> k == i,
            res is None ==> !self@.dom().contains(owner@),
    {
        let mut i: usize = 0;
        while i < self.queues.len()
            invariant
                self.wf(),
                i <= self.queues.len(),
                forall|k: int| 0 <= k < i ==> (#[trigger] self.queues@[k]).owner@ != owner@,
            decreases self.queues.len() - i,
        {
            if same_text(self.queues[i].owner.as_str(), owner) {
                proof {
                    lemma_queue_at(self.queues@, i as int);
                }
                return Some(i);
            }
            i = i + 1;
        }
        None
    }

    /// Whether `owner` has a queue.
    pub fn contains(&self, owner: &str) -> (res: bool)
        requires
            self.wf(),
        ensures
            res == self@.dom().contains(owner@),
    {
        self.find(owner).is_some()
    }

    /// Gives `owner` an empty queue unless it has one.
    pub fn ensure_queue(&mut self, owner: &str)
        requires
            old(self).wf(),
        ensures
            final(self).wf(),
            final(self)@ == (if old(self)@.dom().contains(owner@) {
                old(self)@
            } else {
                old(self)@.insert(owner@, Seq::<Arc<Row>>::empty())
            }),
    {
        if self.find(owner).is_none() {
            let queue = RowQueue { owner: String::from_str(owner), rows: VecDeque::new() };
            proof {
                lemma_queue_added(self.queues@, queue);
            }
            self.queues.push(queue);
        }
    }

    /// Appends a row to the queue of `owner`. Fails with `Unavailable`,
    /// changing nothing, exactly when `owner` has no queue.
    pub fn push(&mut self, owner: &str, row: Arc<Row>) -> (res: Result<(), SpringError>)
        requires
            old(self).wf(),
            row.wf(),
        ensures
            final(self).wf(),
            res is Ok <==> old(self)@.dom().contains(owner@),
            res is Ok ==> final(self)@ == old(self)@.insert(owner@, old(self)@[owner@].push(row)),
            res matches Err(e) ==> e == SpringError::Unavailable && *final(self) == *old(self),
    {
        match self.find(owner) {
            None => Err(SpringError::Unavailable),
            Some(i) => {
                let ghost before = self.queues@;
                self.queues[i].rows.push_back(row);
                proof {
                    assert forall|k: int| 0 <= k < self.queues@[i as int].rows@.len() implies (
                    #[trigger] self.queues@[i as int].rows@[k]).wf() by {
                        if k < before[i as int].rows@.len() {
                            assert(before[i as int].rows@[k].wf());
                        }
                    }
                    lemma_rows_replaced(before, self.queues@, i as int);
                }
                Ok(())
            },
        }
    }

    /// Takes the oldest row from the queue of `owner`. Fails with
    /// `Unavailable` exactly when `owner` has no queue; gives `None`,
    /// changing nothing, when the queue is empty.
    pub fn pop(&mut self, owner: &str) -> (res: Result<Option<Arc<Row>>, SpringError>)
        requires
            old(self).wf(),
        ensures
            final(self).wf(),
            res is Ok <==> old(self)@.dom().contains(owner@),
            res matches Err(e) ==> e == SpringError::Unavailable && *final(self) == *old(self),
            res matches Ok(None) ==> old(self)@[owner@].len() == 0 && *final(self) == *old(self),
            res matches Ok(Some(row)) ==> old(self)@[owner@].len() > 0 && row == old(self)@[owner@][0]
                && row.wf() && final(self)@ == old(self)@.insert(owner@, old(self)@[owner@].drop_first()),
    {
        match self.find(owner) {
            None => Err(SpringError::Unavailable),
            Some(i) => {
                if self.queues[i].rows.len() == 0 {
                    return Ok(None);
                }
                let ghost before = self.queues@;
                let row = self.queues[i].rows.pop_front();
                proof {
                    assert(before[i as int].rows@[0].wf());
                    assert(self.queues@[i as int].rows@ =~= before[i as int].rows@.drop_first());
                    assert forall|k: int| 0 <= k < self.queues@[i as int].rows@.len() implies (
                    #[trigger] self.queues@[i as int].rows@[k]).wf() by {
                        assert(before[i as int].rows@[k + 1].wf());
                    }
                    lemma_rows_replaced(before, self.queues@, i as int);
                }
                Ok(row)
            },
        }
    }

    /// The size in bytes of all the rows that wait, or `u64::MAX` where it
    /// exceeds that.
    pub fn bytes(&self) -> (res: u64)
        ensures
            res == capped(queues_bytes(self.queues@)),
    {
        let mut total: u64 = 0;
        let mut i: usize = 0;
        proof {
            assert(self.queues@.take(0).len() == 0);
        }
        while i < self.queues.len()
            invariant
                i <= self.queues.len(),
                total == capped(queues_bytes(self.queues@.take(i as int))),
            decreases self.queues.len() - i,
        {
            let rows = &self.queues[i].rows;
            let mut sum: u64 = 0;
            let mut k: usize = 0;
            proof {
                assert(rows@.take(0).len() == 0);
            }
            while k < rows.len()
                invariant
                    k <= rows.len(),
                    sum == capped(rows_bytes(rows@.take(k as int))),
                decreases rows.len() - k,
            {
                let size = byte_size(&rows[k].values);
                proof {
                    assert(rows@.take(k + 1).drop_last() =~= rows@.take(k as int));
                    assert(rows@.take(k + 1).last() == rows@[k as int]);
                }
                sum = add_capped(sum, size);
                k = k + 1;
            }
            proof {
                assert(rows@.take(rows@.len() as int) =~= rows@);
                assert(self.queues@.take(i + 1).drop_last() =~= self.queues@.take(i as int));
                assert(self.queues@.take(i + 1).last() == self.queues@[i as int]);
            }
            total = add_capped(total, sum);
            i = i + 1;
        }
        proof {
            assert(self.queues@.take(self.queues@.len() as int) =~= self.queues@);
        }
        total
    }

    /// The number of rows waiting for `owner`; zero where it has no queue.
    pub fn depth(&self, owner: &str) -> (res: usize)
        requires
            self.wf(),
        ensures
            res == self.depth_of(owner@),
    {
        match self.find(owner) {
            None => 0,
            Some(i) => self.queues[i].rows.len(),
        }
    }
}

} // verus!
