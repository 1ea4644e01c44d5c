//! Time windows: parameters, pane storage and group aggregation.

use vstd::prelude::*;
use crate::error::SpringError;
use crate::expression::div_trunc;
use crate::name::ColumnName;
use crate::sql_value::lemma_value_total;
use crate::sql_value::value_lt;
use crate::row::Field;
use crate::tuple::lookup;
use crate::tuple::tuple_views;
use crate::tuple::Tuple;
use crate::tuple::TupleView;
use vstd::arithmetic::div_mod::lemma_fundamental_div_mod;
use vstd::arithmetic::div_mod::lemma_mod_multiples_vanish;
use crate::sql_value::SqlValue;
use crate::sql_value::SqlValueView;

verus! {

/// How the panes of a window follow one another.
#[derive(Clone, Copy, Debug, PartialEq, Eq, Structural)]
pub enum WindowKind {
    /// Panes of one length that neither overlap nor leave gaps.
    TimeTumbling,
    /// Panes of one length that start every `period`.
    TimeSliding,
}

/// The kind of a window, the length of its panes and the distance between
/// the starts of two successive panes, both in nanoseconds.
#[derive(Clone, Copy, Debug, PartialEq, Eq, Structural)]
pub struct WindowParameter {
    pub kind: WindowKind,
    pub length: u64,
    pub period: u64,
}

impl WindowParameter {
    /// A pane starts at least every `length`, and a tumbling window exactly
    /// every `length`. Lengths fit a signed 64-bit time.
    pub open spec fn wf(self) -> bool {
        &&& 0 < self.period <= self.length <= i64::MAX
        &&& self.kind == WindowKind::TimeTumbling ==> self.period == self.length
    }

    /// Whether the pane that starts at `start` contains the instant `t`.
    pub open spec fn in_pane(self, start: int, t: int) -> bool {
        start % (self.period as int) == 0 && start <= t < start + self.length
    }

    /// Whether the parameter is well formed.
    pub fn is_valid(&self) -> (res: bool)
        ensures
            res == self.wf(),
    {
        if self.period == 0 || self.period > self.length || self.length > i64::MAX as u64 {
            return false;
        }
        !(self.kind == WindowKind::TimeTumbling && self.period != self.length)
    }

    /// A window of the given kind. Fails with `InvalidOption` exactly when
    /// the period is zero or exceeds the length, the length does not fit a
    /// signed 64-bit time, or a tumbling window's period differs from its
    /// length.
    pub fn new(kind: WindowKind, length: u64, period: u64) -> (res: Result<WindowParameter, SpringError>)
        ensures
            res is Ok <==> (WindowParameter { kind, length, period }).wf(),
            res matches Ok(p) ==> p == (WindowParameter { kind, length, period }),
            res matches Err(e) ==> e == SpringError::InvalidOption,
    {
        if period == 0 || period > length || length > i64::MAX as u64 {
            return Err(SpringError::InvalidOption);
        }
        if kind == WindowKind::TimeTumbling && period != length {
            return Err(SpringError::InvalidOption);
        }
        Ok(WindowParameter { kind, length, period })
    }

    /// A tumbling window whose panes have the given length.
    pub fn tumbling(length: u64) -> (res: Result<WindowParameter, SpringError>)
        ensures
            res is Ok <==> 0 < length <= i64::MAX,
            res matches Ok(p) ==> p == (WindowParameter {
                kind: WindowKind::TimeTumbling,
                length,
                period: length,
            }) && p.wf(),
            res matches Err(e) ==> e == SpringError::InvalidOption,
    {
        WindowParameter::new(WindowKind::TimeTumbling, length, length)
    }
}

/// The aggregate functions.
#[derive(Clone, Copy, Debug, PartialEq, Eq, Structural)]
pub enum AggregateFunctionParameter {
    Avg,
}

/// What a window computes.
#[derive(Debug)]
pub enum WindowOperationParameter {
    /// One aggregate per group: the tuples of a pane are grouped by the value
    /// of `group_by_field`, and `function` runs over `aggregated_field`; the
    /// result is labelled `aggregated_alias`.
    GroupAggregate {
        group_by_field: ColumnName,
        aggregated_field: ColumnName,
        aggregated_alias: ColumnName,
        function: AggregateFunctionParameter,
    },
}

/// The partial state of an average: the sum of the values seen and their
/// number.
pub struct AvgState {
    pub sum: int,
    pub count: int,
}

impl AvgState {
    /// The average, rounded toward zero.
    pub open spec fn average(self) -> int {
        div_trunc(self.sum, self.count)
    }
}

/// The partial aggregate of one group of a pane.
#[derive(Debug)]
pub struct Group {
    pub key: SqlValue,
    pub sum: i128,
    pub count: u64,
}

impl Group {
    /// At least one value was seen, and the sum is that of `count` 64-bit
    /// values.
    pub open spec fn wf(self) -> bool {
        &&& self.count >= 1
        &&& self.count * i64::MIN <= self.sum <= self.count * i64::MAX
    }

    /// The partial state the group holds.
    pub open spec fn state(self) -> AvgState {
        AvgState { sum: self.sum as int, count: self.count as int }
    }

    /// The average of the values seen, rounded toward zero.
    pub fn average(&self) -> (res: i64)
        requires
            self.wf(),
        ensures
            res == self.state().average(),
    {
        let count: u128 = self.count as u128;
        if self.sum >= 0 {
            let m: u128 = self.sum as u128;
            let q: u128 = m / count;
            assert(q <= i64::MAX) by (nonlinear_arith)
                requires
                    q == m / count,
                    count >= 1,
                    m <= count * i64::MAX,
            ;
            q as i64
        } else {
            let m: u128 = (-(self.sum + 1)) as u128 + 1;
            let q: u128 = m / count;
            assert(q <= 0x8000_0000_0000_0000) by (nonlinear_arith)
                requires
                    q == m / count,
                    count >= 1,
                    m <= count * 0x8000_0000_0000_0000,
            ;
            (-(q as i128)) as i64
        }
    }
}

/// Whether some group has the key `k`.
pub open spec fn has_group(groups: Seq<Group>, k: SqlValueView) -> bool {
    exists|i: int| 0 <= i < groups.len() && (#[trigger] groups[i]).key@ == k
}

/// A position whose group has the key `k`.
pub open spec fn group_at(groups: Seq<Group>, k: SqlValueView) -> int {
    choose|i: int| 0 <= i < groups.len() && (#[trigger] groups[i]).key@ == k
}

/// The groups as a map from key to partial state.
pub open spec fn groups_model(groups: Seq<Group>) -> Map<SqlValueView, AvgState> {
    Map::new(|k: SqlValueView| has_group(groups, k), |k: SqlValueView| groups[group_at(groups, k)].state())
}

/// Keys are distinct and ascend from each group to the next, and every
/// group is well formed.
pub open spec fn groups_wf(groups: Seq<Group>) -> bool {
    &&& forall|i: int, j: int|
        0 <= i < j < groups.len() ==> (#[trigger] groups[i]).key@ != (#[trigger] groups[j]).key@
    &&& forall|i: int|
        0 <= i < groups.len() - 1 ==> value_lt((#[trigger] groups[i]).key@, groups[i + 1].key@)
    &&& forall|i: int| 0 <= i < groups.len() ==> (#[trigger] groups[i]).wf()
}

/// Whether no group has seen more than `bound` values.
pub open spec fn counts_within(groups: Seq<Group>, bound: int) -> bool {
    forall|i: int| 0 <= i < groups.len() ==> (#[trigger] groups[i]).count <= bound
}

/// The map after one more value `v` was seen under the key `k`.
pub open spec fn add_to(m: Map<SqlValueView, AvgState>, k: SqlValueView, v: int) -> Map<
    SqlValueView,
    AvgState,
> {
    if m.dom().contains(k) {
        m.insert(k, AvgState { sum: m[k].sum + v, count: m[k].count + 1 })
    } else {
        m.insert(k, AvgState { sum: v, count: 1 })
    }
}

/// Where keys are distinct, a group is found at its own position.
pub proof fn lemma_group_at(groups: Seq<Group>, i: int)
    requires
        groups_wf(groups),
        0 <= i < groups.len(),
    ensures
        has_group(groups, groups[i].key@),
        group_at(groups, groups[i].key@) == i,
{
    let k = groups[i].key@;
    let c = group_at(groups, k);
    assert(0 <= c < groups.len() && groups[c].key@ == k);
    if c < i {
        assert(groups[c].key@ != groups[i].key@);
    } else if i < c {
        assert(groups[i].key@ != groups[c].key@);
    }
}

/// Replacing a group by one of the same key that has seen one more value
/// keeps the table well formed and adds that value under the key.
pub proof fn lemma_group_updated(before: Seq<Group>, f: int, next: Group, v: int)
    requires
        groups_wf(before),
        0 <= f < before.len(),
        next.key@ == before[f].key@,
        next.wf(),
        next.sum == before[f].sum + v,
        next.count == before[f].count + 1,
    ensures
        groups_wf(before.update(f, next)),
        groups_model(before.update(f, next)) == add_to(groups_model(before), next.key@, v),
{
    let after = before.update(f, next);
    let key = next.key@;
    assert forall|a: int, b: int| 0 <= a < b < after.len() implies (#[trigger] after[a]).key@ != (
    #[trigger] after[b]).key@ by {
        assert(before[a].key@ != before[b].key@);
    }
    assert forall|a: int| 0 <= a < after.len() - 1 implies value_lt(
        (#[trigger] after[a]).key@,
        after[a + 1].key@,
    ) by {
        assert(value_lt(before[a].key@, before[a + 1].key@));
    }
    assert forall|a: int| 0 <= a < after.len() implies (#[trigger] after[a]).wf() by {
        if a != f {
            assert(before[a].wf());
        }
    }
    lemma_group_at(before, f);
    lemma_group_at(after, f);
    let m0 = groups_model(before);
    let m1 = groups_model(after);
    let want = add_to(m0, key, v);
    assert forall|k: SqlValueView| m1.dom().contains(k) <==> want.dom().contains(k) by {
        if has_group(after, k) {
            let c = group_at(after, k);
            assert(before[c].key@ == k);
        }
        if has_group(before, k) {
            let c = group_at(before, k);
            assert(after[c].key@ == k);
        }
    }
    assert forall|k: SqlValueView| #[trigger] m1.dom().contains(k) implies m1[k] == want[k] by {
        let c = group_at(after, k);
        assert(0 <= c < after.len() && after[c].key@ == k);
        if c != f {
            lemma_group_at(before, c);
            assert(before[c].key@ != before[f].key@);
        }
    }
    assert(m1 =~= want);
}

/// Putting a group with a new key between its neighbours in the order of
/// keys keeps the table well formed.
pub proof fn lemma_group_inserted_wf(before: Seq<Group>, j: int, next: Group)
    requires
        groups_wf(before),
        0 <= j <= before.len(),
        !has_group(before, next.key@),
        next.wf(),
        j > 0 ==> value_lt(before[j - 1].key@, next.key@),
        j < before.len() ==> !value_lt(before[j].key@, next.key@),
    ensures
        groups_wf(before.insert(j, next)),
{
    let after = before.insert(j, next);
    let key = next.key@;
    assert forall|a: int| 0 <= a < before.len() implies (#[trigger] before[a]).key@ != key by {}
    assert forall|a: int, b: int| 0 <= a < b < after.len() implies (#[trigger] after[a]).key@ != (
    #[trigger] after[b]).key@ by {
        let a0 = if a < j { a } else { a - 1 };
        let b0 = if b < j { b } else { b - 1 };
        if a != j && b != j {
            assert(before[a0].key@ != before[b0].key@);
        } else if a == j {
            assert(before[b0].key@ != key);
        } else {
            assert(before[a0].key@ != key);
        }
    }
    assert forall|a: int| 0 <= a < after.len() - 1 implies value_lt(
        (#[trigger] after[a]).key@,
        after[a + 1].key@,
    ) by {
        if a + 1 < j {
            assert(value_lt(before[a].key@, before[a + 1].key@));
        } else if a + 1 == j {
            assert(after[a] == before[j - 1]);
            assert(after[a + 1] == next);
        } else if a == j {
            assert(after[a + 1] == before[j]);
            assert(before[j].key@ != key);
            lemma_value_total(key, before[j].key@);
        } else {
            assert(after[a] == before[a - 1]);
            assert(after[a + 1] == before[a]);
            assert(value_lt(before[a - 1].key@, before[a].key@));
        }
    }
    assert forall|a: int| 0 <= a < after.len() implies (#[trigger] after[a]).wf() by {
        if a < j {
            assert(before[a].wf());
        } else if a > j {
            assert(before[a - 1].wf());
        }
    }
}

/// Putting a group with a new key into the table adds its value under the
/// key.
pub proof fn lemma_group_inserted(before: Seq<Group>, j: int, next: Group, v: int)
    requires
        groups_wf(before),
        groups_wf(before.insert(j, next)),
        0 <= j <= before.len(),
        !has_group(before, next.key@),
        next.sum == v,
        next.count == 1,
    ensures
        groups_model(before.insert(j, next)) == add_to(groups_model(before), next.key@, v),
{
    let after = before.insert(j, next);
    let key = next.key@;
    let m0 = groups_model(before);
    let m1 = groups_model(after);
    let want = add_to(m0, key, v);
    assert(!m0.dom().contains(key));
    lemma_group_at(after, j);
    assert forall|k: SqlValueView| m1.dom().contains(k) <==> want.dom().contains(k) by {
        if has_group(after, k) {
            let c = group_at(after, k);
            if c < j {
                assert(before[c].key@ == k);
            } else if c > j {
                assert(before[c - 1].key@ == k);
            }
        }
        if has_group(before, k) {
            let c = group_at(before, k);
            if c < j {
                assert(after[c].key@ == k);
            } else {
                assert(after[c + 1].key@ == k);
            }
        }
    }
    assert forall|k: SqlValueView| #[trigger] m1.dom().contains(k) implies m1[k] == want[k] by {
        let c = group_at(after, k);
        assert(0 <= c < after.len() && after[c].key@ == k);
        if c < j {
            lemma_group_at(before, c);
        } else if c > j {
            lemma_group_at(before, c - 1);
        }
    }
    assert(m1 =~= want);
}

/// The position of the group whose key is `key`.
pub fn find_group(groups: &Vec<Group>, key: &SqlValue) -> (res: Option<usize>)
    ensures
        res matches Some(f) ==> f < groups@.len() && groups@[f as int].key@ == key@ && forall|k: int|
            0 <= k < f ==> (#[trigger] groups@[k]).key@ != key@,
        res is None ==> !has_group(groups@, key@),
{
    let mut i: usize = 0;
    while i < groups.len()
        invariant
            i <= groups.len(),
            forall|k: int| 0 <= k < i ==> (#[trigger] groups@[k]).key@ != key@,
        decreases groups.len() - i,
    {
        if groups[i].key.same(key) {
            return Some(i);
        }
        i = i + 1;
    }
    None
}

/// One more 64-bit value keeps a sum within the bounds of its count, and
/// within 128 bits.
pub proof fn lemma_sum_bounds(count: int, sum: int, value: int)
    requires
        0 <= count < u64::MAX,
        count * i64::MIN <= sum <= count * i64::MAX,
        i64::MIN <= value <= i64::MAX,
    ensures
        (count + 1) * i64::MIN <= sum + value <= (count + 1) * i64::MAX,
        i128::MIN < (count + 1) * i64::MIN,
        (count + 1) * i64::MAX < i128::MAX,
{
    assert((count + 1) * i64::MIN == count * i64::MIN + i64::MIN) by (nonlinear_arith);
    assert((count + 1) * i64::MAX == count * i64::MAX + i64::MAX) by (nonlinear_arith);
    assert((count + 1) * i64::MIN >= 0xffff_ffff_ffff_ffff * i64::MIN) by (nonlinear_arith)
        requires
            0 <= count + 1 <= 0xffff_ffff_ffff_ffff,
    ;
    assert((count + 1) * i64::MAX <= 0xffff_ffff_ffff_ffff * i64::MAX) by (nonlinear_arith)
        requires
            0 <= count + 1 <= 0xffff_ffff_ffff_ffff,
    ;
}

fn bump_group(groups: &mut Vec<Group>, f: usize, value: i64, bound: Ghost<int>)
    requires
        groups_wf(old(groups)@),
        counts_within(old(groups)@, bound@),
        bound@ < u64::MAX,
        f < old(groups)@.len(),
    ensures
        groups_wf(final(groups)@),
        counts_within(final(groups)@, bound@ + 1),
        groups_model(final(groups)@) == add_to(
            groups_model(old(groups)@),
            old(groups)@[f as int].key@,
            value as int,
        ),
{
    let ghost before = groups@;
    let held = groups.remove(f);
    proof {
        assert(before[f as int].wf());
        assert(before[f as int].count <= bound@);
        lemma_sum_bounds(held.count as int, held.sum as int, value as int);
    }
    let next = Group { key: held.key, sum: held.sum + value as i128, count: held.count + 1 };
    groups.insert(f, next);
    proof {
        assert(groups@ =~= before.update(f as int, next));
        lemma_group_updated(before, f as int, next, value as int);
        assert forall|a: int| 0 <= a < groups@.len() implies (#[trigger] groups@[a]).count <= bound@ + 1 by {
            if a != f {
                assert(before[a].count <= bound@);
            }
        }
    }
}

fn open_group(groups: &mut Vec<Group>, key: SqlValue, value: i64, bound: Ghost<int>)
    requires
        groups_wf(old(groups)@),
        counts_within(old(groups)@, bound@),
        0 <= bound@,
        !has_group(old(groups)@, key@),
    ensures
        groups_wf(final(groups)@),
        counts_within(final(groups)@, bound@ + 1),
        groups_model(final(groups)@) == add_to(groups_model(old(groups)@), key@, value as int),
{
    let ghost before = groups@;
    let mut j: usize = 0;
    while j < groups.len() && groups[j].key.precedes(&key)
        invariant
            groups@ == before,
            j <= groups.len(),
            j > 0 ==> value_lt(groups@[j - 1].key@, key@),
        decreases groups.len() - j,
    {
        j = j + 1;
    }
    let next = Group { key, sum: value as i128, count: 1 };
    groups.insert(j, next);
    proof {
        lemma_group_inserted_wf(before, j as int, next);
        lemma_group_inserted(before, j as int, next, value as int);
        assert forall|a: int| 0 <= a < groups@.len() implies (#[trigger] groups@[a]).count <= bound@ + 1 by {
            if a < j {
                assert(before[a].count <= bound@);
            } else if a > j {
                assert(before[a - 1].count <= bound@);
            }
        }
    }
}

/// Adds the value `value` to the group of `key`, or opens that group at its
/// place in the order of keys.
fn upsert_group(groups: &mut Vec<Group>, key: SqlValue, value: i64, bound: Ghost<int>)
    requires
        groups_wf(old(groups)@),
        counts_within(old(groups)@, bound@),
        0 <= bound@ < u64::MAX,
    ensures
        groups_wf(final(groups)@),
        counts_within(final(groups)@, bound@ + 1),
        groups_model(final(groups)@) == add_to(groups_model(old(groups)@), key@, value as int),
{
    match find_group(groups, &key) {
        Some(f) => bump_group(groups, f, value, bound),
        None => open_group(groups, key, value, bound),
    }
}

/// The groups of the tuples whose event time falls into
/// `[start, start + length)`.
#[derive(Debug)]
pub struct Pane {
    pub start: i128,
    pub groups: Vec<Group>,
}

/// Whether some pane starts at `s`.
pub open spec fn has_pane(panes: Seq<Pane>, s: int) -> bool {
    exists|i: int| 0 <= i < panes.len() && (#[trigger] panes[i]).start == s
}

/// A position whose pane starts at `s`.
pub open spec fn pane_at(panes: Seq<Pane>, s: int) -> int {
    choose|i: int| 0 <= i < panes.len() && (#[trigger] panes[i]).start == s
}

/// The pane index: a map from the start of a pane to its groups.
pub open spec fn panes_model(panes: Seq<Pane>) -> Map<int, Map<SqlValueView, AvgState>> {
    Map::new(|s: int| has_pane(panes, s), |s: int| groups_model(panes[pane_at(panes, s)].groups@))
}

/// Panes ascend by start, and each holds a well-formed table of groups.
pub open spec fn panes_wf(panes: Seq<Pane>) -> bool {
    &&& forall|i: int, j: int|
        0 <= i < j < panes.len() ==> (#[trigger] panes[i]).start < (#[trigger] panes[j]).start
    &&& forall|i: int| 0 <= i < panes.len() ==> groups_wf((#[trigger] panes[i]).groups@)
}

/// Whether no group of a pane that starts at or before `s` has seen more
/// than `bound` values, and no group at all more than `bound + 1`.
pub open spec fn panes_within(panes: Seq<Pane>, s: int, bound: int) -> bool {
    &&& forall|i: int|
        0 <= i < panes.len() && (#[trigger] panes[i]).start <= s ==> counts_within(panes[i].groups@, bound)
    &&& forall|i: int| 0 <= i < panes.len() ==> counts_within((#[trigger] panes[i]).groups@, bound + 1)
}

/// The groups of the pane that starts at `s`; none where no such pane is.
pub open spec fn groups_in(m: Map<int, Map<SqlValueView, AvgState>>, s: int) -> Map<
    SqlValueView,
    AvgState,
> {
    if m.dom().contains(s) {
        m[s]
    } else {
        Map::empty()
    }
}

/// The pane index after one more value `v` was seen under the key `k` in
/// the pane that starts at `s`.
pub open spec fn add_pane(m: Map<int, Map<SqlValueView, AvgState>>, s: int, k: SqlValueView, v: int) -> Map<
    int,
    Map<SqlValueView, AvgState>,
> {
    m.insert(s, add_to(groups_in(m, s), k, v))
}

/// Where starts ascend, a pane is found at its own position.
pub proof fn lemma_pane_at(panes: Seq<Pane>, i: int)
    requires
        panes_wf(panes),
        0 <= i < panes.len(),
    ensures
        has_pane(panes, panes[i].start as int),
        pane_at(panes, panes[i].start as int) == i,
{
    let s = panes[i].start as int;
    let c = pane_at(panes, s);
    assert(0 <= c < panes.len() && panes[c].start == s);
    if c < i {
        assert(panes[c].start < panes[i].start);
    } else if i < c {
        assert(panes[i].start < panes[c].start);
    }
}

/// Replacing the groups of one pane replaces them in the index.
pub proof fn lemma_pane_updated(before: Seq<Pane>, f: int, next: Pane)
    requires
        panes_wf(before),
        0 <= f < before.len(),
        next.start == before[f].start,
        groups_wf(next.groups@),
    ensures
        panes_wf(before.update(f, next)),
        panes_model(before.update(f, next)) == panes_model(before).insert(
            next.start as int,
            groups_model(next.groups@),
        ),
{
    let after = before.update(f, next);
    assert forall|a: int, b: int| 0 <= a < b < after.len() implies (#[trigger] after[a]).start < (
    #[trigger] after[b]).start by {
        assert(before[a].start < before[b].start);
    }
    assert forall|a: int| 0 <= a < after.len() implies groups_wf((#[trigger] after[a]).groups@) by {
        if a != f {
            assert(groups_wf(before[a].groups@));
        }
    }
    lemma_pane_at(before, f);
    lemma_pane_at(after, f);
    let m1 = panes_model(after);
    let want = panes_model(before).insert(next.start as int, groups_model(next.groups@));
    assert forall|s: int| m1.dom().contains(s) <==> want.dom().contains(s) by {
        if has_pane(after, s) {
            let c = pane_at(after, s);
            assert(before[c].start == s);
        }
        if has_pane(before, s) {
            let c = pane_at(before, s);
            assert(after[c].start == s);
        }
    }
    assert forall|s: int| #[trigger] m1.dom().contains(s) implies m1[s] == want[s] by {
        let c = pane_at(after, s);
        assert(0 <= c < after.len() && after[c].start == s);
        if c != f {
            lemma_pane_at(before, c);
        }
    }
    assert(m1 =~= want);
}

/// Putting a pane with a new start between its neighbours adds it to the
/// index.
pub proof fn lemma_pane_inserted(before: Seq<Pane>, j: int, next: Pane)
    requires
        panes_wf(before),
        0 <= j <= before.len(),
        groups_wf(next.groups@),
        j > 0 ==> before[j - 1].start < next.start,
        j < before.len() ==> next.start < before[j].start,
    ensures
        panes_wf(before.insert(j, next)),
        !has_pane(before, next.start as int),
        panes_model(before.insert(j, next)) == panes_model(before).insert(
            next.start as int,
            groups_model(next.groups@),
        ),
{
    let after = before.insert(j, next);
    assert forall|a: int| 0 <= a < before.len() implies (#[trigger] before[a]).start != next.start by {
        if a < j - 1 {
            assert(before[a].start < before[j - 1].start);
        } else if a > j {
            assert(before[j].start < before[a].start);
        }
    }
    assert forall|a: int, b: int| 0 <= a < b < after.len() implies (#[trigger] after[a]).start < (
    #[trigger] after[b]).start by {
        let a0 = if a < j { a } else { a - 1 };
        let b0 = if b < j { b } else { b - 1 };
        if a != j && b != j {
            assert(before[a0].start < before[b0].start);
        } else if a == j {
            if b0 > j {
                assert(before[j].start < before[b0].start);
            }
        } else {
            if a0 < j - 1 {
                assert(before[a0].start < before[j - 1].start);
            }
        }
    }
    assert forall|a: int| 0 <= a < after.len() implies groups_wf((#[trigger] after[a]).groups@) by {
        if a < j {
            assert(groups_wf(before[a].groups@));
        } else if a > j {
            assert(groups_wf(before[a - 1].groups@));
        }
    }
    lemma_pane_at(after, j);
    let m1 = panes_model(after);
    let want = panes_model(before).insert(next.start as int, groups_model(next.groups@));
    assert forall|s: int| m1.dom().contains(s) <==> want.dom().contains(s) by {
        if has_pane(after, s) {
            let c = pane_at(after, s);
            if c < j {
                assert(before[c].start == s);
            } else if c > j {
                assert(before[c - 1].start == s);
            }
        }
        if has_pane(before, s) {
            let c = pane_at(before, s);
            if c < j {
                assert(after[c].start == s);
            } else {
                assert(after[c + 1].start == s);
            }
        }
    }
    assert forall|s: int| #[trigger] m1.dom().contains(s) implies m1[s] == want[s] by {
        let c = pane_at(after, s);
        assert(0 <= c < after.len() && after[c].start == s);
        if c < j {
            lemma_pane_at(before, c);
        } else if c > j {
            lemma_pane_at(before, c - 1);
        }
    }
    assert(m1 =~= want);
}

/// Records the value `value` under `key` in the pane that starts at `start`,
/// opening the pane at its place where there is none.
fn upsert_pane(panes: &mut Vec<Pane>, start: i128, key: SqlValue, value: i64, bound: Ghost<int>)
    requires
        panes_wf(old(panes)@),
        panes_within(old(panes)@, start as int, bound@),
        0 <= bound@ < u64::MAX,
    ensures
        panes_wf(final(panes)@),
        panes_within(final(panes)@, start - 1, bound@),
        panes_model(final(panes)@) == add_pane(panes_model(old(panes)@), start as int, key@, value as int),
{
    let ghost before = panes@;
    let mut j: usize = 0;
    while j < panes.len() && panes[j].start < start
        invariant
            panes@ == before,
            j <= panes.len(),
            j > 0 ==> panes@[j - 1].start < start,
        decreases panes.len() - j,
    {
        j = j + 1;
    }
    if j < panes.len() && panes[j].start == start {
        let mut pane = panes.remove(j);
        proof {
            assert(groups_wf(before[j as int].groups@));
            assert(counts_within(before[j as int].groups@, bound@));
        }
        upsert_group(&mut pane.groups, key, value, bound);
        panes.insert(j, pane);
        proof {
            assert(panes@ =~= before.update(j as int, pane));
            lemma_pane_updated(before, j as int, pane);
            lemma_pane_at(before, j as int);
            assert forall|i: int| 0 <= i < panes@.len() implies counts_within(
                (#[trigger] panes@[i]).groups@,
                bound@ + 1,
            ) && (panes@[i].start <= start - 1 ==> counts_within(panes@[i].groups@, bound@)) by {
                if i != j {
                    assert(counts_within(before[i].groups@, bound@ + 1));
                    assert(before[i].start <= start ==> counts_within(before[i].groups@, bound@));
                }
            }
        }
    } else {
        let mut groups: Vec<Group> = Vec::new();
        upsert_group(&mut groups, key, value, Ghost(0int));
        let pane = Pane { start, groups };
        panes.insert(j, pane);
        proof {
            lemma_pane_inserted(before, j as int, pane);
            assert(groups_model(Seq::<Group>::empty()) =~= Map::<SqlValueView, AvgState>::empty());
            assert forall|i: int| 0 <= i < panes@.len() implies counts_within(
                (#[trigger] panes@[i]).groups@,
                bound@ + 1,
            ) && (panes@[i].start <= start - 1 ==> counts_within(panes@[i].groups@, bound@)) by {
                if i < j {
                    assert(counts_within(before[i].groups@, bound@ + 1));
                    assert(before[i].start <= start ==> counts_within(before[i].groups@, bound@));
                } else if i > j {
                    assert(counts_within(before[i - 1].groups@, bound@ + 1));
                    assert(before[i - 1].start <= start ==> counts_within(before[i - 1].groups@, bound@));
                }
            }
        }
    }
}

/// Whether every pane starts within reach of a 64-bit event time.
pub open spec fn starts_bounded(panes: Seq<Pane>) -> bool {
    forall|i: int|
        0 <= i < panes.len() ==> -0x2_0000_0000_0000_0000 <= (#[trigger] panes[i]).start
            <= 0x2_0000_0000_0000_0000
}

/// A multiple of `p` leaves no remainder.
pub proof fn lemma_multiple(p: int, a: int)
    requires
        0 < p,
    ensures
        (p * a) % p == 0,
{
    lemma_mod_multiples_vanish(a, 0, p);
    assert(p * a + 0 == p * a);
    assert(0int % p == 0);
}

/// Two multiples of `p` less than `p` apart are equal.
pub proof fn lemma_aligned_unique(p: int, s1: int, s2: int)
    requires
        0 < p,
        s1 % p == 0,
        s2 % p == 0,
        s1 - p < s2 <= s1,
    ensures
        s2 == s1,
{
    lemma_fundamental_div_mod(s1, p);
    lemma_fundamental_div_mod(s2, p);
    let a = s1 / p;
    let b = s2 / p;
    assert(a == b) by (nonlinear_arith)
        requires
            0 < p,
            p * a - p < p * b <= p * a,
    ;
}

/// The start of the latest pane that begins at or before `t`.
pub fn latest_start(t: i64, period: u64) -> (s: i128)
    requires
        0 < period <= i64::MAX,
    ensures
        (s as int) % (period as int) == 0,
        s <= t < s + period,
{
    let ghost p = period as int;
    if t >= 0 {
        let r: u64 = (t as u64) % period;
        proof {
            lemma_fundamental_div_mod(t as int, p);
            lemma_multiple(p, t as int / p);
        }
        (t as i128) - (r as i128)
    } else {
        let m: u64 = (-(t as i128)) as u64;
        let r: u64 = m % period;
        proof {
            lemma_fundamental_div_mod(m as int, p);
            let q = m as int / p;
            if r == 0 {
                lemma_multiple(p, -q);
                assert(p * (-q) == -(p * q)) by (nonlinear_arith);
            } else {
                lemma_multiple(p, -q - 1);
                assert(p * (-q - 1) == -(p * q) - p) by (nonlinear_arith);
            }
        }
        if r == 0 {
            t as i128
        } else {
            (t as i128) - ((period - r) as i128)
        }
    }
}

/// The pane index after the tuple `(t, k, v)` was recorded in each pane
/// that contains `t` and starts after `floor`.
pub open spec fn observe_above(
    m: Map<int, Map<SqlValueView, AvgState>>,
    param: WindowParameter,
    t: int,
    k: SqlValueView,
    v: int,
    floor: int,
) -> Map<int, Map<SqlValueView, AvgState>> {
    Map::new(
        |s: int| m.dom().contains(s) || (param.in_pane(s, t) && s > floor),
        |s: int|
            if param.in_pane(s, t) && s > floor {
                add_to(groups_in(m, s), k, v)
            } else {
                m[s]
            },
    )
}

/// The pane index after the tuple `(t, k, v)` was recorded: every pane that
/// contains `t` exists and has seen `v` under `k`; the others are as before.
pub open spec fn observe(
    m: Map<int, Map<SqlValueView, AvgState>>,
    param: WindowParameter,
    t: int,
    k: SqlValueView,
    v: int,
) -> Map<int, Map<SqlValueView, AvgState>> {
    Map::new(
        |s: int| m.dom().contains(s) || param.in_pane(s, t),
        |s: int|
            if param.in_pane(s, t) {
                add_to(groups_in(m, s), k, v)
            } else {
                m[s]
            },
    )
}

/// Recording in the pane at `s` extends what was recorded above `s` to what
/// is recorded above the pane before it.
pub proof fn lemma_observe_step(
    m: Map<int, Map<SqlValueView, AvgState>>,
    param: WindowParameter,
    t: int,
    k: SqlValueView,
    v: int,
    s: int,
)
    requires
        param.wf(),
        param.in_pane(s, t),
    ensures
        add_pane(observe_above(m, param, t, k, v, s), s, k, v) == observe_above(
            m,
            param,
            t,
            k,
            v,
            s - param.period,
        ),
{
    let left = add_pane(observe_above(m, param, t, k, v, s), s, k, v);
    let right = observe_above(m, param, t, k, v, s - param.period);
    assert forall|x: int| left.dom().contains(x) <==> right.dom().contains(x) by {
        if param.in_pane(x, t) && x > s - param.period && x <= s {
            lemma_aligned_unique(param.period as int, s, x);
        }
    }
    assert forall|x: int| #[trigger] left.dom().contains(x) implies left[x] == right[x] by {
        if param.in_pane(x, t) && x > s - param.period && x <= s {
            lemma_aligned_unique(param.period as int, s, x);
        }
    }
    assert(left =~= right);
}

/// Nothing is recorded above the latest pane that contains `t`.
pub proof fn lemma_observe_none(
    m: Map<int, Map<SqlValueView, AvgState>>,
    param: WindowParameter,
    t: int,
    k: SqlValueView,
    v: int,
    top: int,
)
    requires
        param.wf(),
        top % (param.period as int) == 0,
        top <= t < top + param.period,
    ensures
        observe_above(m, param, t, k, v, top) == m,
{
    let above = observe_above(m, param, t, k, v, top);
    assert forall|x: int| above.dom().contains(x) <==> m.dom().contains(x) by {
        if param.in_pane(x, t) && x > top {
            lemma_aligned_unique(param.period as int, x, top);
        }
    }
    assert forall|x: int| #[trigger] above.dom().contains(x) implies above[x] == m[x] by {
        if param.in_pane(x, t) && x > top {
            lemma_aligned_unique(param.period as int, x, top);
        }
    }
    assert(above =~= m);
}

/// What is recorded above a start that no pane containing `t` reaches is
/// all that is recorded.
pub proof fn lemma_observe_all(
    m: Map<int, Map<SqlValueView, AvgState>>,
    param: WindowParameter,
    t: int,
    k: SqlValueView,
    v: int,
    s: int,
)
    requires
        s + param.length <= t,
    ensures
        observe_above(m, param, t, k, v, s) == observe(m, param, t, k, v),
{
    assert(observe_above(m, param, t, k, v, s) =~= observe(m, param, t, k, v));
}

/// The multiple of `p` before a multiple of `p`.
pub proof fn lemma_previous_aligned(p: int, s: int)
    requires
        0 < p,
        s % p == 0,
    ensures
        (s - p) % p == 0,
{
    lemma_fundamental_div_mod(s, p);
    lemma_multiple(p, s / p - 1);
    assert(p * (s / p - 1) == p * (s / p) - p) by (nonlinear_arith);
}

/// Panes whose index grew by the start `s` at most stay within reach of a
/// 64-bit event time if `s` is.
pub proof fn lemma_starts_kept(before: Seq<Pane>, after: Seq<Pane>, s: int, k: SqlValueView, v: int)
    requires
        starts_bounded(before),
        -0x2_0000_0000_0000_0000 <= s <= 0x2_0000_0000_0000_0000,
        panes_model(after) == add_pane(panes_model(before), s, k, v),
    ensures
        starts_bounded(after),
{
    assert forall|i: int| 0 <= i < after.len() implies -0x2_0000_0000_0000_0000 <= (#[trigger] after[i]).start
        <= 0x2_0000_0000_0000_0000 by {
        let x = after[i].start as int;
        assert(has_pane(after, x));
        assert(panes_model(after).dom().contains(x));
        if x != s {
            assert(panes_model(before).dom().contains(x));
            let c = pane_at(before, x);
            assert(before[c].start == x);
        }
    }
}

/// Records the tuple `(t, key, value)` in every pane that contains `t`.
fn record(
    panes: &mut Vec<Pane>,
    param: WindowParameter,
    t: i64,
    key: &SqlValue,
    value: i64,
    bound: Ghost<int>,
)
    requires
        param.wf(),
        panes_wf(old(panes)@),
        starts_bounded(old(panes)@),
        panes_within(old(panes)@, 0x2_0000_0000_0000_0000, bound@),
        0 <= bound@ < u64::MAX,
    ensures
        panes_wf(final(panes)@),
        starts_bounded(final(panes)@),
        panes_within(final(panes)@, -0x2_0000_0000_0000_0001, bound@),
        panes_model(final(panes)@) == observe(panes_model(old(panes)@), param, t as int, key@, value as int),
{
    let ghost m0 = panes_model(panes@);
    let top = latest_start(t, param.period);
    let mut s: i128 = top;
    proof {
        lemma_observe_none(m0, param, t as int, key@, value as int, top as int);
    }
    while s + (param.length as i128) > t as i128
        invariant
            param.wf(),
            panes_wf(panes@),
            starts_bounded(panes@),
            panes_within(panes@, s as int, bound@),
            0 <= bound@ < u64::MAX,
            (s as int) % (param.period as int) == 0,
            s <= top <= t,
            s + param.length + param.period > t,
            panes_model(panes@) == observe_above(m0, param, t as int, key@, value as int, s as int),
        decreases s + param.length + param.period - t,
    {
        let ghost before = panes@;
        upsert_pane(panes, s, key.duplicate(), value, bound);
        proof {
            lemma_observe_step(m0, param, t as int, key@, value as int, s as int);
            lemma_starts_kept(before, panes@, s as int, key@, value as int);
            lemma_previous_aligned(param.period as int, s as int);
        }
        let step: i128 = param.period as i128;
        assert(step > 0);
        s = s - step;
    }
    proof {
        lemma_observe_all(m0, param, t as int, key@, value as int, s as int);
    }
}

/// The panes that are still open at the watermark `w`: those that end
/// after it.
pub open spec fn open_part(m: Map<int, Map<SqlValueView, AvgState>>, length: int, w: int) -> Map<
    int,
    Map<SqlValueView, AvgState>,
> {
    m.restrict(Set::new(|s: int| s + length > w))
}

/// The panes that the watermark `w` closes: those that end at or before it.
pub open spec fn closed_part(m: Map<int, Map<SqlValueView, AvgState>>, length: int, w: int) -> Map<
    int,
    Map<SqlValueView, AvgState>,
> {
    m.restrict(Set::new(|s: int| s + length <= w))
}

/// Cutting ascending panes where the first open one stands parts the index
/// into its closed and its open panes.
pub proof fn lemma_split_model(before: Seq<Pane>, k: int, length: int, w: int)
    requires
        panes_wf(before),
        0 <= k <= before.len(),
        forall|i: int| 0 <= i < k ==> (#[trigger] before[i]).start + length <= w,
        k < before.len() ==> before[k].start + length > w,
    ensures
        panes_wf(before.subrange(0, k)),
        panes_wf(before.subrange(k, before.len() as int)),
        panes_model(before.subrange(0, k)) == closed_part(panes_model(before), length, w),
        panes_model(before.subrange(k, before.len() as int)) == open_part(panes_model(before), length, w),
{
    let head = before.subrange(0, k);
    let tail = before.subrange(k, before.len() as int);
    assert forall|i: int| k <= i < before.len() implies (#[trigger] before[i]).start + length > w by {
        if i > k {
            assert(before[k].start < before[i].start);
        }
    }
    assert forall|a: int, b: int| 0 <= a < b < head.len() implies (#[trigger] head[a]).start < (
    #[trigger] head[b]).start by {
        assert(before[a].start < before[b].start);
    }
    assert forall|a: int, b: int| 0 <= a < b < tail.len() implies (#[trigger] tail[a]).start < (
    #[trigger] tail[b]).start by {
        assert(before[a + k].start < before[b + k].start);
    }
    assert forall|a: int| 0 <= a < head.len() implies groups_wf((#[trigger] head[a]).groups@) by {
        assert(groups_wf(before[a].groups@));
    }
    assert forall|a: int| 0 <= a < tail.len() implies groups_wf((#[trigger] tail[a]).groups@) by {
        assert(groups_wf(before[a + k].groups@));
    }
    let m = panes_model(before);
    let mh = panes_model(head);
    let mt = panes_model(tail);
    let ch = closed_part(m, length, w);
    let ct = open_part(m, length, w);
    assert forall|s: int| mh.dom().contains(s) <==> ch.dom().contains(s) by {
        if has_pane(head, s) {
            let c = pane_at(head, s);
            assert(before[c].start == s);
        }
        if has_pane(before, s) && s + length <= w {
            let c = pane_at(before, s);
            assert(head[c].start == s);
        }
    }
    assert forall|s: int| #[trigger] mh.dom().contains(s) implies mh[s] == ch[s] by {
        let c = pane_at(head, s);
        assert(0 <= c < head.len() && head[c].start == s);
        lemma_pane_at(before, c);
    }
    assert(mh =~= ch);
    assert forall|s: int| mt.dom().contains(s) <==> ct.dom().contains(s) by {
        if has_pane(tail, s) {
            let c = pane_at(tail, s);
            assert(before[c + k].start == s);
        }
        if has_pane(before, s) && s + length > w {
            let c = pane_at(before, s);
            assert(tail[c - k].start == s);
        }
    }
    assert forall|s: int| #[trigger] mt.dom().contains(s) implies mt[s] == ct[s] by {
        let c = pane_at(tail, s);
        assert(0 <= c < tail.len() && tail[c].start == s);
        lemma_pane_at(before, c + k);
    }
    assert(mt =~= ct);
}

/// Takes out the panes that the watermark closes, in ascending order of
/// their start, and leaves the open ones.
pub fn close_panes(panes: &mut Vec<Pane>, length: u64, watermark: i128) -> (closed: Vec<Pane>)
    requires
        panes_wf(old(panes)@),
        starts_bounded(old(panes)@),
        -0x4_0000_0000_0000_0000 <= watermark <= 0x4_0000_0000_0000_0000,
    ensures
        closed@ + final(panes)@ == old(panes)@,
        panes_wf(closed@),
        panes_wf(final(panes)@),
        panes_model(closed@) == closed_part(panes_model(old(panes)@), length as int, watermark as int),
        panes_model(final(panes)@) == open_part(panes_model(old(panes)@), length as int, watermark as int),
{
    let ghost before = panes@;
    let mut k: usize = 0;
    while k < panes.len() && panes[k].start + (length as i128) <= watermark
        invariant
            panes@ == before,
            starts_bounded(before),
            k <= panes.len(),
            forall|i: int| 0 <= i < k ==> (#[trigger] before[i]).start + length <= watermark,
        decreases panes.len() - k,
    {
        k = k + 1;
    }
    let mut rest = panes.split_off(k);
    core::mem::swap(panes, &mut rest);
    proof {
        lemma_split_model(before, k as int, length as int, watermark as int);
        assert(before.subrange(0, k as int) + before.subrange(k as int, before.len() as int) =~= before);
    }
    rest
}

/// The tuple emitted for a group of a closed pane: the key under the label
/// of the grouping field, then the average under the alias.
pub open spec fn aggregate_tuple(group_by: ColumnName, alias: ColumnName, g: Group, rowtime: i64) -> TupleView {
    TupleView {
        rowtime,
        fields: seq![
            Field { label: group_by, value: g.key },
            Field { label: alias, value: SqlValue::Integer(g.state().average() as i64) },
        ],
    }
}

/// The tuples emitted for one pane: one per group, in the order of keys.
pub open spec fn pane_listing(groups: Seq<Group>, group_by: ColumnName, alias: ColumnName, rowtime: i64) -> Seq<
    TupleView,
> {
    Seq::new(groups.len(), |i: int| aggregate_tuple(group_by, alias, groups[i], rowtime))
}

/// The tuples emitted for a list of panes: those of each pane, pane after
/// pane.
pub open spec fn listing(panes: Seq<Pane>, group_by: ColumnName, alias: ColumnName, rowtime: i64) -> Seq<
    TupleView,
>
    decreases panes.len(),
{
    if panes.len() == 0 {
        Seq::empty()
    } else {
        listing(panes.drop_last(), group_by, alias, rowtime) + pane_listing(
            panes.last().groups@,
            group_by,
            alias,
            rowtime,
        )
    }
}

/// Lists the aggregates of closed panes as tuples.
pub fn emit(closed: &Vec<Pane>, group_by: &ColumnName, alias: &ColumnName, rowtime: i64) -> (out: Vec<Tuple>)
    requires
        panes_wf(closed@),
    ensures
        tuple_views(out@) == listing(closed@, *group_by, *alias, rowtime),
{
    let mut out: Vec<Tuple> = Vec::new();
    let mut i: usize = 0;
    proof {
        assert(tuple_views(out@) =~= Seq::<TupleView>::empty());
        assert(closed@.take(0).len() == 0);
    }
    while i < closed.len()
        invariant
            i <= closed.len(),
            panes_wf(closed@),
            tuple_views(out@) == listing(closed@.take(i as int), *group_by, *alias, rowtime),
        decreases closed.len() - i,
    {
        let groups = &closed[i].groups;
        let ghost head = tuple_views(out@);
        let mut j: usize = 0;
        proof {
            assert(pane_listing(groups@.take(0), *group_by, *alias, rowtime) =~= Seq::<TupleView>::empty());
            assert(head + Seq::<TupleView>::empty() =~= head);
        }
        while j < groups.len()
            invariant
                j <= groups.len(),
                groups_wf(groups@),
                tuple_views(out@) == head + pane_listing(groups@.take(j as int), *group_by, *alias, rowtime),
            decreases groups.len() - j,
        {
            let group = &groups[j];
            assert(group.wf());
            let mut fields: Vec<Field> = Vec::new();
            fields.push(Field { label: group_by.duplicate(), value: group.key.duplicate() });
            fields.push(Field { label: alias.duplicate(), value: SqlValue::Integer(group.average()) });
            let tuple = Tuple { rowtime, fields };
            let ghost earlier = out@;
            out.push(tuple);
            proof {
                assert(tuple@.fields =~= aggregate_tuple(*group_by, *alias, *group, rowtime).fields);
                assert(tuple_views(out@) =~= tuple_views(earlier).push(tuple@));
                assert(pane_listing(groups@.take(j + 1), *group_by, *alias, rowtime) =~= pane_listing(
                    groups@.take(j as int),
                    *group_by,
                    *alias,
                    rowtime,
                ).push(tuple@));
                assert(head + pane_listing(groups@.take(j + 1), *group_by, *alias, rowtime) =~= (head
                    + pane_listing(groups@.take(j as int), *group_by, *alias, rowtime)).push(tuple@));
            }
            j = j + 1;
        }
        proof {
            assert(groups@.take(groups@.len() as int) =~= groups@);
            assert(closed@.take(i + 1).drop_last() =~= closed@.take(i as int));
            assert(closed@.take(i + 1).last() == closed@[i as int]);
        }
        i = i + 1;
    }
    proof {
        assert(closed@.take(closed@.len() as int) =~= closed@);
    }
    out
}

impl WindowOperationParameter {
    /// The label of the grouping field.
    pub open spec fn group_by(self) -> ColumnName {
        match self {
            WindowOperationParameter::GroupAggregate { group_by_field, .. } => group_by_field,
        }
    }

    /// The label of the aggregated field.
    pub open spec fn aggregated(self) -> ColumnName {
        match self {
            WindowOperationParameter::GroupAggregate { aggregated_field, .. } => aggregated_field,
        }
    }

    /// The label under which the aggregate is emitted.
    pub open spec fn alias(self) -> ColumnName {
        match self {
            WindowOperationParameter::GroupAggregate { aggregated_alias, .. } => aggregated_alias,
        }
    }

    /// A copy of the parameter.
    pub fn duplicate(&self) -> (res: WindowOperationParameter)
        ensures
            res == *self,
    {
        match self {
            WindowOperationParameter::GroupAggregate {
                group_by_field,
                aggregated_field,
                aggregated_alias,
                function,
            } => WindowOperationParameter::GroupAggregate {
                group_by_field: group_by_field.duplicate(),
                aggregated_field: aggregated_field.duplicate(),
                aggregated_alias: aggregated_alias.duplicate(),
                function: *function,
            },
        }
    }
}

/// What a window reads from a tuple: the key of its group and the value to
/// aggregate. Fails with `Sql` where either field is absent or the value is
/// no integer.
pub open spec fn reading(op: WindowOperationParameter, fields: Seq<Field>) -> Result<
    (SqlValue, i64),
    SpringError,
> {
    match (lookup(fields, op.group_by()@), lookup(fields, op.aggregated()@)) {
        (Some(k), Some(SqlValue::Integer(v))) => Ok((k, v)),
        _ => Err(SpringError::Sql),
    }
}

/// The watermark after a tuple with event time `t`: the later of the old
/// watermark and `t` less the tolerated disorder.
pub open spec fn advanced(watermark: Option<i128>, t: i64, max_out_of_order: u64) -> int {
    match watermark {
        Some(w) => if w > t - max_out_of_order {
            w as int
        } else {
            t - max_out_of_order
        },
        None => t - max_out_of_order,
    }
}

/// What a list of tuples or a failure stands for.
pub open spec fn outcome_views(res: Result<Vec<Tuple>, SpringError>) -> Result<Seq<TupleView>, SpringError> {
    match res {
        Ok(tuples) => Ok(tuple_views(tuples@)),
        Err(e) => Err(e),
    }
}

/// Whether taking the tuple `t` in leads the window from `pre` to `post`
/// with the outcome `res`.
///
/// Where the tuple lacks a field the window reads, or the value to aggregate
/// is no integer, the outcome is `Sql` and nothing changes; once `u64::MAX`
/// tuples were recorded it is `Unavailable` and nothing changes. Otherwise
/// the tuple is recorded in every pane that contains its event time, the
/// watermark advances, the panes that end at or before it leave the index,
/// and the outcome lists their aggregates, pane after pane in ascending
/// order, each pane's groups in the order of keys.
pub open spec fn dispatched_to(
    pre: AggrWindow,
    t: TupleView,
    post: AggrWindow,
    res: Result<Seq<TupleView>, SpringError>,
) -> bool {
    &&& post.param == pre.param
    &&& post.op == pre.op
    &&& post.max_out_of_order == pre.max_out_of_order
    &&& match reading(pre.op, t.fields) {
        Err(e) => res == Err::<Seq<TupleView>, SpringError>(e) && post == pre,
        Ok((k, v)) => if pre.dispatched == u64::MAX {
            res == Err::<Seq<TupleView>, SpringError>(SpringError::Unavailable) && post == pre
        } else {
            let w = advanced(pre.watermark, t.rowtime, pre.max_out_of_order);
            let seen = observe(pre.model(), pre.param, t.rowtime as int, k@, v as int);
            &&& res is Ok
            &&& post.dispatched == pre.dispatched + 1
            &&& post.watermark == Some(w as i128)
            &&& post.model() == open_part(seen, pre.param.length as int, w)
            &&& exists|closed: Seq<Pane>|
                #![trigger panes_model(closed)]
                panes_wf(closed) && panes_model(closed) == closed_part(seen, pre.param.length as int, w)
                    && res->Ok_0 == listing(closed, pre.op.group_by(), pre.op.alias(), t.rowtime)
        },
    }
}

/// The state of a windowed group aggregation: the open panes with their
/// groups, and the watermark.
#[derive(Debug)]
pub struct AggrWindow {
    pub param: WindowParameter,
    pub op: WindowOperationParameter,
    /// By how many nanoseconds a tuple may lag behind the latest one.
    pub max_out_of_order: u64,
    /// The lower bound on event times still expected; none before the first
    /// tuple.
    pub watermark: Option<i128>,
    /// The number of tuples recorded so far.
    pub dispatched: u64,
    pub panes: Vec<Pane>,
}

impl AggrWindow {
    /// The pane index: from the start of each open pane to its groups.
    pub open spec fn model(self) -> Map<int, Map<SqlValueView, AvgState>> {
        panes_model(self.panes@)
    }

    /// Panes ascend by start and are well formed; no group has seen more
    /// values than tuples were recorded; every pane ends after the
    /// watermark.
    pub open spec fn wf(self) -> bool {
        &&& self.param.wf()
        &&& panes_wf(self.panes@)
        &&& starts_bounded(self.panes@)
        &&& panes_within(self.panes@, 0x2_0000_0000_0000_0000, self.dispatched as int)
        &&& self.watermark matches Some(w) ==> {
            &&& -0x2_0000_0000_0000_0000 <= w <= 0x2_0000_0000_0000_0000
            &&& forall|s: int| #[trigger] self.model().dom().contains(s) ==> s + self.param.length > w
        }
    }

    /// A window without panes that has seen no tuple.
    pub fn new(param: WindowParameter, op: WindowOperationParameter, max_out_of_order: u64) -> (res:
        AggrWindow)
        requires
            param.wf(),
        ensures
            res.wf(),
            res.param == param,
            res.op == op,
            res.max_out_of_order == max_out_of_order,
            res.watermark is None,
            res.dispatched == 0,
            res.panes@ == Seq::<Pane>::empty(),
    {
        AggrWindow { param, op, max_out_of_order, watermark: None, dispatched: 0, panes: Vec::new() }
    }

    /// Releases every pane and forgets the watermark: the window is as it
    /// was when it was made.
    pub fn clear(&mut self)
        requires
            old(self).wf(),
        ensures
            final(self).wf(),
            final(self).param == old(self).param,
            final(self).op == old(self).op,
            final(self).max_out_of_order == old(self).max_out_of_order,
            final(self).watermark is None,
            final(self).dispatched == 0,
            final(self).panes@ == Seq::<Pane>::empty(),
    {
        self.panes = Vec::new();
        self.watermark = None;
        self.dispatched = 0;
    }

    /// Reads the key and the value to aggregate from a tuple.
    pub fn read(&self, tuple: &Tuple) -> (res: Result<(SqlValue, i64), SpringError>)
        ensures
            res == reading(self.op, tuple.fields@),
    {
        match &self.op {
            WindowOperationParameter::GroupAggregate { group_by_field, aggregated_field, .. } => {
                let key = match tuple.get_value(group_by_field) {
                    Err(_) => {
                        return Err(SpringError::Sql);
                    },
                    Ok(k) => k,
                };
                match tuple.get_value(aggregated_field) {
                    Ok(SqlValue::Integer(v)) => Ok((key, v)),
                    _ => Err(SpringError::Sql),
                }
            },
        }
    }

    /// Takes one tuple in. The tuple is recorded in every pane that contains
    /// its event time; the watermark advances; every pane that ends at or
    /// before the watermark is closed, its aggregates are emitted and it is
    /// deleted. The emitted tuples ascend by pane, then by key.
    ///
    /// Fails, changing nothing, with `Sql` where the tuple lacks a field the
    /// window reads or the value to aggregate is no integer, and with
    /// `Unavailable` once `u64::MAX` tuples were recorded.
    pub fn dispatch(&mut self, tuple: &Tuple) -> (res: Result<Vec<Tuple>, SpringError>)
        requires
            old(self).wf(),
        ensures
            final(self).wf(),
            dispatched_to(*old(self), tuple@, *final(self), outcome_views(res)),
    {
        let (key, value) = match self.read(tuple) {
            Err(e) => {
                return Err(e);
            },
            Ok(kv) => kv,
        };
        if self.dispatched == u64::MAX {
            return Err(SpringError::Unavailable);
        }
        let ghost m0 = self.model();
        record(&mut self.panes, self.param, tuple.rowtime, &key, value, Ghost(self.dispatched as int));
        self.dispatched = self.dispatched + 1;
        let candidate: i128 = tuple.rowtime as i128 - self.max_out_of_order as i128;
        let w: i128 = match self.watermark {
            Some(held) => if held > candidate {
                held
            } else {
                candidate
            },
            None => candidate,
        };
        self.watermark = Some(w);
        let ghost seen = panes_model(self.panes@);
        let ghost recorded = self.panes@;
        let closed = close_panes(&mut self.panes, self.param.length, w);
        proof {
            assert forall|i: int| 0 <= i < self.panes@.len() implies -0x2_0000_0000_0000_0000 <= (
            #[trigger] self.panes@[i]).start <= 0x2_0000_0000_0000_0000 && counts_within(
                self.panes@[i].groups@,
                self.dispatched as int,
            ) by {
                assert(self.panes@[i] == recorded[i + closed@.len()]);
                assert(counts_within(recorded[i + closed@.len()].groups@, self.dispatched as int));
            }
            assert forall|i: int| 0 <= i < self.panes@.len() implies counts_within(
                (#[trigger] self.panes@[i]).groups@,
                self.dispatched as int + 1,
            ) by {
                assert(counts_within(self.panes@[i].groups@, self.dispatched as int));
            }
        }
        match &self.op {
            WindowOperationParameter::GroupAggregate { group_by_field, aggregated_alias, .. } => {
                let out = emit(&closed, group_by_field, aggregated_alias, tuple.rowtime);
                Ok(out)
            },
        }
    }
}

} // verus!
