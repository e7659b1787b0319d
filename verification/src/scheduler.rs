//! Completion scheduler: a min-priority queue of pending task completions,
//! ordered by finish time ascending with simulation id ascending as the
//! deterministic tiebreak.
//!
//! The queue is held as a sorted vector: it is small (one entry per active
//! task per unit), and the bulk removals that queue replacement needs are
//! linear scans anyway.

use crate::model::{SimulatedId, TimeStamp, UnitId};
use crate::tasks::TaskProgress;
use vstd::prelude::*;

verus! {

/// The entries are sorted by `(finish_time, simulation_id)` ascending.
pub open spec fn sorted(s: Seq<TaskProgress>) -> bool {
    forall|i: int, j: int| 0 <= i < j < s.len() ==> (#[trigger] s[i]).le(#[trigger] s[j])
}

/// No two entries belong to the same simulation.
pub open spec fn distinct_sims(s: Seq<TaskProgress>) -> bool {
    forall|i: int, j: int|
        0 <= i < j < s.len() ==> (#[trigger] s[i]).sim_id() != (#[trigger] s[j]).sim_id()
}

/// Some entry of `s` belongs to simulation `sid`.
pub open spec fn contains_sim(s: Seq<TaskProgress>, sid: SimulatedId) -> bool {
    exists|i: int| 0 <= i < s.len() && (#[trigger] s[i]).sim_id() == sid
}

/// Some entry of `s` belongs to unit `u`.
pub open spec fn contains_unit(s: Seq<TaskProgress>, u: UnitId) -> bool {
    exists|i: int| 0 <= i < s.len() && (#[trigger] s[i]).unit_id() == u
}

/// Min-priority queue of pending completions.
pub struct Scheduler {
    entries: Vec<TaskProgress>,
}

impl View for Scheduler {
    type V = Seq<TaskProgress>;

    closed spec fn view(&self) -> Seq<TaskProgress> {
        self.entries@
    }
}

impl Scheduler {
    /// The scheduler's invariant: entries are sorted by the completion
    /// order.
    pub open spec fn wf(self) -> bool {
        sorted(self@)
    }

    pub fn new() -> (r: Self)
        ensures
            r.wf(),
            r@.len() == 0,
    {
        Scheduler { entries: Vec::new() }
    }

    pub fn len(&self) -> (n: usize)
        ensures
            n == self@.len(),
    {
        self.entries.len()
    }

    /// The entry that will fire first, if any: the head of the sorted
    /// vector.
    pub fn peek(&self) -> (r: Option<TaskProgress>)
        requires
            self.wf(),
        ensures
            self@.len() == 0 ==> r is None,
            self@.len() > 0 ==> r == Some(self@[0]),
    {
        if self.entries.len() > 0 {
            Some(self.entries[0])
        } else {
            None
        }
    }

    /// Removes and returns the entry that fires first.  The result precedes
    /// everything that stays: consecutive pops see non-decreasing finish
    /// times, and equal finish times in ascending simulation-id order.
    pub fn pop(&mut self) -> (r: TaskProgress)
        requires
            old(self).wf(),
            old(self)@.len() > 0,
        ensures
            final(self).wf(),
            r == old(self)@[0],
            final(self)@ == old(self)@.subrange(1, old(self)@.len() as int),
            forall|i: int| 0 <= i < final(self)@.len() ==> r.le(#[trigger] final(self)@[i]),
            distinct_sims(old(self)@) ==> distinct_sims(final(self)@),
    {
        let r = self.entries.remove(0);
        proof {
            assert(final(self)@ == old(self)@.subrange(1, old(self)@.len() as int));
            assert forall|i: int| 0 <= i < self@.len() implies r.le(#[trigger] self@[i]) by {
                assert(self@[i] == old(self)@[i + 1]);
            }
            assert forall|i: int, j: int| 0 <= i < j < self@.len() implies (
            #[trigger] self@[i]).le(#[trigger] self@[j]) by {
                assert(self@[i] == old(self)@[i + 1]);
                assert(self@[j] == old(self)@[j + 1]);
            }
            if distinct_sims(old(self)@) {
                assert forall|i: int, j: int| 0 <= i < j < self@.len() implies (
                #[trigger] self@[i]).sim_id() != (#[trigger] self@[j]).sim_id() by {
                    assert(self@[i] == old(self)@[i + 1]);
                    assert(self@[j] == old(self)@[j + 1]);
                }
            }
        }
        r
    }

    /// Inserts `entry` at its place in the completion order.
    pub fn push(&mut self, entry: TaskProgress)
        requires
            old(self).wf(),
        ensures
            final(self).wf(),
            final(self)@.len() == old(self)@.len() + 1,
            exists|pos: int|
                0 <= pos <= old(self)@.len() && final(self)@ == old(self)@.insert(pos, entry),
            forall|sid: SimulatedId|
                contains_sim(final(self)@, sid) <==> (contains_sim(old(self)@, sid) || sid
                    == entry.sim_id()),
            distinct_sims(old(self)@) && !contains_sim(old(self)@, entry.sim_id())
                ==> distinct_sims(final(self)@),
    {
        let mut pos: usize = 0;
        while pos < self.entries.len() && entry_le(&self.entries[pos], &entry)
            invariant
                pos <= self.entries@.len(),
                self == old(self),
                forall|i: int| 0 <= i < pos ==> (#[trigger] self.entries@[i]).le(entry),
            decreases self.entries@.len() - pos,
        {
            pos += 1;
        }
        proof {
            assert(pos < self@.len() ==> entry.le(self@[pos as int]));
        }
        self.entries.insert(pos, entry);
        proof {
            let s = old(self)@;
            let t = self@;
            assert(t == s.insert(pos as int, entry));
            assert forall|i: int, j: int| 0 <= i < j < t.len() implies (#[trigger] t[i]).le(
                #[trigger] t[j],
            ) by {
                if i < pos && j > pos {
                    assert(t[i] == s[i] && t[j] == s[j - 1]);
                } else if i < pos && j == pos {
                    assert(t[i] == s[i]);
                } else if i == pos && j > pos {
                    assert(t[j] == s[j - 1]);
                } else if i > pos {
                    assert(t[i] == s[i - 1] && t[j] == s[j - 1]);
                }
            }
            assert forall|sid: SimulatedId|
                contains_sim(t, sid) implies (contains_sim(s, sid) || sid == entry.sim_id()) by {
                let i = choose|i: int| 0 <= i < t.len() && (#[trigger] t[i]).sim_id() == sid;
                if i < pos {
                    assert(s[i].sim_id() == sid);
                } else if i > pos {
                    assert(s[i - 1].sim_id() == sid);
                }
            }
            assert forall|sid: SimulatedId|
                (contains_sim(s, sid) || sid == entry.sim_id()) implies contains_sim(t, sid) by {
                if sid == entry.sim_id() {
                    assert(t[pos as int].sim_id() == sid);
                } else {
                    let i = choose|i: int| 0 <= i < s.len() && (#[trigger] s[i]).sim_id() == sid;
                    if i < pos {
                        assert(t[i].sim_id() == sid);
                    } else {
                        assert(t[i + 1].sim_id() == sid);
                    }
                }
            }
            if distinct_sims(s) && !contains_sim(s, entry.sim_id()) {
                assert forall|i: int, j: int| 0 <= i < j < t.len() implies (
                #[trigger] t[i]).sim_id() != (#[trigger] t[j]).sim_id() by {
                    if i != pos && j != pos {
                        let i2 = if i < pos { i } else { i - 1 };
                        let j2 = if j < pos { j } else { j - 1 };
                        assert(t[i] == s[i2] && t[j] == s[j2]);
                    } else if i == pos {
                        assert(t[j] == s[j - 1]);
                        assert(!(s[j - 1].sim_id() == entry.sim_id()));
                    } else {
                        assert(t[i] == s[i]);
                        assert(!(s[i].sim_id() == entry.sim_id()));
                    }
                }
            }
        }
    }

    /// Drops every entry of simulation `sid`, keeping the rest in order.
    pub fn clear_by_simulation_id(&mut self, sid: SimulatedId)
        requires
            old(self).wf(),
        ensures
            final(self).wf(),
            forall|i: int|
                0 <= i < final(self)@.len() ==> old(self)@.contains(#[trigger] final(self)@[i]) && (
                final(self)@[i]).sim_id() != sid,
            forall|j: int|
                0 <= j < old(self)@.len() && (#[trigger] old(self)@[j]).sim_id() != sid
                    ==> final(self)@.contains(old(self)@[j]),
            distinct_sims(old(self)@) ==> distinct_sims(final(self)@),
            !contains_sim(final(self)@, sid),
    {
        let mut kept: Vec<TaskProgress> = Vec::new();
        let mut i: usize = 0;
        while i < self.entries.len()
            invariant
                i <= self.entries@.len(),
                self == old(self),
                sorted(self.entries@),
                kept@.len() <= i,
                forall|a: int|
                    0 <= a < kept@.len() ==> exists|j: int|
                        0 <= j < i && #[trigger] kept@[a] == self.entries@[j],
                forall|a: int| 0 <= a < kept@.len() ==> (#[trigger] kept@[a]).sim_id() != sid,
                sorted(kept@),
                forall|j: int|
                    0 <= j < i && (#[trigger] self.entries@[j]).sim_id() != sid ==> kept@.contains(
                        self.entries@[j],
                    ),
                distinct_sims(self.entries@) ==> distinct_sims(kept@),
            decreases self.entries@.len() - i,
        {
            let e = self.entries[i];
            let ghost kept_before = kept@;
            if entry_sim_id(&e) != sid {
                proof {
                    assert forall|a: int| 0 <= a < kept@.len() implies (#[trigger] kept@[a]).le(e)
                        by {
                        let j = choose|j: int| 0 <= j < i && kept@[a] == self.entries@[j];
                    }
                    if distinct_sims(self.entries@) {
                        assert forall|a: int| 0 <= a < kept@.len() implies (
                        #[trigger] kept@[a]).sim_id() != e.sim_id() by {
                            let j = choose|j: int| 0 <= j < i && kept@[a] == self.entries@[j];
                        }
                    }
                }
                kept.push(e);
                proof {
                    assert(kept@[kept@.len() - 1] == e);
                    assert(kept@.contains(e));
                    assert forall|j: int|
                        0 <= j < i + 1 && (#[trigger] self.entries@[j]).sim_id() != sid implies
                        kept@.contains(self.entries@[j]) by {
                        if j < i {
                            assert(kept_before.contains(self.entries@[j]));
                            let a = choose|a: int|
                                0 <= a < kept_before.len() && kept_before[a] == self.entries@[j];
                            assert(kept@[a] == self.entries@[j]);
                        }
                    }
                }
            }
            i += 1;
        }
        self.entries = kept;
    }

    /// Drops every entry of unit `u`, keeping the rest in order.
    pub fn clear_by_unit(&mut self, u: UnitId)
        requires
            old(self).wf(),
        ensures
            final(self).wf(),
            forall|i: int|
                0 <= i < final(self)@.len() ==> old(self)@.contains(#[trigger] final(self)@[i]) && (
                final(self)@[i]).unit_id() != u,
            forall|j: int|
                0 <= j < old(self)@.len() && (#[trigger] old(self)@[j]).unit_id() != u
                    ==> final(self)@.contains(old(self)@[j]),
            distinct_sims(old(self)@) ==> distinct_sims(final(self)@),
            !contains_unit(final(self)@, u),
    {
        let mut kept: Vec<TaskProgress> = Vec::new();
        let mut i: usize = 0;
        while i < self.entries.len()
            invariant
                i <= self.entries@.len(),
                self == old(self),
                sorted(self.entries@),
                kept@.len() <= i,
                forall|a: int|
                    0 <= a < kept@.len() ==> exists|j: int|
                        0 <= j < i && #[trigger] kept@[a] == self.entries@[j],
                forall|a: int| 0 <= a < kept@.len() ==> (#[trigger] kept@[a]).unit_id() != u,
                sorted(kept@),
                forall|j: int|
                    0 <= j < i && (#[trigger] self.entries@[j]).unit_id() != u ==> kept@.contains(
                        self.entries@[j],
                    ),
                distinct_sims(self.entries@) ==> distinct_sims(kept@),
            decreases self.entries@.len() - i,
        {
            let e = self.entries[i];
            let ghost kept_before = kept@;
            if entry_unit_id(&e) != u {
                proof {
                    assert forall|a: int| 0 <= a < kept@.len() implies (#[trigger] kept@[a]).le(e)
                        by {
                        let j = choose|j: int| 0 <= j < i && kept@[a] == self.entries@[j];
                    }
                    if distinct_sims(self.entries@) {
                        assert forall|a: int| 0 <= a < kept@.len() implies (
                        #[trigger] kept@[a]).sim_id() != e.sim_id() by {
                            let j = choose|j: int| 0 <= j < i && kept@[a] == self.entries@[j];
                        }
                    }
                }
                kept.push(e);
                proof {
                    assert(kept@[kept@.len() - 1] == e);
                    assert(kept@.contains(e));
                    assert forall|j: int|
                        0 <= j < i + 1 && (#[trigger] self.entries@[j]).unit_id() != u implies
                        kept@.contains(self.entries@[j]) by {
                        if j < i {
                            assert(kept_before.contains(self.entries@[j]));
                            let a = choose|a: int|
                                0 <= a < kept_before.len() && kept_before[a] == self.entries@[j];
                            assert(kept@[a] == self.entries@[j]);
                        }
                    }
                }
            }
            i += 1;
        }
        self.entries = kept;
    }
}

/// Whether `a` fires no later than `b` in the completion order.
pub fn entry_le(a: &TaskProgress, b: &TaskProgress) -> (r: bool)
    ensures
        r == a.le(*b),
{
    a.finish_time < b.finish_time || (a.finish_time == b.finish_time && entry_sim_id(a)
        <= entry_sim_id(b))
}

/// The simulation id a completion entry names.
pub fn entry_sim_id(tp: &TaskProgress) -> (r: SimulatedId)
    ensures
        r == tp.sim_id(),
{
    match &tp.completion {
        crate::tasks::SimulationEvent::TaskCompleted(ct) => ct.simulation_id,
    }
}

/// The unit a completion entry names.
pub fn entry_unit_id(tp: &TaskProgress) -> (r: UnitId)
    ensures
        r == tp.unit_id(),
{
    match &tp.completion {
        crate::tasks::SimulationEvent::TaskCompleted(ct) => ct.unit_id,
    }
}

/// The finish time of a completion entry is never below the finish times
/// already popped: popping twice from a consistent scheduler yields entries
/// in the completion order — finish times non-decreasing, with equal finish
/// times resolved by ascending simulation id.
pub proof fn lemma_pop_order(s: Seq<TaskProgress>, i: int, j: int)
    requires
        sorted(s),
        0 <= i < j < s.len(),
    ensures
        s[i].finish_time <= s[j].finish_time,
        s[i].finish_time == s[j].finish_time ==> s[i].sim_id() <= s[j].sim_id(),
{
}

} // verus!
