//! Per-subscriber perspectives: what each subscriber has been told about
//! each unit, and the staged updates of one broadcasting pass.
//!
//! A perspective is an association list keyed by unit id.  A vector rather
//! than a hash table keeps iteration order deterministic, so a subscriber's
//! events always arrive in the engine's emission order.

use crate::model::{PlayerId, SequenceNumber, UnitId};
use vstd::prelude::*;

verus! {

/// Some entry of `s` is keyed by `u`.
pub open spec fn persp_has(s: Seq<(UnitId, SequenceNumber)>, u: UnitId) -> bool {
    exists|i: int| 0 <= i < s.len() && (#[trigger] s[i]).0 == u
}

/// The sequence number recorded for `u`; meaningful only when `persp_has`
/// holds of a list with distinct keys.
pub open spec fn persp_at(s: Seq<(UnitId, SequenceNumber)>, u: UnitId) -> SequenceNumber {
    let i = choose|i: int| 0 <= i < s.len() && (#[trigger] s[i]).0 == u;
    s[i].1
}

/// The keys of the list are distinct.
pub open spec fn persp_distinct(s: Seq<(UnitId, SequenceNumber)>) -> bool {
    forall|i: int, j: int| 0 <= i < j < s.len() ==> (#[trigger] s[i]).0 != (#[trigger] s[j]).0
}

/// One subscriber's record of the last sequence number it has been told for
/// each unit it knows of.
#[derive(Debug)]
pub struct PlayersGamePerspective {
    pub last_update: Vec<(UnitId, SequenceNumber)>,
}

impl Default for PlayersGamePerspective {
    /// A fresh subscriber has been told nothing.
    fn default() -> (r: Self)
        ensures
            r.wf(),
            r.last_update@.len() == 0,
    {
        PlayersGamePerspective { last_update: Vec::new() }
    }
}

impl PlayersGamePerspective {
    pub open spec fn wf(self) -> bool {
        persp_distinct(self.last_update@)
    }

    /// The last sequence number recorded for `u`, if any.
    pub fn get(&self, u: UnitId) -> (r: Option<SequenceNumber>)
        requires
            self.wf(),
        ensures
            persp_has(self.last_update@, u) ==> r == Some(persp_at(self.last_update@, u)),
            !persp_has(self.last_update@, u) ==> r is None,
    {
        let mut i: usize = 0;
        while i < self.last_update.len()
            invariant
                i <= self.last_update@.len(),
                forall|j: int| 0 <= j < i ==> (#[trigger] self.last_update@[j]).0 != u,
                self.wf(),
            decreases self.last_update@.len() - i,
        {
            let (k, v) = self.last_update[i];
            if k == u {
                proof {
                    let w = choose|w: int|
                        0 <= w < self.last_update@.len() && (#[trigger] self.last_update@[w]).0
                            == u;
                    assert(w == i);
                }
                return Some(v);
            }
            i += 1;
        }
        None
    }

    /// Records `n` for `u`, adding the unit or replacing its prior record.
    pub fn set(&mut self, u: UnitId, n: SequenceNumber)
        requires
            old(self).wf(),
        ensures
            final(self).wf(),
            final(self).last_update@.len() <= old(self).last_update@.len() + 1,
            persp_has(final(self).last_update@, u),
            persp_at(final(self).last_update@, u) == n,
            forall|u2: UnitId|
                u2 != u ==> (persp_has(final(self).last_update@, u2) <==> persp_has(
                    old(self).last_update@,
                    u2,
                )),
            forall|u2: UnitId|
                u2 != u && persp_has(old(self).last_update@, u2) ==> persp_at(
                    final(self).last_update@,
                    u2,
                ) == persp_at(old(self).last_update@, u2),
    {
        let mut i: usize = 0;
        while i < self.last_update.len()
            invariant
                i <= self.last_update@.len(),
                self == old(self),
                old(self).wf(),
                forall|j: int| 0 <= j < i ==> (#[trigger] self.last_update@[j]).0 != u,
            decreases self.last_update@.len() - i,
        {
            let (k, _) = self.last_update[i];
            if k == u {
                let ghost pre = self.last_update@;
                self.last_update.set(i, (u, n));
                proof {
                    let s = self.last_update@;
                    assert(s[i as int].0 == u);
                    lemma_persp_pointwise(pre, s, u, i as int);
                }
                return ;
            }
            i += 1;
        }
        let ghost pre = self.last_update@;
        self.last_update.push((u, n));
        proof {
            let s = self.last_update@;
            assert(s[s.len() - 1].0 == u);
            lemma_persp_pointwise(pre, s, u, s.len() - 1);
        }
    }

    /// Forgets the record for `u`, if any.
    pub fn remove(&mut self, u: UnitId)
        requires
            old(self).wf(),
        ensures
            final(self).wf(),
            !persp_has(final(self).last_update@, u),
            forall|u2: UnitId|
                u2 != u ==> (persp_has(final(self).last_update@, u2) <==> persp_has(
                    old(self).last_update@,
                    u2,
                )),
            forall|u2: UnitId|
                u2 != u && persp_has(old(self).last_update@, u2) ==> persp_at(
                    final(self).last_update@,
                    u2,
                ) == persp_at(old(self).last_update@, u2),
    {
        let mut i: usize = 0;
        while i < self.last_update.len()
            invariant
                i <= self.last_update@.len(),
                self == old(self),
                old(self).wf(),
                forall|j: int| 0 <= j < i ==> (#[trigger] self.last_update@[j]).0 != u,
            decreases self.last_update@.len() - i,
        {
            let (k, _) = self.last_update[i];
            if k == u {
                let ghost pre = self.last_update@;
                self.last_update.remove(i);
                proof {
                    let s = self.last_update@;
                    assert forall|j: int| 0 <= j < s.len() implies (#[trigger] s[j]).0 != u by {
                        if j < i {
                            assert(s[j] == pre[j]);
                        } else {
                            assert(s[j] == pre[j + 1]);
                        }
                    }
                    assert forall|u2: UnitId|
                        u2 != u && persp_has(pre, u2) implies persp_has(s, u2) && persp_at(s, u2)
                            == persp_at(pre, u2) by {
                        let w = choose|w: int| 0 <= w < pre.len() && (#[trigger] pre[w]).0 == u2;
                        let w2 = if w < i { w } else { w - 1 };
                        assert(s[w2] == pre[w]);
                        assert(persp_has(s, u2));
                        lemma_persp_at_is(s, u2, w2);
                        lemma_persp_at_is(pre, u2, w);
                    }
                    assert forall|u2: UnitId|
                        u2 != u && persp_has(s, u2) implies persp_has(pre, u2) by {
                        let w = choose|w: int| 0 <= w < s.len() && (#[trigger] s[w]).0 == u2;
                        let w2 = if w < i { w } else { w + 1 };
                        assert(pre[w2] == s[w]);
                    }
                    assert(persp_distinct(s)) by {
                        assert forall|a: int, b: int| 0 <= a < b < s.len() implies (
                        #[trigger] s[a]).0 != (#[trigger] s[b]).0 by {
                            let a2 = if a < i { a } else { a + 1 };
                            let b2 = if b < i { b } else { b + 1 };
                            assert(s[a] == pre[a2] && s[b] == pre[b2]);
                        }
                    }
                }
                return ;
            }
            i += 1;
        }
    }
}

/// In a distinct-keyed list where index `i` holds key `u`, the recorded
/// value for `u` is the one at `i`.
pub proof fn lemma_persp_at_is(s: Seq<(UnitId, SequenceNumber)>, u: UnitId, i: int)
    requires
        persp_distinct(s),
        0 <= i < s.len(),
        s[i].0 == u,
    ensures
        persp_has(s, u),
        persp_at(s, u) == s[i].1,
{
    let w = choose|w: int| 0 <= w < s.len() && (#[trigger] s[w]).0 == u;
    if w != i {
        assert(s[w].0 == s[i].0);
    }
}

/// After an update that touches only index `i` (which now holds `u`), every
/// other key maps as before.
proof fn lemma_persp_pointwise(
    pre: Seq<(UnitId, SequenceNumber)>,
    s: Seq<(UnitId, SequenceNumber)>,
    u: UnitId,
    i: int,
)
    requires
        persp_distinct(pre),
        0 <= i < s.len(),
        s.len() == pre.len() || (s.len() == pre.len() + 1 && i == pre.len()),
        forall|j: int| 0 <= j < s.len() && j != i ==> s[j] == pre[j],
        s[i].0 == u,
        i < pre.len() ==> pre[i].0 == u,
        forall|j: int| 0 <= j < pre.len() && j != i ==> (#[trigger] pre[j]).0 != u,
    ensures
        persp_distinct(s),
        persp_has(s, u),
        persp_at(s, u) == s[i].1,
        forall|u2: UnitId|
            u2 != u ==> (persp_has(s, u2) <==> persp_has(pre, u2)),
        forall|u2: UnitId|
            u2 != u && persp_has(pre, u2) ==> persp_at(s, u2) == persp_at(pre, u2),
{
    assert forall|a: int, b: int| 0 <= a < b < s.len() implies (#[trigger] s[a]).0 != (
    #[trigger] s[b]).0 by {
        if a != i && b != i {
            assert(s[a] == pre[a] && s[b] == pre[b]);
        } else if a == i {
            assert(s[b] == pre[b]);
        } else {
            assert(s[a] == pre[a]);
        }
    }
    lemma_persp_at_is(s, u, i);
    assert forall|u2: UnitId| u2 != u && persp_has(pre, u2) implies persp_has(s, u2) && persp_at(
        s,
        u2,
    ) == persp_at(pre, u2) by {
        let w = choose|w: int| 0 <= w < pre.len() && (#[trigger] pre[w]).0 == u2;
        if w == i {
            assert(pre[i].0 == u);
            assert(false);
        }
        assert(s[w] == pre[w]);
        lemma_persp_at_is(s, u2, w);
        lemma_persp_at_is(pre, u2, w);
    }
    assert forall|u2: UnitId| u2 != u && persp_has(s, u2) implies persp_has(pre, u2) by {
        let w = choose|w: int| 0 <= w < s.len() && (#[trigger] s[w]).0 == u2;
        assert(w != i);
        assert(pre[w] == s[w]);
    }
}

/// The changes one broadcasting pass stages for one subscriber: units to
/// newly show or update (`is_new` tells which) and units to hide.
#[derive(Debug)]
pub struct PerspectiveUpdates {
    pub player_id: PlayerId,
    pub units_to_upsert: Vec<(UnitId, SequenceNumber, bool)>,
    pub units_to_remove: Vec<UnitId>,
}

impl PerspectiveUpdates {
    /// The subscriber these updates are staged for.
    pub open spec fn player(self) -> PlayerId {
        self.player_id
    }

    pub fn new(player_id: PlayerId) -> (r: Self)
        ensures
            r.player() == player_id,
            r.units_to_upsert@.len() == 0,
            r.units_to_remove@.len() == 0,
    {
        PerspectiveUpdates { player_id, units_to_upsert: Vec::new(), units_to_remove: Vec::new() }
    }

    pub fn get_player_id(&self) -> (r: PlayerId)
        ensures
            r == self.player(),
    {
        self.player_id
    }
}

/// What one pass stages for unit `u` at sequence number `s`, given the
/// subscriber's prior record: a `Show` (is_new) when the unit is unknown, an
/// `Update` when the record is older, nothing when it is current.
pub open spec fn upsert_decision(
    persp: Seq<(UnitId, SequenceNumber)>,
    u: UnitId,
    s: SequenceNumber,
) -> Option<(UnitId, SequenceNumber, bool)> {
    if !persp_has(persp, u) {
        Some((u, s, true))
    } else if persp_at(persp, u) < s {
        Some((u, s, false))
    } else {
        None
    }
}

impl PlayersGamePerspective {
    /// Stages what this subscriber must be told about a unit whose current
    /// sequence number is `sequence_number`: everything for an unknown unit,
    /// an update for a stale one, nothing for a current one.
    pub fn unit_exists(
        &self,
        unit_id: UnitId,
        sequence_number: SequenceNumber,
        perspective_updates: &mut PerspectiveUpdates,
    )
        requires
            self.wf(),
        ensures
            final(perspective_updates).units_to_remove@ == old(
                perspective_updates,
            ).units_to_remove@,
            final(perspective_updates).player() == old(perspective_updates).player(),
            final(perspective_updates).units_to_upsert@ == match upsert_decision(
                self.last_update@,
                unit_id,
                sequence_number,
            ) {
                Some(e) => old(perspective_updates).units_to_upsert@.push(e),
                None => old(perspective_updates).units_to_upsert@,
            },
    {
        match self.get(unit_id) {
            Some(last_seq) => {
                if last_seq < sequence_number {
                    perspective_updates.units_to_upsert.push((unit_id, sequence_number, false));
                }
            },
            None => {
                perspective_updates.units_to_upsert.push((unit_id, sequence_number, true));
            },
        }
    }

    /// Applies staged changes to the record: upserted units now hold their
    /// staged sequence number, removed units are forgotten.
    pub fn apply_changes(&mut self, updates: &PerspectiveUpdates)
        requires
            old(self).wf(),
            // each unit is staged at most once per pass
            forall|i: int, j: int|
                0 <= i < j < updates.units_to_upsert@.len() ==> (
                #[trigger] updates.units_to_upsert@[i]).0 != (
                #[trigger] updates.units_to_upsert@[j]).0,
            forall|i: int, j: int|
                0 <= i < updates.units_to_upsert@.len() && 0 <= j < updates.units_to_remove@.len()
                    ==> (#[trigger] updates.units_to_upsert@[i]).0 != (
                #[trigger] updates.units_to_remove@[j]),
        ensures
            final(self).wf(),
            forall|i: int|
                0 <= i < updates.units_to_upsert@.len() ==> {
                    let e = #[trigger] updates.units_to_upsert@[i];
                    persp_has(final(self).last_update@, e.0) && persp_at(
                        final(self).last_update@,
                        e.0,
                    ) == e.1
                },
            forall|i: int|
                0 <= i < updates.units_to_remove@.len() ==> !persp_has(
                    final(self).last_update@,
                    #[trigger] updates.units_to_remove@[i],
                ),
            forall|u2: UnitId|
                !upserts_name(updates.units_to_upsert@, u2) && !removes_name(
                    updates.units_to_remove@,
                    u2,
                ) ==> ((persp_has(final(self).last_update@, u2) <==> persp_has(
                    old(self).last_update@,
                    u2,
                )) && (persp_has(old(self).last_update@, u2) ==> persp_at(
                    final(self).last_update@,
                    u2,
                ) == persp_at(old(self).last_update@, u2))),
    {
        let ghost pre = self.last_update@;
        let mut i: usize = 0;
        while i < updates.units_to_upsert.len()
            invariant
                i <= updates.units_to_upsert@.len(),
                self.wf(),
                self.last_update@.len() <= pre.len() + i,
                forall|a: int, b: int|
                    0 <= a < b < updates.units_to_upsert@.len() ==> (
                    #[trigger] updates.units_to_upsert@[a]).0 != (
                    #[trigger] updates.units_to_upsert@[b]).0,
                forall|j: int|
                    0 <= j < i ==> {
                        let e = #[trigger] updates.units_to_upsert@[j];
                        persp_has(self.last_update@, e.0) && persp_at(self.last_update@, e.0)
                            == e.1
                    },
                forall|u2: UnitId|
                    !upserts_name(updates.units_to_upsert@.take(i as int), u2) ==> ((persp_has(
                        self.last_update@,
                        u2,
                    ) <==> persp_has(pre, u2)) && (persp_has(pre, u2) ==> persp_at(
                        self.last_update@,
                        u2,
                    ) == persp_at(pre, u2))),
            decreases updates.units_to_upsert@.len() - i,
        {
            let (u, n, _) = updates.units_to_upsert[i];
            self.set(u, n);
            proof {
                let t = updates.units_to_upsert@;
                assert(t.take(i + 1).drop_last() =~= t.take(i as int));
                assert forall|j: int| 0 <= j < i + 1 implies {
                    let e = #[trigger] t[j];
                    persp_has(self.last_update@, e.0) && persp_at(self.last_update@, e.0) == e.1
                } by {
                    if j < i {
                        assert(t[j].0 != u);
                    }
                }
                assert forall|u2: UnitId|
                    !upserts_name(t.take(i + 1), u2) implies ((persp_has(self.last_update@, u2)
                        <==> persp_has(pre, u2)) && (persp_has(pre, u2) ==> persp_at(
                        self.last_update@,
                        u2,
                    ) == persp_at(pre, u2))) by {
                    assert(t.take(i + 1)[i as int] == t[i as int]);
                    assert(u2 != u);
                    if !upserts_name(t.take(i as int), u2) {
                    } else {
                        let w = choose|w: int|
                            0 <= w < t.take(i as int).len() && (#[trigger] t.take(i as int)[w]).0
                                == u2;
                        assert(t.take(i + 1)[w] == t[w]);
                        assert(false);
                    }
                }
            }
            i += 1;
        }
        proof {
            assert(updates.units_to_upsert@.take(updates.units_to_upsert@.len() as int)
                =~= updates.units_to_upsert@);
        }
        let ghost mid = self.last_update@;
        let mut k: usize = 0;
        while k < updates.units_to_remove.len()
            invariant
                k <= updates.units_to_remove@.len(),
                self.wf(),
                forall|j: int|
                    0 <= j < k ==> !persp_has(
                        self.last_update@,
                        #[trigger] updates.units_to_remove@[j],
                    ),
                forall|u2: UnitId|
                    !removes_name(updates.units_to_remove@.take(k as int), u2) ==> ((persp_has(
                        self.last_update@,
                        u2,
                    ) <==> persp_has(mid, u2)) && (persp_has(mid, u2) ==> persp_at(
                        self.last_update@,
                        u2,
                    ) == persp_at(mid, u2))),
            decreases updates.units_to_remove@.len() - k,
        {
            let u = updates.units_to_remove[k];
            self.remove(u);
            proof {
                let t = updates.units_to_remove@;
                assert forall|j: int| 0 <= j < k + 1 implies !persp_has(
                    self.last_update@,
                    #[trigger] t[j],
                ) by {
                    if j < k && t[j] != u {
                    }
                }
                assert forall|u2: UnitId|
                    !removes_name(t.take(k + 1), u2) implies ((persp_has(self.last_update@, u2)
                        <==> persp_has(mid, u2)) && (persp_has(mid, u2) ==> persp_at(
                        self.last_update@,
                        u2,
                    ) == persp_at(mid, u2))) by {
                    assert(t.take(k + 1)[k as int] == t[k as int]);
                    assert(u2 != u);
                    if removes_name(t.take(k as int), u2) {
                        let w = choose|w: int|
                            0 <= w < t.take(k as int).len() && #[trigger] t.take(k as int)[w]
                                == u2;
                        assert(t.take(k + 1)[w] == t[w]);
                        assert(false);
                    }
                }
            }
            k += 1;
        }
        proof {
            assert(updates.units_to_remove@.take(updates.units_to_remove@.len() as int)
                =~= updates.units_to_remove@);
            // a unit staged for upsert is never also staged for removal, so
            // its record survives the removal pass
            assert forall|i2: int| 0 <= i2 < updates.units_to_upsert@.len() implies {
                let e = #[trigger] updates.units_to_upsert@[i2];
                persp_has(self.last_update@, e.0) && persp_at(self.last_update@, e.0) == e.1
            } by {
                let e = updates.units_to_upsert@[i2];
                assert(!removes_name(updates.units_to_remove@, e.0)) by {
                    if removes_name(updates.units_to_remove@, e.0) {
                        let w = choose|w: int|
                            0 <= w < updates.units_to_remove@.len() && (
                            #[trigger] updates.units_to_remove@[w]) == e.0;
                    }
                }
            }
        }
    }
}

/// Some staged upsert names unit `u`.
pub open spec fn upserts_name(s: Seq<(UnitId, SequenceNumber, bool)>, u: UnitId) -> bool {
    exists|i: int| 0 <= i < s.len() && (#[trigger] s[i]).0 == u
}

/// Some staged removal names unit `u`.
pub open spec fn removes_name(s: Seq<UnitId>, u: UnitId) -> bool {
    exists|i: int| 0 <= i < s.len() && #[trigger] s[i] == u
}

} // verus!
