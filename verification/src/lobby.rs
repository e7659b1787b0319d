//! Lobby records: the players waiting to start, and the registry the lobby
//! service keeps over them.

use vstd::prelude::*;

verus! {

/// One player in the lobby.
#[derive(Clone, Debug)]
pub struct Player {
    pub id: u64,
    pub name: String,
    pub ready: bool,
}

/// The lobby as served to clients: its players, in ascending id order.
#[derive(Clone, Debug)]
pub struct Lobby {
    pub players: Vec<Player>,
}

/// The registry behind the lobby service: players keyed by id, ids dense
/// from a monotonic counter.
pub struct LobbyState {
    pub players: Vec<Player>,
    pub next_id: u64,
}

impl LobbyState {
    /// Players are stored in ascending id order (so ids are unique), and
    /// every id is below the counter.
    pub open spec fn wf(self) -> bool {
        &&& (forall|i: int, j: int|
            0 <= i < j < self.players@.len() ==> (#[trigger] self.players@[i]).id < (
            #[trigger] self.players@[j]).id)
        &&& (forall|i: int|
            0 <= i < self.players@.len() ==> (#[trigger] self.players@[i]).id < self.next_id)
    }

    pub fn new() -> (r: Self)
        ensures
            r.wf(),
            r.players@.len() == 0,
            r.next_id == 1,
    {
        LobbyState { players: Vec::new(), next_id: 1 }
    }

    /// Registers a new, not-ready player under a fresh id and returns its
    /// record.
    pub fn create_player(&mut self, name: String) -> (r: Player)
        requires
            old(self).wf(),
            old(self).next_id < u64::MAX,
        ensures
            final(self).wf(),
            r.id == old(self).next_id,
            r.name == name,
            !r.ready,
            final(self).next_id == old(self).next_id + 1,
            final(self).players@.len() == old(self).players@.len() + 1,
            final(self).players@.last() == r,
            forall|i: int|
                0 <= i < old(self).players@.len() ==> final(self).players@[i] == old(
                    self,
                ).players@[i],
    {
        let id = self.next_id;
        self.next_id = self.next_id + 1;
        let result = Player { id, name: name.clone(), ready: false };
        self.players.push(Player { id, name, ready: false });
        proof {
            assert forall|a: int, b: int| 0 <= a < b < self.players@.len() implies (
            #[trigger] self.players@[a]).id < (#[trigger] self.players@[b]).id by {
                if b < self.players@.len() - 1 {
                    assert(self.players@[a] == old(self).players@[a]);
                    assert(self.players@[b] == old(self).players@[b]);
                } else {
                    if a < self.players@.len() - 1 {
                        assert(self.players@[a] == old(self).players@[a]);
                    }
                }
            }
        }
        result
    }

    /// Marks the player ready or not ready; reports whether it was found.
    pub fn set_ready(&mut self, id: u64, ready: bool) -> (found: bool)
        requires
            old(self).wf(),
        ensures
            final(self).wf(),
            final(self).players@.len() == old(self).players@.len(),
            final(self).next_id == old(self).next_id,
            found <==> exists|i: int|
                0 <= i < old(self).players@.len() && (#[trigger] old(self).players@[i]).id == id,
            forall|i: int|
                0 <= i < old(self).players@.len() && (#[trigger] old(self).players@[i]).id != id
                    ==> final(self).players@[i] == old(self).players@[i],
            forall|i: int|
                0 <= i < old(self).players@.len() && (#[trigger] old(self).players@[i]).id == id
                    ==> final(self).players@[i].id == id && final(self).players@[i].ready == ready
                        && final(self).players@[i].name == old(self).players@[i].name,
    {
        let mut i: usize = 0;
        while i < self.players.len()
            invariant
                i <= self.players@.len(),
                old(self).wf(),
                self.next_id == old(self).next_id,
                self.players@.len() == old(self).players@.len(),
                forall|j: int| 0 <= j < self.players@.len() ==> #[trigger] self.players@[j] == old(
                    self,
                ).players@[j],
                forall|j: int| 0 <= j < i ==> (#[trigger] self.players@[j]).id != id,
            decreases self.players@.len() - i,
        {
            if self.players[i].id == id {
                let name = self.players[i].name.clone();
                let ghost pre = self.players@;
                self.players.set(i, Player { id, name, ready });
                proof {
                    assert forall|a: int, b: int| 0 <= a < b < self.players@.len() implies (
                    #[trigger] self.players@[a]).id < (#[trigger] self.players@[b]).id by {
                        assert(pre[a].id < pre[b].id);
                        assert(a != i ==> self.players@[a] == pre[a]);
                        assert(b != i ==> self.players@[b] == pre[b]);
                    }
                    assert forall|j: int| 0 <= j < self.players@.len() implies (
                    #[trigger] self.players@[j]).id < self.next_id by {
                        assert(pre[j].id < self.next_id);
                    }
                }
                return true;
            }
            i += 1;
        }
        proof {
            if exists|w: int|
                0 <= w < old(self).players@.len() && (#[trigger] old(self).players@[w]).id == id {
                let w = choose|w: int|
                    0 <= w < old(self).players@.len() && (#[trigger] old(self).players@[w]).id
                        == id;
                assert(self.players@[w] == old(self).players@[w]);
            }
        }
        false
    }

    /// Removes the player; reports whether it was found.
    pub fn delete_player(&mut self, id: u64) -> (found: bool)
        requires
            old(self).wf(),
        ensures
            final(self).wf(),
            final(self).next_id == old(self).next_id,
            found <==> exists|i: int|
                0 <= i < old(self).players@.len() && (#[trigger] old(self).players@[i]).id == id,
            !exists|i: int|
                0 <= i < final(self).players@.len() && (#[trigger] final(self).players@[i]).id
                    == id,
    {
        let mut i: usize = 0;
        while i < self.players.len()
            invariant
                i <= self.players@.len(),
                old(self).wf(),
                self.next_id == old(self).next_id,
                self.players@ == old(self).players@,
                forall|j: int| 0 <= j < i ==> (#[trigger] self.players@[j]).id != id,
            decreases self.players@.len() - i,
        {
            if self.players[i].id == id {
                let ghost pre = self.players@;
                self.players.remove(i);
                proof {
                    assert forall|a: int, b: int| 0 <= a < b < self.players@.len() implies (
                    #[trigger] self.players@[a]).id < (#[trigger] self.players@[b]).id by {
                        let a2 = if a < i { a } else { a + 1 };
                        let b2 = if b < i { b } else { b + 1 };
                        assert(self.players@[a] == pre[a2] && self.players@[b] == pre[b2]);
                    }
                    assert forall|j: int| 0 <= j < self.players@.len() implies (
                    #[trigger] self.players@[j]).id < self.next_id by {
                        let j2 = if j < i { j } else { j + 1 };
                        assert(self.players@[j] == pre[j2]);
                    }
                    assert forall|j: int| 0 <= j < self.players@.len() implies (
                    #[trigger] self.players@[j]).id != id by {
                        if j >= i {
                            assert(self.players@[j] == pre[j + 1]);
                            assert(pre[i as int].id < pre[j + 1].id);
                        }
                    }
                }
                return true;
            }
            i += 1;
        }
        proof {
            if exists|w: int|
                0 <= w < old(self).players@.len() && (#[trigger] old(self).players@[w]).id == id {
                let w = choose|w: int|
                    0 <= w < old(self).players@.len() && (#[trigger] old(self).players@[w]).id
                        == id;
                assert(self.players@[w] == old(self).players@[w]);
            }
        }
        false
    }

    /// The lobby as served: every player, already in ascending id order.
    pub fn lobby(&self) -> (r: Lobby)
        requires
            self.wf(),
        ensures
            r.players@.len() == self.players@.len(),
            forall|i: int|
                0 <= i < self.players@.len() ==> {
                    let a = #[trigger] r.players@[i];
                    let b = self.players@[i];
                    a.id == b.id && a.name == b.name && a.ready == b.ready
                },
            forall|i: int, j: int|
                0 <= i < j < r.players@.len() ==> (#[trigger] r.players@[i]).id < (
                #[trigger] r.players@[j]).id,
    {
        let mut out: Vec<Player> = Vec::new();
        let mut i: usize = 0;
        while i < self.players.len()
            invariant
                i <= self.players@.len(),
                self.wf(),
                out@.len() == i,
                forall|j: int|
                    0 <= j < i ==> {
                        let a = #[trigger] out@[j];
                        let b = self.players@[j];
                        a.id == b.id && a.name == b.name && a.ready == b.ready
                    },
            decreases self.players@.len() - i,
        {
            let p = &self.players[i];
            out.push(Player { id: p.id, name: p.name.clone(), ready: p.ready });
            i += 1;
        }
        Lobby { players: out }
    }
}

} // verus!
