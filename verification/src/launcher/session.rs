//! The registry of running launch sessions: each session's id and whether
//! it was asked to stop. The processes themselves are killed by the caller
//! for the ids these operations name.

use vstd::prelude::*;

verus! {

/// Running sessions and the id the next one gets.
pub struct SessionRegistry {
    entries: Vec<(u64, bool)>,
    next_id: u64,
}

/// The registry's contents: (id, stop requested) in order of registration.
pub struct RegistryView {
    pub entries: Seq<(u64, bool)>,
    pub next_id: u64,
}

impl View for SessionRegistry {
    type V = RegistryView;

    closed spec fn view(&self) -> RegistryView {
        RegistryView { entries: self.entries@, next_id: self.next_id }
    }
}

pub open spec fn ids_of(e: Seq<(u64, bool)>) -> Seq<u64> {
    Seq::new(e.len(), |i: int| e[i].0)
}

/// The entries without those of `id`.
pub open spec fn without(e: Seq<(u64, bool)>, id: u64) -> Seq<(u64, bool)>
    decreases e.len(),
{
    if e.len() == 0 {
        e
    } else if e.last().0 == id {
        without(e.drop_last(), id)
    } else {
        without(e.drop_last(), id).push(e.last())
    }
}

/// Whether the session `id` is registered and was asked to stop.
pub open spec fn cancelled(e: Seq<(u64, bool)>, id: u64) -> bool {
    exists|i: int| 0 <= i < e.len() && (#[trigger] e[i]).0 == id && e[i].1
}

/// The entries after a stop request for `id`: its entries marked.
pub open spec fn marked(e: Seq<(u64, bool)>, id: u64) -> Seq<(u64, bool)> {
    Seq::new(e.len(), |i: int| (e[i].0, e[i].1 || e[i].0 == id))
}

/// The entries after every session was asked to stop.
pub open spec fn all_marked(e: Seq<(u64, bool)>) -> Seq<(u64, bool)> {
    Seq::new(e.len(), |i: int| (e[i].0, true))
}

impl SessionRegistry {
    /// No sessions; the first gets id 1.
    pub fn new() -> (r: Self)
        ensures
            r@.entries.len() == 0,
            r@.next_id == 1,
    {
        SessionRegistry { entries: Vec::new(), next_id: 1 }
    }

    /// Registers a new session and gives its id (ids count up, wrapping
    /// after the largest).
    pub fn register(&mut self) -> (id: u64)
        ensures
            id == old(self)@.next_id,
            final(self)@.entries == old(self)@.entries.push((id, false)),
            final(self)@.next_id == (if old(self)@.next_id == u64::MAX { 0 } else { (old(self)@.next_id + 1) as u64 }),
    {
        let id = self.next_id;
        self.entries.push((id, false));
        self.next_id = if id == u64::MAX { 0 } else { id + 1 };
        id
    }

    /// Forgets a session (when it ends).
    pub fn drop_session(&mut self, id: u64)
        ensures
            final(self)@.entries == without(old(self)@.entries, id),
            final(self)@.next_id == old(self)@.next_id,
    {
        let ghost all = self.entries@;
        let mut kept: Vec<(u64, bool)> = Vec::new();
        let mut i: usize = 0;
        while i < self.entries.len()
            invariant
                i <= self.entries@.len(),
                self.entries@ == all,
                kept@ == without(all.take(i as int), id),
            decreases self.entries@.len() - i,
        {
            assert(all.take(i + 1).drop_last() =~= all.take(i as int));
            let e = self.entries[i];
            if e.0 != id {
                kept.push(e);
            }
            i += 1;
        }
        assert(all.take(all.len() as int) =~= all);
        self.entries = kept;
    }

    /// Asks one session to stop: marks it and tells whether it is running
    /// (its process is then to be killed).
    pub fn stop(&mut self, id: u64) -> (found: bool)
        ensures
            found == ids_of(old(self)@.entries).contains(id),
            final(self)@.next_id == old(self)@.next_id,
            final(self)@.entries == marked(old(self)@.entries, id),
    {
        let ghost before = self.entries@;
        let ghost nid = self.next_id;
        let mut found = false;
        let mut i: usize = 0;
        while i < self.entries.len()
            invariant
                i <= self.entries@.len(),
                self.next_id == nid,
                self.entries@.len() == before.len(),
                found == ids_of(before.take(i as int)).contains(id),
                forall|k: int|
                    0 <= k < before.len() ==> (#[trigger] self.entries@[k]).0 == before[k].0
                        && self.entries@[k].1 == (before[k].1 || (k < i && before[k].0 == id)),
            decreases self.entries@.len() - i,
        {
            assert(ids_of(before.take(i + 1)) =~= ids_of(before.take(i as int)).push(before[i as int].0));
            proof {
                vstd::seq_lib::lemma_seq_contains_after_push(ids_of(before.take(i as int)), before[i as int].0, id);
            }
            let e = self.entries[i];
            if e.0 == id {
                self.entries.set(i, (e.0, true));
                found = true;
            }
            i += 1;
        }
        assert(before.take(before.len() as int) =~= before);
        assert(self.entries@ =~= marked(before, id));
        found
    }

    /// Asks every session to stop (when the launcher quits) and names them
    /// all, so that their processes are killed and none is left behind.
    pub fn kill_all_sessions(&mut self) -> (ids: Vec<u64>)
        ensures
            ids@ == ids_of(old(self)@.entries),
            final(self)@.next_id == old(self)@.next_id,
            final(self)@.entries == all_marked(old(self)@.entries),
    {
        let ghost before = self.entries@;
        let ghost nid = self.next_id;
        let mut ids: Vec<u64> = Vec::new();
        let mut i: usize = 0;
        while i < self.entries.len()
            invariant
                i <= self.entries@.len(),
                self.next_id == nid,
                self.entries@.len() == before.len(),
                ids@ == ids_of(before.take(i as int)),
                forall|k: int| 0 <= k < before.len() ==> (#[trigger] self.entries@[k]).0 == before[k].0,
                forall|k: int| 0 <= k < i ==> (#[trigger] self.entries@[k]).1,
            decreases self.entries@.len() - i,
        {
            let e = self.entries[i];
            self.entries.set(i, (e.0, true));
            ids.push(e.0);
            assert(ids@ =~= ids_of(before.take(i + 1)));
            i += 1;
        }
        assert(before.take(before.len() as int) =~= before);
        assert(self.entries@ =~= all_marked(before));
        ids
    }

    /// Whether the session was asked to stop (a session not registered
    /// counts as not asked).
    pub fn is_cancelled(&self, id: u64) -> (b: bool)
        ensures
            b == cancelled(self@.entries, id),
    {
        let mut i: usize = 0;
        while i < self.entries.len()
            invariant
                i <= self.entries@.len(),
                forall|k: int| 0 <= k < i ==> !((#[trigger] self.entries@[k]).0 == id && self.entries@[k].1),
            decreases self.entries@.len() - i,
        {
            let e = self.entries[i];
            if e.0 == id && e.1 {
                assert(self.entries@[i as int].0 == id && self.entries@[i as int].1);
                assert(self@.entries == self.entries@);
                assert(cancelled(self@.entries, id));
                return true;
            }
            i += 1;
        }
        false
    }
}

/// A stop request for a running session cancels it, and leaves whether
/// any other session is cancelled as it was.
pub proof fn stop_cancels_only_that_session(e: Seq<(u64, bool)>, id: u64, other: u64)
    requires
        ids_of(e).contains(id),
        other != id,
    ensures
        cancelled(marked(e, id), id),
        cancelled(marked(e, id), other) == cancelled(e, other),
{
    let k = choose|k: int| 0 <= k < ids_of(e).len() && ids_of(e)[k] == id;
    assert(marked(e, id)[k].0 == id && marked(e, id)[k].1);
    if cancelled(e, other) {
        let j = choose|j: int| 0 <= j < e.len() && (#[trigger] e[j]).0 == other && e[j].1;
        assert(marked(e, id)[j].0 == other && marked(e, id)[j].1);
    }
    if cancelled(marked(e, id), other) {
        let j = choose|j: int| 0 <= j < marked(e, id).len() && (#[trigger] marked(e, id)[j]).0 == other && marked(e, id)[j].1;
        assert(e[j].0 == other && e[j].1);
    }
}

/// A dropped session is no longer registered, so it no longer counts as
/// cancelled; every other session stays registered.
pub proof fn dropped_session_is_gone(e: Seq<(u64, bool)>, id: u64, other: u64)
    requires
        other != id,
    ensures
        !ids_of(without(e, id)).contains(id),
        !cancelled(without(e, id), id),
        ids_of(without(e, id)).contains(other) == ids_of(e).contains(other),
    decreases e.len(),
{
    if e.len() > 0 {
        let r = without(e.drop_last(), id);
        dropped_session_is_gone(e.drop_last(), id, other);
        assert(ids_of(e) =~= ids_of(e.drop_last()).push(e.last().0));
        vstd::seq_lib::lemma_seq_contains_after_push(ids_of(e.drop_last()), e.last().0, other);
        if e.last().0 != id {
            assert(ids_of(without(e, id)) =~= ids_of(r).push(e.last().0));
            vstd::seq_lib::lemma_seq_contains_after_push(ids_of(r), e.last().0, other);
            vstd::seq_lib::lemma_seq_contains_after_push(ids_of(r), e.last().0, id);
        }
    }
    if cancelled(without(e, id), id) {
        let j = choose|j: int| 0 <= j < without(e, id).len() && (#[trigger] without(e, id)[j]).0 == id && without(e, id)[j].1;
        assert(ids_of(without(e, id))[j] == id);
    }
}

/// When the launcher quits, every registered session is cancelled.
pub proof fn quitting_cancels_every_session(e: Seq<(u64, bool)>, id: u64)
    requires
        ids_of(e).contains(id),
    ensures
        cancelled(all_marked(e), id),
{
    let k = choose|k: int| 0 <= k < ids_of(e).len() && ids_of(e)[k] == id;
    assert(all_marked(e)[k].0 == id && all_marked(e)[k].1);
}

} // verus!
