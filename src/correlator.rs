//! Matching responses to the requests that caused them. Each request gets
//! the next identifier (from 1 up, never reused) and a waiter; a response
//! hands its identifier's waiter back exactly once.

use std::collections::HashMap;
use vstd::prelude::*;

verus! {

/// The correlator as a mathematical value.
pub struct CorrelatorView<W> {
    /// The identifier that the next registration gets.
    pub next_id: i64,
    /// The waiters still expecting a response, by identifier.
    pub pending: Map<i64, W>,
}

impl<W> CorrelatorView<W> {
    /// Identifiers start at 1, and every pending one was handed out before.
    pub open spec fn wf(self) -> bool {
        &&& 1 <= self.next_id
        &&& self.pending.dom().finite()
        &&& forall|k: i64| #[trigger] self.pending.contains_key(k) ==> 1 <= k < self.next_id
    }

    /// The state after `w` registers.
    pub open spec fn registered(self, w: W) -> CorrelatorView<W> {
        CorrelatorView { next_id: (self.next_id + 1) as i64, pending: self.pending.insert(self.next_id, w) }
    }

    /// Whether another identifier is left to hand out.
    pub open spec fn can_register(self) -> bool {
        self.next_id < i64::MAX
    }
}

/// Pending requests by identifier, with the identifier counter.
pub struct Correlator<W> {
    next_id: i64,
    pending: HashMap<i64, W>,
}

impl<W> View for Correlator<W> {
    type V = CorrelatorView<W>;

    closed spec fn view(&self) -> CorrelatorView<W> {
        CorrelatorView { next_id: self.next_id, pending: self.pending@ }
    }
}

impl<W> Correlator<W> {
    /// An empty correlator whose first identifier is 1.
    pub fn new() -> (r: Correlator<W>)
        ensures
            r@.wf(),
            r@.next_id == 1,
            r@.pending == Map::<i64, W>::empty(),
    {
        Correlator { next_id: 1, pending: HashMap::new() }
    }

    /// Hands out the next identifier and files `waiter` under it; `None`
    /// (and no change) once the identifiers are used up.
    pub fn register(&mut self, waiter: W) -> (r: Option<i64>)
        ensures
            old(self)@.wf() ==> final(self)@.wf(),
            old(self)@.can_register() ==> r == Some(old(self)@.next_id) && final(self)@ == old(
                self,
            )@.registered(waiter),
            !old(self)@.can_register() ==> r is None && final(self)@ == old(self)@,
    {
        if self.next_id == i64::MAX {
            return None;
        }
        let id = self.next_id;
        self.pending.insert(id, waiter);
        self.next_id = id + 1;
        Some(id)
    }

    /// Takes the waiter of `id` out, if it is still pending.
    pub fn resolve(&mut self, id: i64) -> (r: Option<W>)
        ensures
            old(self)@.wf() ==> final(self)@.wf(),
            final(self)@.next_id == old(self)@.next_id,
            final(self)@.pending == old(self)@.pending.remove(id),
            r == if old(self)@.pending.contains_key(id) {
                Some(old(self)@.pending[id])
            } else {
                None
            },
    {
        self.pending.remove(&id)
    }

    /// Drops the waiter of `id`, if it is still pending; says whether it was.
    pub fn abandon(&mut self, id: i64) -> (r: bool)
        ensures
            old(self)@.wf() ==> final(self)@.wf(),
            final(self)@.next_id == old(self)@.next_id,
            final(self)@.pending == old(self)@.pending.remove(id),
            r == old(self)@.pending.contains_key(id),
    {
        self.pending.remove(&id).is_some()
    }

    /// Drops every pending waiter; returns how many there were.
    pub fn drain_all(&mut self) -> (r: usize)
        ensures
            old(self)@.wf() ==> final(self)@.wf(),
            final(self)@.next_id == old(self)@.next_id,
            final(self)@.pending == Map::<i64, W>::empty(),
            r == old(self)@.pending.len(),
    {
        let n = self.pending.len();
        self.pending.clear();
        n
    }

    /// How many requests still wait for a response.
    pub fn pending_count(&self) -> (r: usize)
        ensures
            r == self@.pending.len(),
    {
        self.pending.len()
    }

    /// Whether `id` still waits for a response.
    pub fn is_pending(&self, id: i64) -> (r: bool)
        ensures
            r == self@.pending.contains_key(id),
    {
        self.pending.contains_key(&id)
    }
}

/// Registers the waiters `ws` one after another: the final state and the
/// identifiers handed out, in order (a registration that finds the
/// identifiers used up hands out none).
pub open spec fn register_all<W>(v: CorrelatorView<W>, ws: Seq<W>) -> (CorrelatorView<W>, Seq<i64>)
    decreases ws.len(),
{
    if ws.len() == 0 {
        (v, seq![])
    } else {
        let (before, ids) = register_all(v, ws.drop_last());
        if before.can_register() {
            (before.registered(ws.last()), ids.push(before.next_id))
        } else {
            (before, ids)
        }
    }
}

/// Registrations in a row hand out identifiers that increase strictly in
/// the order of the calls (so no two are equal), all from the counter's
/// value on; while identifiers last, each call gets one, and each waiter
/// is pending under its own.
pub proof fn lemma_register_ids_increase<W>(v: CorrelatorView<W>, ws: Seq<W>)
    requires
        v.wf(),
    ensures
        ({
            let (after, ids) = register_all(v, ws);
            &&& after.wf()
            &&& v.next_id <= after.next_id
            &&& forall|i: int, j: int| 0 <= i < j < ids.len() ==> ids[i] < ids[j]
            &&& forall|i: int| 0 <= i < ids.len() ==> v.next_id <= #[trigger] ids[i] < after.next_id
            &&& v.next_id + ws.len() <= i64::MAX ==> {
                &&& ids.len() == ws.len()
                &&& after.next_id == v.next_id + ws.len()
                &&& forall|i: int|
                    0 <= i < ids.len() ==> after.pending.contains_key(#[trigger] ids[i])
                        && after.pending[ids[i]] == ws[i]
            }
        }),
    decreases ws.len(),
{
    if ws.len() > 0 {
        lemma_register_ids_increase(v, ws.drop_last());
        let (before, ids) = register_all(v, ws.drop_last());
        if before.can_register() {
            let after = before.registered(ws.last());
            let ids2 = ids.push(before.next_id);
            assert(forall|i: int| 0 <= i < ids.len() ==> ids2[i] == ids[i]);
            assert forall|i: int| 0 <= i < ids2.len() implies v.next_id <= #[trigger] ids2[i]
                < after.next_id by {
                if i < ids.len() {
                    assert(ids2[i] == ids[i]);
                }
            }
            if v.next_id + ws.len() <= i64::MAX {
                assert forall|i: int| 0 <= i < ids2.len() implies after.pending.contains_key(
                    #[trigger] ids2[i],
                ) && after.pending[ids2[i]] == ws[i] by {
                    if i < ids.len() {
                        assert(ids2[i] == ids[i]);
                        assert(ws.drop_last()[i] == ws[i]);
                    }
                }
            }
        }
    }
}

} // verus!
