//! The acknowledgement registry of one session.
//!
//! The registry knows which ack ids wait for a reply and until when. Who waits
//! is the caller's business: every operation says which waiters are to be
//! completed, and with what, and the registry forgets an id the moment it has
//! said so. An id is therefore completed at most once.

use vstd::prelude::*;

verus! {

/// Why a waiter gets no reply.
#[derive(Clone, Copy, Debug, PartialEq, Eq, Structural)]
pub enum AckError {
    /// No reply came before the deadline.
    Timeout,
    /// The session closed first.
    Closed,
}

/// An ack id that waits for a reply, and the time at which it stops waiting.
#[derive(Clone, Copy, Debug, PartialEq, Eq, Structural)]
pub struct PendingAck {
    pub id: u64,
    pub deadline: u64,
}

/// What a caller holds for an ack it registered.
#[derive(Clone, Copy, Debug, PartialEq, Eq, Structural)]
pub struct AckHandle {
    pub id: u64,
}

/// The waiter of `id` is to be completed with `error`.
#[derive(Clone, Copy, Debug, PartialEq, Eq, Structural)]
pub struct AckFailure {
    pub id: u64,
    pub error: AckError,
}

/// The ids of `s` grow strictly from front to back.
pub open spec fn increasing(s: Seq<PendingAck>) -> bool {
    forall|i: int, j: int| 0 <= i < j < s.len() ==> s[i].id < s[j].id
}

/// Some entry of `s` has the id `id`.
pub open spec fn has_id(s: Seq<PendingAck>, id: u64) -> bool {
    exists|i: int| 0 <= i < s.len() && s[i].id == id
}

/// Holds of the entries whose id is not `id`.
pub open spec fn other_than(id: u64) -> spec_fn(PendingAck) -> bool {
    |p: PendingAck| p.id != id
}

/// Holds of the entries whose deadline has come at `now`.
pub open spec fn due_at(now: u64) -> spec_fn(PendingAck) -> bool {
    |p: PendingAck| p.deadline <= now
}

/// Holds of the entries whose deadline lies after `now`.
pub open spec fn live_at(now: u64) -> spec_fn(PendingAck) -> bool {
    |p: PendingAck| p.deadline > now
}

/// One failure with `error` for each entry of `s`, in the same order.
pub open spec fn failures(s: Seq<PendingAck>, error: AckError) -> Seq<AckFailure> {
    Seq::new(s.len(), |i: int| AckFailure { id: s[i].id, error })
}

/// Filtering a prefix that is one entry longer keeps or drops that entry.
pub proof fn lemma_filter_take_step<A>(s: Seq<A>, i: int, pred: spec_fn(A) -> bool)
    requires
        0 <= i < s.len(),
    ensures
        s.take(i + 1).filter(pred) == if pred(s[i]) {
            s.take(i).filter(pred).push(s[i])
        } else {
            s.take(i).filter(pred)
        },
{
    reveal(Seq::filter);
    assert(s.take(i + 1).drop_last() =~= s.take(i));
}

/// A filter that every entry passes changes nothing.
pub proof fn lemma_filter_all(s: Seq<PendingAck>, pred: spec_fn(PendingAck) -> bool)
    requires
        forall|i: int| 0 <= i < s.len() ==> pred(s[i]),
    ensures
        s.filter(pred) == s,
    decreases s.len(),
{
    reveal(Seq::filter);
    if s.len() > 0 {
        lemma_filter_all(s.drop_last(), pred);
        assert(s.drop_last().push(s.last()) =~= s);
    }
}

/// Where ids are distinct, dropping the entries with one id removes one entry.
pub proof fn lemma_filter_removes(s: Seq<PendingAck>, at: int)
    requires
        increasing(s),
        0 <= at < s.len(),
    ensures
        s.filter(other_than(s[at].id)) == s.remove(at),
    decreases s.len(),
{
    reveal(Seq::filter);
    let pred = other_than(s[at].id);
    if at == s.len() - 1 {
        lemma_filter_all(s.drop_last(), pred);
        assert(s.drop_last() =~= s.remove(at));
    } else {
        lemma_filter_removes(s.drop_last(), at);
        assert(s.drop_last().remove(at).push(s.last()) =~= s.remove(at));
    }
}

/// The ack ids of one session that wait for a reply.
pub struct AckRegistry {
    pending: Vec<PendingAck>,
    next_id: u64,
}

impl AckRegistry {
    /// The waiting entries, oldest first.
    pub closed spec fn pending(&self) -> Seq<PendingAck> {
        self.pending@
    }

    /// The least id that can still be registered.
    pub closed spec fn next_id(&self) -> u64 {
        self.next_id
    }

    /// Ids are distinct, grow with the order of registration, and lie below
    /// [`Self::next_id`].
    pub open spec fn wf(&self) -> bool {
        &&& increasing(self.pending())
        &&& forall|i: int| 0 <= i < self.pending().len() ==> self.pending()[i].id < self.next_id()
    }

    /// The id `id` waits for a reply.
    pub open spec fn is_pending(&self, id: u64) -> bool {
        has_id(self.pending(), id)
    }

    /// A registry in which nothing waits.
    pub fn new() -> (r: Self)
        ensures
            r.wf(),
            r.pending() == Seq::<PendingAck>::empty(),
            r.next_id() == 0,
    {
        AckRegistry { pending: Vec::new(), next_id: 0 }
    }

    /// The number of ids that wait.
    pub fn len(&self) -> (n: usize)
        ensures
            n == self.pending().len(),
    {
        self.pending.len()
    }

    /// The least id that [`Self::register_pending`] accepts.
    pub fn next(&self) -> (id: u64)
        ensures
            id == self.next_id(),
    {
        self.next_id
    }

    /// Whether `id` waits for a reply.
    pub fn contains(&self, id: u64) -> (found: bool)
        ensures
            found == self.is_pending(id),
    {
        self.position(id).is_some()
    }

    fn position(&self, id: u64) -> (r: Option<usize>)
        ensures
            match r {
                Some(at) => at < self.pending().len() && self.pending()[at as int].id == id,
                None => !self.is_pending(id),
            },
    {
        let mut i: usize = 0;
        while i < self.pending.len()
            invariant
                i <= self.pending.len(),
                forall|k: int| 0 <= k < i ==> self.pending@[k].id != id,
            decreases self.pending.len() - i,
        {
            if self.pending[i].id == id {
                return Some(i);
            }
            i += 1;
        }
        None
    }

    /// Makes `id` wait for a reply until `deadline`.
    ///
    /// Ids must grow: an id below [`Self::next_id`] is refused, and so is the
    /// largest `u64`, after which no id could follow.
    pub fn register_pending(&mut self, id: u64, deadline: u64) -> (r: Option<AckHandle>)
        requires
            old(self).wf(),
        ensures
            final(self).wf(),
            if old(self).next_id() <= id < u64::MAX {
                &&& r == Some(AckHandle { id })
                &&& final(self).pending() == old(self).pending().push(PendingAck { id, deadline })
                &&& final(self).next_id() == id + 1
                &&& final(self).is_pending(id)
            } else {
                &&& r is None
                &&& final(self).pending() == old(self).pending()
                &&& final(self).next_id() == old(self).next_id()
            },
    {
        if id < self.next_id || id == u64::MAX {
            return None;
        }
        self.pending.push(PendingAck { id, deadline });
        self.next_id = id + 1;
        assert(self.pending@[self.pending@.len() - 1].id == id);
        Some(AckHandle { id })
    }

    /// Takes the reply `value` for `id`.
    ///
    /// Where `id` waits, it stops waiting and the value comes back for its
    /// waiter. Where it does not wait (never registered, replied to before,
    /// timed out or cancelled), nothing changes and the value is dropped.
    pub fn resolve<V>(&mut self, id: u64, value: V) -> (r: Option<V>)
        requires
            old(self).wf(),
        ensures
            final(self).wf(),
            final(self).next_id() == old(self).next_id(),
            final(self).pending() == old(self).pending().filter(other_than(id)),
            r == if old(self).is_pending(id) {
                Some(value)
            } else {
                None
            },
            !final(self).is_pending(id),
    {
        match self.position(id) {
            Some(at) => {
                proof {
                    lemma_filter_removes(self.pending@, at as int);
                }
                self.pending.remove(at);
                Some(value)
            },
            None => {
                proof {
                    lemma_filter_all(self.pending@, other_than(id));
                }
                None
            },
        }
    }

    /// Fails with a timeout every id whose deadline has come at `now`.
    ///
    /// Those ids stop waiting; the others wait on.
    pub fn expire(&mut self, now: u64) -> (failed: Vec<AckFailure>)
        requires
            old(self).wf(),
        ensures
            final(self).wf(),
            final(self).next_id() == old(self).next_id(),
            final(self).pending() == old(self).pending().filter(live_at(now)),
            failed@ == failures(old(self).pending().filter(due_at(now)), AckError::Timeout),
    {
        let mut kept: Vec<PendingAck> = Vec::new();
        let mut failed: Vec<AckFailure> = Vec::new();
        let ghost all = self.pending@;
        let mut i: usize = 0;
        while i < self.pending.len()
            invariant
                i <= self.pending.len(),
                self.pending@ == all,
                self.wf(),
                kept@ == all.take(i as int).filter(live_at(now)),
                failed@ == failures(all.take(i as int).filter(due_at(now)), AckError::Timeout),
                increasing(kept@),
                forall|k: int, j: int|
                    0 <= k < kept@.len() && i <= j < all.len() ==> kept@[k].id < all[j].id,
                forall|k: int| 0 <= k < kept@.len() ==> kept@[k].id < self.next_id(),
            decreases self.pending.len() - i,
        {
            let entry = self.pending[i];
            proof {
                lemma_filter_take_step(all, i as int, live_at(now));
                lemma_filter_take_step(all, i as int, due_at(now));
            }
            if entry.deadline <= now {
                failed.push(AckFailure { id: entry.id, error: AckError::Timeout });
                assert(failed@ =~= failures(
                    all.take(i + 1).filter(due_at(now)),
                    AckError::Timeout,
                ));
            } else {
                kept.push(entry);
            }
            i += 1;
        }
        assert(all.take(i as int) =~= all);
        self.pending = kept;
        failed
    }

    /// Fails every waiting id with `reason`. Nothing waits afterwards.
    pub fn cancel_all(&mut self, reason: AckError) -> (failed: Vec<AckFailure>)
        requires
            old(self).wf(),
        ensures
            final(self).wf(),
            final(self).next_id() == old(self).next_id(),
            final(self).pending() == Seq::<PendingAck>::empty(),
            failed@ == failures(old(self).pending(), reason),
    {
        let mut failed: Vec<AckFailure> = Vec::new();
        let mut i: usize = 0;
        while i < self.pending.len()
            invariant
                i <= self.pending.len(),
                self.pending@ == old(self).pending@,
                self.next_id == old(self).next_id,
                failed@ == failures(self.pending@.take(i as int), reason),
            decreases self.pending.len() - i,
        {
            failed.push(AckFailure { id: self.pending[i].id, error: reason });
            assert(failed@ =~= failures(self.pending@.take(i + 1), reason));
            i += 1;
        }
        assert(self.pending@.take(i as int) =~= self.pending@);
        self.pending = Vec::new();
        failed
    }
}

/// A reply is taken once: after one reply for `id`, a second one finds
/// nothing waiting and leaves the waiting entries as they are.
pub proof fn lemma_resolve_once(pending: Seq<PendingAck>, id: u64)
    requires
        increasing(pending),
    ensures
        !has_id(pending.filter(other_than(id)), id),
        pending.filter(other_than(id)).filter(other_than(id)) == pending.filter(other_than(id)),
{
    let once = pending.filter(other_than(id));
    assert forall|i: int| 0 <= i < once.len() implies other_than(id)(once[i]) by {
        pending.lemma_filter_pred(other_than(id), i);
    }
    lemma_filter_all(once, other_than(id));
}

} // verus!
