//! Timestamped messages and their fan-out to every consumer of a stream.

use vstd::prelude::*;

verus! {

/// A batch of records at one timestamp.
pub struct Message<T, D> {
    pub time: T,
    pub data: Vec<D>,
}

/// A message as a timestamp and a sequence of records.
pub open spec fn msg_view<T, D>(m: Message<T, D>) -> (T, Seq<D>) {
    (m.time, m.data@)
}

/// A copy of `v`.
pub fn copy_records<D: Copy>(v: &Vec<D>) -> (r: Vec<D>)
    ensures
        r@ == v@,
{
    let mut r: Vec<D> = Vec::new();
    let mut i: usize = 0;
    while i < v.len()
        invariant
            i <= v@.len(),
            r@ == v@.subrange(0, i as int),
        decreases v@.len() - i,
    {
        r.push(v[i]);
        i = i + 1;
    }
    assert(r@ =~= v@);
    r
}

impl<T: Copy, D: Copy> Message<T, D> {
    pub fn new(time: T, data: Vec<D>) -> (r: Message<T, D>)
        ensures
            r.time == time,
            r.data@ == data@,
    {
        Message { time, data }
    }

    /// A copy of this message.
    pub fn copy(&self) -> (r: Message<T, D>)
        ensures
            msg_view(r) == msg_view(*self),
    {
        Message { time: self.time, data: copy_records(&self.data) }
    }
}

/// Every destination queue with `m` appended.
pub open spec fn tee_push<M>(queues: Seq<Seq<M>>, m: M) -> Seq<Seq<M>> {
    queues.map_values(|q: Seq<M>| q.push(m))
}

/// The queues after pushing each of `ms` in turn.
pub open spec fn tee_push_all<M>(queues: Seq<Seq<M>>, ms: Seq<M>) -> Seq<Seq<M>>
    decreases ms.len(),
{
    if ms.len() == 0 {
        queues
    } else {
        tee_push(tee_push_all(queues, ms.drop_last()), ms.last())
    }
}

/// Multicast: after any sequence of messages is pushed, every destination
/// holds what it held before followed by all of those messages, unchanged and
/// in order.
pub proof fn lemma_multicast<M>(queues: Seq<Seq<M>>, ms: Seq<M>)
    ensures
        tee_push_all(queues, ms).len() == queues.len(),
        forall|k: int| 0 <= k < queues.len() ==> #[trigger] tee_push_all(queues, ms)[k] == queues[k] + ms,
    decreases ms.len(),
{
    if ms.len() > 0 {
        lemma_multicast(queues, ms.drop_last());
        assert forall|k: int| 0 <= k < queues.len() implies #[trigger] tee_push_all(queues, ms)[k] == queues[k] + ms by {
            assert(queues[k] + ms =~= (queues[k] + ms.drop_last()).push(ms.last()));
        }
    } else {
        assert forall|k: int| 0 <= k < queues.len() implies #[trigger] tee_push_all(queues, ms)[k] == queues[k] + ms by {
            assert(queues[k] + ms =~= queues[k]);
        }
    }
}

/// The messages of a queue, as timestamps and sequences of records.
pub open spec fn queue_view<T, D>(q: Seq<Message<T, D>>) -> Seq<(T, Seq<D>)> {
    q.map_values(|m: Message<T, D>| msg_view(m))
}

/// The registry of a stream's consumers: one queue per destination, each of
/// which receives every message pushed.
pub struct Tee<T, D> {
    queues: Vec<Vec<Message<T, D>>>,
}

impl<T: Copy, D: Copy> Tee<T, D> {
    /// What each destination has received and not yet taken.
    pub closed spec fn view(&self) -> Seq<Seq<(T, Seq<D>)>> {
        self.queues@.map_values(|q: Vec<Message<T, D>>| queue_view(q@))
    }

    /// A registry with no destinations.
    pub fn new() -> (r: Tee<T, D>)
        ensures
            r.view().len() == 0,
    {
        Tee { queues: Vec::new() }
    }

    /// The number of destinations.
    pub fn destinations(&self) -> (r: usize)
        ensures
            r == self.view().len(),
    {
        self.queues.len()
    }

    /// Adds a destination, with nothing received yet; returns its index.
    pub fn add_pusher(&mut self) -> (r: usize)
        ensures
            r == old(self).view().len(),
            final(self).view() == old(self).view().push(Seq::empty()),
    {
        let r = self.queues.len();
        self.queues.push(Vec::new());
        assert(queue_view(self.queues@[r as int]@) =~= Seq::<(T, Seq<D>)>::empty());
        assert(self.view() =~= old(self).view().push(Seq::empty()));
        r
    }

    /// Hands a copy of `message` to every destination.
    pub fn push(&mut self, message: &Message<T, D>)
        ensures
            final(self).view() == tee_push(old(self).view(), msg_view(*message)),
    {
        let ghost v0 = self.view();
        let n = self.queues.len();
        let mut k: usize = 0;
        while k < n
            invariant
                n == self.queues@.len(),
                n == v0.len(),
                k <= n,
                forall|j: int| 0 <= j < k ==> #[trigger] self.view()[j] == v0[j].push(msg_view(*message)),
                forall|j: int| k <= j < n ==> #[trigger] self.view()[j] == v0[j],
            decreases n - k,
        {
            let ghost before = self.queues@;
            let ghost vb = self.view();
            let mut q = self.queues.remove(k);
            let ghost q0 = q@;
            let c = message.copy();
            q.push(c);
            assert(queue_view(q@) =~= queue_view(q0).push(msg_view(*message)));
            self.queues.insert(k, q);
            proof {
                assert(self.queues@ =~= before.update(k as int, q));
                assert(self.view()[k as int] == queue_view(q@));
                assert(vb[k as int] == queue_view(before[k as int]@));
                assert(self.view()[k as int] == v0[k as int].push(msg_view(*message)));
                assert forall|j: int| 0 <= j < n && j != k implies #[trigger] self.view()[j] == vb[j] by {
                    assert(self.queues@[j] == before[j]);
                }
            }
            k = k + 1;
        }
        assert(self.view() =~= tee_push(v0, msg_view(*message)));
    }

    /// Takes what destination `k` has received, leaving its queue empty.
    pub fn take(&mut self, k: usize) -> (r: Vec<Message<T, D>>)
        requires
            k < old(self).view().len(),
        ensures
            queue_view(r@) == old(self).view()[k as int],
            final(self).view() == old(self).view().update(k as int, Seq::empty()),
    {
        let ghost before = self.queues@;
        let r = self.queues.remove(k);
        let e: Vec<Message<T, D>> = Vec::new();
        assert(queue_view(e@) =~= Seq::<(T, Seq<D>)>::empty());
        self.queues.insert(k, e);
        assert(self.queues@ =~= before.update(k as int, e));
        assert(self.view() =~= old(self).view().update(k as int, Seq::empty()));
        r
    }
}

} // verus!
