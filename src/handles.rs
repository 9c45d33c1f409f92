//! Handles to an operator's inputs and outputs.

use vstd::prelude::*;
use crate::order::Timestamp;
use crate::change_batch::{ChangeBatch, ProgressError, fits};
use crate::antichain::MutableAntichain;
use crate::capability::{CapabilityTrait, CapabilityError, InputCapability};
use crate::channels::{Message, msg_view, queue_view, copy_records};

verus! {

/// The number of records in `q` at timestamp `t`.
pub open spec fn records_at<T, D>(q: Seq<(T, Seq<D>)>, t: T) -> int
    decreases q.len(),
{
    if q.len() == 0 {
        0
    } else {
        records_at(q.drop_last(), t) + if q.last().0 == t { q.last().1.len() as int } else { 0 }
    }
}

/// Messages received by an input, and the records taken from them at each timestamp.
pub struct PullCounter<T, D> {
    queue: Vec<Message<T, D>>,
    cursor: usize,
    consumed: ChangeBatch<T>,
}

impl<T: Timestamp, D: Copy> PullCounter<T, D> {
    /// The messages received and not yet taken, in order.
    pub closed spec fn pending_view(&self) -> Seq<(T, Seq<D>)> {
        queue_view(self.queue@).subrange(self.cursor as int, self.queue@.len() as int)
    }

    /// The records taken at `t` since the counts were last taken.
    pub closed spec fn consumed_count(&self, t: T) -> int {
        self.consumed.count(t)
    }

    pub closed spec fn wf(&self) -> bool {
        self.cursor <= self.queue@.len() && self.consumed.wf()
    }

    /// Whether the next message can be taken: there is one, and its count fits.
    pub open spec fn can_take(&self) -> bool {
        self.pending_view().len() > 0
            && self.pending_view()[0].1.len() <= i64::MAX
            && fits(self.consumed_count(self.pending_view()[0].0) + self.pending_view()[0].1.len())
    }

    /// A counter with no messages.
    pub fn new() -> (r: PullCounter<T, D>)
        ensures
            r.wf(),
            r.pending_view().len() == 0,
            forall|t: T| #[trigger] r.consumed_count(t) == 0,
    {
        PullCounter { queue: Vec::new(), cursor: 0, consumed: ChangeBatch::new() }
    }

    /// Appends received messages.
    pub fn receive(&mut self, messages: Vec<Message<T, D>>)
        requires
            old(self).wf(),
        ensures
            final(self).wf(),
            final(self).pending_view() == old(self).pending_view() + queue_view(messages@),
            forall|t: T| #[trigger] final(self).consumed_count(t) == old(self).consumed_count(t),
    {
        let ghost m0 = messages@;
        let mut incoming = messages;
        self.queue.append(&mut incoming);
        assert(queue_view(self.queue@) =~= queue_view(old(self).queue@) + queue_view(m0));
        assert(self.pending_view() =~= old(self).pending_view() + queue_view(m0));
    }

    /// Takes the next message, counting its records as consumed. Gives
    /// nothing, and changes nothing, where no message is pending or its count
    /// would not fit.
    pub fn next(&mut self) -> (r: Option<Message<T, D>>)
        requires
            old(self).wf(),
        ensures
            final(self).wf(),
            r is Some <==> old(self).can_take(),
            r is None ==> *final(self) == *old(self),
            r matches Some(m) ==> msg_view(m) == old(self).pending_view()[0]
                && final(self).pending_view() == old(self).pending_view().drop_first()
                && forall|t: T| #[trigger] final(self).consumed_count(t) == old(self).consumed_count(t)
                    + if t == m.time { m.data@.len() as int } else { 0 },
    {
        if self.cursor >= self.queue.len() {
            return None;
        }
        let m = self.queue[self.cursor].copy();
        let n = m.data.len();
        proof {
            assert(msg_view(self.queue@[self.cursor as int]) == self.pending_view()[0]);
        }
        if n as u64 > i64::MAX as u64 {
            return None;
        }
        match self.consumed.try_update(m.time, n as i64) {
            Ok(()) => {
                self.cursor = self.cursor + 1;
                assert(self.pending_view() =~= old(self).pending_view().drop_first());
                Some(m)
            },
            Err(_) => None,
        }
    }

    /// Hands out the consumed counts, leaving them zero.
    pub fn take_consumed(&mut self) -> (r: ChangeBatch<T>)
        requires
            old(self).wf(),
        ensures
            final(self).wf(),
            r.wf(),
            final(self).pending_view() == old(self).pending_view(),
            forall|t: T| #[trigger] r.count(t) == old(self).consumed_count(t),
            forall|t: T| #[trigger] final(self).consumed_count(t) == 0,
    {
        let mut r = ChangeBatch::new();
        std::mem::swap(&mut r, &mut self.consumed);
        r
    }
}

/// One call of `logic`: from `before`, with the batch `batch` and its
/// capability (for the batch's timestamp, on `ports`), giving `after`.
pub open spec fn batch_call<T: Timestamp, D: Copy, A, F: Fn(A, InputCapability<T>, Vec<D>) -> A>(
    logic: F, batch: (T, Seq<D>), ports: Seq<usize>, before: A, cap: InputCapability<T>, data: Vec<D>, after: A,
) -> bool {
    &&& cap.time_view() == batch.0
    &&& cap.ports_view() == ports
    &&& data@ == batch.1
    &&& logic.ensures((before, cap, data), after)
}

/// `logic` was called on the first `k` pending batches of `before`, in order,
/// threading `init` through to `r`; those batches were counted as consumed,
/// and the rest stay pending. Where batches remain, the next one could not be
/// counted without overflowing.
pub open spec fn fold_taken<T: Timestamp, D: Copy, A, F: Fn(A, InputCapability<T>, Vec<D>) -> A>(
    logic: F, init: A, r: A, before: PullCounter<T, D>, after: PullCounter<T, D>, ports: Seq<usize>,
    k: int, accs: Seq<A>, caps: Seq<InputCapability<T>>, datas: Seq<Vec<D>>,
) -> bool {
    let pend = before.pending_view();
    &&& 0 <= k <= pend.len()
    &&& accs.len() == k + 1 && caps.len() == k && datas.len() == k
    &&& accs[0] == init
    &&& accs[k] == r
    &&& forall|i: int| 0 <= i < k ==> batch_call(logic, pend[i], ports, accs[i], #[trigger] caps[i], datas[i], accs[i + 1])
    &&& after.pending_view() == pend.subrange(k, pend.len() as int)
    &&& forall|t: T| #[trigger] after.consumed_count(t) == before.consumed_count(t) + records_at(pend.take(k), t)
    &&& k < pend.len() ==> (pend[k].1.len() > i64::MAX
        || !fits(before.consumed_count(pend[k].0) + records_at(pend.take(k), pend[k].0) + pend[k].1.len()))
}

/// Handle to an operator's input: the messages it receives, each handed out
/// with a capability for the output ports in `ports`, those the input reaches.
pub struct InputHandleCore<T, D> {
    pull_counter: PullCounter<T, D>,
    ports: Vec<usize>,
}

impl<T: Timestamp, D: Copy> InputHandleCore<T, D> {
    pub closed spec fn counter(&self) -> PullCounter<T, D> {
        self.pull_counter
    }

    /// The output ports that the handed-out capabilities authorise.
    pub closed spec fn ports_view(&self) -> Seq<usize> {
        self.ports@
    }

    pub open spec fn wf(&self) -> bool {
        self.counter().wf()
    }

    /// Appends received messages.
    pub fn receive(&mut self, messages: Vec<Message<T, D>>)
        requires
            old(self).wf(),
        ensures
            final(self).wf(),
            final(self).ports_view() == old(self).ports_view(),
            final(self).counter().pending_view() == old(self).counter().pending_view() + queue_view(messages@),
            forall|t: T| #[trigger] final(self).counter().consumed_count(t) == old(self).counter().consumed_count(t),
    {
        self.pull_counter.receive(messages);
    }

    /// The next batch of input, with a capability for its timestamp. `None`
    /// where no batch is pending (or its count would not fit).
    pub fn next(&mut self) -> (r: Option<(InputCapability<T>, Vec<D>)>)
        requires
            old(self).wf(),
        ensures
            final(self).wf(),
            final(self).ports_view() == old(self).ports_view(),
            r is Some <==> old(self).counter().can_take(),
            r is None ==> *final(self) == *old(self),
            r matches Some((c, d)) ==> (c.time_view(), d@) == old(self).counter().pending_view()[0]
                && c.ports_view() == old(self).ports_view()
                && final(self).counter().pending_view() == old(self).counter().pending_view().drop_first()
                && forall|t: T| #[trigger] final(self).counter().consumed_count(t) == old(self).counter().consumed_count(t)
                    + if t == c.time_view() { d@.len() as int } else { 0 },
    {
        match self.pull_counter.next() {
            Some(m) => {
                let cap = InputCapability::new(m.time, copy_records(&self.ports));
                Some((cap, m.data))
            },
            None => None,
        }
    }

    /// Hands out the consumed counts, leaving them zero.
    pub fn take_consumed(&mut self) -> (r: ChangeBatch<T>)
        requires
            old(self).wf(),
        ensures
            final(self).wf(),
            r.wf(),
            final(self).ports_view() == old(self).ports_view(),
            final(self).counter().pending_view() == old(self).counter().pending_view(),
            forall|t: T| #[trigger] r.count(t) == old(self).counter().consumed_count(t),
            forall|t: T| #[trigger] final(self).counter().consumed_count(t) == 0,
    {
        self.pull_counter.take_consumed()
    }

    /// Hands each pending batch in turn, with its capability, to `logic`,
    /// threading `init` through the calls; returns the last value. Stops when
    /// no batch can be taken; never waits.
    pub fn for_each<A, F: Fn(A, InputCapability<T>, Vec<D>) -> A>(&mut self, init: A, logic: F) -> (r: A)
        requires
            old(self).wf(),
            forall|a: A, c: InputCapability<T>, d: Vec<D>| #[trigger] logic.requires((a, c, d)),
        ensures
            final(self).wf(),
            final(self).ports_view() == old(self).ports_view(),
            !final(self).counter().can_take(),
            exists|k: int, accs: Seq<A>, caps: Seq<InputCapability<T>>, datas: Seq<Vec<D>>|
                #[trigger] fold_taken(logic, init, r, old(self).counter(), final(self).counter(),
                    old(self).ports_view(), k, accs, caps, datas),
    {
        let ghost pend = self.counter().pending_view();
        let ghost c0 = self.counter();
        let ghost ports = self.ports_view();
        let ghost k: int = 0;
        let ghost mut accs: Seq<A> = seq![init];
        let ghost mut caps: Seq<InputCapability<T>> = Seq::empty();
        let ghost mut datas: Seq<Vec<D>> = Seq::empty();
        let mut acc = init;
        assert(pend.subrange(0, pend.len() as int) =~= pend);
        loop
            invariant
                self.wf(),
                self.ports_view() == ports,
                c0 == old(self).counter(),
                pend == c0.pending_view(),
                forall|a: A, c: InputCapability<T>, d: Vec<D>| #[trigger] logic.requires((a, c, d)),
                0 <= k <= pend.len(),
                self.counter().pending_view() == pend.subrange(k, pend.len() as int),
                forall|t: T| #[trigger] self.counter().consumed_count(t) == c0.consumed_count(t)
                    + records_at(pend.take(k), t),
                accs.len() == k + 1,
                caps.len() == k,
                datas.len() == k,
                accs[0] == init,
                accs[k] == acc,
                forall|i: int| 0 <= i < k ==> batch_call(logic, pend[i], ports, accs[i], #[trigger] caps[i], datas[i], accs[i + 1]),
            ensures
                self.wf(),
                self.ports_view() == ports,
                !self.counter().can_take(),
                0 <= k <= pend.len(),
                self.counter().pending_view() == pend.subrange(k, pend.len() as int),
                forall|t: T| #[trigger] self.counter().consumed_count(t) == c0.consumed_count(t)
                    + records_at(pend.take(k), t),
                accs.len() == k + 1,
                caps.len() == k,
                datas.len() == k,
                accs[0] == init,
                accs[k] == acc,
                forall|i: int| 0 <= i < k ==> batch_call(logic, pend[i], ports, accs[i], #[trigger] caps[i], datas[i], accs[i + 1]),
            decreases self.counter().pending_view().len(),
        {
            match self.next() {
                Some((cap, data)) => {
                    let ghost a0 = acc;
                    proof {
                        assert(pend.take(k + 1).drop_last() =~= pend.take(k));
                        assert(pend.take(k + 1).last() == pend[k]);
                        assert(pend.subrange(k + 1, pend.len() as int) =~= pend.subrange(k, pend.len() as int).drop_first());
                        caps = caps.push(cap);
                        datas = datas.push(data);
                    }
                    acc = logic(acc, cap, data);
                    proof {
                        accs = accs.push(acc);
                        assert(batch_call(logic, pend[k], ports, accs[k], caps[k], datas[k], accs[k + 1]));
                        k = k + 1;
                    }
                },
                None => {
                    break;
                },
            }
        }
        proof {
            if k < pend.len() {
                assert(self.counter().pending_view()[0] == pend[k]);
            }
            assert(fold_taken(logic, init, acc, c0, self.counter(), ports, k, accs, caps, datas));
        }
        acc
    }
}

/// A handle to `input`'s counter.
pub fn _access_pull_counter<T: Timestamp, D: Copy>(input: &InputHandleCore<T, D>) -> (r: &PullCounter<T, D>)
    ensures
        *r == input.counter(),
{
    &input.pull_counter
}

/// An input handle over `pull_counter`, whose capabilities authorise output on each of `ports`.
pub fn new_input_handle<T: Timestamp, D: Copy>(pull_counter: PullCounter<T, D>, ports: Vec<usize>) -> (r: InputHandleCore<T, D>)
    ensures
        r.counter() == pull_counter,
        r.ports_view() == ports@,
{
    InputHandleCore { pull_counter, ports }
}

/// An input handle together with the frontier of its input.
pub struct FrontieredInputHandleCore<'a, T, D> {
    /// The underlying input handle.
    pub handle: InputHandleCore<T, D>,
    /// The frontier of the input, as progress tracking reports it.
    pub frontier: &'a MutableAntichain<T>,
}

impl<'a, T: Timestamp, D: Copy> FrontieredInputHandleCore<'a, T, D> {
    pub fn new(handle: InputHandleCore<T, D>, frontier: &'a MutableAntichain<T>) -> (r: FrontieredInputHandleCore<'a, T, D>)
        ensures
            r.handle == handle,
            *r.frontier == *frontier,
    {
        FrontieredInputHandleCore { handle, frontier }
    }

    /// The next batch of input, as [`InputHandleCore::next`] gives it.
    pub fn next(&mut self) -> (r: Option<(InputCapability<T>, Vec<D>)>)
        requires
            old(self).handle.wf(),
        ensures
            final(self).handle.wf(),
            final(self).frontier == old(self).frontier,
            final(self).handle.ports_view() == old(self).handle.ports_view(),
            r is Some <==> old(self).handle.counter().can_take(),
            r is None ==> final(self).handle == old(self).handle,
            r matches Some((c, d)) ==> (c.time_view(), d@) == old(self).handle.counter().pending_view()[0]
                && c.ports_view() == old(self).handle.ports_view()
                && final(self).handle.counter().pending_view() == old(self).handle.counter().pending_view().drop_first(),
    {
        self.handle.next()
    }

    /// Hands each pending batch to `logic`, as [`InputHandleCore::for_each`] does.
    pub fn for_each<A, F: Fn(A, InputCapability<T>, Vec<D>) -> A>(&mut self, init: A, logic: F) -> (r: A)
        requires
            old(self).handle.wf(),
            forall|a: A, c: InputCapability<T>, d: Vec<D>| #[trigger] logic.requires((a, c, d)),
        ensures
            final(self).handle.wf(),
            final(self).frontier == old(self).frontier,
            final(self).handle.ports_view() == old(self).handle.ports_view(),
            !final(self).handle.counter().can_take(),
            exists|k: int, accs: Seq<A>, caps: Seq<InputCapability<T>>, datas: Seq<Vec<D>>|
                #[trigger] fold_taken(logic, init, r, old(self).handle.counter(), final(self).handle.counter(),
                    old(self).handle.ports_view(), k, accs, caps, datas),
    {
        self.handle.for_each(init, logic)
    }

    /// The frontier of this input.
    pub fn frontier(&self) -> (r: &'a MutableAntichain<T>)
        ensures
            *r == *self.frontier,
    {
        self.frontier
    }
}

/// The sent messages after the records given at `time`, if any, are closed
/// into a message.
pub open spec fn flushed<T, D>(outbox: Seq<(T, Seq<D>)>, time: Option<T>, pending: Seq<D>) -> Seq<(T, Seq<D>)> {
    match time {
        Some(t) => if pending.len() > 0 { outbox.push((t, pending)) } else { outbox },
        None => outbox,
    }
}

/// Handle to an operator's output port: records given in a session at a
/// timestamp are batched into messages, and counted as produced.
pub struct OutputHandleCore<T, D> {
    port: usize,
    time: Option<T>,
    pending: Vec<D>,
    outbox: Vec<Message<T, D>>,
    produced: ChangeBatch<T>,
}

impl<T: Timestamp, D: Copy> OutputHandleCore<T, D> {
    /// The port whose capabilities may open sessions here.
    pub closed spec fn port_view(&self) -> usize {
        self.port
    }

    /// The timestamp of the open session, if any.
    pub closed spec fn time_view(&self) -> Option<T> {
        self.time
    }

    /// Records given in the open session and not yet closed into a message.
    pub closed spec fn pending_view(&self) -> Seq<D> {
        self.pending@
    }

    /// Messages closed and not yet sent.
    pub closed spec fn outbox_view(&self) -> Seq<(T, Seq<D>)> {
        queue_view(self.outbox@)
    }

    /// Records produced at `t` since the counts were last taken.
    pub closed spec fn produced_count(&self, t: T) -> int {
        self.produced.count(t)
    }

    pub closed spec fn wf(&self) -> bool {
        self.produced.wf()
    }

    /// An output handle for `port`, with no session open.
    pub fn new(port: usize) -> (r: OutputHandleCore<T, D>)
        ensures
            r.wf(),
            r.port_view() == port,
            r.time_view() is None,
            r.pending_view().len() == 0,
            r.outbox_view().len() == 0,
            forall|t: T| #[trigger] r.produced_count(t) == 0,
    {
        OutputHandleCore { port, time: None, pending: Vec::new(), outbox: Vec::new(), produced: ChangeBatch::new() }
    }

    fn flush(&mut self)
        ensures
            final(self).port_view() == old(self).port_view(),
            final(self).time_view() == old(self).time_view(),
            final(self).pending_view().len() == 0,
            final(self).outbox_view() == flushed(old(self).outbox_view(), old(self).time_view(), old(self).pending_view()),
            final(self).produced == old(self).produced,
    {
        match self.time {
            Some(t) => {
                if self.pending.len() > 0 {
                    let mut data: Vec<D> = Vec::new();
                    std::mem::swap(&mut data, &mut self.pending);
                    let m = Message::new(t, data);
                    self.outbox.push(m);
                    assert(self.outbox_view() =~= old(self).outbox_view().push((t, old(self).pending_view())));
                }
            },
            None => {
                self.pending.clear();
            },
        }
    }

    /// Opens a session at the timestamp of `cap`, closing the records of any
    /// earlier session into a message. Refused, with nothing changed, where
    /// `cap` belongs to another port.
    pub fn try_session<C: CapabilityTrait<T>>(&mut self, cap: &C) -> (r: Result<(), CapabilityError>)
        requires
            old(self).wf(),
        ensures
            final(self).wf(),
            r is Ok <==> cap.valid_for(old(self).port_view()),
            r is Err ==> *final(self) == *old(self),
            r is Ok ==> final(self).time_view() == Some(cap.time_view())
                && final(self).pending_view().len() == 0
                && final(self).outbox_view() == flushed(old(self).outbox_view(), old(self).time_view(), old(self).pending_view())
                && final(self).port_view() == old(self).port_view()
                && forall|t: T| #[trigger] final(self).produced_count(t) == old(self).produced_count(t),
    {
        if !cap.valid_for_output(self.port) {
            return Err(CapabilityError::InvalidCapability);
        }
        self.flush();
        self.time = Some(*cap.time());
        Ok(())
    }

    /// Opens a session at the timestamp of `cap`, which must belong to this
    /// output's port, closing the records of any earlier session into a
    /// message.
    pub fn session_with_builder<C: CapabilityTrait<T>>(&mut self, cap: &C)
        requires
            old(self).wf(),
            cap.valid_for(old(self).port_view()),
        ensures
            final(self).wf(),
            final(self).time_view() == Some(cap.time_view()),
            final(self).pending_view().len() == 0,
            final(self).outbox_view() == flushed(old(self).outbox_view(), old(self).time_view(), old(self).pending_view()),
            final(self).port_view() == old(self).port_view(),
            forall|t: T| #[trigger] final(self).produced_count(t) == old(self).produced_count(t),
    {
        let r = self.try_session(cap);
        assert(r is Ok);
    }

    /// Opens a session at the timestamp of `cap`, as
    /// [`OutputHandleCore::session_with_builder`] does.
    pub fn session<C: CapabilityTrait<T>>(&mut self, cap: &C)
        requires
            old(self).wf(),
            cap.valid_for(old(self).port_view()),
        ensures
            final(self).wf(),
            final(self).time_view() == Some(cap.time_view()),
            final(self).pending_view().len() == 0,
            final(self).outbox_view() == flushed(old(self).outbox_view(), old(self).time_view(), old(self).pending_view()),
            final(self).port_view() == old(self).port_view(),
            forall|t: T| #[trigger] final(self).produced_count(t) == old(self).produced_count(t),
    {
        self.session_with_builder(cap)
    }

    /// Gives one record to the open session, counting it as produced.
    /// Refused, with nothing changed, where the count would not fit.
    pub fn give(&mut self, record: D) -> (r: Result<(), ProgressError>)
        requires
            old(self).wf(),
            old(self).time_view() is Some,
        ensures
            final(self).wf(),
            r is Ok <==> fits(old(self).produced_count(old(self).time_view()->0) + 1),
            r is Err ==> *final(self) == *old(self),
            r is Ok ==> final(self).pending_view() == old(self).pending_view().push(record)
                && final(self).time_view() == old(self).time_view()
                && final(self).outbox_view() == old(self).outbox_view()
                && final(self).port_view() == old(self).port_view()
                && forall|t: T| #[trigger] final(self).produced_count(t) == old(self).produced_count(t)
                    + if Some(t) == old(self).time_view() { 1int } else { 0 },
    {
        let t = match self.time {
            Some(t) => t,
            None => { return Err(ProgressError::CountOverflow); },
        };
        match self.produced.try_update(t, 1) {
            Ok(()) => {
                self.pending.push(record);
                Ok(())
            },
            Err(e) => Err(e),
        }
    }

    /// Moves the records of `data` to the open session, counting them as
    /// produced, and leaves `data` empty. Refused, with nothing changed, where
    /// the count would not fit.
    pub fn give_container(&mut self, data: &mut Vec<D>) -> (r: Result<(), ProgressError>)
        requires
            old(self).wf(),
            old(self).time_view() is Some,
        ensures
            final(self).wf(),
            r is Ok <==> old(data)@.len() <= i64::MAX
                && fits(old(self).produced_count(old(self).time_view()->0) + old(data)@.len()),
            r is Err ==> *final(self) == *old(self) && *final(data) == *old(data),
            r is Ok ==> final(self).pending_view() == old(self).pending_view() + old(data)@
                && final(data)@.len() == 0
                && final(self).time_view() == old(self).time_view()
                && final(self).outbox_view() == old(self).outbox_view()
                && final(self).port_view() == old(self).port_view()
                && forall|t: T| #[trigger] final(self).produced_count(t) == old(self).produced_count(t)
                    + if Some(t) == old(self).time_view() { old(data)@.len() as int } else { 0 },
    {
        let t = match self.time {
            Some(t) => t,
            None => { return Err(ProgressError::CountOverflow); },
        };
        let n = data.len();
        if n as u64 > i64::MAX as u64 {
            return Err(ProgressError::CountOverflow);
        }
        match self.produced.try_update(t, n as i64) {
            Ok(()) => {
                self.pending.append(data);
                Ok(())
            },
            Err(e) => Err(e),
        }
    }

    /// Closes the open session, if any: its records become a message, and no
    /// session stays open.
    pub fn cease(&mut self)
        requires
            old(self).wf(),
        ensures
            final(self).wf(),
            final(self).time_view() is None,
            final(self).pending_view().len() == 0,
            final(self).outbox_view() == flushed(old(self).outbox_view(), old(self).time_view(), old(self).pending_view()),
            final(self).port_view() == old(self).port_view(),
            forall|t: T| #[trigger] final(self).produced_count(t) == old(self).produced_count(t),
    {
        self.flush();
        self.time = None;
    }

    /// Hands out the closed messages, in order, leaving none.
    pub fn take_outbox(&mut self) -> (r: Vec<Message<T, D>>)
        requires
            old(self).wf(),
        ensures
            final(self).wf(),
            queue_view(r@) == old(self).outbox_view(),
            final(self).outbox_view().len() == 0,
            final(self).time_view() == old(self).time_view(),
            final(self).pending_view() == old(self).pending_view(),
            final(self).port_view() == old(self).port_view(),
            forall|t: T| #[trigger] final(self).produced_count(t) == old(self).produced_count(t),
    {
        let mut r: Vec<Message<T, D>> = Vec::new();
        std::mem::swap(&mut r, &mut self.outbox);
        r
    }

    /// Hands out the produced counts, leaving them zero.
    pub fn take_produced(&mut self) -> (r: ChangeBatch<T>)
        requires
            old(self).wf(),
        ensures
            final(self).wf(),
            r.wf(),
            forall|t: T| #[trigger] r.count(t) == old(self).produced_count(t),
            forall|t: T| #[trigger] final(self).produced_count(t) == 0,
            final(self).time_view() == old(self).time_view(),
            final(self).pending_view() == old(self).pending_view(),
            final(self).outbox_view() == old(self).outbox_view(),
            final(self).port_view() == old(self).port_view(),
    {
        let mut r = ChangeBatch::new();
        std::mem::swap(&mut r, &mut self.produced);
        r
    }
}

/// Owner of an output handle, lending it out for the span of one activation.
pub struct OutputWrapper<T, D> {
    handle: OutputHandleCore<T, D>,
}

impl<T: Timestamp, D: Copy> OutputWrapper<T, D> {
    pub closed spec fn handle_view(&self) -> OutputHandleCore<T, D> {
        self.handle
    }

    /// A wrapper around a fresh output handle for `port`.
    pub fn new(port: usize) -> (r: OutputWrapper<T, D>)
        ensures
            r.handle_view().wf(),
            r.handle_view().port_view() == port,
            r.handle_view().time_view() is None,
            r.handle_view().pending_view().len() == 0,
            r.handle_view().outbox_view().len() == 0,
            forall|t: T| #[trigger] r.handle_view().produced_count(t) == 0,
    {
        OutputWrapper { handle: OutputHandleCore::new(port) }
    }

    /// Lends out the output handle.
    pub fn activate(&mut self) -> (r: &mut OutputHandleCore<T, D>)
        ensures
            *r == old(self).handle_view(),
            final(self).handle_view() == *final(r),
    {
        &mut self.handle
    }
}

} // verus!
